//! Filtering file names by a list of regular expressions.

use vstd::prelude::*;
use crate::pattern::{Pattern, PatternError, regex_compiles, regex_finds};
use crate::path::{file_name, spec_file_name};

verus! {

/// Regular expressions run on a file's name.
#[derive(Debug)]
pub struct Regex(pub Vec<Pattern>);

/// Some pattern matches somewhere in `name`.
pub open spec fn some_pattern_finds(patterns: Seq<Pattern>, name: Seq<char>) -> bool {
    exists|j: int| 0 <= j < patterns.len() && regex_finds(#[trigger] patterns[j]@, name)
}

impl Regex {
    /// The single pattern `s`; fails when `regex` refuses it.
    pub fn from_str(s: &str) -> (r: Result<Regex, PatternError>)
        ensures
            r is Ok <==> regex_compiles(s@),
            r matches Ok(re) ==> (re.0@.len() == 1 && re.0@[0]@ == s@),
            r matches Err(e) ==> e.pattern@ == s@,
    {
        let p = Pattern::new(s)?;
        let mut v: Vec<Pattern> = Vec::new();
        v.push(p);
        Ok(Regex(v))
    }

    /// One pattern for each text, in order; fails on the first text that
    /// `regex` refuses.
    pub fn try_from(value: Vec<&str>) -> (r: Result<Regex, PatternError>)
        ensures
            r is Ok <==> forall|i: int| 0 <= i < value@.len() ==> regex_compiles(#[trigger] value@[i]@),
            r matches Ok(re) ==> re.0@.len() == value@.len(),
            r matches Ok(re) ==> forall|i: int| 0 <= i < value@.len() ==> (#[trigger] re.0@[i])@ == value@[i]@,
            r matches Err(e) ==> exists|i: int| 0 <= i < value@.len() && !regex_compiles(#[trigger] value@[i]@)
                && e.pattern@ == value@[i]@
                && forall|j: int| 0 <= j < i ==> regex_compiles(#[trigger] value@[j]@),
    {
        let mut v: Vec<Pattern> = Vec::new();
        let mut i: usize = 0;
        while i < value.len()
            invariant
                i <= value@.len(),
                v@.len() == i,
                forall|k: int| 0 <= k < i ==> regex_compiles(#[trigger] value@[k]@),
                forall|k: int| 0 <= k < i ==> (#[trigger] v@[k])@ == value@[k]@,
            decreases value@.len() - i,
        {
            match Pattern::new(value[i]) {
                Ok(p) => v.push(p),
                Err(e) => {
                    assert(!regex_compiles(value@[i as int]@));
                    return Err(e);
                }
            }
            i = i + 1;
        }
        Ok(Regex(v))
    }

    /// Whether the path has a file name that some pattern matches.
    pub fn matches(&self, path: &str) -> (b: bool)
        ensures
            b == (spec_file_name(path@) matches Some(name) && some_pattern_finds(self.0@, name)),
    {
        match file_name(path) {
            None => false,
            Some(name) => {
                let mut j: usize = 0;
                while j < self.0.len()
                    invariant
                        j <= self.0@.len(),
                        spec_file_name(path@) == Some(name@),
                        forall|m: int| 0 <= m < j ==> !regex_finds(#[trigger] self.0@[m]@, name@),
                    decreases self.0@.len() - j,
                {
                    if self.0[j].is_match(name.as_str()) {
                        return true;
                    }
                    j = j + 1;
                }
                false
            }
        }
    }
}

} // verus!

//! Filtering by file extension.

use vstd::prelude::*;
use crate::path::{extension, spec_extension};
use crate::resource::Resource;
use crate::templates::TemplateEngine;
use crate::text::{split_negation, negated, unnegated, str_eq};
use crate::variables::Variable;

verus! {

/// The extensions a file may have; one written with a leading `!` is one it
/// must not have.
#[derive(Debug, PartialEq, Eq)]
pub struct Extension {
    pub extensions: Vec<String>,
}

/// The verdict of one listed extension on the extension `ext`.
pub open spec fn extension_entry_holds(entry: Seq<char>, ext: Seq<char>) -> bool {
    if negated(entry) { unnegated(entry) != ext } else { entry == ext }
}

/// Whether a path passes: it has a non-empty extension, and the list is
/// empty or some entry lets that extension pass.
pub open spec fn extension_passes(entries: Seq<String>, path: Seq<char>) -> bool {
    match spec_extension(path) {
        None => false,
        Some(ext) => ext.len() > 0 && (entries.len() == 0
            || exists|j: int| 0 <= j < entries.len() && extension_entry_holds(#[trigger] entries[j]@, ext)),
    }
}

impl Extension {
    /// Whether the extension `ext` passes the listed entries.
    pub fn accepts(&self, ext: &str) -> (b: bool)
        ensures
            b == (self.extensions@.len() == 0
                || exists|j: int| 0 <= j < self.extensions@.len() && extension_entry_holds(#[trigger] self.extensions@[j]@, ext@)),
    {
        if self.extensions.len() == 0 {
            return true;
        }
        let mut j: usize = 0;
        while j < self.extensions.len()
            invariant
                j <= self.extensions@.len(),
                forall|m: int| 0 <= m < j ==> !extension_entry_holds(#[trigger] self.extensions@[m]@, ext@),
            decreases self.extensions@.len() - j,
        {
            let (parsed, negate) = split_negation(self.extensions[j].as_str());
            let same = str_eq(parsed.as_str(), ext);
            let holds = if negate { !same } else { same };
            if holds {
                return true;
            }
            j = j + 1;
        }
        false
    }

    /// Whether the resource's path passes.
    pub fn filter(&self, res: &Resource, template_engine: &TemplateEngine, variables: &[Variable]) -> (b: bool)
        ensures
            b == extension_passes(self.extensions@, res.path@),
    {
        match extension(res.path.as_str()) {
            None => false,
            Some(ext) => {
                if ext.unicode_len() == 0 {
                    false
                } else {
                    self.accepts(ext.as_str())
                }
            }
        }
    }
}

/// A file passes an empty list exactly when it has a non-empty extension,
/// and a listed `!ext` turns away files with extension `ext`.
pub proof fn law_extension_lists(entries: Seq<String>, path: Seq<char>)
    ensures
        entries.len() == 0 ==> (extension_passes(entries, path)
            <==> (spec_extension(path) matches Some(x) && x.len() > 0)),
        (entries.len() == 1 && negated(entries[0]@) && spec_extension(path) == Some(unnegated(entries[0]@)))
            ==> !extension_passes(entries, path),
{
}

/// A single entry decides by the extension alone: `!x` lets through every
/// file whose extension is not empty and differs from `x`, and turns away a
/// file with extension `x`; a plain `x` lets through exactly the files with
/// extension `x`.
pub proof fn law_single_entry(entries: Seq<String>, x: Seq<char>, path: Seq<char>, e: Seq<char>)
    requires
        entries.len() == 1,
        spec_extension(path) == Some(e),
        e.len() > 0,
    ensures
        entries[0]@ == seq!['!'] + x ==> (extension_passes(entries, path) <==> e != x),
        (entries[0]@ == x && !negated(x)) ==> (extension_passes(entries, path) <==> e == x),
{
    if entries[0]@ == seq!['!'] + x {
        assert(negated(seq!['!'] + x));
        assert(unnegated(seq!['!'] + x) =~= x);
        if e != x {
            assert(extension_entry_holds(entries[0]@, e));
        }
    }
    if entries[0]@ == x && !negated(x) && e == x {
        assert(extension_entry_holds(entries[0]@, e));
    }
}

} // verus!

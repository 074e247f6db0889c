//! Filtering by regular expressions run on a rendered input.

use vstd::prelude::*;
use crate::pattern::{Pattern, PatternError, regex_compiles, regex_finds};
use crate::resource::Resource;
use crate::templates::{Template, TemplateEngine, RenderError, known_render, path_filename_template};

verus! {

/// A regular expression, whether its verdict is turned round, and the
/// template whose rendering it is run on.
#[derive(Debug)]
pub struct RegularExpression {
    pub pattern: Pattern,
    pub negate: bool,
    pub input: Template,
}

/// Several regular expressions; a file passes when any of them lets it pass.
#[derive(Debug)]
pub struct Regex {
    pub patterns: Vec<RegularExpression>,
}

/// The verdict of a regular expression on an input.
pub open spec fn expression_holds(pattern: Seq<char>, negate: bool, input: Seq<char>) -> bool {
    regex_finds(pattern, input) != negate
}

/// The verdict of `e` on a file with these values, where its input is known.
pub open spec fn verdict(e: RegularExpression, entries: Seq<(String, String)>) -> Option<bool> {
    match known_render(e.input.text@, entries) {
        Some(k) => Some(expression_holds(e.pattern@, e.negate, k)),
        None => None,
    }
}

/// Every expression's input is known for a file with these values.
pub open spec fn all_known(es: Seq<RegularExpression>, entries: Seq<(String, String)>) -> bool {
    forall|j: int| 0 <= j < es.len() ==> (#[trigger] verdict(es[j], entries)) is Some
}

/// Some expression lets a file with these values pass.
pub open spec fn any_holds(es: Seq<RegularExpression>, entries: Seq<(String, String)>) -> bool {
    exists|j: int| 0 <= j < es.len() && #[trigger] verdict(es[j], entries) == Some(true)
}

impl RegularExpression {
    /// The input used when none is given: the file name of the path.
    pub fn default_input() -> (t: Template)
        ensures
            t.text@ == path_filename_template(),
    {
        Template::new("{{path | filename}}")
    }

    /// An expression for `value`, not negated, run on the file name.
    pub fn try_from(value: String) -> (r: Result<RegularExpression, PatternError>)
        ensures
            r is Ok <==> regex_compiles(value@),
            r matches Ok(e) ==> (e.pattern@ == value@ && !e.negate && e.input.text@ == path_filename_template()),
            r matches Err(err) ==> err.pattern@ == value@,
    {
        let pattern = Pattern::new(value.as_str())?;
        Ok(RegularExpression { pattern, negate: false, input: Self::default_input() })
    }

    /// The verdict on an already rendered input.
    pub fn holds_for(&self, input: &str) -> (b: bool)
        ensures
            b == expression_holds(self.pattern@, self.negate, input@),
    {
        let matches = self.pattern.is_match(input);
        if self.negate { !matches } else { matches }
    }

    /// The verdict on each resource, in order. Rendering the input can fail
    /// only where its result is not known here.
    pub fn filter(&self, resources: &[&Resource]) -> (r: Result<Vec<bool>, RenderError>)
        ensures
            (forall|i: int| 0 <= i < resources@.len() ==>
                (#[trigger] verdict(*self, resources@[i].context.entries@)) is Some) ==> r is Ok,
            r matches Ok(v) ==> v@.len() == resources@.len(),
            r matches Ok(v) ==> forall|i: int| 0 <= i < v@.len() ==>
                ((#[trigger] verdict(*self, resources@[i].context.entries@)) matches Some(b) ==> v@[i] == b),
    {
        let engine = TemplateEngine;
        let mut out: Vec<bool> = Vec::new();
        let mut i: usize = 0;
        while i < resources.len()
            invariant
                i <= resources@.len(),
                out@.len() == i,
                forall|k: int| 0 <= k < i ==>
                    ((#[trigger] verdict(*self, resources@[k].context.entries@)) matches Some(b) ==> out@[k] == b),
            decreases resources@.len() - i,
        {
            let res = resources[i];
            proof {
                if known_render(self.input.text@, res.context.entries@) is None {
                    assert(verdict(*self, resources@[i as int].context.entries@) is None);
                }
            }
            let input = engine.render(&self.input, &res.context)?;
            let b = self.holds_for(input.as_str());
            out.push(b);
            i = i + 1;
        }
        Ok(out)
    }
}

impl Regex {
    /// One expression for each pattern text, in order; fails on the first
    /// text that `regex` refuses.
    pub fn try_from(value: Vec<&str>) -> (r: Result<Regex, PatternError>)
        ensures
            r is Ok <==> forall|i: int| 0 <= i < value@.len() ==> regex_compiles(#[trigger] value@[i]@),
            r matches Ok(re) ==> re.patterns@.len() == value@.len(),
            r matches Ok(re) ==> forall|i: int| 0 <= i < value@.len() ==>
                (#[trigger] re.patterns@[i]).pattern@ == value@[i]@ && !re.patterns@[i].negate
                && re.patterns@[i].input.text@ == path_filename_template(),
            r matches Err(e) ==> exists|i: int| 0 <= i < value@.len() && !regex_compiles(#[trigger] value@[i]@)
                && e.pattern@ == value@[i]@
                && forall|j: int| 0 <= j < i ==> regex_compiles(#[trigger] value@[j]@),
    {
        let mut patterns: Vec<RegularExpression> = Vec::new();
        let mut i: usize = 0;
        while i < value.len()
            invariant
                i <= value@.len(),
                patterns@.len() == i,
                forall|k: int| 0 <= k < i ==> regex_compiles(#[trigger] value@[k]@),
                forall|k: int| 0 <= k < i ==>
                    (#[trigger] patterns@[k]).pattern@ == value@[k]@ && !patterns@[k].negate
                    && patterns@[k].input.text@ == path_filename_template(),
            decreases value@.len() - i,
        {
            let s = value[i];
            match Pattern::new(s) {
                Ok(pattern) => {
                    patterns.push(RegularExpression { pattern, negate: false, input: RegularExpression::default_input() });
                }
                Err(e) => {
                    assert(!regex_compiles(value@[i as int]@));
                    return Err(e);
                }
            }
            i = i + 1;
        }
        Ok(Regex { patterns })
    }

    /// For each resource, whether any expression lets it pass.
    pub fn filter(&self, resources: &[&Resource]) -> (r: Result<Vec<bool>, RenderError>)
        ensures
            (forall|i: int| 0 <= i < resources@.len() ==>
                all_known(self.patterns@, (#[trigger] resources@[i]).context.entries@)) ==> r is Ok,
            r matches Ok(v) ==> v@.len() == resources@.len(),
            r matches Ok(v) ==> forall|i: int| 0 <= i < v@.len() ==>
                all_known(self.patterns@, (#[trigger] resources@[i]).context.entries@)
                ==> v@[i] == any_holds(self.patterns@, resources@[i].context.entries@),
    {
        let mut out: Vec<bool> = Vec::new();
        let mut i: usize = 0;
        while i < resources.len()
            invariant
                i <= resources@.len(),
                out@.len() == i,
                forall|k: int| 0 <= k < i ==>
                    all_known(self.patterns@, (#[trigger] resources@[k]).context.entries@)
                    ==> out@[k] == any_holds(self.patterns@, resources@[k].context.entries@),
            decreases resources@.len() - i,
        {
            let res = resources[i];
            let ghost entries = res.context.entries@;
            let mut any = false;
            let mut j: usize = 0;
            while j < self.patterns.len()
                invariant
                    j <= self.patterns@.len(),
                    i < resources@.len(),
                    res == resources@[i as int],
                    entries == res.context.entries@,
                    (forall|m: int| 0 <= m < j ==> (#[trigger] verdict(self.patterns@[m], entries)) is Some) ==>
                        (any <==> exists|m: int| 0 <= m < j && #[trigger] verdict(self.patterns@[m], entries) == Some(true)),
                decreases self.patterns@.len() - j,
            {
                let e = &self.patterns[j];
                proof {
                    if known_render(e.input.text@, entries) is None {
                        assert(verdict(self.patterns@[j as int], entries) is None);
                        assert(!all_known(self.patterns@, resources@[i as int].context.entries@));
                    }
                }
                let input = TemplateEngine.render(&e.input, &res.context)?;
                let b = e.holds_for(input.as_str());
                proof {
                    if known_render(e.input.text@, entries) is Some {
                        assert(verdict(self.patterns@[j as int], entries) == Some(b));
                    }
                }
                if b {
                    proof {
                        if known_render(e.input.text@, entries) is Some {
                            assert(verdict(self.patterns@[j as int], entries) == Some(true));
                        }
                    }
                }
                any = any || b;
                j = j + 1;
            }
            out.push(any);
            i = i + 1;
        }
        Ok(out)
    }
}

} // verus!

//! Filtering by what a file name starts with, ends with or contains.

use vstd::prelude::*;
use crate::path::file_name;
use crate::resource::Resource;
use crate::templates::{Template, TemplateEngine, Context, lookup, name_or_empty};
use crate::text::{
    split_negation, negated, unnegated, chars_of, copy_str, lowercase, to_lowercase,
    starts_with, ends_with, contains, vec_starts_with, vec_ends_with, vec_contains,
};
use crate::variables::{Variable, value_after, rendering_for, lemma_known_with};

verus! {

/// Patterns on a file name. Each non-empty list must have a pattern that lets
/// the name pass; a pattern written with a leading `!` lets it pass when the
/// rest does not occur there. Unless the filter is case sensitive, names and
/// patterns are compared in lowercase.
#[derive(Debug, PartialEq, Eq)]
pub struct Filename {
    pub startswith: Vec<Template>,
    pub endswith: Vec<Template>,
    pub contains: Vec<Template>,
    pub case_sensitive: bool,
}

/// Where a pattern must occur in the name.
#[derive(Debug, PartialEq, Eq, Structural, Clone, Copy)]
pub enum Position {
    Start,
    End,
    Anywhere,
}

/// Whether `pat` occurs in `name` at the position.
pub open spec fn occurs(pos: Position, name: Seq<char>, pat: Seq<char>) -> bool {
    match pos {
        Position::Start => starts_with(name, pat),
        Position::End => ends_with(name, pat),
        Position::Anywhere => contains(name, pat),
    }
}

/// The verdict of one pattern, with its leading `!` read as negation.
pub open spec fn pattern_passes(pos: Position, name: Seq<char>, pat: Seq<char>) -> bool {
    if negated(pat) { !occurs(pos, name, unnegated(pat)) } else { occurs(pos, name, pat) }
}

/// An empty list lets any name pass; otherwise some pattern must.
pub open spec fn list_passes(pos: Position, name: Seq<char>, pats: Seq<Seq<char>>) -> bool {
    pats.len() == 0 || exists|j: int| 0 <= j < pats.len() && #[trigger] pattern_passes(pos, name, pats[j])
}

/// The form in which names and patterns are compared.
pub open spec fn folded(case_sensitive: bool, s: Seq<char>) -> Seq<char> {
    if case_sensitive { s } else { lowercase(s) }
}

/// Every template's rendering is known, with the values of a resource
/// (`base`) and the rule's variables.
pub open spec fn all_known(ts: Seq<Template>, base: Seq<(String, String)>, vars: Seq<Variable>) -> bool {
    forall|i: int| 0 <= i < ts.len() ==> (#[trigger] rendering_for(ts[i].text@, base, vars)) is Some
}

/// The renderings of the templates, each folded.
pub open spec fn folded_renderings(case_sensitive: bool, ts: Seq<Template>, base: Seq<(String, String)>,
    vars: Seq<Variable>) -> Seq<Seq<char>>
{
    Seq::new(ts.len(), |i: int| folded(case_sensitive, rendering_for(ts[i].text@, base, vars)->Some_0))
}

/// The verdict of a filter on a path, its templates rendered with the values
/// of a resource and the rule's variables.
pub open spec fn filename_passes(f: Filename, path: Seq<char>, base: Seq<(String, String)>, vars: Seq<Variable>) -> bool {
    let name = name_or_empty(path);
    let cmp = folded(f.case_sensitive, name);
    &&& name.len() > 0
    &&& list_passes(Position::Start, cmp, folded_renderings(f.case_sensitive, f.startswith@, base, vars))
    &&& list_passes(Position::End, cmp, folded_renderings(f.case_sensitive, f.endswith@, base, vars))
    &&& list_passes(Position::Anywhere, cmp, folded_renderings(f.case_sensitive, f.contains@, base, vars))
}

/// `raws` could be what the templates rendered to: one text for each, equal
/// to the template's rendering wherever that is known.
pub open spec fn fits(ts: Seq<Template>, base: Seq<(String, String)>, vars: Seq<Variable>, raws: Seq<Seq<char>>) -> bool {
    &&& raws.len() == ts.len()
    &&& forall|i: int| 0 <= i < ts.len() && (#[trigger] rendering_for(ts[i].text@, base, vars)) is Some
        ==> raws[i] == rendering_for(ts[i].text@, base, vars)->Some_0
}

/// The texts, each folded.
pub open spec fn folded_all(case_sensitive: bool, raws: Seq<Seq<char>>) -> Seq<Seq<char>> {
    Seq::new(raws.len(), |i: int| folded(case_sensitive, raws[i]))
}

/// The verdict on a path when the start, end and inner templates rendered
/// to `s`, `e` and `c`.
pub open spec fn verdict_with(case_sensitive: bool, path: Seq<char>, s: Seq<Seq<char>>, e: Seq<Seq<char>>,
    c: Seq<Seq<char>>) -> bool
{
    let name = name_or_empty(path);
    let cmp = folded(case_sensitive, name);
    &&& name.len() > 0
    &&& list_passes(Position::Start, cmp, folded_all(case_sensitive, s))
    &&& list_passes(Position::End, cmp, folded_all(case_sensitive, e))
    &&& list_passes(Position::Anywhere, cmp, folded_all(case_sensitive, c))
}

/// Renderings that fit any templates: the known ones, and empty text for the
/// others.
pub open spec fn some_fit(ts: Seq<Template>, base: Seq<(String, String)>, vars: Seq<Variable>) -> Seq<Seq<char>> {
    Seq::new(ts.len(), |i: int| match rendering_for(ts[i].text@, base, vars) {
        Some(k) => k,
        None => Seq::empty(),
    })
}

/// Whether `pat` occurs in `name` at the position.
fn occurs_exec(pos: Position, name: &Vec<char>, pat: &Vec<char>) -> (b: bool)
    ensures
        b == occurs(pos, name@, pat@),
{
    match pos {
        Position::Start => vec_starts_with(name, pat),
        Position::End => vec_ends_with(name, pat),
        Position::Anywhere => vec_contains(name, pat),
    }
}

/// Whether a list of (rendered, folded) patterns lets `name` pass at the
/// position.
pub fn patterns_pass(pos: Position, name: &str, patterns: &Vec<String>) -> (b: bool)
    ensures
        b == list_passes(pos, name@, patterns@.map_values(|p: String| p@)),
{
    let ghost pats = patterns@.map_values(|p: String| p@);
    if patterns.len() == 0 {
        return true;
    }
    let name_chars = chars_of(name);
    let mut j: usize = 0;
    while j < patterns.len()
        invariant
            j <= patterns@.len(),
            name_chars@ == name@,
            pats == patterns@.map_values(|p: String| p@),
            forall|m: int| 0 <= m < j ==> !(#[trigger] pattern_passes(pos, name@, pats[m])),
        decreases patterns@.len() - j,
    {
        let (pat, negate) = split_negation(patterns[j].as_str());
        let pat_chars = chars_of(pat.as_str());
        let found = occurs_exec(pos, &name_chars, &pat_chars);
        let holds = if negate { !found } else { found };
        assert(pats[j as int] == patterns@[j as int]@);
        if holds {
            assert(pattern_passes(pos, name@, pats[j as int]));
            return true;
        }
        j = j + 1;
    }
    false
}

impl Filename {
    /// The templates of the filter: its start, end and inner patterns.
    pub fn templates(&self) -> (r: Vec<&Template>)
        ensures
            r@.len() == self.startswith@.len() + self.endswith@.len() + self.contains@.len(),
            forall|i: int| 0 <= i < r@.len() ==> *(#[trigger] r@[i]) == (self.startswith@ + self.endswith@ + self.contains@)[i],
    {
        let ghost all = self.startswith@ + self.endswith@ + self.contains@;
        let mut r: Vec<&Template> = Vec::new();
        let mut i: usize = 0;
        while i < self.startswith.len()
            invariant
                i <= self.startswith@.len(),
                all == self.startswith@ + self.endswith@ + self.contains@,
                r@.len() == i,
                forall|j: int| 0 <= j < r@.len() ==> *(#[trigger] r@[j]) == all[j],
            decreases self.startswith@.len() - i,
        {
            r.push(&self.startswith[i]);
            i = i + 1;
        }
        let mut i: usize = 0;
        while i < self.endswith.len()
            invariant
                i <= self.endswith@.len(),
                all == self.startswith@ + self.endswith@ + self.contains@,
                r@.len() == self.startswith@.len() + i,
                forall|j: int| 0 <= j < r@.len() ==> *(#[trigger] r@[j]) == all[j],
            decreases self.endswith@.len() - i,
        {
            r.push(&self.endswith[i]);
            i = i + 1;
        }
        let mut i: usize = 0;
        while i < self.contains.len()
            invariant
                i <= self.contains@.len(),
                all == self.startswith@ + self.endswith@ + self.contains@,
                r@.len() == self.startswith@.len() + self.endswith@.len() + i,
                forall|j: int| 0 <= j < r@.len() ==> *(#[trigger] r@[j]) == all[j],
            decreases self.contains@.len() - i,
        {
            r.push(&self.contains[i]);
            i = i + 1;
        }
        r
    }

    /// The patterns of the templates, rendered with the context (a template
    /// that cannot be rendered stands for its text) and folded; with what
    /// each rendered to.
    fn rendered(&self, templates: &Vec<Template>, engine: &TemplateEngine, context: &Context,
        Ghost(base): Ghost<Seq<(String, String)>>, Ghost(vars): Ghost<Seq<Variable>>)
        -> (r: (Vec<String>, Ghost<Seq<Seq<char>>>))
        requires
            forall|k: Seq<char>| #[trigger] value_after(vars, base, k) is Some
                ==> lookup(context.entries@, k) == value_after(vars, base, k)->Some_0,
        ensures
            fits(templates@, base, vars, r.1@),
            r.0@.map_values(|p: String| p@) == folded_all(self.case_sensitive, r.1@),
    {
        let mut out: Vec<String> = Vec::new();
        let ghost mut raws: Seq<Seq<char>> = Seq::empty();
        let mut i: usize = 0;
        let ghost pv = value_after(vars, base, "path"@);
        assert(pv is Some ==> lookup(context.entries@, "path"@) == pv->Some_0);
        while i < templates.len()
            invariant
                i <= templates@.len(),
                out@.len() == i,
                raws.len() == i,
                pv == value_after(vars, base, "path"@),
                pv is Some ==> lookup(context.entries@, "path"@) == pv->Some_0,
                forall|k: int| 0 <= k < i ==> (#[trigger] out@[k])@ == folded(self.case_sensitive, raws[k]),
                forall|k: int| 0 <= k < i && (#[trigger] rendering_for(templates@[k].text@, base, vars)) is Some
                    ==> raws[k] == rendering_for(templates@[k].text@, base, vars)->Some_0,
            decreases templates@.len() - i,
        {
            proof {
                if rendering_for(templates@[i as int].text@, base, vars) is Some {
                    lemma_known_with(templates@[i as int].text@, context.entries@, pv);
                }
            }
            let rendered = engine.render_or_text(&templates[i], context);
            proof {
                raws = raws.push(rendered@);
            }
            let pattern = if self.case_sensitive { rendered } else { to_lowercase(rendered.as_str()) };
            out.push(pattern);
            i = i + 1;
        }
        proof {
            assert(out@.map_values(|p: String| p@) =~= folded_all(self.case_sensitive, raws));
        }
        (out, Ghost(raws))
    }

    /// Whether the resource's file name passes: the verdict on what its
    /// templates rendered to (each one's known rendering where there is
    /// one); where every rendering is known, `filename_passes`.
    pub fn filter(&self, res: &Resource, template_engine: &TemplateEngine, variables: &[Variable]) -> (b: bool)
        ensures
            exists|s: Seq<Seq<char>>, e: Seq<Seq<char>>, c: Seq<Seq<char>>|
                fits(self.startswith@, res.context.entries@, variables@, s)
                && fits(self.endswith@, res.context.entries@, variables@, e)
                && fits(self.contains@, res.context.entries@, variables@, c)
                && b == #[trigger] verdict_with(self.case_sensitive, res.path@, s, e, c),
            b ==> name_or_empty(res.path@).len() > 0,
            (b && all_known(self.startswith@, res.context.entries@, variables@)) ==> list_passes(Position::Start,
                folded(self.case_sensitive, name_or_empty(res.path@)),
                folded_renderings(self.case_sensitive, self.startswith@, res.context.entries@, variables@)),
            (b && all_known(self.endswith@, res.context.entries@, variables@)) ==> list_passes(Position::End,
                folded(self.case_sensitive, name_or_empty(res.path@)),
                folded_renderings(self.case_sensitive, self.endswith@, res.context.entries@, variables@)),
            (b && all_known(self.contains@, res.context.entries@, variables@)) ==> list_passes(Position::Anywhere,
                folded(self.case_sensitive, name_or_empty(res.path@)),
                folded_renderings(self.case_sensitive, self.contains@, res.context.entries@, variables@)),
            (all_known(self.startswith@, res.context.entries@, variables@)
                && all_known(self.endswith@, res.context.entries@, variables@)
                && all_known(self.contains@, res.context.entries@, variables@))
                ==> b == filename_passes(*self, res.path@, res.context.entries@, variables@),
    {
        let ghost base = res.context.entries@;
        let ghost vars = variables@;
        let filename = match file_name(res.path.as_str()) {
            Some(n) => n,
            None => String::new(),
        };
        if filename.unicode_len() == 0 {
            proof {
                let s = some_fit(self.startswith@, base, vars);
                let e = some_fit(self.endswith@, base, vars);
                let c = some_fit(self.contains@, base, vars);
                assert(fits(self.startswith@, base, vars, s));
                assert(fits(self.endswith@, base, vars, e));
                assert(fits(self.contains@, base, vars, c));
                assert(!verdict_with(self.case_sensitive, res.path@, s, e, c));
            }
            return false;
        }
        let filename_cmp = if self.case_sensitive { copy_str(filename.as_str()) } else { to_lowercase(filename.as_str()) };
        let context = TemplateEngine::new_context(res, variables);
        let (starts, Ghost(s)) = self.rendered(&self.startswith, template_engine, &context, Ghost(base), Ghost(vars));
        let (ends, Ghost(e)) = self.rendered(&self.endswith, template_engine, &context, Ghost(base), Ghost(vars));
        let (inside, Ghost(c)) = self.rendered(&self.contains, template_engine, &context, Ghost(base), Ghost(vars));
        let a = patterns_pass(Position::Start, filename_cmp.as_str(), &starts);
        let b = patterns_pass(Position::End, filename_cmp.as_str(), &ends);
        let d = patterns_pass(Position::Anywhere, filename_cmp.as_str(), &inside);
        proof {
            assert(verdict_with(self.case_sensitive, res.path@, s, e, c) == (a && b && d));
            if all_known(self.startswith@, base, vars) {
                assert(folded_all(self.case_sensitive, s) =~= folded_renderings(self.case_sensitive, self.startswith@, base, vars));
            }
            if all_known(self.endswith@, base, vars) {
                assert(folded_all(self.case_sensitive, e) =~= folded_renderings(self.case_sensitive, self.endswith@, base, vars));
            }
            if all_known(self.contains@, base, vars) {
                assert(folded_all(self.case_sensitive, c) =~= folded_renderings(self.case_sensitive, self.contains@, base, vars));
            }
        }
        a && b && d
    }
}

/// A filter without patterns lets every file with a name pass.
pub proof fn law_no_patterns_pass(f: Filename, path: Seq<char>, base: Seq<(String, String)>, vars: Seq<Variable>)
    requires
        f.startswith@.len() == 0,
        f.endswith@.len() == 0,
        f.contains@.len() == 0,
    ensures
        filename_passes(f, path, base, vars) <==> name_or_empty(path).len() > 0,
{
}

/// A pattern with a leading `!` gives the opposite verdict of the pattern
/// without it.
pub proof fn law_negation_flips(pos: Position, name: Seq<char>, pat: Seq<char>)
    requires
        !negated(pat),
    ensures
        pattern_passes(pos, name, seq!['!'] + pat) == !pattern_passes(pos, name, pat),
{
    assert(negated(seq!['!'] + pat));
    assert(unnegated(seq!['!'] + pat) =~= pat);
}

} // verus!

//! Variables: values that rules add to the context of each resource.

use vstd::prelude::*;
use crate::pattern::{Pattern, regex_group_names, regex_group_match};
use crate::resource::Resource;
use crate::templates::{Context, Template, TemplateEngine, RenderError, lookup, known_render, is_plain,
    path_filename_template, name_or_empty};

verus! {

/// A variable whose value is a template rendered with the context.
#[derive(Debug)]
pub struct SimpleVariable {
    pub name: String,
    pub value: Template,
}

/// A variable that runs a regular expression on a rendered input and adds
/// each named group that took part in the first match.
#[derive(Debug)]
pub struct RegexVariable {
    pub pattern: Pattern,
    pub input: Template,
}

/// The variables a rule can define.
#[derive(Debug)]
pub enum Variable {
    Simple(SimpleVariable),
    Regex(RegexVariable),
}

/// The pattern has a group called `k`.
pub open spec fn has_group(pattern: Seq<char>, k: Seq<char>) -> bool {
    exists|i: int| 0 <= i < regex_group_names(pattern).len() && #[trigger] regex_group_names(pattern)[i] == Some(k)
}

/// The value of `k` after the groups of the first match of `pattern` in
/// `input` are added to `entries`.
pub open spec fn with_groups(pattern: Seq<char>, input: Seq<char>, entries: Seq<(String, String)>, k: Seq<char>) -> Option<Seq<char>> {
    if has_group(pattern, k) && regex_group_match(pattern, input, k) is Some {
        regex_group_match(pattern, input, k)
    } else {
        lookup(entries, k)
    }
}

/// `after` holds the values of `before` with the groups of the first match of
/// `pattern` in `input` added.
pub open spec fn groups_added(pattern: Seq<char>, input: Seq<char>, before: Seq<(String, String)>, after: Seq<(String, String)>) -> bool {
    forall|k: Seq<char>| #[trigger] lookup(after, k) == with_groups(pattern, input, before, k)
}

/// Some of the first `n` groups is called `k`.
spec fn has_group_before(pattern: Seq<char>, k: Seq<char>, n: int) -> bool {
    exists|i: int| 0 <= i < n && #[trigger] regex_group_names(pattern)[i] == Some(k)
}

/// The names a variable may give a value to.
pub open spec fn may_define(v: Variable, k: Seq<char>) -> bool {
    match v {
        Variable::Simple(s) => s.name@ == k,
        Variable::Regex(r) => has_group(r.pattern@, k),
    }
}

impl SimpleVariable {
    /// Renders the value and gives it to the name.
    pub fn register(&self, context: &mut Context) -> (r: Result<(), RenderError>)
        ensures
            known_render(self.value.text@, old(context).entries@) is Some ==> r is Ok,
            r is Err ==> final(context).entries@ == old(context).entries@,
            r is Ok ==> lookup(final(context).entries@, self.name@) is Some,
            r is Ok ==> (known_render(self.value.text@, old(context).entries@) matches Some(k)
                ==> lookup(final(context).entries@, self.name@) == Some(k)),
            r is Ok ==> forall|k: Seq<char>| k != self.name@ ==>
                lookup(#[trigger] final(context).entries@, k) == lookup(old(context).entries@, k),
    {
        let value = TemplateEngine.render(&self.value, context)?;
        context.insert(self.name.as_str(), value.as_str());
        assert(lookup(context.entries@, self.name@) == Some(value@));
        Ok(())
    }
}

impl RegexVariable {
    /// Renders the input, runs the pattern on it, and gives each named group
    /// that took part in the first match its matched text.
    pub fn register(&self, context: &mut Context) -> (r: Result<(), RenderError>)
        ensures
            known_render(self.input.text@, old(context).entries@) is Some ==> r is Ok,
            r is Err ==> final(context).entries@ == old(context).entries@,
            r is Ok ==> exists|input: Seq<char>|
                #[trigger] groups_added(self.pattern@, input, old(context).entries@, final(context).entries@)
                && (known_render(self.input.text@, old(context).entries@) matches Some(k) ==> input == k),
    {
        let ghost before = context.entries@;
        let input = TemplateEngine.render(&self.input, context)?;
        let names = self.pattern.capture_names();
        let mut j: usize = 0;
        while j < names.len()
            invariant
                j <= names@.len(),
                names@.len() == regex_group_names(self.pattern@).len(),
                forall|i: int| 0 <= i < names@.len() ==>
                    (#[trigger] names@[i] matches Some(s) ==> regex_group_names(self.pattern@)[i] == Some(s@))
                    && (names@[i] is None ==> regex_group_names(self.pattern@)[i] is None),
                forall|k: Seq<char>| lookup(#[trigger] context.entries@, k) ==
                    if has_group_before(self.pattern@, k, j as int) && regex_group_match(self.pattern@, input@, k) is Some {
                        regex_group_match(self.pattern@, input@, k)
                    } else {
                        lookup(before, k)
                    },
            decreases names@.len() - j,
        {
            let ghost prev = context.entries@;
            match &names[j] {
                Some(name) => {
                    let found = self.pattern.group_match(input.as_str(), name.as_str());
                    match found {
                        Some(m) => {
                            context.insert(name.as_str(), m.as_str());
                        }
                        None => {}
                    }
                    proof {
                        assert(regex_group_names(self.pattern@)[j as int] == Some(name@));
                        assert forall|k: Seq<char>| lookup(#[trigger] context.entries@, k) ==
                            if has_group_before(self.pattern@, k, j + 1) && regex_group_match(self.pattern@, input@, k) is Some {
                                regex_group_match(self.pattern@, input@, k)
                            } else {
                                lookup(before, k)
                            } by {
                            if k == name@ {
                                assert(has_group_before(self.pattern@, k, j + 1));
                            } else {
                                assert(lookup(context.entries@, k) == lookup(prev, k));
                                if has_group_before(self.pattern@, k, j + 1) {
                                    let i = choose|i: int| 0 <= i < j + 1 && #[trigger] regex_group_names(self.pattern@)[i] == Some(k);
                                    assert(i != j);
                                    assert(has_group_before(self.pattern@, k, j as int));
                                }
                            }
                        }
                    }
                }
                None => {
                    proof {
                        assert forall|k: Seq<char>| has_group_before(self.pattern@, k, j + 1)
                            implies has_group_before(self.pattern@, k, j as int) by {
                            let i = choose|i: int| 0 <= i < j + 1 && #[trigger] regex_group_names(self.pattern@)[i] == Some(k);
                            assert(i != j);
                        }
                    }
                }
            }
            j = j + 1;
        }
        proof {
            assert forall|k: Seq<char>| lookup(#[trigger] context.entries@, k)
                == with_groups(self.pattern@, input@, before, k) by {
                assert(has_group_before(self.pattern@, k, j as int) == has_group(self.pattern@, k));
            }
            assert(groups_added(self.pattern@, input@, before, context.entries@));
        }
        Ok(())
    }
}

impl Variable {
    /// Adds the variable's values to the context.
    pub fn register(&self, context: &mut Context) -> (r: Result<(), RenderError>)
        ensures
            r is Err ==> final(context).entries@ == old(context).entries@,
            forall|k: Seq<char>| !may_define(*self, k) ==>
                lookup(#[trigger] final(context).entries@, k) == lookup(old(context).entries@, k),
            match self {
                Variable::Simple(s) => known_render(s.value.text@, old(context).entries@) matches Some(v)
                    ==> (r is Ok && lookup(final(context).entries@, s.name@) == Some(v)),
                Variable::Regex(x) => known_render(x.input.text@, old(context).entries@) matches Some(v)
                    ==> (r is Ok && groups_added(x.pattern@, v, old(context).entries@, final(context).entries@)),
            },
    {
        match self {
            Variable::Simple(s) => s.register(context),
            Variable::Regex(x) => {
                let r = x.register(context);
                proof {
                    if r is Ok {
                        let input = choose|input: Seq<char>|
                            #[trigger] groups_added(x.pattern@, input, old(context).entries@, context.entries@)
                            && (known_render(x.input.text@, old(context).entries@) matches Some(k) ==> input == k);
                        assert forall|k: Seq<char>| !may_define(*self, k) implies
                            lookup(#[trigger] context.entries@, k) == lookup(old(context).entries@, k) by {
                            assert(lookup(context.entries@, k) == with_groups(x.pattern@, input, old(context).entries@, k));
                        }
                    }
                }
                r
            }
        }
    }
}

/// What a template is known to render to when the `path` value is `path`:
/// `Some(v)` for a known value `v` (itself `None` when there is no `path`),
/// `None` when it is not known.
pub open spec fn known_with(text: Seq<char>, path: Option<Option<Seq<char>>>) -> Option<Seq<char>> {
    if is_plain(text) {
        Some(text)
    } else if text == path_filename_template() {
        match path {
            Some(Some(p)) => Some(name_or_empty(p)),
            _ => None,
        }
    } else {
        None
    }
}

/// The value of `k` after the variables are added in order to `base`, where
/// it is determined: `Some(v)` when known (`v` being `None` for no value),
/// `None` when it rests on a rendering that is not known.
pub open spec fn value_after(vars: Seq<Variable>, base: Seq<(String, String)>, k: Seq<char>) -> Option<Option<Seq<char>>>
    decreases vars.len(),
{
    if vars.len() == 0 {
        Some(lookup(base, k))
    } else {
        let prev = vars.drop_last();
        match vars.last() {
            Variable::Simple(s) => if k != s.name@ {
                value_after(prev, base, k)
            } else {
                match known_with(s.value.text@, value_after(prev, base, "path"@)) {
                    Some(v) => Some(Some(v)),
                    None => None,
                }
            },
            Variable::Regex(x) => if !has_group(x.pattern@, k) {
                value_after(prev, base, k)
            } else {
                match known_with(x.input.text@, value_after(prev, base, "path"@)) {
                    Some(input) => if regex_group_match(x.pattern@, input, k) is Some {
                        Some(regex_group_match(x.pattern@, input, k))
                    } else {
                        value_after(prev, base, k)
                    },
                    None => None,
                }
            },
        }
    }
}

/// What the template `text` is known to render to with the values of a
/// resource (`base`) after the variables are added, where this library
/// states it.
pub open spec fn rendering_for(text: Seq<char>, base: Seq<(String, String)>, vars: Seq<Variable>) -> Option<Seq<char>> {
    known_with(text, value_after(vars, base, "path"@))
}

/// A known rendering under a determined `path` value is the rendering.
pub proof fn lemma_known_with(text: Seq<char>, entries: Seq<(String, String)>, path: Option<Option<Seq<char>>>)
    requires
        path is Some ==> lookup(entries, "path"@) == path->Some_0,
        known_with(text, path) is Some,
    ensures
        known_render(text, entries) == known_with(text, path),
{
}

impl TemplateEngine {
    /// The context of a resource with the rule's variables added, in order. A
    /// variable whose template cannot be rendered adds nothing.
    pub fn new_context(res: &Resource, variables: &[Variable]) -> (c: Context)
        ensures
            forall|k: Seq<char>| (forall|j: int| 0 <= j < variables@.len() ==> !may_define(#[trigger] variables@[j], k)) ==>
                lookup(#[trigger] c.entries@, k) == lookup(res.context.entries@, k),
            forall|k: Seq<char>| #[trigger] value_after(variables@, res.context.entries@, k) matches Some(v)
                ==> lookup(c.entries@, k) == v,
    {
        let ghost base = res.context.entries@;
        let mut c = res.context.copy();
        let mut j: usize = 0;
        assert(variables@.take(0) =~= Seq::<Variable>::empty());
        while j < variables.len()
            invariant
                j <= variables@.len(),
                base == res.context.entries@,
                forall|k: Seq<char>| (forall|m: int| 0 <= m < j ==> !may_define(#[trigger] variables@[m], k)) ==>
                    lookup(#[trigger] c.entries@, k) == lookup(base, k),
                forall|k: Seq<char>| #[trigger] value_after(variables@.take(j as int), base, k) matches Some(v)
                    ==> lookup(c.entries@, k) == v,
            decreases variables@.len() - j,
        {
            let ghost prev = c.entries@;
            let ghost done = variables@.take(j as int);
            let ghost now = variables@.take(j + 1);
            let _ = variables[j].register(&mut c);
            proof {
                assert(now.drop_last() =~= done);
                assert(now.last() == variables@[j as int]);
                assert forall|k: Seq<char>| (forall|m: int| 0 <= m < j + 1 ==> !may_define(#[trigger] variables@[m], k)) implies
                    lookup(#[trigger] c.entries@, k) == lookup(base, k) by {
                    assert(!may_define(variables@[j as int], k));
                    assert(lookup(c.entries@, k) == lookup(prev, k));
                }
                let pv = value_after(done, base, "path"@);
                assert(pv is Some ==> lookup(prev, "path"@) == pv->Some_0);
                assert forall|k: Seq<char>| #[trigger] value_after(now, base, k) is Some
                    implies lookup(c.entries@, k) == value_after(now, base, k)->Some_0 by {
                    assert(value_after(done, base, k) is Some ==> lookup(prev, k) == value_after(done, base, k)->Some_0);
                    match variables@[j as int] {
                        Variable::Simple(s) => {
                            if k != s.name@ {
                                assert(!may_define(variables@[j as int], k));
                                assert(value_after(now, base, k) == value_after(done, base, k));
                                assert(lookup(c.entries@, k) == lookup(prev, k));
                            } else {
                                lemma_known_with(s.value.text@, prev, pv);
                            }
                        },
                        Variable::Regex(x) => {
                            if !has_group(x.pattern@, k) {
                                assert(!may_define(variables@[j as int], k));
                                assert(value_after(now, base, k) == value_after(done, base, k));
                                assert(lookup(c.entries@, k) == lookup(prev, k));
                            } else {
                                lemma_known_with(x.input.text@, prev, pv);
                                let input = known_with(x.input.text@, pv)->Some_0;
                                assert(lookup(c.entries@, k) == with_groups(x.pattern@, input, prev, k));
                            }
                        },
                    }
                }
            }
            j = j + 1;
        }
        assert(variables@.take(variables@.len() as int) =~= variables@);
        c
    }
}

} // verus!

//! Templates and the values they are rendered with.

use vstd::prelude::*;
use std::collections::HashMap;
use crate::text::copy_str;

verus! {

/// A piece of text that may hold `{{ ... }}` placeholders.
#[derive(Debug, PartialEq, Eq)]
pub struct Template {
    pub text: String,
}

/// Named values that templates are rendered with; a later entry for a name
/// replaces an earlier one.
#[derive(Debug)]
pub struct Context {
    pub entries: Vec<(String, String)>,
}

/// Why a template could not be rendered.
#[derive(Debug, PartialEq, Eq)]
pub struct RenderError {
    pub message: String,
}

/// The value of `key` in the entries: the last one given for it.
pub open spec fn lookup(entries: Seq<(String, String)>, key: Seq<char>) -> Option<Seq<char>>
    decreases entries.len(),
{
    if entries.len() == 0 {
        None
    } else if entries.last().0@ == key {
        Some(entries.last().1@)
    } else {
        lookup(entries.drop_last(), key)
    }
}

/// The text holds no `{`, so no placeholder, tag or comment can start in it.
pub open spec fn is_plain(text: Seq<char>) -> bool {
    forall|i: int| 0 <= i < text.len() ==> text[i] != '{'
}

impl Template {
    /// A template with the given text.
    pub fn new(text: &str) -> (t: Template)
        ensures
            t.text@ == text@,
    {
        Template { text: copy_str(text) }
    }

    /// A fresh copy of the template.
    pub fn copy(&self) -> (t: Template)
        ensures
            t.text@ == self.text@,
    {
        Template { text: copy_str(self.text.as_str()) }
    }
}

impl Context {
    /// A context with no values.
    pub fn new() -> (c: Context)
        ensures
            c.entries@.len() == 0,
    {
        Context { entries: Vec::new() }
    }

    /// Gives `key` the value `value`.
    pub fn insert(&mut self, key: &str, value: &str)
        ensures
            final(self).entries@.len() == old(self).entries@.len() + 1,
            final(self).entries@.drop_last() == old(self).entries@,
            final(self).entries@.last().0@ == key@,
            final(self).entries@.last().1@ == value@,
            lookup(final(self).entries@, key@) == Some(value@),
            forall|k: Seq<char>| k != key@ ==> lookup(final(self).entries@, k) == lookup(old(self).entries@, k),
    {
        let k = copy_str(key);
        let v = copy_str(value);
        let ghost before = self.entries@;
        self.entries.push((k, v));
        proof {
            assert(self.entries@.drop_last() =~= before);
        }
    }

    /// The value of `key`, if it has one.
    pub fn get(&self, key: &str) -> (r: Option<String>)
        ensures
            match r {
                Some(v) => lookup(self.entries@, key@) == Some(v@),
                None => lookup(self.entries@, key@) is None,
            },
    {
        let mut i = self.entries.len();
        assert(self.entries@.subrange(0, i as int) =~= self.entries@);
        while i > 0
            invariant
                i <= self.entries.len(),
                lookup(self.entries@, key@) == lookup(self.entries@.subrange(0, i as int), key@),
            decreases i,
        {
            let ghost pre = self.entries@.subrange(0, i as int);
            assert(pre.drop_last() =~= self.entries@.subrange(0, i - 1));
            if crate::text::str_eq(self.entries[i - 1].0.as_str(), key) {
                return Some(copy_str(self.entries[i - 1].1.as_str()));
            }
            i = i - 1;
        }
        None
    }

    /// A fresh copy of the context.
    pub fn copy(&self) -> (c: Context)
        ensures
            c.entries@.len() == self.entries@.len(),
            forall|i: int| 0 <= i < c.entries@.len() ==>
                (#[trigger] c.entries@[i]).0@ == self.entries@[i].0@ && c.entries@[i].1@ == self.entries@[i].1@,
            forall|k: Seq<char>| lookup(c.entries@, k) == lookup(self.entries@, k),
    {
        let mut c = Context::new();
        let mut i: usize = 0;
        while i < self.entries.len()
            invariant
                i <= self.entries.len(),
                c.entries@.len() == i,
                forall|j: int| 0 <= j < i ==>
                    (#[trigger] c.entries@[j]).0@ == self.entries@[j].0@ && c.entries@[j].1@ == self.entries@[j].1@,
            decreases self.entries.len() - i,
        {
            let ghost before = c.entries@;
            c.insert(self.entries[i].0.as_str(), self.entries[i].1.as_str());
            proof {
                assert forall|j: int| 0 <= j < i + 1 implies
                    (#[trigger] c.entries@[j]).0@ == self.entries@[j].0@ && c.entries@[j].1@ == self.entries@[j].1@ by {
                    if j < i {
                        assert(c.entries@[j] == c.entries@.drop_last()[j]);
                        assert(c.entries@[j] == before[j]);
                    } else {
                        assert(c.entries@[j] == c.entries@.last());
                    }
                }
            }
            i = i + 1;
        }
        proof {
            lemma_lookup_same(c.entries@, self.entries@);
        }
        c
    }
}

/// Entries with the same names and values give the same lookups.
pub proof fn lemma_lookup_same(a: Seq<(String, String)>, b: Seq<(String, String)>)
    requires
        a.len() == b.len(),
        forall|i: int| 0 <= i < a.len() ==> (#[trigger] a[i]).0@ == b[i].0@ && a[i].1@ == b[i].1@,
    ensures
        forall|k: Seq<char>| lookup(a, k) == lookup(b, k),
    decreases a.len(),
{
    if a.len() > 0 {
        assert forall|i: int| 0 <= i < a.drop_last().len() implies
            (#[trigger] a.drop_last()[i]).0@ == b.drop_last()[i].0@ && a.drop_last()[i].1@ == b.drop_last()[i].1@ by {
            assert(a.drop_last()[i] == a[i]);
            assert(b.drop_last()[i] == b[i]);
        }
        lemma_lookup_same(a.drop_last(), b.drop_last());
        assert(a[a.len() - 1].0@ == b[b.len() - 1].0@);
        assert(a[a.len() - 1].1@ == b[b.len() - 1].1@);
        assert forall|k: Seq<char>| lookup(a, k) == lookup(b, k) by {
            assert(a.last() == a[a.len() - 1]);
            assert(b.last() == b[b.len() - 1]);
            assert(lookup(a.drop_last(), k) == lookup(b.drop_last(), k));
            assert(lookup(a, k) == if a.last().0@ == k { Some(a.last().1@) } else { lookup(a.drop_last(), k) });
            assert(lookup(b, k) == if b.last().0@ == k { Some(b.last().1@) } else { lookup(b.drop_last(), k) });
        }
    }
}

/// The file name of a path, or nothing when it has none.
pub open spec fn name_or_empty(p: Seq<char>) -> Seq<char> {
    match crate::path::spec_file_name(p) {
        Some(n) => n,
        None => Seq::<char>::empty(),
    }
}

/// The template that renders to the file name of the `path` value.
pub open spec fn path_filename_template() -> Seq<char> {
    "{{path | filename}}"@
}

/// What a template is known to render to with the given values, where this
/// library states it: plain text renders to itself, and the file name
/// template to the file name of the `path` value.
pub open spec fn known_render(text: Seq<char>, entries: Seq<(String, String)>) -> Option<Seq<char>> {
    if is_plain(text) {
        Some(text)
    } else if text == path_filename_template() && lookup(entries, "path"@) is Some {
        Some(name_or_empty(lookup(entries, "path"@)->Some_0))
    } else {
        None
    }
}

/// Renders `text` with the values of `ctx`, through Tera, with a `filename`
/// filter that gives the last component of a path.
///
/// What Tera renders is not stated in general (its functions may read the
/// time or the environment). Stated are two facts of Tera's grammar and
/// renderer: text without any `{` is one literal text node and comes out as
/// it is; and a variable block that pipes the `path` value through the
/// `filename` filter registered here prints what that filter returns, since a
/// one-off template is not escaped.
#[verifier::external_body]
fn tera_render(text: &str, ctx: &Context) -> (r: Result<String, RenderError>)
    ensures
        is_plain(text@) ==> (r is Ok && r->Ok_0@ == text@),
        (text@ == path_filename_template() && lookup(ctx.entries@, "path"@) is Some)
            ==> (r is Ok && r->Ok_0@ == name_or_empty(lookup(ctx.entries@, "path"@)->Some_0)),
{
    let mut tera = tera::Tera::default();
    tera.register_filter("filename", |v: &tera::Value, _: &HashMap<String, tera::Value>| {
        Ok(tera::Value::String(crate::path::file_name(v.as_str().unwrap_or("")).unwrap_or_default()))
    });
    let mut c = tera::Context::new();
    for (k, v) in ctx.entries.iter() {
        c.insert(k.as_str(), v);
    }
    tera.render_str(text, &c).map_err(|e| RenderError { message: e.to_string() })
}

/// Renders templates.
#[derive(Debug, Default)]
pub struct TemplateEngine;

impl TemplateEngine {
    /// Renders a template with the values of a context.
    pub fn render(&self, template: &Template, context: &Context) -> (r: Result<String, RenderError>)
        ensures
            is_plain(template.text@) ==> (r matches Ok(s) && s@ == template.text@),
            known_render(template.text@, context.entries@) matches Some(k) ==> (r matches Ok(s) && s@ == k),
    {
        tera_render(template.text.as_str(), context)
    }

    /// Renders a template, falling back to its text when it cannot be rendered.
    pub fn render_or_text(&self, template: &Template, context: &Context) -> (s: String)
        ensures
            known_render(template.text@, context.entries@) matches Some(k) ==> s@ == k,
    {
        match self.render(template, context) {
            Ok(s) => s,
            Err(_) => copy_str(template.text.as_str()),
        }
    }
}

} // verus!

//! Expanding a path as it is written in a configuration: `$NAME` read as the
//! value of the variable `NAME`, and a leading `~` read as the home folder.
//! The values of the variables and the home folder are given by the caller.

use vstd::prelude::*;
use crate::options::layered::expand_user;
use crate::templates::lookup;
use crate::text::{chars_of, copy_str, string_from, push_all};

verus! {

/// A character that may stand in a variable's name.
pub open spec fn is_name_char(c: char) -> bool {
    ('a' <= c && c <= 'z') || ('A' <= c && c <= 'Z') || ('0' <= c && c <= '9') || c == '_'
}

/// How many characters at the start of `t` may stand in a name.
pub open spec fn name_len(t: Seq<char>) -> nat
    decreases t.len(),
{
    if t.len() > 0 && is_name_char(t[0]) { 1 + name_len(t.drop_first()) } else { 0 }
}

proof fn lemma_name_len_bound(t: Seq<char>)
    ensures
        name_len(t) <= t.len(),
    decreases t.len(),
{
    if t.len() > 0 && is_name_char(t[0]) {
        lemma_name_len_bound(t.drop_first());
    }
}

/// `s` with each `$NAME` replaced by the value of `NAME` in `vars` (the last
/// value given for it); a `$NAME` with no value, and a `$` not followed by a
/// name, stay as they are written.
pub open spec fn expand_vars(s: Seq<char>, vars: Seq<(String, String)>) -> Seq<char>
    decreases s.len(),
{
    if s.len() == 0 {
        s
    } else if s[0] == '$' && s.len() > 1 && is_name_char(s[1]) {
        let n = name_len(s.drop_first()) as int;
        let name = s.subrange(1, 1 + n);
        let value = match lookup(vars, name) {
            Some(v) => v,
            None => s.subrange(0, 1 + n),
        };
        if 1 + n <= s.len() { value + expand_vars(s.skip(1 + n), vars) } else { value }
    } else {
        seq![s[0]] + expand_vars(s.drop_first(), vars)
    }
}

/// The value of `key` among the pairs: the last one given for it.
pub fn lookup_value(vars: &Vec<(String, String)>, key: &str) -> (r: Option<String>)
    ensures
        crate::text::opt_chars(r) == lookup(vars@, key@),
{
    let mut i = vars.len();
    assert(vars@.subrange(0, i as int) =~= vars@);
    while i > 0
        invariant
            i <= vars.len(),
            lookup(vars@, key@) == lookup(vars@.subrange(0, i as int), key@),
        decreases i,
    {
        let ghost pre = vars@.subrange(0, i as int);
        assert(pre.drop_last() =~= vars@.subrange(0, i - 1));
        if crate::text::str_eq(vars[i - 1].0.as_str(), key) {
            return Some(copy_str(vars[i - 1].1.as_str()));
        }
        i = i - 1;
    }
    None
}

/// `s` with its variables expanded, as `expand_vars` says.
pub fn expand_vars_exec(s: &str, vars: &Vec<(String, String)>) -> (r: String)
    ensures
        r@ == expand_vars(s@, vars@),
{
    let v = chars_of(s);
    let mut out = String::new();
    let mut i: usize = 0;
    assert(v@.skip(0) =~= v@);
    while i < v.len()
        invariant
            v@ == s@,
            i <= v@.len(),
            out@ + expand_vars(v@.skip(i as int), vars@) == expand_vars(s@, vars@),
        decreases v@.len() - i,
    {
        let ghost rest = v@.skip(i as int);
        if v[i] == '$' && i + 1 < v.len() && is_name_char_exec(v[i + 1]) {
            assert(rest[0] == '$' && rest.len() > 1 && rest[1] == v@[i + 1]);
            let mut j: usize = i + 1;
            assert(rest.drop_first() =~= v@.skip(i + 1));
            while j < v.len() && is_name_char_exec(v[j])
                invariant
                    i + 1 <= j <= v@.len(),
                    name_len(v@.skip(i + 1)) == (j - (i + 1)) + name_len(v@.skip(j as int)),
                decreases v@.len() - j,
            {
                assert(v@.skip(j as int).drop_first() =~= v@.skip(j + 1));
                assert(v@.skip(j as int)[0] == v@[j as int]);
                j = j + 1;
            }
            proof {
                lemma_name_len_bound(v@.skip(i + 1));
                if j < v.len() {
                    assert(v@.skip(j as int)[0] == v@[j as int]);
                }
                assert(name_len(v@.skip(j as int)) == 0);
                let n = (j - (i + 1)) as int;
                assert(rest.subrange(1, 1 + n) =~= v@.subrange(i + 1, j as int));
                assert(rest.subrange(0, 1 + n) =~= v@.subrange(i as int, j as int));
                assert(rest.skip(1 + n) =~= v@.skip(j as int));
            }
            let name = string_from(&v, i + 1, j);
            match lookup_value(vars, name.as_str()) {
                Some(value) => {
                    let vv = chars_of(value.as_str());
                    push_all(&mut out, &vv);
                }
                None => {
                    let written = string_from(&v, i, j);
                    let wv = chars_of(written.as_str());
                    push_all(&mut out, &wv);
                }
            }
            i = j;
        } else {
            proof {
                if rest[0] == '$' && rest.len() > 1 {
                    assert(rest[1] == v@[i + 1]);
                }
            }
            assert(rest.drop_first() =~= v@.skip(i + 1));
            let one = vec![v[i]];
            push_all(&mut out, &one);
            assert(one@ =~= seq![rest[0]]);
            i = i + 1;
        }
    }
    assert(v@.skip(i as int) =~= Seq::<char>::empty());
    assert(out@ + Seq::<char>::empty() =~= out@);
    out
}

/// Whether `c` may stand in a name.
fn is_name_char_exec(c: char) -> (b: bool)
    ensures
        b == is_name_char(c),
{
    ('a' <= c && c <= 'z') || ('A' <= c && c <= 'Z') || ('0' <= c && c <= '9') || c == '_'
}

/// The path written `s` with a leading `~` read as `home`, then its
/// variables expanded.
pub fn expand_user_then_vars(s: &str, home: &str, vars: &Vec<(String, String)>) -> (r: String)
    ensures
        r@ == expand_vars(expand_user(s@, home@), vars@),
{
    let u = crate::options::layered::expand_user_exec(s, home);
    expand_vars_exec(u.as_str(), vars)
}

/// The path written `s` with its variables expanded, then a leading `~`
/// read as `home`.
pub fn expand_vars_then_user(s: &str, home: &str, vars: &Vec<(String, String)>) -> (r: String)
    ensures
        r@ == expand_user(expand_vars(s@, vars@), home@),
{
    let e = expand_vars_exec(s, vars);
    crate::options::layered::expand_user_exec(e.as_str(), home)
}

} // verus!

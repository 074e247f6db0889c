//! Lines of text: splitting as `str::lines` does, sorting them by a
//! case-folded key while keeping equal keys in their order, and joining.

use vstd::prelude::*;
use crate::text::{chars_of, string_from, push_all, lowercase, to_lowercase, copy_str};

verus! {

/// A line without the `\r` of a `\r\n` ending.
pub open spec fn strip_cr(line: Seq<char>) -> Seq<char> {
    if line.len() > 0 && line.last() == '\r' { line.drop_last() } else { line }
}

/// Reading `s` from the left: the lines ended so far, and the line begun.
pub open spec fn split_state(s: Seq<char>) -> (Seq<Seq<char>>, Seq<char>)
    decreases s.len(),
{
    if s.len() == 0 {
        (Seq::empty(), Seq::empty())
    } else {
        let st = split_state(s.drop_last());
        if s.last() == '\n' {
            (st.0.push(strip_cr(st.1)), Seq::empty())
        } else {
            (st.0, st.1.push(s.last()))
        }
    }
}

/// The lines of `s`: split at `\n` or `\r\n`, without the endings; a final
/// ending adds no empty line.
pub open spec fn lines_of(s: Seq<char>) -> Seq<Seq<char>> {
    let st = split_state(s);
    if st.1.len() > 0 { st.0.push(st.1) } else { st.0 }
}

/// `a` comes before `b` in the order of `str` comparison: by the first
/// differing character, a proper prefix first.
pub open spec fn lex_lt(a: Seq<char>, b: Seq<char>) -> bool
    decreases a.len(),
{
    if a.len() == 0 {
        b.len() > 0
    } else if b.len() == 0 {
        false
    } else if a[0] != b[0] {
        (a[0] as int) < (b[0] as int)
    } else {
        lex_lt(a.drop_first(), b.drop_first())
    }
}

pub proof fn lemma_lex_transitive(a: Seq<char>, b: Seq<char>, c: Seq<char>)
    requires
        lex_lt(a, b),
        lex_lt(b, c),
    ensures
        lex_lt(a, c),
    decreases a.len(),
{
    if a.len() > 0 && b.len() > 0 && c.len() > 0 {
        if a[0] == b[0] && b[0] == c[0] {
            lemma_lex_transitive(a.drop_first(), b.drop_first(), c.drop_first());
        }
    }
}

pub proof fn lemma_lex_total(a: Seq<char>, b: Seq<char>)
    requires
        a != b,
    ensures
        lex_lt(a, b) || lex_lt(b, a),
    decreases a.len(),
{
    if a.len() == 0 && b.len() == 0 {
        assert(a =~= b);
    }
    if a.len() > 0 && b.len() > 0 && a[0] == b[0] {
        if a.drop_first() == b.drop_first() {
            assert(a =~= seq![a[0]] + a.drop_first());
            assert(b =~= seq![b[0]] + b.drop_first());
        }
        lemma_lex_total(a.drop_first(), b.drop_first());
    }

}

/// Line `i` goes before line `j`: a smaller key, or an equal key and an
/// earlier position.
pub open spec fn goes_before(keys: Seq<Seq<char>>, i: int, j: int) -> bool {
    lex_lt(keys[i], keys[j]) || (keys[i] == keys[j] && i < j)
}

proof fn lemma_goes_before_transitive(keys: Seq<Seq<char>>, i: int, j: int, k: int)
    requires
        goes_before(keys, i, j),
        goes_before(keys, j, k),
    ensures
        goes_before(keys, i, k),
{
    if lex_lt(keys[i], keys[j]) && lex_lt(keys[j], keys[k]) {
        lemma_lex_transitive(keys[i], keys[j], keys[k]);
    }
}

/// `order` lists each position below `n` once, sorted by `goes_before`.
pub open spec fn sorted_order(keys: Seq<Seq<char>>, order: Seq<usize>, n: int) -> bool {
    &&& order.len() == n
    &&& forall|a: int| 0 <= a < order.len() ==> 0 <= #[trigger] order[a] < n
    &&& forall|a: int, b: int| 0 <= a < b < order.len() ==> order[a] != order[b]
    &&& forall|a: int, b: int| 0 <= a < b < order.len() ==> goes_before(keys, #[trigger] order[a] as int, #[trigger] order[b] as int)
}

/// `out` holds the lines in a sorted order.
pub open spec fn sorted_lines(lines: Seq<Seq<char>>, keys: Seq<Seq<char>>, out: Seq<Seq<char>>) -> bool {
    exists|order: Seq<usize>| #[trigger] sorted_order(keys, order, lines.len() as int)
        && out.len() == order.len()
        && forall|k: int| 0 <= k < out.len() ==> #[trigger] out[k] == lines[order[k] as int]
}

/// The lines of `s`, in order.
pub fn split_lines(s: &str) -> (r: Vec<String>)
    ensures
        r@.map_values(|l: String| l@) == lines_of(s@),
{
    let v = chars_of(s);
    let mut done: Vec<String> = Vec::new();
    let mut start: usize = 0;
    let mut i: usize = 0;
    while i < v.len()
        invariant
            v@ == s@,
            start <= i <= v@.len(),
            done@.map_values(|l: String| l@) == split_state(v@.take(i as int)).0,
            v@.subrange(start as int, i as int) == split_state(v@.take(i as int)).1,
        decreases v@.len() - i,
    {
        let ghost pre = v@.take(i as int);
        assert(v@.take(i + 1).drop_last() =~= pre);
        if v[i] == '\n' {
            let end = if i > start && v[i - 1] == '\r' { i - 1 } else { i };
            let line = string_from(&v, start, end);
            let ghost before = done@;
            done.push(line);
            proof {
                assert(strip_cr(v@.subrange(start as int, i as int)) =~= v@.subrange(start as int, end as int));
                assert(done@.map_values(|l: String| l@) =~= before.map_values(|l: String| l@).push(line@));
            }
            start = i + 1;
        } else {
            assert(v@.subrange(start as int, i + 1) =~= v@.subrange(start as int, i as int).push(v@[i as int]));
        }
        i = i + 1;
        assert(v@.subrange(start as int, i as int) == split_state(v@.take(i as int)).1);
    }
    assert(v@.take(v@.len() as int) =~= v@);
    if start < v.len() {
        let line = string_from(&v, start, v.len());
        let ghost before = done@;
        done.push(line);
        assert(done@.map_values(|l: String| l@) =~= before.map_values(|l: String| l@).push(line@));
    }
    done
}

/// Whether `a` comes before `b` in `str` order.
fn lex_less(a: &Vec<char>, b: &Vec<char>) -> (r: bool)
    ensures
        r == lex_lt(a@, b@),
{
    let mut i: usize = 0;
    assert(a@.skip(0) =~= a@);
    assert(b@.skip(0) =~= b@);
    while i < a.len() && i < b.len()
        invariant
            i <= a@.len(),
            i <= b@.len(),
            a@.subrange(0, i as int) == b@.subrange(0, i as int),
            lex_lt(a@, b@) == lex_lt(a@.skip(i as int), b@.skip(i as int)),
        decreases a@.len() - i,
    {
        let ghost sa = a@.skip(i as int);
        let ghost sb = b@.skip(i as int);
        assert(sa[0] == a@[i as int]);
        assert(sb[0] == b@[i as int]);
        if a[i] != b[i] {
            return a[i] < b[i];
        }
        assert(sa.drop_first() =~= a@.skip(i + 1));
        assert(sb.drop_first() =~= b@.skip(i + 1));
        assert(a@.subrange(0, i + 1) =~= a@.subrange(0, i as int).push(a@[i as int]));
        assert(b@.subrange(0, i + 1) =~= b@.subrange(0, i as int).push(b@[i as int]));
        i = i + 1;
    }
    assert(a@.skip(i as int).len() == a@.len() - i);
    assert(b@.skip(i as int).len() == b@.len() - i);
    i == a.len() && i < b.len()
}

/// The positions of `keys` in sorted order, by insertion.
fn sort_order(keys: &Vec<Vec<char>>) -> (order: Vec<usize>)
    ensures
        sorted_order(keys@.map_values(|k: Vec<char>| k@), order@, keys@.len() as int),
{
    let ghost ks = keys@.map_values(|k: Vec<char>| k@);
    let mut order: Vec<usize> = Vec::new();
    let mut n: usize = 0;
    while n < keys.len()
        invariant
            n <= keys@.len(),
            ks == keys@.map_values(|k: Vec<char>| k@),
            sorted_order(ks, order@, n as int),
        decreases keys@.len() - n,
    {
        let mut pos: usize = order.len();
        while pos > 0 && lex_less(&keys[n], &keys[order[pos - 1]])
            invariant
                n < keys@.len(),
                ks == keys@.map_values(|k: Vec<char>| k@),
                sorted_order(ks, order@, n as int),
                pos <= order@.len(),
                forall|a: int| pos <= a < order@.len() ==> lex_lt(ks[n as int], ks[#[trigger] order@[a] as int]),
            decreases pos,
        {
            assert(ks[order@[pos - 1] as int] == keys@[order@[pos - 1] as int]@);
            pos = pos - 1;
        }
        proof {
            if pos > 0 {
                assert(ks[order@[pos - 1] as int] == keys@[order@[pos - 1] as int]@);
                assert(!lex_lt(ks[n as int], ks[order@[pos - 1] as int]));
            }
        }
        let ghost before = order@;
        order.insert(pos, n);
        proof {
            assert forall|a: int| 0 <= a < order@.len() implies 0 <= #[trigger] order@[a] < n + 1 by {
                if a < pos { assert(order@[a] == before[a]); }
                else if a > pos { assert(order@[a] == before[a - 1]); }
            }
            assert forall|a: int, b: int| 0 <= a < b < order@.len() implies order@[a] != order@[b] by {
                if a < pos { assert(order@[a] == before[a]); }
                else if a > pos { assert(order@[a] == before[a - 1]); }
                if b < pos { assert(order@[b] == before[b]); }
                else if b > pos { assert(order@[b] == before[b - 1]); }
            }
            // Whatever precedes the new position goes before the new line.
            assert forall|a: int| 0 <= a < pos implies goes_before(ks, before[a] as int, n as int) by {
                let last = before[pos - 1] as int;
                if !lex_lt(ks[last], ks[n as int]) && ks[last] != ks[n as int] {
                    lemma_lex_total(ks[last], ks[n as int]);
                }
                assert(goes_before(ks, last, n as int));
                if a < pos - 1 {
                    assert(goes_before(ks, before[a] as int, last));
                    lemma_goes_before_transitive(ks, before[a] as int, last, n as int);
                }
            }
            assert forall|a: int, b: int| 0 <= a < b < order@.len() implies
                goes_before(ks, #[trigger] order@[a] as int, #[trigger] order@[b] as int) by {
                if a < pos { assert(order@[a] == before[a]); }
                else if a > pos { assert(order@[a] == before[a - 1]); }
                if b < pos { assert(order@[b] == before[b]); }
                else if b > pos { assert(order@[b] == before[b - 1]); }
                if a == pos {
                    assert(lex_lt(ks[n as int], ks[before[b - 1] as int]));
                }
                if b == pos {
                    assert(goes_before(ks, before[a] as int, n as int));
                }
            }
        }
        n = n + 1;
    }
    order
}

/// The lowercase form of each line.
pub open spec fn lowercase_all(ls: Seq<Seq<char>>) -> Seq<Seq<char>> {
    ls.map_values(|l: Seq<char>| lowercase(l))
}

/// The lines of `text` sorted by their lowercase form, lines with the same
/// lowercase form keeping their order, joined with `\n`.
pub fn sort_lines(text: &str) -> (r: String)
    ensures
        exists|out: Seq<Seq<char>>|
            #[trigger] sorted_lines(lines_of(text@), lowercase_all(lines_of(text@)), out)
            && r@ == joined(out),
{
    let lines = split_lines(text);
    let ghost ls = lines@.map_values(|l: String| l@);
    let mut keys: Vec<Vec<char>> = Vec::new();
    let mut i: usize = 0;
    while i < lines.len()
        invariant
            i <= lines@.len(),
            keys@.len() == i,
            forall|k: int| 0 <= k < i ==> (#[trigger] keys@[k])@ == lowercase(lines@[k]@),
        decreases lines@.len() - i,
    {
        let key = to_lowercase(lines[i].as_str());
        keys.push(chars_of(key.as_str()));
        i = i + 1;
    }
    let ghost ks = keys@.map_values(|k: Vec<char>| k@);
    assert(ks =~= lowercase_all(ls));
    let order = sort_order(&keys);
    let mut out: Vec<String> = Vec::new();
    let mut k: usize = 0;
    while k < order.len()
        invariant
            sorted_order(ks, order@, lines@.len() as int),
            k <= order@.len(),
            out@.len() == k,
            forall|m: int| 0 <= m < k ==> (#[trigger] out@[m])@ == lines@[order@[m] as int]@,
        decreases order@.len() - k,
    {
        out.push(copy_str(lines[order[k]].as_str()));
        k = k + 1;
    }
    let ghost os = out@.map_values(|l: String| l@);
    assert(sorted_lines(ls, ks, os));
    join_lines(&out)
}

/// The lines joined with `\n` between them.
pub open spec fn joined(lines: Seq<Seq<char>>) -> Seq<char>
    decreases lines.len(),
{
    if lines.len() == 0 {
        Seq::empty()
    } else if lines.len() == 1 {
        lines[0]
    } else {
        joined(lines.drop_last()) + seq!['\n'] + lines.last()
    }
}

/// The lines joined with `\n` between them.
pub fn join_lines(lines: &Vec<String>) -> (r: String)
    ensures
        r@ == joined(lines@.map_values(|l: String| l@)),
{
    let ghost ls = lines@.map_values(|l: String| l@);
    let mut r = String::new();
    let mut i: usize = 0;
    while i < lines.len()
        invariant
            i <= lines@.len(),
            ls == lines@.map_values(|l: String| l@),
            r@ == joined(ls.take(i as int)),
        decreases lines@.len() - i,
    {
        assert(ls.take(i + 1).drop_last() =~= ls.take(i as int));
        let line = chars_of(lines[i].as_str());
        if i > 0 {
            let mut nl: Vec<char> = Vec::new();
            nl.push('\n');
            push_all(&mut r, &nl);
        }
        push_all(&mut r, &line);
        proof {
            if i == 0 {
                assert(r@ =~= joined(ls.take(1)));
            } else {
                assert(r@ =~= joined(ls.take(i + 1)));
            }
        }
        i = i + 1;
    }
    assert(ls.take(lines@.len() as int) =~= ls);
    r
}

/// The strings joined with `sep` between them.
pub open spec fn joined_by(parts: Seq<Seq<char>>, sep: char) -> Seq<char>
    decreases parts.len(),
{
    if parts.len() == 0 {
        Seq::empty()
    } else if parts.len() == 1 {
        parts[0]
    } else {
        joined_by(parts.drop_last(), sep) + seq![sep] + parts.last()
    }
}

/// The strings joined with `sep` between them.
pub fn join_with(parts: &Vec<String>, sep: char) -> (r: String)
    ensures
        r@ == joined_by(parts@.map_values(|l: String| l@), sep),
{
    let ghost ls = parts@.map_values(|l: String| l@);
    let mut r = String::new();
    let mut i: usize = 0;
    while i < parts.len()
        invariant
            i <= parts@.len(),
            ls == parts@.map_values(|l: String| l@),
            r@ == joined_by(ls.take(i as int), sep),
        decreases parts@.len() - i,
    {
        assert(ls.take(i + 1).drop_last() =~= ls.take(i as int));
        let piece = chars_of(parts[i].as_str());
        if i > 0 {
            let mut s: Vec<char> = Vec::new();
            s.push(sep);
            push_all(&mut r, &s);
        }
        push_all(&mut r, &piece);
        proof {
            if i == 0 {
                assert(r@ =~= joined_by(ls.take(1), sep));
            } else {
                assert(r@ =~= joined_by(ls.take(i + 1), sep));
            }
        }
        i = i + 1;
    }
    assert(ls.take(parts@.len() as int) =~= ls);
    r
}

} // verus!

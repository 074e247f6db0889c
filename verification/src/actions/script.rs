//! Scripts: a rendered program run by an interpreter, whose last line of
//! output decides a filter or names where a file went.

use vstd::prelude::*;
use crate::lines::{split_lines, lines_of};
use crate::templates::Template;
use crate::text::{lowercase, to_lowercase, str_eq, chars_of, string_from};

verus! {

/// A script: the interpreter, its arguments, and the template of the program.
#[derive(Debug, PartialEq, Eq)]
pub struct Script {
    pub interpreter: String,
    pub args: Vec<String>,
    pub content: Template,
}

/// Whether `c` has the Unicode `White_Space` property: the 25 code points
/// U+0009 to U+000D, U+0020, U+0085, U+00A0, U+1680, U+2000 to U+200A,
/// U+2028, U+2029, U+202F, U+205F and U+3000.
pub open spec fn is_white_space(c: char) -> bool {
    let n = c as u32;
    (0x9 <= n && n <= 0xD) || n == 0x20 || n == 0x85 || n == 0xA0 || n == 0x1680
        || (0x2000 <= n && n <= 0x200A) || n == 0x2028 || n == 0x2029 || n == 0x202F
        || n == 0x205F || n == 0x3000
}

/// `s` without its leading whitespace.
pub open spec fn trim_front(s: Seq<char>) -> Seq<char>
    decreases s.len(),
{
    if s.len() > 0 && is_white_space(s[0]) { trim_front(s.drop_first()) } else { s }
}

/// `s` without its trailing whitespace.
pub open spec fn trim_back(s: Seq<char>) -> Seq<char>
    decreases s.len(),
{
    if s.len() > 0 && is_white_space(s.last()) { trim_back(s.drop_last()) } else { s }
}

/// A string without its leading and trailing whitespace, as `str::trim`
/// gives it.
pub open spec fn trimmed(s: Seq<char>) -> Seq<char> {
    trim_back(trim_front(s))
}

/// Whether `c` has the Unicode `White_Space` property.
fn is_white_space_exec(c: char) -> (b: bool)
    ensures
        b == is_white_space(c),
{
    let n = c as u32;
    (0x9 <= n && n <= 0xD) || n == 0x20 || n == 0x85 || n == 0xA0 || n == 0x1680
        || (0x2000 <= n && n <= 0x200A) || n == 0x2028 || n == 0x2029 || n == 0x202F
        || n == 0x205F || n == 0x3000
}

/// `s` without its leading and trailing whitespace, as `str::trim` gives it.
fn trim(s: &str) -> (r: String)
    ensures
        r@ == trimmed(s@),
{
    let v = chars_of(s);
    let mut lo: usize = 0;
    assert(v@.skip(0) =~= v@);
    while lo < v.len() && is_white_space_exec(v[lo])
        invariant
            v@ == s@,
            lo <= v@.len(),
            trim_front(s@) == trim_front(v@.skip(lo as int)),
        decreases v@.len() - lo,
    {
        assert(v@.skip(lo as int).drop_first() =~= v@.skip(lo + 1));
        lo = lo + 1;
    }
    let ghost front = v@.skip(lo as int);
    proof {
        if lo < v.len() {
            assert(front[0] == v@[lo as int]);
        }
        assert(trim_front(front) == front);
    }
    let mut hi: usize = v.len();
    assert(v@.subrange(lo as int, hi as int) =~= front);
    while hi > lo && is_white_space_exec(v[hi - 1])
        invariant
            v@ == s@,
            lo <= hi <= v@.len(),
            trim_back(front) == trim_back(v@.subrange(lo as int, hi as int)),
        decreases hi - lo,
    {
        assert(v@.subrange(lo as int, hi as int).drop_last() =~= v@.subrange(lo as int, hi - 1));
        assert(v@.subrange(lo as int, hi as int).last() == v@[hi - 1]);
        hi = hi - 1;
    }
    proof {
        let m = v@.subrange(lo as int, hi as int);
        if hi > lo {
            assert(m.last() == v@[hi - 1]);
        }
        assert(trim_back(m) == m);
    }
    string_from(&v, lo, hi)
}

/// The last line a script printed, if it printed one.
pub open spec fn last_line(out: Seq<char>) -> Option<Seq<char>> {
    if lines_of(out).len() > 0 { Some(lines_of(out).last()) } else { None }
}

/// The filter verdict read from a script's standard output: no line at all
/// reads as `false`; a last line that is `true` or `false` (trimmed, in any
/// case) reads as that; any other last line gives no verdict.
pub open spec fn script_verdict(out: Seq<char>) -> Option<bool> {
    match last_line(out) {
        None => Some(false),
        Some(l) => {
            let w = lowercase(trimmed(l));
            if w == "true"@ { Some(true) } else if w == "false"@ { Some(false) } else { None }
        },
    }
}

impl Script {
    /// A script for the interpreter with the program `content`, and no
    /// arguments.
    pub fn new(interpreter: &str, content: Template) -> (s: Script)
        ensures
            s.interpreter@ == interpreter@,
            s.args@.len() == 0,
            s.content == content,
    {
        Script { interpreter: crate::text::copy_str(interpreter), args: Vec::new(), content }
    }

    /// The last line the script printed.
    fn last_printed(out: &str) -> (r: Option<String>)
        ensures
            crate::text::opt_chars(r) == last_line(out@),
    {
        let mut lines = split_lines(out);
        proof {
            assert(lines@.len() == lines_of(out@).len());
        }
        if lines.len() == 0 {
            None
        } else {
            let ghost ls = lines@;
            let l = lines.pop();
            proof {
                assert(ls.map_values(|l: String| l@).last() == ls.last()@);
            }
            l
        }
    }

    /// The filter verdict of what the script printed; `None` when its last
    /// line is neither `true` nor `false`, which the caller reports as a
    /// failed script.
    pub fn verdict(out: &str) -> (r: Option<bool>)
        ensures
            r == script_verdict(out@),
    {
        match Self::last_printed(out) {
            None => Some(false),
            Some(l) => {
                let t = trim(l.as_str());
                let w = to_lowercase(t.as_str());
                if str_eq(w.as_str(), "true") {
                    Some(true)
                } else if str_eq(w.as_str(), "false") {
                    Some(false)
                } else {
                    None
                }
            }
        }
    }

    /// Where the script says the file went: its last line, trimmed.
    pub fn destination(out: &str) -> (r: Option<String>)
        ensures
            r matches Some(s) ==> (last_line(out@) matches Some(l) && s@ == trimmed(l)),
            r is None <==> last_line(out@) is None,
    {
        match Self::last_printed(out) {
            None => None,
            Some(l) => Some(trim(l.as_str())),
        }
    }
}

} // verus!

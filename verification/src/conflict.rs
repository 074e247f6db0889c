//! How a naming conflict is resolved when a file should go where another
//! already is: overwrite it, skip the file, or pick the first free
//! `stem (n).ext` name.

use vstd::prelude::*;
use crate::path::{
    spec_file_stem, spec_extension, spec_with_file_name, file_stem, extension, with_file_name,
    lemma_name_bounds, has_name, name_start, name_end, lemma_last_dot_bounds,
    spec_join,
};
use crate::text::{decimal, decimal_string, concat, lemma_decimal_injective, copy_str, listed, is_listed};

verus! {

/// What to do when the destination of a file already exists.
#[derive(PartialEq, Eq, Structural, Debug, Clone, Copy)]
pub enum ConflictOption {
    Overwrite,
    Skip,
    Rename,
}

/// The option a configuration names.
pub open spec fn named_option(s: Seq<char>) -> Option<ConflictOption> {
    if s == "overwrite"@ {
        Some(ConflictOption::Overwrite)
    } else if s == "skip"@ {
        Some(ConflictOption::Skip)
    } else if s == "rename"@ {
        Some(ConflictOption::Rename)
    } else {
        None
    }
}

impl ConflictOption {
    /// The option named `s`: `overwrite`, `skip` or `rename`; any other name
    /// is refused with `invalid value`.
    pub fn from_str(s: &str) -> (r: Result<ConflictOption, String>)
        ensures
            r matches Ok(o) ==> named_option(s@) == Some(o),
            r is Err <==> named_option(s@) is None,
            r matches Err(e) ==> e@ == "invalid value"@,
    {
        if crate::text::str_eq(s, "overwrite") {
            Ok(ConflictOption::Overwrite)
        } else if crate::text::str_eq(s, "skip") {
            Ok(ConflictOption::Skip)
        } else if crate::text::str_eq(s, "rename") {
            Ok(ConflictOption::Rename)
        } else {
            Err(String::from_str("invalid value"))
        }
    }

    /// The option used when none is configured: `Rename`.
    pub fn default_option() -> (r: ConflictOption)
        ensures
            r == ConflictOption::Rename,
    {
        ConflictOption::Rename
    }
}

/// The extension used in renamed files: the path's extension, or nothing.
pub open spec fn ext_or_empty(p: Seq<char>) -> Seq<char> {
    match spec_extension(p) {
        Some(e) => e,
        None => seq![],
    }
}

/// The `n`-th alternative file name: `stem(n)` or `stem(n).ext`, with the
/// separator `sep` between the stem and the counter.
pub open spec fn candidate_name(stem: Seq<char>, sep: Seq<char>, ext: Seq<char>, n: nat) -> Seq<char> {
    if ext.len() == 0 {
        stem + sep + seq!['('] + decimal(n) + seq![')']
    } else {
        stem + sep + seq!['('] + decimal(n) + seq![')', '.'] + ext
    }
}

/// The `n`-th alternative path for `p`, in the same directory.
pub open spec fn candidate(p: Seq<char>, sep: Seq<char>, n: nat) -> Seq<char> {
    spec_with_file_name(p, candidate_name(spec_file_stem(p).unwrap(), sep, ext_or_empty(p), n))
}

/// `n` is the first number whose alternative path is not listed.
pub open spec fn first_free(existing: Seq<String>, p: Seq<char>, sep: Seq<char>, n: nat) -> bool {
    &&& n >= 1
    &&& !listed(existing, candidate(p, sep, n))
    &&& forall|m: nat| 1 <= m < n ==> listed(existing, #[trigger] candidate(p, sep, m))
}

/// The separator between a stem and its counter: a space.
pub open spec fn default_separator() -> Seq<char> {
    seq![' ']
}

/// What resolving a conflict for `p` gives, given the listed paths, with the
/// default separator.
pub open spec fn resolved(opt: ConflictOption, existing: Seq<String>, p: Seq<char>, r: Option<Seq<char>>) -> bool {
    resolved_with(opt, default_separator(), existing, p, r)
}

/// What resolving a conflict for `p` gives, given the listed paths and the
/// separator between a stem and its counter.
pub open spec fn resolved_with(opt: ConflictOption, sep: Seq<char>, existing: Seq<String>, p: Seq<char>, r: Option<Seq<char>>) -> bool {
    match opt {
        ConflictOption::Skip => r is None,
        ConflictOption::Overwrite => r == Some(p),
        ConflictOption::Rename => {
            if spec_file_stem(p) is None {
                r is None
            } else if !listed(existing, p) {
                r == Some(p)
            } else {
                exists|n: nat| first_free(existing, p, sep, n) && r == Some(#[trigger] candidate(p, sep, n))
            }
        },
    }
}

proof fn lemma_seq_append_cancel(a: Seq<char>, x: Seq<char>, y: Seq<char>)
    requires
        a + x == a + y,
    ensures
        x == y,
{
    assert(x =~= (a + x).subrange(a.len() as int, (a + x).len() as int));
    assert(y =~= (a + y).subrange(a.len() as int, (a + y).len() as int));
}

/// Different numbers give different alternative names.
proof fn lemma_names_distinct(stem: Seq<char>, sep: Seq<char>, ext: Seq<char>, n: nat, m: nat)
    requires
        n != m,
    ensures
        candidate_name(stem, sep, ext, n) != candidate_name(stem, sep, ext, m),
{
    let a = stem + sep + seq!['('];
    let dn = decimal(n);
    let dm = decimal(m);
    let xn = candidate_name(stem, sep, ext, n);
    let xm = candidate_name(stem, sep, ext, m);
    let t: Seq<char> = if ext.len() == 0 { seq![')'] } else { seq![')', '.'] + ext };
    assert(xn =~= a + dn + t);
    assert(xm =~= a + dm + t);
    if xn == xm {
        if dn.len() == dm.len() {
            assert(dn =~= xn.subrange(a.len() as int, (a.len() + dn.len()) as int));
            assert(dm =~= xm.subrange(a.len() as int, (a.len() + dm.len()) as int));
            lemma_decimal_injective(n, m);
        } else {
            assert(xn.len() != xm.len());
        }
    }
}

/// Different numbers give different alternative paths.
pub proof fn lemma_candidates_distinct(p: Seq<char>, sep: Seq<char>, n: nat, m: nat)
    requires
        n != m,
        spec_file_stem(p) is Some,
    ensures
        candidate(p, sep, n) != candidate(p, sep, m),
{
    let stem = spec_file_stem(p).unwrap();
    let ext = ext_or_empty(p);
    let xn = candidate_name(stem, sep, ext, n);
    let xm = candidate_name(stem, sep, ext, m);
    lemma_names_distinct(stem, sep, ext, n, m);
    lemma_name_bounds(p);
    lemma_last_dot_bounds(p, name_start(p), name_end(p));
    crate::path::lemma_seg_start_bounds(p, crate::path::front_len(p), name_end(p));
    crate::path::lemma_trim_end_bounds(p, crate::path::front_len(p), p.len() as int);
    // Neither name starts with a path separator: both start with the stem,
    // which is not empty and holds none.
    assert(name_start(p) < name_end(p));
    assert(stem.len() > 0);
    assert(stem[0] == p[name_start(p)]);
    assert(xn[0] == stem[0]);
    assert(xm[0] == stem[0]);
    let base = if has_name(p) { crate::path::spec_parent(p).unwrap() } else { p };
    let slash: Seq<char> = if base.len() > 0 && base.last() != '/' { seq!['/'] } else { seq![] };
    assert(spec_join(base, xn) =~= (base + slash) + xn);
    assert(spec_join(base, xm) =~= (base + slash) + xm);
    if candidate(p, sep, n) == candidate(p, sep, m) {
        lemma_seq_append_cancel(base + slash, xn, xm);
    }
}

/// The `n`-th alternative name for a stem, a separator and an extension.
fn candidate_name_exec(stem: &str, sep: &str, ext: &str, n: u64) -> (r: String)
    ensures
        r@ == candidate_name(stem@, sep@, ext@, n as nat),
{
    let with_sep = concat(stem, sep);
    let open = concat(with_sep.as_str(), "(");
    let num = decimal_string(n);
    let with_num = concat(open.as_str(), num.as_str());
    if ext.unicode_len() == 0 {
        let r = concat(with_num.as_str(), ")");
        proof {
            reveal_strlit("(");
            reveal_strlit(")");
            assert(r@ =~= candidate_name(stem@, sep@, ext@, n as nat));
        }
        r
    } else {
        let closed = concat(with_num.as_str(), ").");
        let r = concat(closed.as_str(), ext);
        proof {
            reveal_strlit("(");
            reveal_strlit(").");
            assert(r@ =~= candidate_name(stem@, sep@, ext@, n as nat));
        }
        r
    }
}

impl ConflictOption {
    /// Where a file bound for `target_path` should go, given the paths that
    /// already exist: `None` to leave it where it is, `Some(path)` otherwise.
    ///
    /// `Skip` gives `None`; `Overwrite` gives the target itself; `Rename`
    /// gives the target when it is free, and else the first free
    /// `stem (n)` / `stem (n).ext` beside it, counting from 1. A target
    /// without a file name gives `None` under `Rename`.
    pub fn resolve_naming_conflict(&self, target_path: &str, existing: &Vec<String>) -> (r: Option<String>)
        requires
            existing.len() < u64::MAX,
        ensures
            resolved(*self, existing@, target_path@, match r { Some(s) => Some(s@), None => None }),
    {
        proof {
            reveal_strlit(" ");
            assert(" "@ =~= default_separator());
        }
        self.resolve_with_separator(target_path, existing, " ")
    }

    /// As `resolve_naming_conflict`, with `sep` in place of the space between
    /// the stem and the counter of a renamed file.
    pub fn resolve_with_separator(&self, target_path: &str, existing: &Vec<String>, sep: &str) -> (r: Option<String>)
        requires
            existing.len() < u64::MAX,
        ensures
            resolved_with(*self, sep@, existing@, target_path@, match r { Some(s) => Some(s@), None => None }),
    {
        match self {
            ConflictOption::Skip => None,
            ConflictOption::Overwrite => Some(copy_str(target_path)),
            ConflictOption::Rename => {
                let ext = match extension(target_path) {
                    Some(e) => e,
                    None => String::new(),
                };
                let stem = match file_stem(target_path) {
                    Some(s) => s,
                    None => return None,
                };
                if !is_listed(existing, target_path) {
                    return Some(copy_str(target_path));
                }
                let ghost p = target_path@;
                let ghost ev = existing@.map_values(|s: String| s@);
                let ghost all = ev.to_set();
                proof {
                    ev.lemma_cardinality_of_set();
                    assert forall|x: Seq<char>| all.contains(x) <==> listed(existing@, x) by {
                        if all.contains(x) {
                            assert(ev.contains(x));
                            let i = choose|i: int| 0 <= i < ev.len() && #[trigger] ev[i] == x;
                            assert(existing@[i]@ == x);
                        }
                        if listed(existing@, x) {
                            let i = choose|i: int| 0 <= i < existing@.len() && #[trigger] existing@[i]@ == x;
                            assert(ev[i] == x);
                            assert(ev.contains(x));
                        }
                    }
                }
                let ghost mut remaining = all;
                let mut n: u64 = 1;
                let mut path = with_file_name(target_path, candidate_name_exec(stem.as_str(), sep, ext.as_str(), n).as_str());
                while is_listed(existing, path.as_str())
                    invariant
                        p == target_path@,
                        spec_file_stem(p) == Some(stem@),
                        ext_or_empty(p) == ext@,
                        all.finite(),
                        all.len() <= existing.len(),
                        1 <= n,
                        (n - 1) + remaining.len() == all.len(),
                        remaining.finite(),
                        remaining.subset_of(all),
                        forall|x: Seq<char>| all.contains(x) <==> listed(existing@, x),
                        forall|x: Seq<char>| #[trigger] remaining.contains(x) <==>
                            (all.contains(x) && forall|m: nat| 1 <= m < n ==> x != candidate(p, sep@, m)),
                        forall|m: nat| 1 <= m < n ==> listed(existing@, #[trigger] candidate(p, sep@, m)),
                        path@ == candidate(p, sep@, n as nat),
                        existing.len() < u64::MAX,
                    decreases remaining.len(),
                {
                    proof {
                        let c = candidate(p, sep@, n as nat);
                        assert forall|m: nat| 1 <= m < n implies c != candidate(p, sep@, m) by {
                            lemma_candidates_distinct(p, sep@, n as nat, m);
                        }
                        assert(remaining.contains(c));
                        let old_remaining = remaining;
                        remaining = remaining.remove(c);
                        assert(remaining.len() == old_remaining.len() - 1);
                        assert forall|x: Seq<char>| #[trigger] remaining.contains(x) <==>
                            (all.contains(x) && forall|m: nat| 1 <= m < n + 1 ==> x != candidate(p, sep@, m)) by {
                            if remaining.contains(x) {
                                assert(old_remaining.contains(x));
                                assert forall|m: nat| 1 <= m < n + 1 implies x != candidate(p, sep@, m) by {
                                    if m == n {
                                    }
                                }
                            }
                            if all.contains(x) && forall|m: nat| 1 <= m < n + 1 ==> x != candidate(p, sep@, m) {
                                assert(x != c);
                                assert(old_remaining.contains(x));
                            }
                        }
                        vstd::set_lib::lemma_len_subset(remaining, all);
                    }
                    n = n + 1;
                    path = with_file_name(target_path, candidate_name_exec(stem.as_str(), sep, ext.as_str(), n).as_str());
                }
                proof {
                    assert(first_free(existing@, p, sep@, n as nat));
                }
                Some(path)
            },
        }
    }
}

/// A file is never renamed onto an existing path: whatever `Rename` gives
/// is free, and it is the target itself whenever the target is free.
pub proof fn law_rename_is_free(existing: Seq<String>, p: Seq<char>, sep: Seq<char>, r: Seq<char>)
    requires
        resolved_with(ConflictOption::Rename, sep, existing, p, Some(r)),
    ensures
        !listed(existing, r),
        !listed(existing, p) ==> r == p,
{
    if listed(existing, p) {
        let n = choose|n: nat| first_free(existing, p, sep, n) && Some(r) == Some(#[trigger] candidate(p, sep, n));
    }
}

/// `Skip` never gives a destination, and `Overwrite` always gives the
/// target itself.
pub proof fn law_skip_and_overwrite(existing: Seq<String>, p: Seq<char>, sep: Seq<char>, r: Option<Seq<char>>)
    ensures
        resolved_with(ConflictOption::Skip, sep, existing, p, r) <==> r is None,
        resolved_with(ConflictOption::Overwrite, sep, existing, p, r) <==> r == Some(p),
{
}

} // verus!

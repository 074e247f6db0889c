//! The `apply` mode: all or any of the filters (or actions), or all or any
//! of a chosen list of them, and how two optional modes combine.

use vstd::prelude::*;

verus! {

/// Which of a rule's filters (or actions) must hold.
#[derive(Debug, PartialEq, Eq)]
pub enum Apply {
    All,
    Any,
    AllOf(Vec<usize>),
    AnyOf(Vec<usize>),
}

/// The mathematical value of an `Apply`.
pub enum ApplyView {
    All,
    Any,
    AllOf(Seq<usize>),
    AnyOf(Seq<usize>),
}

impl View for Apply {
    type V = ApplyView;

    open spec fn view(&self) -> ApplyView {
        match self {
            Apply::All => ApplyView::All,
            Apply::Any => ApplyView::Any,
            Apply::AllOf(v) => ApplyView::AllOf(v@),
            Apply::AnyOf(v) => ApplyView::AnyOf(v@),
        }
    }
}

/// Why a mode could not be read from text.
#[derive(Debug, PartialEq, Eq, Structural)]
pub enum ApplyParseError {
    /// The text names no variant; only `all` and `any` are accepted.
    UnknownVariant,
}

/// Why a mode could not be read from a map.
#[derive(Debug, PartialEq, Eq)]
pub enum ApplyMapError {
    /// The key is neither `any_of` nor `all_of`.
    UnknownField(String),
    /// The map has no key.
    MissingField,
}

/// The view of an optional mode.
pub open spec fn opt_view(o: Option<Apply>) -> Option<ApplyView> {
    match o {
        Some(a) => Some(a@),
        None => None,
    }
}

/// Every element is smaller than the next ones: sorted, without repeats.
pub open spec fn strictly_sorted(s: Seq<usize>) -> bool {
    forall|i: int, j: int| 0 <= i < j < s.len() ==> s[i] < s[j]
}

/// `z` is the sorted list, without repeats, of what `x` or `y` holds.
pub open spec fn sorted_union(x: Seq<usize>, y: Seq<usize>, z: Seq<usize>) -> bool {
    &&& strictly_sorted(z)
    &&& forall|e: usize| z.contains(e) <==> (x.contains(e) || y.contains(e))
}

/// What combining an optional mode `l` with an optional mode `r` gives:
/// the default `All` when both are missing, the one that is there when one
/// is missing, the sorted union of two lists of the same kind, and else `r`.
pub open spec fn combined(l: Option<ApplyView>, r: Option<ApplyView>, res: Option<ApplyView>) -> bool {
    match (l, r) {
        (None, None) => res == Some(ApplyView::All),
        (Some(a), None) => res == Some(a),
        (None, Some(b)) => res == Some(b),
        (Some(ApplyView::AllOf(x)), Some(ApplyView::AllOf(y))) => {
            res matches Some(ApplyView::AllOf(z)) && sorted_union(x, y, z)
        },
        (Some(ApplyView::AnyOf(x)), Some(ApplyView::AnyOf(y))) => {
            res matches Some(ApplyView::AnyOf(z)) && sorted_union(x, y, z)
        },
        _ => res == r,
    }
}

/// A fresh copy of a list of indices.
pub fn copy_indices(v: &Vec<usize>) -> (r: Vec<usize>)
    ensures
        r@ == v@,
{
    let mut r: Vec<usize> = Vec::new();
    let mut i: usize = 0;
    while i < v.len()
        invariant
            i <= v.len(),
            r@ == v@.subrange(0, i as int),
        decreases v.len() - i,
    {
        r.push(v[i]);
        i = i + 1;
    }
    r
}

/// Puts `x` in its place in a sorted list without repeats, unless it is there.
fn insert_sorted(v: &mut Vec<usize>, x: usize)
    requires
        strictly_sorted(old(v)@),
    ensures
        strictly_sorted(final(v)@),
        forall|e: usize| final(v)@.contains(e) <==> (old(v)@.contains(e) || e == x),
{
    let mut i: usize = 0;
    while i < v.len() && v[i] < x
        invariant
            i <= v.len(),
            forall|k: int| 0 <= k < i ==> v@[k] < x,
        decreases v.len() - i,
    {
        i = i + 1;
    }
    if i < v.len() && v[i] == x {
        assert(v@[i as int] == x);
        return;
    }
    let ghost before = v@;
    assert(before == old(v)@);
    v.insert(i, x);
    proof {
        assert(v@ == before.insert(i as int, x));
        assert(v@.len() == before.len() + 1);
        assert(forall|k: int| 0 <= k < i ==> v@[k] == before[k]);
        assert(v@[i as int] == x);
        assert(forall|k: int| i < k < v@.len() ==> v@[k] == before[k - 1]);
        assert forall|a: int, b: int| 0 <= a < b < v@.len() implies v@[a] < v@[b] by {
            if b < i {
            } else if b == i {
            } else if a < i {
                assert(before[a] < x);
                assert(x <= before[i as int]);
            } else if a == i {
                assert(x <= before[i as int]);
            } else {
            }
        }
        assert forall|e: usize| v@.contains(e) <==> (before.contains(e) || e == x) by {
            if v@.contains(e) {
                let k = choose|k: int| 0 <= k < v@.len() && v@[k] == e;
                if k < i {
                    assert(before[k] == e);
                } else if k > i {
                    assert(before[k - 1] == e);
                }
            }
            if before.contains(e) {
                let k = choose|k: int| 0 <= k < before.len() && before[k] == e;
                if k < i {
                    assert(v@[k] == e);
                } else {
                    assert(v@[k + 1] == e);
                }
            }
            if e == x {
                assert(v@[i as int] == x);
            }
        }
    }
}

/// `e` is among the first `n` elements of `s`.
pub open spec fn in_prefix(s: Seq<usize>, n: int, e: usize) -> bool {
    exists|k: int| 0 <= k < n && #[trigger] s[k] == e
}

/// The sorted list, without repeats, of what `x` or `y` holds.
pub fn merge_indices(x: &Vec<usize>, y: &Vec<usize>) -> (z: Vec<usize>)
    ensures
        sorted_union(x@, y@, z@),
{
    let mut z: Vec<usize> = Vec::new();
    let mut i: usize = 0;
    while i < y.len()
        invariant
            i <= y.len(),
            strictly_sorted(z@),
            forall|e: usize| z@.contains(e) <==> in_prefix(y@, i as int, e),
        decreases y.len() - i,
    {
        insert_sorted(&mut z, y[i]);
        proof {
            assert forall|e: usize| z@.contains(e) <==> in_prefix(y@, i + 1, e) by {
                if in_prefix(y@, i + 1, e) {
                    let k = choose|k: int| 0 <= k < i + 1 && #[trigger] y@[k] == e;
                    if k < i {
                        assert(in_prefix(y@, i as int, e));
                    }
                }
                if in_prefix(y@, i as int, e) {
                    let k = choose|k: int| 0 <= k < i && #[trigger] y@[k] == e;
                    assert(in_prefix(y@, i + 1, e));
                }
                if e == y@[i as int] {
                    assert(in_prefix(y@, i + 1, e));
                }
            }
        }
        i = i + 1;
    }
    let mut j: usize = 0;
    while j < x.len()
        invariant
            j <= x.len(),
            strictly_sorted(z@),
            forall|e: usize| z@.contains(e) <==> (in_prefix(y@, y@.len() as int, e) || in_prefix(x@, j as int, e)),
        decreases x.len() - j,
    {
        insert_sorted(&mut z, x[j]);
        proof {
            assert forall|e: usize| z@.contains(e) <==> (in_prefix(y@, y@.len() as int, e) || in_prefix(x@, j + 1, e)) by {
                if in_prefix(x@, j + 1, e) {
                    let k = choose|k: int| 0 <= k < j + 1 && #[trigger] x@[k] == e;
                    if k < j {
                        assert(in_prefix(x@, j as int, e));
                    }
                }
                if in_prefix(x@, j as int, e) {
                    let k = choose|k: int| 0 <= k < j && #[trigger] x@[k] == e;
                    assert(in_prefix(x@, j + 1, e));
                }
                if e == x@[j as int] {
                    assert(in_prefix(x@, j + 1, e));
                }
            }
        }
        j = j + 1;
    }
    proof {
        assert forall|e: usize| z@.contains(e) <==> (x@.contains(e) || y@.contains(e)) by {
            if x@.contains(e) {
                let k = choose|k: int| 0 <= k < x@.len() && x@[k] == e;
                assert(in_prefix(x@, x@.len() as int, e));
            }
            if y@.contains(e) {
                let k = choose|k: int| 0 <= k < y@.len() && y@[k] == e;
                assert(in_prefix(y@, y@.len() as int, e));
            }
        }
    }
    z
}

impl Apply {
    /// The mode used when none is given: `All`.
    pub fn default() -> (r: Apply)
        ensures
            r@ == ApplyView::All,
    {
        Apply::All
    }

    /// A fresh copy of the mode.
    pub fn copy(&self) -> (r: Apply)
        ensures
            r@ == self@,
    {
        match self {
            Apply::All => Apply::All,
            Apply::Any => Apply::Any,
            Apply::AllOf(v) => Apply::AllOf(copy_indices(v)),
            Apply::AnyOf(v) => Apply::AnyOf(copy_indices(v)),
        }
    }

    /// Reads `all` or `any`; any other text is an unknown variant.
    pub fn from_str(s: &str) -> (r: Result<Apply, ApplyParseError>)
        ensures
            s@ == "all"@ ==> (r matches Ok(a) && a@ == ApplyView::All),
            s@ == "any"@ ==> (r matches Ok(a) && a@ == ApplyView::Any),
            s@ != "all"@ && s@ != "any"@ ==> r == Err::<Apply, ApplyParseError>(ApplyParseError::UnknownVariant),
    {
        proof {
            reveal_strlit("all");
            reveal_strlit("any");
            assert("any"@[1] != "all"@[1]);
        }
        if crate::text::str_eq(s, "all") {
            Ok(Apply::All)
        } else if crate::text::str_eq(s, "any") {
            Ok(Apply::Any)
        } else {
            Err(ApplyParseError::UnknownVariant)
        }
    }

    /// The mode written as a list of positions: all of them.
    pub fn from_seq(values: Vec<usize>) -> (r: Apply)
        ensures
            r@ == ApplyView::AllOf(values@),
    {
        Apply::AllOf(values)
    }

    /// The mode written as a map: its first key, `any_of` or `all_of`, with
    /// the positions under it; any other key is an unknown field, and an
    /// empty map misses the field.
    pub fn from_map(key: Option<&str>, values: Vec<usize>) -> (r: Result<Apply, ApplyMapError>)
        ensures
            match key {
                None => r == Err::<Apply, ApplyMapError>(ApplyMapError::MissingField),
                Some(k) => if k@ == "any_of"@ {
                    r matches Ok(a) && a@ == ApplyView::AnyOf(values@)
                } else if k@ == "all_of"@ {
                    r matches Ok(a) && a@ == ApplyView::AllOf(values@)
                } else {
                    r matches Err(ApplyMapError::UnknownField(f)) && f@ == k@
                },
            },
    {
        match key {
            None => Err(ApplyMapError::MissingField),
            Some(k) => {
                if crate::text::str_eq(k, "any_of") {
                    Ok(Apply::AnyOf(values))
                } else if crate::text::str_eq(k, "all_of") {
                    Ok(Apply::AllOf(values))
                } else {
                    Err(ApplyMapError::UnknownField(crate::text::copy_str(k)))
                }
            }
        }
    }

    /// The name of the mode: `all`, `any`, `all_of` or `any_of`.
    pub fn to_string(&self) -> (s: String)
        ensures
            s@ == match self@ {
                ApplyView::All => "all"@,
                ApplyView::Any => "any"@,
                ApplyView::AllOf(_) => "all_of"@,
                ApplyView::AnyOf(_) => "any_of"@,
            },
    {
        match self {
            Apply::All => crate::text::copy_str("all"),
            Apply::Any => crate::text::copy_str("any"),
            Apply::AllOf(_) => crate::text::copy_str("all_of"),
            Apply::AnyOf(_) => crate::text::copy_str("any_of"),
        }
    }
}

/// Combining two optional settings, the second one taking precedence.
pub trait AsOption<T>: Sized {
    /// `self` combined with `rhs`.
    fn combine(&self, rhs: &Self) -> Self;
}

impl AsOption<Apply> for Option<Apply> {
    fn combine(&self, rhs: &Self) -> (res: Self)
        ensures
            combined(opt_view(*self), opt_view(*rhs), opt_view(res)),
    {
        match (self, rhs) {
            (None, None) => Some(Apply::All),
            (Some(lhs), None) => Some(lhs.copy()),
            (None, Some(rhs)) => Some(rhs.copy()),
            (Some(Apply::AllOf(l)), Some(Apply::AllOf(r))) => Some(Apply::AllOf(merge_indices(l, r))),
            (Some(Apply::AnyOf(l)), Some(Apply::AnyOf(r))) => Some(Apply::AnyOf(merge_indices(l, r))),
            (Some(_), Some(rhs)) => Some(rhs.copy()),
        }
    }
}

/// Two sorted lists without repeats that hold the same elements are equal.
pub proof fn lemma_strictly_sorted_unique(a: Seq<usize>, b: Seq<usize>)
    requires
        strictly_sorted(a),
        strictly_sorted(b),
        forall|e: usize| a.contains(e) <==> b.contains(e),
    ensures
        a == b,
    decreases a.len(),
{
    if a.len() == 0 {
        if b.len() > 0 {
            assert(b.contains(b[0]));
        }
        assert(a =~= b);
    } else {
        assert(a.contains(a[0]));
        assert(b.contains(a[0]));
        assert(b.len() > 0);
        assert(b.contains(b[0]));
        assert(a.contains(b[0]));
        let ka = choose|k: int| 0 <= k < a.len() && a[k] == b[0];
        let kb = choose|k: int| 0 <= k < b.len() && b[k] == a[0];
        if kb > 0 {
            assert(b[0] < a[0]);
            assert(ka > 0 ==> a[0] < a[ka]);
        }
        assert(a[0] == b[0]);
        let a1 = a.drop_first();
        let b1 = b.drop_first();
        assert forall|e: usize| a1.contains(e) <==> b1.contains(e) by {
            if a1.contains(e) {
                let k = choose|k: int| 0 <= k < a1.len() && a1[k] == e;
                assert(a[k + 1] == e);
                assert(a.contains(e));
                let j = choose|j: int| 0 <= j < b.len() && b[j] == e;
                assert(j != 0);
                assert(b1[j - 1] == e);
            }
            if b1.contains(e) {
                let k = choose|k: int| 0 <= k < b1.len() && b1[k] == e;
                assert(b[k + 1] == e);
                assert(b.contains(e));
                let j = choose|j: int| 0 <= j < a.len() && a[j] == e;
                assert(j != 0);
                assert(a1[j - 1] == e);
            }
        }
        lemma_strictly_sorted_unique(a1, b1);
        assert(a.len() == b.len());
        assert forall|i: int| 0 <= i < a.len() implies a[i] == b[i] by {
            if i > 0 {
                assert(a[i] == a1[i - 1]);
                assert(b[i] == b1[i - 1]);
            }
        }
        assert(a =~= b);
    }
}

/// Combining two lists of the same kind does not depend on their order:
/// `AllOf(x)` with `AllOf(y)` gives what `AllOf(y)` with `AllOf(x)` gives,
/// and likewise for `AnyOf`.
pub proof fn law_combine_lists_commute(l: Option<ApplyView>, r: Option<ApplyView>, res1: Option<ApplyView>, res2: Option<ApplyView>)
    requires
        (l matches Some(ApplyView::AllOf(_)) && r matches Some(ApplyView::AllOf(_)))
            || (l matches Some(ApplyView::AnyOf(_)) && r matches Some(ApplyView::AnyOf(_))),
        combined(l, r, res1),
        combined(r, l, res2),
    ensures
        res1 == res2,
{
    match (l, r, res1, res2) {
        (Some(ApplyView::AllOf(x)), Some(ApplyView::AllOf(y)), Some(ApplyView::AllOf(z1)), Some(ApplyView::AllOf(z2))) => {
            lemma_strictly_sorted_unique(z1, z2);
        },
        (Some(ApplyView::AnyOf(x)), Some(ApplyView::AnyOf(y)), Some(ApplyView::AnyOf(z1)), Some(ApplyView::AnyOf(z2))) => {
            lemma_strictly_sorted_unique(z1, z2);
        },
        _ => {},
    }
}

/// Combining a setting with nothing keeps the setting, whichever side
/// it is on; combining nothing with nothing gives the default `All`.
pub proof fn law_combine_missing(a: ApplyView, res1: Option<ApplyView>, res2: Option<ApplyView>, res3: Option<ApplyView>)
    requires
        combined(Some(a), None, res1),
        combined(None, Some(a), res2),
        combined(None, None, res3),
    ensures
        res1 == Some(a),
        res2 == Some(a),
        res3 == Some(ApplyView::All),
{
}

/// Combining a list with itself gives it sorted, without repeats: a second
/// combination with the same list changes nothing.
pub proof fn law_combine_settles(x: Seq<usize>, res1: Option<ApplyView>, res2: Option<ApplyView>)
    requires
        combined(Some(ApplyView::AllOf(x)), Some(ApplyView::AllOf(x)), res1),
        res1 matches Some(ApplyView::AllOf(z)) && combined(res1, res1, res2),
    ensures
        res2 == res1,
{
    match (res1, res2) {
        (Some(ApplyView::AllOf(z)), Some(ApplyView::AllOf(w))) => {
            lemma_strictly_sorted_unique(z, w);
        },
        _ => {},
    }
}

} // verus!

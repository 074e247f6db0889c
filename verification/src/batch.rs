//! Batches of files, and the steps that select, group and order them.
//!
//! A file in a batch is held as its path.

use vstd::prelude::*;
use crate::path::{extension, spec_extension};
use crate::text::{copy_str, str_eq};
use rand::seq::SliceRandom;

verus! {

/// Files handled together, in order.
#[derive(Debug, PartialEq, Eq)]
pub struct Batch {
    pub files: Vec<String>,
}

/// The paths of the files of a batch.
pub open spec fn paths(files: Seq<String>) -> Seq<Seq<char>> {
    files.map_values(|f: String| f@)
}

impl Batch {
    /// An empty batch.
    pub fn new() -> (b: Batch)
        ensures
            b.files@.len() == 0,
    {
        Batch { files: Vec::new() }
    }
}

/// Copies of the first `n` strings.
fn copy_all(v: &[String], n: usize) -> (r: Vec<String>)
    requires
        n <= v@.len(),
    ensures
        paths(r@) == paths(v@.subrange(0, n as int)),
{
    let mut out: Vec<String> = Vec::new();
    let mut i: usize = 0;
    while i < n
        invariant
            i <= n <= v@.len(),
            out@.len() == i,
            forall|j: int| 0 <= j < i ==> (#[trigger] out@[j])@ == v@[j]@,
        decreases n - i,
    {
        out.push(copy_str(v[i].as_str()));
        i = i + 1;
    }
    assert(paths(out@) =~= paths(v@.subrange(0, n as int)));
    out
}

/// Selects the first files of a batch.
#[derive(Debug, PartialEq, Eq)]
pub struct FirstSelector {
    pub n: usize,
}

impl FirstSelector {
    /// The first `n` files of the batch, in order (all of them when there are
    /// fewer).
    pub fn select(&self, batch: &Batch) -> (r: Result<Batch, core::convert::Infallible>)
        ensures
            r matches Ok(b) && paths(b.files@) == paths(batch.files@).take(
                if self.n < batch.files@.len() { self.n as int } else { batch.files@.len() as int }),
    {
        let k = if self.n < batch.files.len() { self.n } else { batch.files.len() };
        let files = copy_all(batch.files.as_slice(), k);
        proof {
            assert(paths(batch.files@.subrange(0, k as int)) =~= paths(batch.files@).take(k as int));
        }
        Ok(Batch { files })
    }
}

/// The group a file goes to: its extension, or `no_extension`.
pub open spec fn group_key(p: Seq<char>) -> Seq<char> {
    match spec_extension(p) {
        Some(e) => e,
        None => "no_extension"@,
    }
}

/// The files of `files` whose group is `k`, in order.
pub open spec fn group_of(files: Seq<Seq<char>>, k: Seq<char>) -> Seq<Seq<char>>
    decreases files.len(),
{
    if files.len() == 0 {
        files
    } else if group_key(files.last()) == k {
        group_of(files.drop_last(), k).push(files.last())
    } else {
        group_of(files.drop_last(), k)
    }
}

/// Groups files by their extension.
#[derive(Debug, PartialEq, Eq)]
pub struct ExtensionPartitioner;

/// The groups are those of `files`: one per key that occurs, with no key
/// twice, each holding the files of that key in order.
pub open spec fn partitioned(files: Seq<Seq<char>>, groups: Seq<(String, Batch)>) -> bool {
    &&& forall|a: int, b: int| 0 <= a < b < groups.len() ==> (#[trigger] groups[a]).0@ != (#[trigger] groups[b]).0@
    &&& forall|g: int| 0 <= g < groups.len() ==> paths((#[trigger] groups[g]).1.files@) == group_of(files, groups[g].0@)
    &&& forall|k: Seq<char>| #[trigger] has_group(groups, k) <==> key_occurs(files, k)
}

/// Some group has the key `k`.
pub open spec fn has_group(groups: Seq<(String, Batch)>, k: Seq<char>) -> bool {
    exists|g: int| 0 <= g < groups.len() && (#[trigger] groups[g]).0@ == k
}

/// Some file has the group key `k`.
pub open spec fn key_occurs(files: Seq<Seq<char>>, k: Seq<char>) -> bool {
    exists|j: int| 0 <= j < files.len() && group_key(#[trigger] files[j]) == k
}

/// The group key of a path.
fn group_key_exec(p: &str) -> (k: String)
    ensures
        k@ == group_key(p@),
{
    match extension(p) {
        Some(e) => e,
        None => String::from_str("no_extension"),
    }
}

proof fn lemma_group_of_empty(files: Seq<Seq<char>>, k: Seq<char>)
    requires
        forall|j: int| 0 <= j < files.len() ==> group_key(#[trigger] files[j]) != k,
    ensures
        group_of(files, k).len() == 0,
    decreases files.len(),
{
    if files.len() > 0 {
        assert forall|j: int| 0 <= j < files.drop_last().len() implies group_key(#[trigger] files.drop_last()[j]) != k by {
            assert(files.drop_last()[j] == files[j]);
        }
        lemma_group_of_empty(files.drop_last(), k);
        assert(files.last() == files[files.len() - 1]);
    }
}

proof fn lemma_key_occurs_push(pre: Seq<Seq<char>>, x: Seq<char>, k: Seq<char>)
    ensures
        key_occurs(pre.push(x), k) <==> (key_occurs(pre, k) || group_key(x) == k),
{
    let post = pre.push(x);
    if key_occurs(post, k) {
        let j = choose|j: int| 0 <= j < post.len() && group_key(#[trigger] post[j]) == k;
        if j < pre.len() {
            assert(post[j] == pre[j]);
        }
    }
    if key_occurs(pre, k) {
        let j = choose|j: int| 0 <= j < pre.len() && group_key(#[trigger] pre[j]) == k;
        assert(post[j] == pre[j]);
    }
    if group_key(x) == k {
        assert(post[pre.len() as int] == x);
    }
}

proof fn lemma_has_group_same_keys(a: Seq<(String, Batch)>, b: Seq<(String, Batch)>, k: Seq<char>)
    requires
        a.len() == b.len(),
        forall|g: int| 0 <= g < a.len() ==> (#[trigger] a[g]).0@ == b[g].0@,
    ensures
        has_group(a, k) == has_group(b, k),
{
    if has_group(a, k) {
        let g = choose|g: int| 0 <= g < a.len() && (#[trigger] a[g]).0@ == k;
        assert(b[g].0@ == k);
    }
    if has_group(b, k) {
        let g = choose|g: int| 0 <= g < b.len() && (#[trigger] b[g]).0@ == k;
        assert(a[g].0@ == k);
    }
}

proof fn lemma_has_group_push(a: Seq<(String, Batch)>, e: (String, Batch), k: Seq<char>)
    ensures
        has_group(a.push(e), k) <==> (has_group(a, k) || e.0@ == k),
{
    let b = a.push(e);
    if has_group(b, k) {
        let g = choose|g: int| 0 <= g < b.len() && (#[trigger] b[g]).0@ == k;
        if g < a.len() {
            assert(b[g] == a[g]);
        }
    }
    if has_group(a, k) {
        let g = choose|g: int| 0 <= g < a.len() && (#[trigger] a[g]).0@ == k;
        assert(b[g] == a[g]);
    }
    if e.0@ == k {
        assert(b[a.len() as int] == e);
    }
}

impl ExtensionPartitioner {
    /// The files of the batch grouped by extension, each group in the
    /// batch's order; files without an extension go to `no_extension`.
    pub fn partition(&self, batch: &Batch) -> (r: Result<Vec<(String, Batch)>, core::convert::Infallible>)
        ensures
            r matches Ok(groups) && partitioned(paths(batch.files@), groups@),
    {
        let ghost files = paths(batch.files@);
        let mut groups: Vec<(String, Batch)> = Vec::new();
        let mut i: usize = 0;
        while i < batch.files.len()
            invariant
                i <= batch.files@.len(),
                files == paths(batch.files@),
                partitioned(files.take(i as int), groups@),
            decreases batch.files@.len() - i,
        {
            let ghost pre = files.take(i as int);
            let ghost post = files.take(i + 1);
            proof {
                assert(post.drop_last() =~= pre);
                assert(post.last() == files[i as int]);
                assert(files[i as int] == batch.files@[i as int]@);
            }
            let f = &batch.files[i];
            let key = group_key_exec(f.as_str());
            let mut idx: usize = 0;
            let mut found = false;
            while idx < groups.len() && !found
                invariant
                    idx <= groups@.len(),
                    found ==> idx < groups@.len() && groups@[idx as int].0@ == key@,
                    !found ==> forall|g: int| 0 <= g < idx ==> (#[trigger] groups@[g]).0@ != key@,
                decreases groups@.len() - idx + (if found { 0int } else { 1int }),
            {
                if str_eq(groups[idx].0.as_str(), key.as_str()) {
                    found = true;
                } else {
                    idx = idx + 1;
                }
            }
            let ghost before = groups@;
            if found {
                assert(idx < groups@.len() && groups@[idx as int].0@ == key@);
                let (k, mut b) = groups.remove(idx);
                b.files.push(copy_str(f.as_str()));
                groups.insert(idx, (k, b));
                proof {
                    assert forall|g: int| 0 <= g < groups@.len() implies
                        (#[trigger] groups@[g]).0@ == before[g].0@ by {
                        if g != idx {
                            assert(groups@[g] == before[g]);
                        }
                    }
                    assert forall|g: int| 0 <= g < groups@.len() implies
                        paths((#[trigger] groups@[g]).1.files@) == group_of(post, groups@[g].0@) by {
                        if g == idx {
                            assert(paths(groups@[g].1.files@) =~= paths(before[g].1.files@).push(files[i as int]));
                        } else {
                            assert(groups@[g] == before[g]);
                            assert(before[g].0@ != key@);
                        }
                    }
                    assert forall|k2: Seq<char>| #[trigger] has_group(groups@, k2) <==> key_occurs(post, k2) by {
                        lemma_has_group_same_keys(groups@, before, k2);
                        lemma_key_occurs_push(pre, files[i as int], k2);
                        assert(post == pre.push(files[i as int]));
                        if k2 == key@ {
                            assert(before[idx as int].0@ == k2);
                        }
                        assert(has_group(before, k2) == key_occurs(pre, k2));
                    }
                    assert forall|a: int, c: int| 0 <= a < c < groups@.len() implies
                        (#[trigger] groups@[a]).0@ != (#[trigger] groups@[c]).0@ by {
                        assert(groups@[a].0@ == before[a].0@);
                        assert(groups@[c].0@ == before[c].0@);
                    }
                }
            } else {
                let mut b = Batch::new();
                b.files.push(copy_str(f.as_str()));
                groups.push((key, b));
                proof {
                    assert(!has_group(before, key@));
                    assert(!key_occurs(pre, key@));
                    assert forall|j: int| 0 <= j < pre.len() implies group_key(#[trigger] pre[j]) != key@ by {
                        if group_key(pre[j]) == key@ {
                            assert(key_occurs(pre, key@));
                        }
                    }
                    lemma_group_of_empty(pre, key@);
                    assert forall|g: int| 0 <= g < groups@.len() implies
                        paths((#[trigger] groups@[g]).1.files@) == group_of(post, groups@[g].0@) by {
                        if g == before.len() {
                            assert(paths(groups@[g].1.files@) =~= group_of(pre, key@).push(files[i as int]));
                        } else {
                            assert(groups@[g] == before[g]);
                        }
                    }
                    assert forall|k2: Seq<char>| #[trigger] has_group(groups@, k2) <==> key_occurs(post, k2) by {
                        lemma_has_group_push(before, groups@[before.len() as int], k2);
                        assert(groups@ == before.push(groups@[before.len() as int]));
                        lemma_key_occurs_push(pre, files[i as int], k2);
                        assert(post == pre.push(files[i as int]));
                        assert(has_group(before, k2) == key_occurs(pre, k2));
                    }
                    assert forall|a: int, c: int| 0 <= a < c < groups@.len() implies
                        (#[trigger] groups@[a]).0@ != (#[trigger] groups@[c]).0@ by {
                        if c == before.len() {
                            assert(groups@[a] == before[a]);
                        } else {
                            assert(groups@[a] == before[a]);
                            assert(groups@[c] == before[c]);
                        }
                    }
                }
            }
            i = i + 1;
        }
        proof {
            assert(files.take(batch.files@.len() as int) =~= files);
        }
        Ok(groups)
    }
}

/// Puts files in a random order.
#[derive(Debug, PartialEq, Eq, Default)]
pub struct RandomSorter;

/// `rand`'s `SliceRandom::shuffle` with the thread-local generator: a
/// permutation of the items. Which permutation comes out is chance.
#[verifier::external_body]
fn shuffle(files: &mut Vec<String>)
    ensures
        final(files)@.len() == old(files)@.len(),
        final(files)@.to_multiset() == old(files)@.to_multiset(),
{
    files.shuffle(&mut rand::rng());
}

impl RandomSorter {
    /// Puts the files in a random order: the same files, each as often.
    pub fn sort(&self, files: &mut Vec<String>)
        ensures
            final(files)@.len() == old(files)@.len(),
            final(files)@.to_multiset() == old(files)@.to_multiset(),
    {
        shuffle(files);
    }
}

/// Where the `i`-th split begins when `n` files are handed out in order,
/// each split taking as many as its count asks for, or what is left.
pub open spec fn split_start(counts: Seq<usize>, n: int, i: int) -> int
    decreases i,
{
    if i <= 0 {
        0
    } else {
        let o = split_start(counts, n, i - 1);
        o + if (counts[i - 1] as int) < n - o { counts[i - 1] as int } else { n - o }
    }
}

/// Where the `i`-th of `k` splits ends: where the next begins, or, for the
/// last, at the end, so that it also takes the files left over.
pub open spec fn split_end(counts: Seq<usize>, n: int, i: int) -> int {
    if i == counts.len() - 1 { n } else { split_start(counts, n, i + 1) }
}

/// Copies of the strings from position `from` up to `to`.
fn copy_range(v: &[String], from: usize, to: usize) -> (r: Vec<String>)
    requires
        from <= to <= v@.len(),
    ensures
        paths(r@) == paths(v@.subrange(from as int, to as int)),
{
    let mut out: Vec<String> = Vec::new();
    let mut i: usize = from;
    while i < to
        invariant
            from <= i <= to <= v@.len(),
            out@.len() == i - from,
            forall|j: int| 0 <= j < out@.len() ==> (#[trigger] out@[j])@ == v@[from + j]@,
        decreases to - i,
    {
        out.push(copy_str(v[i].as_str()));
        i = i + 1;
    }
    assert(paths(out@) =~= paths(v@.subrange(from as int, to as int)));
    out
}

/// Hands the files of a batch out to named splits in order: each split takes
/// the number of files it is given, or what is left, and the last also takes
/// whatever no split asked for. The counts are worked out from the ratios by
/// the caller.
pub fn split_by_counts(batch: &Batch, splits: &Vec<(String, usize)>) -> (r: Vec<(String, Batch)>)
    ensures
        r@.len() == splits@.len(),
        forall|i: int| 0 <= i < r@.len() ==> (#[trigger] r@[i]).0@ == splits@[i].0@
            && paths(r@[i].1.files@) == paths(batch.files@).subrange(
                split_start(splits@.map_values(|s: (String, usize)| s.1), batch.files@.len() as int, i),
                split_end(splits@.map_values(|s: (String, usize)| s.1), batch.files@.len() as int, i)),
{
    let ghost counts = splits@.map_values(|s: (String, usize)| s.1);
    let ghost n = batch.files@.len() as int;
    let k = splits.len();
    let mut out: Vec<(String, Batch)> = Vec::new();
    let mut start: usize = 0;
    let mut i: usize = 0;
    while i < k
        invariant
            k == splits@.len(),
            counts == splits@.map_values(|s: (String, usize)| s.1),
            n == batch.files@.len(),
            i <= k,
            out@.len() == i,
            start == split_start(counts, n, i as int),
            start <= n,
            forall|j: int| 0 <= j < i ==> (#[trigger] out@[j]).0@ == splits@[j].0@
                && paths(out@[j].1.files@) == paths(batch.files@).subrange(
                    split_start(counts, n, j), split_end(counts, n, j)),
        decreases k - i,
    {
        let left = batch.files.len() - start;
        let take = if splits[i].1 < left { splits[i].1 } else { left };
        let end = if i + 1 == k { batch.files.len() } else { start + take };
        proof {
            assert(counts[i as int] == splits@[i as int].1);
            assert(split_start(counts, n, i + 1) == start + take);
            assert(end == split_end(counts, n, i as int));
        }
        let files = copy_range(batch.files.as_slice(), start, end);
        proof {
            assert(paths(batch.files@.subrange(start as int, end as int))
                =~= paths(batch.files@).subrange(start as int, end as int));
        }
        out.push((copy_str(splits[i].0.as_str()), Batch { files }));
        start = start + take;
        i = i + 1;
    }
    out
}

proof fn lemma_split_start_bounds(counts: Seq<usize>, n: int, i: int)
    requires
        0 <= n,
    ensures
        0 <= split_start(counts, n, i) <= n,
        i > 0 ==> split_start(counts, n, i - 1) <= split_start(counts, n, i),
    decreases i,
{
    if i > 0 {
        lemma_split_start_bounds(counts, n, i - 1);
    }
}

/// The splits before the `j`-th, put back together, are the files up to
/// where the `j`-th begins.
proof fn lemma_splits_prefix(files: Seq<Seq<char>>, counts: Seq<usize>, j: int)
    requires
        0 <= j,
    ensures
        Seq::new(j as nat, |i: int| files.subrange(split_start(counts, files.len() as int, i),
            split_start(counts, files.len() as int, i + 1))).flatten()
            == files.subrange(0, split_start(counts, files.len() as int, j)),
    decreases j,
{
    let n = files.len() as int;
    let f = |i: int| files.subrange(split_start(counts, n, i), split_start(counts, n, i + 1));
    if j == 0 {
        assert(Seq::new(0, f) =~= Seq::<Seq<Seq<char>>>::empty());
        assert(files.subrange(0, 0) =~= Seq::<Seq<char>>::empty());
    } else {
        lemma_splits_prefix(files, counts, j - 1);
        lemma_split_start_bounds(counts, n, j);
        lemma_split_start_bounds(counts, n, j - 1);
        assert(Seq::new(j as nat, f) =~= Seq::new((j - 1) as nat, f).push(f(j - 1)));
        Seq::new((j - 1) as nat, f).lemma_flatten_push(f(j - 1));
        assert(files.subrange(0, split_start(counts, n, j - 1)) + files.subrange(split_start(counts, n, j - 1),
            split_start(counts, n, j)) =~= files.subrange(0, split_start(counts, n, j)));
    }
}

/// Splitting by counts loses no file and repeats none: the splits, put back
/// together in order, are the batch's files, whatever the counts, as long as
/// there is a split.
pub proof fn law_splits_cover_batch(files: Seq<Seq<char>>, counts: Seq<usize>)
    requires
        counts.len() > 0,
    ensures
        Seq::new(counts.len(), |i: int| files.subrange(split_start(counts, files.len() as int, i),
            split_end(counts, files.len() as int, i))).flatten() == files,
{
    let n = files.len() as int;
    let k = counts.len() as int;
    let f = |i: int| files.subrange(split_start(counts, n, i), split_start(counts, n, i + 1));
    let g = |i: int| files.subrange(split_start(counts, n, i), split_end(counts, n, i));
    lemma_splits_prefix(files, counts, k - 1);
    lemma_split_start_bounds(counts, n, k - 1);
    assert(Seq::new((k - 1) as nat, g) =~= Seq::new((k - 1) as nat, f));
    assert(Seq::new(k as nat, g) =~= Seq::new((k - 1) as nat, g).push(g(k - 1)));
    Seq::new((k - 1) as nat, g).lemma_flatten_push(g(k - 1));
    assert(files.subrange(0, split_start(counts, n, k - 1)) + files.subrange(split_start(counts, n, k - 1), n)
        =~= files);
}

} // verus!

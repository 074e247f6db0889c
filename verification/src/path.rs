//! Unix path anatomy on plain strings: file name, stem, extension, parent,
//! replacing the file name, joining, and comparing by components.
//!
//! The statements follow the documented behaviour of `std::path` on Unix:
//! a path is a root `/` or a leading `.`, then components separated by `/`;
//! empty components and `.` components after the start are ignored.

use vstd::prelude::*;
use crate::text::{chars_of, push_all, string_from, vec_eq};

verus! {

/// Whether the path starts with a `.` component (and has no root).
pub open spec fn has_cur_dir(p: Seq<char>) -> bool {
    p.len() > 0 && p[0] == '.' && (p.len() == 1 || p[1] == '/')
}

/// Length of what precedes the components: the root `/` or a leading `.`.
pub open spec fn front_len(p: Seq<char>) -> int {
    if p.len() > 0 && p[0] == '/' {
        1
    } else if has_cur_dir(p) {
        1
    } else {
        0
    }
}

/// End of `p[..e]` once trailing separators and `.` components are dropped,
/// never going below `lo`.
pub open spec fn trim_end(p: Seq<char>, lo: int, e: int) -> int
    decreases e,
{
    if e <= lo || e > p.len() || lo < 0 {
        e
    } else if p[e - 1] == '/' {
        trim_end(p, lo, e - 1)
    } else if p[e - 1] == '.' && (e - 1 == lo || p[e - 2] == '/') {
        trim_end(p, lo, e - 1)
    } else {
        e
    }
}

/// Start of the last component of `p[..k]`: just after its last separator
/// at or after `lo`, or `lo`.
pub open spec fn seg_start(p: Seq<char>, lo: int, k: int) -> int
    decreases k,
{
    if k <= lo || k > p.len() || lo < 0 {
        lo
    } else if p[k - 1] == '/' {
        k
    } else {
        seg_start(p, lo, k - 1)
    }
}

/// Index of the last `.` in `p[lo..i]`, or -1.
pub open spec fn last_dot(p: Seq<char>, lo: int, i: int) -> int
    decreases i,
{
    if i <= lo || i > p.len() || lo < 0 {
        -1
    } else if p[i - 1] == '.' {
        i - 1
    } else {
        last_dot(p, lo, i - 1)
    }
}

/// End of the meaningful part of `p`.
pub open spec fn name_end(p: Seq<char>) -> int {
    trim_end(p, front_len(p), p.len() as int)
}

/// Start of the last component of `p`.
pub open spec fn name_start(p: Seq<char>) -> int {
    seg_start(p, front_len(p), name_end(p))
}

/// Whether the last component of `p` is an ordinary name (not root, `.` or `..`).
pub open spec fn has_name(p: Seq<char>) -> bool {
    name_end(p) > front_len(p) && p.subrange(name_start(p), name_end(p)) != seq!['.', '.']
}

/// `Path::file_name`: the last component, when it is an ordinary name.
pub open spec fn spec_file_name(p: Seq<char>) -> Option<Seq<char>> {
    if has_name(p) {
        Some(p.subrange(name_start(p), name_end(p)))
    } else {
        None
    }
}

/// Position of the dot that splits the file name, if it splits it.
pub open spec fn split_dot(p: Seq<char>) -> int {
    last_dot(p, name_start(p), name_end(p))
}

/// `Path::file_stem`: the file name without its extension.
pub open spec fn spec_file_stem(p: Seq<char>) -> Option<Seq<char>> {
    if !has_name(p) {
        None
    } else if split_dot(p) > name_start(p) {
        Some(p.subrange(name_start(p), split_dot(p)))
    } else {
        Some(p.subrange(name_start(p), name_end(p)))
    }
}

/// `Path::extension`: what follows the last dot of the file name, when that
/// dot is not its first character.
pub open spec fn spec_extension(p: Seq<char>) -> Option<Seq<char>> {
    if has_name(p) && split_dot(p) > name_start(p) {
        Some(p.subrange(split_dot(p) + 1, name_end(p)))
    } else {
        None
    }
}

/// End of the parent of `p`, when `p` has one.
pub open spec fn parent_end(p: Seq<char>) -> Option<int> {
    let lo = front_len(p);
    if name_end(p) <= lo {
        if has_cur_dir(p) { Some(0) } else { None }
    } else if name_start(p) > lo {
        Some(trim_end(p, lo, name_start(p) - 1))
    } else {
        Some(lo)
    }
}

/// `Path::parent`: the path without its last component.
pub open spec fn spec_parent(p: Seq<char>) -> Option<Seq<char>> {
    match parent_end(p) {
        Some(e) => Some(p.subrange(0, e)),
        None => None,
    }
}

/// `PathBuf::push`: an absolute `name` replaces the path; otherwise it is
/// appended, with a separator when the path is non-empty and lacks one.
pub open spec fn spec_join(p: Seq<char>, name: Seq<char>) -> Seq<char> {
    if name.len() > 0 && name[0] == '/' {
        name
    } else if p.len() > 0 && p.last() != '/' {
        p + seq!['/'] + name
    } else {
        p + name
    }
}

/// `PathBuf::set_file_name`: the parent (when there is a file name) joined with `name`.
pub open spec fn spec_with_file_name(p: Seq<char>, name: Seq<char>) -> Seq<char> {
    if has_name(p) {
        spec_join(spec_parent(p).unwrap(), name)
    } else {
        spec_join(p, name)
    }
}

/// The kind of what precedes the components: 0 none, 1 root, 2 `.`.
pub open spec fn front_kind(p: Seq<char>) -> int {
    if p.len() > 0 && p[0] == '/' {
        1
    } else if has_cur_dir(p) {
        2
    } else {
        0
    }
}

/// The components of `p[lo..e]`, empty ones and `.` dropped.
pub open spec fn segs(p: Seq<char>, lo: int, e: int) -> Seq<Seq<char>>
    decreases e,
{
    if e <= lo || e > p.len() || lo < 0 {
        seq![]
    } else {
        let k = seg_start(p, lo, e);
        proof {
            lemma_seg_start_bounds(p, lo, e);
        }
        let rest = if k > lo { segs(p, lo, k - 1) } else { seq![] };
        let s = p.subrange(k, e);
        if s.len() == 0 || s == seq!['.'] {
            rest
        } else {
            rest.push(s)
        }
    }
}

/// The components of a path after its root or leading `.`.
pub open spec fn components(p: Seq<char>) -> Seq<Seq<char>> {
    segs(p, front_len(p), p.len() as int)
}

/// Path equality: same kind of start and same components.
pub open spec fn spec_path_eq(a: Seq<char>, b: Seq<char>) -> bool {
    front_kind(a) == front_kind(b) && components(a) == components(b)
}

pub proof fn lemma_seg_start_bounds(p: Seq<char>, lo: int, k: int)
    requires
        0 <= lo <= k <= p.len(),
    ensures
        lo <= seg_start(p, lo, k) <= k,
        seg_start(p, lo, k) > lo ==> p[seg_start(p, lo, k) - 1] == '/',
        forall|j: int| seg_start(p, lo, k) <= j < k ==> p[j] != '/',
    decreases k,
{
    if k > lo && p[k - 1] != '/' {
        lemma_seg_start_bounds(p, lo, k - 1);
    }
}

pub proof fn lemma_trim_end_bounds(p: Seq<char>, lo: int, e: int)
    requires
        0 <= lo <= e <= p.len(),
    ensures
        lo <= trim_end(p, lo, e) <= e,
        trim_end(p, lo, e) > lo ==> p[trim_end(p, lo, e) - 1] != '/',
    decreases e,
{
    if e > lo {
        if p[e - 1] == '/' || (p[e - 1] == '.' && (e - 1 == lo || p[e - 2] == '/')) {
            lemma_trim_end_bounds(p, lo, e - 1);
        }
    }
}

pub proof fn lemma_last_dot_bounds(p: Seq<char>, lo: int, i: int)
    requires
        0 <= lo <= i <= p.len(),
    ensures
        last_dot(p, lo, i) == -1 || (lo <= last_dot(p, lo, i) < i && p[last_dot(p, lo, i)] == '.'),
        forall|j: int| last_dot(p, lo, i) < j < i && lo <= j ==> p[j] != '.',
    decreases i,
{
    if i > lo && p[i - 1] != '.' {
        lemma_last_dot_bounds(p, lo, i - 1);
    }
}

/// The name bounds lie inside the path, in order.
pub proof fn lemma_name_bounds(p: Seq<char>)
    ensures
        0 <= front_len(p) <= name_start(p) <= name_end(p) <= p.len(),
        forall|j: int| name_start(p) <= j < name_end(p) ==> p[j] != '/',
        name_end(p) > front_len(p) ==> p[name_end(p) - 1] != '/',
{
    lemma_trim_end_bounds(p, front_len(p), p.len() as int);
    lemma_seg_start_bounds(p, front_len(p), name_end(p));
}

fn front_len_exec(p: &Vec<char>) -> (r: usize)
    ensures
        r as int == front_len(p@),
{
    if p.len() > 0 && p[0] == '/' {
        1
    } else if p.len() > 0 && p[0] == '.' && (p.len() == 1 || p[1] == '/') {
        1
    } else {
        0
    }
}

fn front_kind_exec(p: &Vec<char>) -> (r: u8)
    ensures
        r as int == front_kind(p@),
{
    if p.len() > 0 && p[0] == '/' {
        1
    } else if p.len() > 0 && p[0] == '.' && (p.len() == 1 || p[1] == '/') {
        2
    } else {
        0
    }
}

fn trim_end_exec(p: &Vec<char>, lo: usize, e: usize) -> (r: usize)
    requires
        lo <= e <= p.len(),
    ensures
        r as int == trim_end(p@, lo as int, e as int),
{
    let mut i = e;
    while i > lo && (p[i - 1] == '/' || (p[i - 1] == '.' && (i - 1 == lo || p[i - 2] == '/')))
        invariant
            lo <= i <= e <= p.len(),
            trim_end(p@, lo as int, i as int) == trim_end(p@, lo as int, e as int),
        decreases i,
    {
        i = i - 1;
    }
    i
}

fn seg_start_exec(p: &Vec<char>, lo: usize, k: usize) -> (r: usize)
    requires
        lo <= k <= p.len(),
    ensures
        r as int == seg_start(p@, lo as int, k as int),
{
    let mut i = k;
    while i > lo && p[i - 1] != '/'
        invariant
            lo <= i <= k <= p.len(),
            seg_start(p@, lo as int, i as int) == seg_start(p@, lo as int, k as int),
        decreases i,
    {
        i = i - 1;
    }
    if i > lo {
        i
    } else {
        lo
    }
}

/// `(found, index)`: the last `.` in `p[lo..i]`.
fn last_dot_exec(p: &Vec<char>, lo: usize, i: usize) -> (r: (bool, usize))
    requires
        lo <= i <= p.len(),
    ensures
        r.0 == (last_dot(p@, lo as int, i as int) >= 0),
        r.0 ==> r.1 as int == last_dot(p@, lo as int, i as int),
{
    let mut j = i;
    while j > lo && p[j - 1] != '.'
        invariant
            lo <= j <= i <= p.len(),
            last_dot(p@, lo as int, j as int) == last_dot(p@, lo as int, i as int),
        decreases j,
    {
        j = j - 1;
    }
    if j > lo {
        (true, j - 1)
    } else {
        (false, 0)
    }
}

/// The name bounds of `p`, computed: `(front, start, end)`.
fn name_bounds(p: &Vec<char>) -> (r: (usize, usize, usize))
    ensures
        r.0 as int == front_len(p@),
        r.1 as int == name_start(p@),
        r.2 as int == name_end(p@),
        r.0 <= r.1 <= r.2 <= p.len(),
{
    proof {
        lemma_name_bounds(p@);
    }
    let lo = front_len_exec(p);
    let e = trim_end_exec(p, lo, p.len());
    let k = seg_start_exec(p, lo, e);
    (lo, k, e)
}

fn is_dot_dot(p: &Vec<char>, from: usize, to: usize) -> (b: bool)
    requires
        from <= to <= p.len(),
    ensures
        b == (p@.subrange(from as int, to as int) == seq!['.', '.']),
{
    if to - from == 2 && p[from] == '.' && p[from + 1] == '.' {
        assert(p@.subrange(from as int, to as int) =~= seq!['.', '.']);
        true
    } else {
        proof {
            if p@.subrange(from as int, to as int) == seq!['.', '.'] {
            assert(p@.subrange(from as int, to as int).len() == 2);
            assert(p@.subrange(from as int, to as int)[0] == '.');
            assert(p@.subrange(from as int, to as int)[1] == '.');
            assert(p@[from as int] == '.');
            assert(p@[from + 1] == '.');
            }
        }
        false
    }
}

fn has_name_exec(p: &Vec<char>) -> (b: bool)
    ensures
        b == has_name(p@),
{
    let (lo, k, e) = name_bounds(p);
    e > lo && !is_dot_dot(p, k, e)
}

/// The file name of a path: its last component, when that is an ordinary name.
pub fn file_name(path: &str) -> (r: Option<String>)
    ensures
        r matches Some(s) ==> spec_file_name(path@) == Some(s@),
        r is None ==> spec_file_name(path@) is None,
{
    let p = chars_of(path);
    let (_lo, k, e) = name_bounds(&p);
    if has_name_exec(&p) {
        Some(string_from(&p, k, e))
    } else {
        None
    }
}

/// The file name without its extension.
pub fn file_stem(path: &str) -> (r: Option<String>)
    ensures
        r matches Some(s) ==> spec_file_stem(path@) == Some(s@),
        r is None ==> spec_file_stem(path@) is None,
{
    let p = chars_of(path);
    let (_lo, k, e) = name_bounds(&p);
    if !has_name_exec(&p) {
        return None;
    }
    let (found, d) = last_dot_exec(&p, k, e);
    proof {
        lemma_last_dot_bounds(p@, k as int, e as int);
    }
    if found && d > k {
        Some(string_from(&p, k, d))
    } else {
        Some(string_from(&p, k, e))
    }
}

/// The extension of the file name: what follows its last dot, unless that
/// dot begins the name.
pub fn extension(path: &str) -> (r: Option<String>)
    ensures
        r matches Some(s) ==> spec_extension(path@) == Some(s@),
        r is None ==> spec_extension(path@) is None,
{
    let p = chars_of(path);
    let (_lo, k, e) = name_bounds(&p);
    if !has_name_exec(&p) {
        return None;
    }
    let (found, d) = last_dot_exec(&p, k, e);
    proof {
        lemma_last_dot_bounds(p@, k as int, e as int);
    }
    if found && d > k {
        Some(string_from(&p, d + 1, e))
    } else {
        None
    }
}

fn parent_end_exec(p: &Vec<char>) -> (r: Option<usize>)
    ensures
        r matches Some(e) ==> parent_end(p@) == Some(e as int) && e <= p.len(),
        r is None ==> parent_end(p@) is None,
{
    let (lo, k, e) = name_bounds(p);
    if e <= lo {
        if p.len() > 0 && p[0] == '.' && (p.len() == 1 || p[1] == '/') {
            Some(0)
        } else {
            None
        }
    } else if k > lo {
        proof {
            lemma_trim_end_bounds(p@, lo as int, k - 1);
        }
        Some(trim_end_exec(p, lo, k - 1))
    } else {
        Some(lo)
    }
}

/// The parent of a path: the path without its last component.
pub fn parent(path: &str) -> (r: Option<String>)
    ensures
        r matches Some(s) ==> spec_parent(path@) == Some(s@),
        r is None ==> spec_parent(path@) is None,
{
    let p = chars_of(path);
    match parent_end_exec(&p) {
        Some(e) => Some(string_from(&p, 0, e)),
        None => None,
    }
}

fn join_chars(base: &Vec<char>, base_len: usize, name: &Vec<char>) -> (r: String)
    requires
        base_len <= base.len(),
    ensures
        r@ == spec_join(base@.subrange(0, base_len as int), name@),
{
    if name.len() > 0 && name[0] == '/' {
        string_from(name, 0, name.len())
    } else {
        let mut s = string_from(base, 0, base_len);
        if base_len > 0 && base[base_len - 1] != '/' {
            let sep = vec!['/'];
            push_all(&mut s, &sep);
        }
        push_all(&mut s, name);
        proof {
            assert(name@.subrange(0, name.len() as int) =~= name@);
        }
        s
    }
}

/// `base` joined with `name`, as `PathBuf::push` does it.
pub fn join(base: &str, name: &str) -> (r: String)
    ensures
        r@ == spec_join(base@, name@),
{
    let b = chars_of(base);
    let n = chars_of(name);
    assert(b@.subrange(0, b.len() as int) =~= b@);
    join_chars(&b, b.len(), &n)
}

/// The path with its file name replaced by `name`, as `PathBuf::set_file_name` does it.
pub fn with_file_name(path: &str, name: &str) -> (r: String)
    ensures
        r@ == spec_with_file_name(path@, name@),
{
    let p = chars_of(path);
    let n = chars_of(name);
    if has_name_exec(&p) {
        let e = parent_end_exec(&p);
        match e {
            Some(e) => join_chars(&p, e, &n),
            None => {
                proof {
                    lemma_name_bounds(p@);
                }
                assert(false);
                String::new()
            }
        }
    } else {
        assert(p@.subrange(0, p.len() as int) =~= p@);
        join_chars(&p, p.len(), &n)
    }
}

/// The components of `p[lo..e]`.
fn segs_exec(p: &Vec<char>, lo: usize, e: usize) -> (r: Vec<Vec<char>>)
    requires
        lo <= e <= p.len(),
    ensures
        r@.len() == segs(p@, lo as int, e as int).len(),
        forall|i: int| 0 <= i < r@.len() ==> #[trigger] r@[i]@ == segs(p@, lo as int, e as int)[i],
    decreases e,
{
    if e <= lo {
        return Vec::new();
    }
    let k = seg_start_exec(p, lo, e);
    proof {
        lemma_seg_start_bounds(p@, lo as int, e as int);
    }
    let mut rest = if k > lo { segs_exec(p, lo, k - 1) } else { Vec::new() };
    let ghost rest_spec: Seq<Seq<char>> = if k > lo { segs(p@, lo as int, k - 1) } else { seq![] };
    let is_empty = k == e;
    let is_dot = e - k == 1 && p[k] == '.';
    proof {
        let s = p@.subrange(k as int, e as int);
        if e - k == 1 {
            assert(s[0] == p@[k as int]);
            if p@[k as int] == '.' {
                assert(s =~= seq!['.']);
            }
        }
    }
    if is_empty || is_dot {
        rest
    } else {
        let s = string_from_vec(p, k, e);
        rest.push(s);
        rest
    }
}

fn string_from_vec(v: &Vec<char>, from: usize, to: usize) -> (s: Vec<char>)
    requires
        from <= to <= v.len(),
    ensures
        s@ == v@.subrange(from as int, to as int),
{
    let mut s: Vec<char> = Vec::new();
    let mut i = from;
    while i < to
        invariant
            from <= i <= to <= v.len(),
            s@ == v@.subrange(from as int, i as int),
        decreases to - i,
    {
        s.push(v[i]);
        i = i + 1;
    }
    s
}

/// Whether two paths name the same components, as `Path`'s `==` compares them.
pub fn path_eq(a: &str, b: &str) -> (r: bool)
    ensures
        r == spec_path_eq(a@, b@),
{
    let va = chars_of(a);
    let vb = chars_of(b);
    if front_kind_exec(&va) != front_kind_exec(&vb) {
        return false;
    }
    let la = front_len_exec(&va);
    let lb = front_len_exec(&vb);
    proof {
        lemma_name_bounds(va@);
        lemma_name_bounds(vb@);
    }
    let ca = segs_exec(&va, la, va.len());
    let cb = segs_exec(&vb, lb, vb.len());
    let ghost sa = components(a@);
    let ghost sb = components(b@);
    if ca.len() != cb.len() {
        return false;
    }
    let mut i: usize = 0;
    while i < ca.len()
        invariant
            ca@.len() == cb@.len() == sa.len() == sb.len(),
            forall|j: int| 0 <= j < ca@.len() ==> #[trigger] ca@[j]@ == sa[j],
            forall|j: int| 0 <= j < cb@.len() ==> #[trigger] cb@[j]@ == sb[j],
            i <= ca.len(),
            sa == components(a@),
            sb == components(b@),
            front_kind(a@) == front_kind(b@),
            forall|j: int| 0 <= j < i ==> sa[j] == sb[j],
        decreases ca.len() - i,
    {
        if !vec_eq(&ca[i], &cb[i]) {
            assert(ca@[i as int]@ == sa[i as int]);
            assert(cb@[i as int]@ == sb[i as int]);
            assert(sa[i as int] != sb[i as int]);
            assert(sa != sb);
            return false;
        }
        i = i + 1;
    }
    assert(sa =~= sb);
    true
}

/// What a path names, as `Path`'s `==` sees it: the kind of its start (0
/// none, 1 root, 2 `.`) and its components.
#[derive(Debug, PartialEq, Eq)]
pub struct PathKey {
    pub kind: u8,
    pub comps: Vec<String>,
}

/// The view of a key: its kind and its components.
pub open spec fn key_view(k: PathKey) -> (int, Seq<Seq<char>>) {
    (k.kind as int, k.comps@.map_values(|c: String| c@))
}

/// The key of a path.
pub open spec fn spec_path_key(p: Seq<char>) -> (int, Seq<Seq<char>>) {
    (front_kind(p), components(p))
}

/// The key of a path: the kind of its start and its components.
pub fn path_key(p: &str) -> (k: PathKey)
    ensures
        key_view(k) == spec_path_key(p@),
{
    let v = chars_of(p);
    let kind = front_kind_exec(&v);
    let lo = front_len_exec(&v);
    proof {
        lemma_name_bounds(v@);
    }
    let parts = segs_exec(&v, lo, v.len());
    let mut comps: Vec<String> = Vec::new();
    let mut i: usize = 0;
    while i < parts.len()
        invariant
            i <= parts@.len(),
            parts@.len() == components(p@).len(),
            forall|j: int| 0 <= j < parts@.len() ==> #[trigger] parts@[j]@ == components(p@)[j],
            comps@.len() == i,
            forall|j: int| 0 <= j < i ==> (#[trigger] comps@[j])@ == components(p@)[j],
        decreases parts@.len() - i,
    {
        let part = &parts[i];
        comps.push(string_from(part, 0, part.len()));
        proof {
            assert(part@.subrange(0, part@.len() as int) =~= part@);
        }
        i = i + 1;
    }
    let k = PathKey { kind, comps };
    assert(key_view(k).1 =~= components(p@));
    k
}

} // verus!

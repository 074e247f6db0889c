//! A virtual file system: files and folders held in memory, keyed by what
//! their paths name, on which a dry run carries out its actions.

use vstd::prelude::*;
use crate::path::{PathKey, key_view, spec_path_key, path_key, spec_join};
use crate::text::{copy_str, str_eq};
use std::time::SystemTime;

verus! {

/// A file of the virtual file system: its bytes, when it has any (written,
/// or read from the content store when loaded), where they are stored, its
/// size, its host, and what it links to.
#[derive(Debug, PartialEq, Eq)]
pub struct VfsFile {
    pub content: Option<Vec<u8>>,
    pub content_source: Option<String>,
    pub size: Option<u64>,
    pub host: String,
    pub target: Option<String>,
    pub created: Option<SystemTime>,
    pub modified: Option<SystemTime>,
}

/// A folder of the virtual file system: its host, its size when one was
/// given, and when it was made and last changed.
#[derive(Debug, PartialEq, Eq)]
pub struct VfsDir {
    pub host: String,
    pub size: Option<u64>,
    pub created: Option<SystemTime>,
    pub modified: Option<SystemTime>,
}

/// A point in time of the standard library.
#[verifier::external_type_specification]
#[verifier::external_body]
pub struct ExSystemTime(SystemTime);

/// `std::time::SystemTime::now`: the current time of the system clock.
/// Nothing is stated of which time comes out.
#[verifier::external_body]
fn now() -> (r: SystemTime)
{
    SystemTime::now()
}

/// The further facts kept of a file: its link target, if it is a link.
pub open spec fn target_extra(target: Option<String>) -> Seq<(Seq<char>, Seq<char>)> {
    match target {
        Some(t) => seq![("target"@, t@)],
        None => Seq::empty(),
    }
}

/// Times that were just set: a change time, and a making time equal to it.
pub open spec fn fresh(created: Option<SystemTime>, modified: Option<SystemTime>) -> bool {
    modified is Some && created == modified
}

/// A file or a folder.
#[derive(Debug, PartialEq, Eq)]
pub enum VfsEntry {
    File(VfsFile),
    Dir(VfsDir),
}

/// Why an operation on the virtual file system failed; each names the path.
#[derive(Debug, PartialEq, Eq)]
pub enum VfsError {
    NotFound(String),
    AlreadyExists(String),
    IsADirectory(String),
    NotADirectory(String),
    PermissionDenied(String),
}

/// What is known of an entry: its size, when recorded, when it was made
/// and last changed, its kind, and further facts (`target` for a link).
#[derive(Debug, PartialEq, Eq)]
pub struct Metadata {
    pub size: Option<u64>,
    pub created: Option<SystemTime>,
    pub modified: Option<SystemTime>,
    pub is_dir: bool,
    pub is_file: bool,
    pub extra: Vec<(String, String)>,
}

/// An entry and the path it was recorded under.
#[derive(Debug)]
pub struct Slot {
    pub key: PathKey,
    pub path: String,
    pub entry: VfsEntry,
}

/// A virtual file system: its entries, at most one for each key, and the
/// host that new entries belong to.
#[derive(Debug)]
pub struct VirtualFileSystem {
    slots: Vec<Slot>,
    simulated_host: String,
}

/// The key a slot is recorded under.
pub open spec fn slot_key(s: Slot) -> (int, Seq<Seq<char>>) {
    key_view(s.key)
}

/// The entry recorded for the key `k`.
pub open spec fn lookup_key(slots: Seq<Slot>, k: (int, Seq<Seq<char>>)) -> Option<VfsEntry>
    decreases slots.len(),
{
    if slots.len() == 0 {
        None
    } else if slot_key(slots.last()) == k {
        Some(slots.last().entry)
    } else {
        lookup_key(slots.drop_last(), k)
    }
}

/// No two slots have the same key.
pub open spec fn distinct_keys(slots: Seq<Slot>) -> bool {
    forall|i: int, j: int| 0 <= i < j < slots.len() ==> slot_key(#[trigger] slots[i]) != slot_key(#[trigger] slots[j])
}

pub proof fn lemma_lookup_some(slots: Seq<Slot>, k: (int, Seq<Seq<char>>))
    requires
        distinct_keys(slots),
    ensures
        lookup_key(slots, k) is None <==> forall|i: int| 0 <= i < slots.len() ==> slot_key(#[trigger] slots[i]) != k,
        forall|i: int| 0 <= i < slots.len() && slot_key(#[trigger] slots[i]) == k ==> lookup_key(slots, k) == Some(slots[i].entry),
    decreases slots.len(),
{
    if slots.len() > 0 {
        let n = slots.len() - 1;
        let d = slots.drop_last();
        assert forall|i: int, j: int| 0 <= i < j < d.len() implies slot_key(#[trigger] d[i]) != slot_key(#[trigger] d[j]) by {
            assert(d[i] == slots[i]);
            assert(d[j] == slots[j]);
        }
        lemma_lookup_some(d, k);
        assert(slots.last() == slots[n]);
        if slot_key(slots[n]) == k {
            assert forall|i: int| 0 <= i < slots.len() && slot_key(#[trigger] slots[i]) == k implies
                lookup_key(slots, k) == Some(slots[i].entry) by {
                if i < n {
                    assert(slot_key(slots[i]) != slot_key(slots[n]));
                }
            }
        } else {
            assert forall|i: int| 0 <= i < slots.len() && slot_key(#[trigger] slots[i]) == k implies
                lookup_key(slots, k) == Some(slots[i].entry) by {
                assert(i < n);
                assert(d[i] == slots[i]);
                assert(slot_key(d[i]) == k);
            }
            if lookup_key(slots, k) is None {
                assert forall|i: int| 0 <= i < slots.len() implies slot_key(#[trigger] slots[i]) != k by {
                    if i < n {
                        assert(d[i] == slots[i]);
                    }
                }
            } else {
                let i = choose|i: int| 0 <= i < d.len() && slot_key(#[trigger] d[i]) == k;
                assert(d[i] == slots[i]);
            }
        }
    }
}

pub proof fn lemma_lookup_remove(slots: Seq<Slot>, i: int, k: (int, Seq<Seq<char>>))
    requires
        distinct_keys(slots),
        0 <= i < slots.len(),
    ensures
        distinct_keys(slots.remove(i)),
        lookup_key(slots.remove(i), k) == if k == slot_key(slots[i]) { None } else { lookup_key(slots, k) },
{
    let r = slots.remove(i);
    assert forall|a: int, b: int| 0 <= a < b < r.len() implies slot_key(#[trigger] r[a]) != slot_key(#[trigger] r[b]) by {
        let ia = if a < i { a } else { a + 1 };
        let ib = if b < i { b } else { b + 1 };
        assert(r[a] == slots[ia]);
        assert(r[b] == slots[ib]);
    }
    lemma_lookup_some(r, k);
    lemma_lookup_some(slots, k);
    if k == slot_key(slots[i]) {
        assert forall|a: int| 0 <= a < r.len() implies slot_key(#[trigger] r[a]) != k by {
            let ia = if a < i { a } else { a + 1 };
            assert(r[a] == slots[ia]);
        }
    } else {
        if lookup_key(slots, k) is None {
            assert forall|a: int| 0 <= a < r.len() implies slot_key(#[trigger] r[a]) != k by {
                let ia = if a < i { a } else { a + 1 };
                assert(r[a] == slots[ia]);
            }
        } else {
            let j = choose|j: int| 0 <= j < slots.len() && slot_key(#[trigger] slots[j]) == k;
            let jr = if j < i { j } else { j - 1 };
            assert(r[jr] == slots[j]);
        }
    }
}

impl VirtualFileSystem {
    #[verifier::type_invariant]
    spec fn keys_are_distinct(self) -> bool {
        distinct_keys(self.slots@)
    }

    /// The host that new entries belong to.
    pub closed spec fn host(&self) -> Seq<char> {
        self.simulated_host@
    }

    /// The host that new entries belong to.
    pub fn simulated_host(&self) -> (r: &str)
        ensures
            r@ == self.host(),
    {
        self.simulated_host.as_str()
    }

    /// The entry recorded for the key `k`.
    pub closed spec fn entry(&self, k: (int, Seq<Seq<char>>)) -> Option<VfsEntry> {
        lookup_key(self.slots@, k)
    }

    /// The keys of the entries, with the paths they were recorded under, in
    /// the order they were recorded.
    pub closed spec fn recorded(&self) -> Seq<((int, Seq<Seq<char>>), Seq<char>)> {
        self.slots@.map_values(|s: Slot| (slot_key(s), s.path@))
    }

    /// An empty virtual file system whose new entries belong to `host`.
    pub fn new(host: &str) -> (fs: VirtualFileSystem)
        ensures
            forall|k: (int, Seq<Seq<char>>)| fs.entry(k) is None,
            fs.host() == host@,
    {
        VirtualFileSystem { slots: Vec::new(), simulated_host: copy_str(host) }
    }

    /// The position of the slot recorded for the key of `path`.
    fn position(&self, key: &PathKey) -> (r: Option<usize>)
        ensures
            match r {
                Some(i) => i < self.slots@.len() && slot_key(self.slots@[i as int]) == key_view(*key),
                None => forall|i: int| 0 <= i < self.slots@.len() ==> slot_key(#[trigger] self.slots@[i]) != key_view(*key),
            },
    {
        let mut i: usize = 0;
        while i < self.slots.len()
            invariant
                i <= self.slots@.len(),
                forall|j: int| 0 <= j < i ==> slot_key(#[trigger] self.slots@[j]) != key_view(*key),
            decreases self.slots@.len() - i,
        {
            if keys_equal(&self.slots[i].key, key) {
                return Some(i);
            }
            i = i + 1;
        }
        None
    }

    /// The entry at `path`.
    pub fn get_vfs_entry(&self, path: &str) -> (r: Option<&VfsEntry>)
        ensures
            match r {
                Some(e) => self.entry(spec_path_key(path@)) == Some(*e),
                None => self.entry(spec_path_key(path@)) is None,
            },
    {
        proof {
            use_type_invariant(self);
            lemma_lookup_some(self.slots@, spec_path_key(path@));
        }
        let key = path_key(path);
        match self.position(&key) {
            Some(i) => Some(&self.slots[i].entry),
            None => None,
        }
    }

    /// Whether an entry is recorded at `path`.
    pub fn try_exists(&self, path: &str) -> (b: bool)
        ensures
            b == self.entry(spec_path_key(path@)) is Some,
    {
        self.get_vfs_entry(path).is_some()
    }

    /// What is known of the entry at `path`: its size and whether it is a
    /// file or a folder. Fails when nothing is recorded there.
    pub fn metadata(&self, path: &str) -> (r: Result<Metadata, VfsError>)
        ensures
            match self.entry(spec_path_key(path@)) {
                Some(VfsEntry::File(f)) => r matches Ok(m) && m.size == f.size && m.created == f.created
                    && m.modified == f.modified && !m.is_dir && m.is_file
                    && m.extra@.map_values(|e: (String, String)| (e.0@, e.1@)) == target_extra(f.target),
                Some(VfsEntry::Dir(d)) => r matches Ok(m) && m.size == d.size && m.created == d.created
                    && m.modified == d.modified && m.is_dir && !m.is_file && m.extra@.len() == 0,
                None => r matches Err(VfsError::NotFound(p)) && p@ == path@,
            },
    {
        proof {
            reveal_strlit("target");
        }
        match self.get_vfs_entry(path) {
            Some(VfsEntry::File(f)) => {
                let mut extra: Vec<(String, String)> = Vec::new();
                match &f.target {
                    Some(tg) => {
                        extra.push((String::from_str("target"), copy_str(tg.as_str())));
                        assert(extra@.map_values(|e: (String, String)| (e.0@, e.1@)) =~= target_extra(f.target));
                    }
                    None => {
                        assert(extra@.map_values(|e: (String, String)| (e.0@, e.1@)) =~= target_extra(f.target));
                    }
                }
                Ok(Metadata { size: f.size, created: f.created, modified: f.modified, is_dir: false, is_file: true, extra })
            }
            Some(VfsEntry::Dir(d)) => Ok(Metadata {
                size: d.size, created: d.created, modified: d.modified, is_dir: true, is_file: false, extra: Vec::new(),
            }),
            None => Err(VfsError::NotFound(copy_str(path))),
        }
    }

    /// Records `entry` at `path`, in place of what was there.
    pub fn insert_vfs_entry(&mut self, path: &str, entry: VfsEntry)
        ensures
            final(self).host() == old(self).host(),
            forall|k: (int, Seq<Seq<char>>)| #[trigger] final(self).entry(k)
                == if k == spec_path_key(path@) { Some(entry) } else { old(self).entry(k) },
    {
        let key = path_key(path);
        self.insert_key(key, copy_str(path), entry);
    }

    /// Records `entry` under `key`, in place of what was there.
    fn insert_key(&mut self, key: PathKey, path: String, entry: VfsEntry)
        ensures
            final(self).host() == old(self).host(),
            forall|k: (int, Seq<Seq<char>>)| #[trigger] final(self).entry(k)
                == if k == key_view(key) { Some(entry) } else { old(self).entry(k) },
    {
        proof {
            use_type_invariant(&*self);
        }
        let ghost before = self.slots@;
        let ghost kv = key_view(key);
        match self.position(&key) {
            Some(i) => {
                let mut slots: Vec<Slot> = Vec::new();
                std::mem::swap(&mut slots, &mut self.slots);
                let ghost s0 = slots@;
                slots.remove(i);
                proof {
                    assert(slots@ == s0.remove(i as int));
                    assert forall|k: (int, Seq<Seq<char>>)| lookup_key(slots@, k)
                        == if k == kv { None } else { lookup_key(before, k) } by {
                        lemma_lookup_remove(before, i as int, k);
                    }
                    lemma_lookup_remove(before, i as int, kv);
                    lemma_lookup_some(slots@, kv);
                }
                let ghost mid = slots@;
                slots.push(Slot { key, path, entry });
                proof {
                    assert(slots@.drop_last() == mid);
                    assert forall|a: int, b: int| 0 <= a < b < slots@.len() implies
                        slot_key(#[trigger] slots@[a]) != slot_key(#[trigger] slots@[b]) by {
                        if b == slots@.len() - 1 {
                            assert(slots@[a] == mid[a]);
                        } else {
                            assert(slots@[a] == mid[a]);
                            assert(slots@[b] == mid[b]);
                        }
                    }
                }
                self.slots = slots;
                proof {
                    assert forall|k: (int, Seq<Seq<char>>)| #[trigger] lookup_key(self.slots@, k)
                        == if k == kv { Some(entry) } else { lookup_key(before, k) } by {
                        assert(self.slots@.drop_last() == mid);
                        assert(self.slots@.last().entry == entry);
                        assert(slot_key(self.slots@.last()) == kv);
                        if k != kv {
                            assert(lookup_key(mid, k) == lookup_key(before, k));
                        }
                    }
                }
            }
            None => {
                proof {
                    lemma_lookup_some(before, kv);
                }
                let mut slots: Vec<Slot> = Vec::new();
                std::mem::swap(&mut slots, &mut self.slots);
                let ghost mid = slots@;
                slots.push(Slot { key, path, entry });
                proof {
                    assert(slots@.drop_last() == mid);
                    assert forall|a: int, b: int| 0 <= a < b < slots@.len() implies
                        slot_key(#[trigger] slots@[a]) != slot_key(#[trigger] slots@[b]) by {
                        if b == slots@.len() - 1 {
                            assert(slots@[a] == mid[a]);
                        } else {
                            assert(slots@[a] == mid[a]);
                            assert(slots@[b] == mid[b]);
                        }
                    }
                }
                self.slots = slots;
                proof {
                    assert forall|k: (int, Seq<Seq<char>>)| #[trigger] lookup_key(self.slots@, k)
                        == if k == kv { Some(entry) } else { lookup_key(before, k) } by {
                        assert(self.slots@.drop_last() == mid);
                        assert(self.slots@.last().entry == entry);
                        assert(slot_key(self.slots@.last()) == kv);
                        if k != kv {
                            assert(lookup_key(mid, k) == lookup_key(before, k));
                        }
                    }
                }
            }
        }
    }

    /// Forgets the entry at `path`, if one is recorded.
    pub fn remove_vfs_entry(&mut self, path: &str)
        ensures
            final(self).host() == old(self).host(),
            forall|k: (int, Seq<Seq<char>>)| #[trigger] final(self).entry(k)
                == if k == spec_path_key(path@) { None } else { old(self).entry(k) },
    {
        proof {
            use_type_invariant(&*self);
        }
        let key = path_key(path);
        let ghost before = self.slots@;
        match self.position(&key) {
            Some(i) => {
                let mut slots: Vec<Slot> = Vec::new();
                std::mem::swap(&mut slots, &mut self.slots);
                slots.remove(i);
                proof {
                    assert forall|k: (int, Seq<Seq<char>>)| lookup_key(slots@, k)
                        == if k == spec_path_key(path@) { None } else { lookup_key(before, k) } by {
                        lemma_lookup_remove(before, i as int, k);
                    }
                    lemma_lookup_remove(before, i as int, spec_path_key(path@));
                }
                self.slots = slots;
            }
            None => {
                proof {
                    lemma_lookup_some(before, spec_path_key(path@));
                }
            }
        }
    }
}

/// The key of the `i`-th ancestor of `k`: its first `i` components.
pub open spec fn ancestor(k: (int, Seq<Seq<char>>), i: int) -> (int, Seq<Seq<char>>) {
    (k.0, k.1.take(i))
}

/// The first ancestor that is made a folder: the root or `.` for a path
/// that starts with one, else the first component.
pub open spec fn first_ancestor(k: (int, Seq<Seq<char>>)) -> int {
    if k.0 == 0 { 1 } else { 0 }
}

/// `a` is the key of a folder that holds the entry at `k`.
pub open spec fn is_ancestor(k: (int, Seq<Seq<char>>), a: (int, Seq<Seq<char>>)) -> bool {
    exists|i: int| first_ancestor(k) <= i < k.1.len() && a == #[trigger] ancestor(k, i)
}

/// The ancestor must be a folder where it exists: every one but the root.
pub open spec fn checked_ancestor(k: (int, Seq<Seq<char>>), i: int) -> bool {
    !(k.0 == 1 && i == 0)
}

/// The entry is a folder of the host, of no recorded size, just made.
pub open spec fn made_dir(e: Option<VfsEntry>, host: Seq<char>) -> bool {
    e matches Some(VfsEntry::Dir(d)) && d.host@ == host && d.size is None && fresh(d.created, d.modified)
}

/// `after` is `before` with folders of `before`'s host added at missing
/// ancestors of `k`, and nothing else changed.
pub open spec fn grown_by_dirs(before: VirtualFileSystem, after: VirtualFileSystem, k: (int, Seq<Seq<char>>)) -> bool {
    &&& after.host() == before.host()
    &&& forall|a: (int, Seq<Seq<char>>)| #[trigger] after.entry(a) == before.entry(a)
        || (is_ancestor(k, a) && before.entry(a) is None && made_dir(after.entry(a), before.host()))
}

/// Every folder above `k` is recorded, a folder except perhaps the root.
pub open spec fn ancestors_present(fs: VirtualFileSystem, k: (int, Seq<Seq<char>>)) -> bool {
    forall|i: int| first_ancestor(k) <= i < k.1.len() ==> {
        &&& (#[trigger] fs.entry(ancestor(k, i))) is Some
        &&& checked_ancestor(k, i) ==> fs.entry(ancestor(k, i)) matches Some(VfsEntry::Dir(_))
    }
}

/// No ancestor that must be a folder is a file.
pub open spec fn no_file_above(fs: VirtualFileSystem, k: (int, Seq<Seq<char>>)) -> bool {
    forall|i: int| first_ancestor(k) <= i < k.1.len() && checked_ancestor(k, i)
        ==> !((#[trigger] fs.entry(ancestor(k, i))) matches Some(VfsEntry::File(_)))
}

/// The path written for the first `n` components: `/` or `.` for a path
/// that starts at the root or at the current folder, then each component
/// joined on in turn.
pub open spec fn spec_ancestor_path(kind: u8, comps: Seq<String>, n: int) -> Seq<char>
    decreases n,
{
    if n <= 0 {
        if kind == 1 { seq!['/'] } else if kind == 2 { seq!['.'] } else { Seq::empty() }
    } else {
        spec_join(spec_ancestor_path(kind, comps, n - 1), comps[n - 1]@)
    }
}

/// A path naming the ancestor with the first `n` components.
fn ancestor_path(kind: u8, comps: &Vec<String>, n: usize) -> (r: String)
    requires
        n <= comps@.len(),
    ensures
        r@ == spec_ancestor_path(kind, comps@, n as int),
{
    proof {
        reveal_strlit("/");
        reveal_strlit(".");
    }
    let mut r = if kind == 1 {
        String::from_str("/")
    } else if kind == 2 {
        String::from_str(".")
    } else {
        String::new()
    };
    let mut i: usize = 0;
    assert(r@ == spec_ancestor_path(kind, comps@, 0));
    while i < n
        invariant
            i <= n <= comps@.len(),
            r@ == spec_ancestor_path(kind, comps@, i as int),
        decreases n - i,
    {
        let joined = crate::path::join(r.as_str(), comps[i].as_str());
        r = joined;
        i = i + 1;
    }
    r
}

/// The key with the first `n` components of `key`.
fn ancestor_key(key: &PathKey, n: usize) -> (r: PathKey)
    requires
        n <= key.comps@.len(),
    ensures
        key_view(r) == ancestor(key_view(*key), n as int),
{
    let mut comps: Vec<String> = Vec::new();
    let mut i: usize = 0;
    while i < n
        invariant
            i <= n <= key.comps@.len(),
            comps@.len() == i,
            forall|j: int| 0 <= j < i ==> (#[trigger] comps@[j])@ == key.comps@[j]@,
        decreases n - i,
    {
        comps.push(copy_str(key.comps[i].as_str()));
        i = i + 1;
    }
    let r = PathKey { kind: key.kind, comps };
    assert(key_view(r).1 =~= key_view(*key).1.take(n as int));
    r
}

impl VirtualFileSystem {
    /// Makes every folder above `path` that is missing, as a folder of this
    /// file system's host. Fails when one of them, other than the root, is a
    /// file; the folders above that one are made all the same.
    pub fn ensure_vfs_parent_dirs_exist(&mut self, path: &str) -> (r: Result<(), VfsError>)
        ensures
            grown_by_dirs(*old(self), *final(self), spec_path_key(path@)),
            r is Ok <==> no_file_above(*old(self), spec_path_key(path@)),
            r is Ok ==> ancestors_present(*final(self), spec_path_key(path@)),
            r matches Err(e) ==> e is AlreadyExists,
    {
        let key = path_key(path);
        let ghost k = key_view(key);
        let ghost before = *self;
        if key.comps.len() == 0 {
            return Ok(());
        }
        let n = key.comps.len() - 1;
        let mut i: usize = if key.kind == 0 { 1 } else { 0 };
        while i <= n
            invariant
                before == *old(self),
                n + 1 == key.comps.len(),
                k == key_view(key),
                k == spec_path_key(path@),
                n + 1 == k.1.len(),
                first_ancestor(k) <= i <= n + 1,
                grown_by_dirs(before, *self, k),
                forall|j: int| first_ancestor(k) <= j < i && checked_ancestor(k, j)
                    ==> !((#[trigger] before.entry(ancestor(k, j))) matches Some(VfsEntry::File(_))),
                forall|j: int| first_ancestor(k) <= j < i ==> {
                    &&& (#[trigger] self.entry(ancestor(k, j))) is Some
                    &&& checked_ancestor(k, j) ==> self.entry(ancestor(k, j)) matches Some(VfsEntry::Dir(_))
                },
            decreases n + 1 - i,
        {
            let a = ancestor_key(&key, i);
            let ghost av = key_view(a);
            let ghost prev = *self;
            proof {
                assert(is_ancestor(k, av));
            }
            let found = self.position(&a);
            proof {
                use_type_invariant(&*self);
                lemma_lookup_some(self.slots@, av);
            }
            match found {
                Some(idx) => {
                    let is_file = match &self.slots[idx].entry {
                        VfsEntry::File(_) => true,
                        VfsEntry::Dir(_) => false,
                    };
                    if is_file && !(key.kind == 1 && i == 0) {
                        proof {
                            assert(self.entry(av) matches Some(VfsEntry::File(_)));
                            if before.entry(av) != self.entry(av) {
                                assert(made_dir(self.entry(av), before.host()));
                            }
                            assert(!no_file_above(before, k));
                        }
                        return Err(VfsError::AlreadyExists(ancestor_path(key.kind, &key.comps, i)));
                    }
                    proof {
                        if checked_ancestor(k, i as int) {
                            if before.entry(av) != self.entry(av) {
                                assert(made_dir(self.entry(av), before.host()));
                            }
                        }
                    }
                }
                None => {
                    let host = copy_str(self.simulated_host.as_str());
                    let display = ancestor_path(key.kind, &key.comps, i);
                    let made = now();
                    self.insert_key(a, display, VfsEntry::Dir(VfsDir { host, size: None, created: Some(made), modified: Some(made) }));
                    proof {
                        assert(prev.entry(av) is None);
                        assert(before.entry(av) is None);
                        assert forall|b: (int, Seq<Seq<char>>)| #[trigger] self.entry(b) == before.entry(b)
                            || (is_ancestor(k, b) && before.entry(b) is None && made_dir(self.entry(b), before.host())) by {
                            if b != av {
                                assert(self.entry(b) == prev.entry(b));
                            }
                        }
                    }
                }
            }
            proof {
                assert forall|j: int| first_ancestor(k) <= j < i + 1 implies {
                    &&& (#[trigger] self.entry(ancestor(k, j))) is Some
                    &&& checked_ancestor(k, j) ==> self.entry(ancestor(k, j)) matches Some(VfsEntry::Dir(_))
                } by {
                    if j < i {
                        assert(ancestor(k, j) != av) by {
                            assert(ancestor(k, j).1.len() != av.1.len());
                        }
                    }
                }
                assert forall|j: int| first_ancestor(k) <= j < i + 1 && checked_ancestor(k, j)
                    implies !((#[trigger] before.entry(ancestor(k, j))) matches Some(VfsEntry::File(_))) by {
                    if j == i {
                        if before.entry(av) != self.entry(av) {
                        }
                    }
                }
            }
            i = i + 1;
        }
        Ok(())
    }
}

/// The bytes of an optional content.
pub open spec fn content_of(o: Option<Vec<u8>>) -> Option<Seq<u8>> {
    match o {
        Some(v) => Some(v@),
        None => None,
    }
}

/// The entry is a file of the host holding `content`, of that size, that
/// links nowhere, just made.
pub open spec fn written_file(e: Option<VfsEntry>, content: Seq<u8>, host: Seq<char>) -> bool {
    e matches Some(VfsEntry::File(f)) && content_of(f.content) == Some(content)
        && f.size == Some(content.len() as u64) && f.host@ == host && f.target is None
        && f.content_source is None && fresh(f.created, f.modified)
}

/// The entry at `k` is a file holding `content`.
pub open spec fn holds_content(fs: VirtualFileSystem, k: (int, Seq<Seq<char>>), content: Seq<u8>) -> bool {
    fs.entry(k) matches Some(VfsEntry::File(g)) && content_of(g.content) == Some(content)
}

/// What downloading `path` gives: the content of the file there, if it
/// holds one; nothing for a folder or a missing path.
pub open spec fn download_gives(fs: VirtualFileSystem, path: Seq<char>, r: Option<Seq<u8>>) -> bool {
    match fs.entry(spec_path_key(path)) {
        Some(VfsEntry::File(f)) => r == content_of(f.content),
        _ => r is None,
    }
}

/// A file system grown from one with no file above `k` still has none.
proof fn lemma_no_file_above_kept(before: VirtualFileSystem, after: VirtualFileSystem, k: (int, Seq<Seq<char>>))
    requires
        no_file_above(before, k),
        grown_and_set(before, after, k),
    ensures
        no_file_above(after, k),
{
    assert forall|i: int| first_ancestor(k) <= i < k.1.len() && checked_ancestor(k, i)
        implies !((#[trigger] after.entry(ancestor(k, i))) matches Some(VfsEntry::File(_))) by {
        assert(ancestor(k, i).1.len() == i);
        assert(ancestor(k, i) != k);
    }
}

/// Growing twice around the same entry is growing once.
proof fn lemma_grown_and_set_trans(a: VirtualFileSystem, b: VirtualFileSystem, c: VirtualFileSystem,
    k: (int, Seq<Seq<char>>))
    requires
        grown_and_set(a, b, k),
        grown_and_set(b, c, k),
    ensures
        grown_and_set(a, c, k),
{
    assert forall|x: (int, Seq<Seq<char>>)| x != k implies (#[trigger] c.entry(x) == a.entry(x)
        || (is_ancestor(k, x) && a.entry(x) is None && made_dir(c.entry(x), a.host()))) by {
        assert(b.entry(x) == a.entry(x) || (is_ancestor(k, x) && a.entry(x) is None && made_dir(b.entry(x), a.host())));
        assert(c.entry(x) == b.entry(x) || (is_ancestor(k, x) && b.entry(x) is None && made_dir(c.entry(x), b.host())));
    }
}

/// `after` is the entry `before` with `content` appended: a file's bytes
/// (none when it holds none) followed by `content`, now held in memory, with
/// the new size; a new file of the host where there was none.
pub open spec fn appended(before: Option<VfsEntry>, after: Option<VfsEntry>, content: Seq<u8>, host: Seq<char>) -> bool {
    match before {
        Some(VfsEntry::File(f)) => after matches Some(VfsEntry::File(g))
            && content_of(g.content) == Some(match content_of(f.content) { Some(c) => c, None => Seq::empty() } + content)
            && g.size == Some(content_of(g.content)->Some_0.len() as u64)
            && g.host == f.host && g.target == f.target && g.content_source is None
            && g.created == f.created && g.modified is Some,
        _ => written_file(after, content, host),
    }
}

/// The entry is a file of the host with the content, size and link of the
/// file `from`, just made.
pub open spec fn copied_file(e: Option<VfsEntry>, from: VfsFile, host: Seq<char>) -> bool {
    e matches Some(VfsEntry::File(f)) && content_of(f.content) == content_of(from.content)
        && f.size == from.size && f.host@ == host
        && crate::text::opt_chars(f.target) == crate::text::opt_chars(from.target)
        && crate::text::opt_chars(f.content_source) == crate::text::opt_chars(from.content_source)
        && fresh(f.created, f.modified)
}

/// The entry `after` is `before` moved: the same in all but its change
/// time, which is set anew.
pub open spec fn moved_entry(before: Option<VfsEntry>, after: Option<VfsEntry>) -> bool {
    match before {
        Some(VfsEntry::File(f)) => after matches Some(VfsEntry::File(g)) && g.content == f.content
            && g.content_source == f.content_source && g.size == f.size && g.host == f.host
            && g.target == f.target && g.created == f.created && g.modified is Some,
        Some(VfsEntry::Dir(d)) => after matches Some(VfsEntry::Dir(e)) && e.host == d.host
            && e.size == d.size && e.created == d.created && e.modified is Some,
        None => after is None,
    }
}

/// The entry is a link of the host to `target`: a file holding the bytes of
/// the target's path.
pub open spec fn link_file(e: Option<VfsEntry>, target: Seq<char>, host: Seq<char>) -> bool {
    e matches Some(VfsEntry::File(f)) && content_of(f.content) == Some(crate::vfs::utf8(target))
        && f.size == Some(crate::vfs::utf8(target).len() as u64) && f.host@ == host
        && crate::text::opt_chars(f.target) == Some(target) && f.content_source is None
        && fresh(f.created, f.modified)
}

/// The UTF-8 bytes of a string.
pub open spec fn utf8(s: Seq<char>) -> Seq<u8> {
    vstd::utf8::encode_utf8(s)
}

/// `after` is `before` grown by folders above `k` and with the entry at `k`
/// replaced.
pub open spec fn grown_and_set(before: VirtualFileSystem, after: VirtualFileSystem, k: (int, Seq<Seq<char>>)) -> bool {
    &&& after.host() == before.host()
    &&& forall|a: (int, Seq<Seq<char>>)| a != k ==> (#[trigger] after.entry(a) == before.entry(a)
        || (is_ancestor(k, a) && before.entry(a) is None && made_dir(after.entry(a), before.host())))
}

/// A child of the folder `k`: one more component below it.
pub open spec fn is_child(c: (int, Seq<Seq<char>>), k: (int, Seq<Seq<char>>)) -> bool {
    c.0 == k.0 && c.1.len() == k.1.len() + 1 && c.1.take(k.1.len() as int) == k.1
}

/// The paths recorded for the children of `k`, in the order recorded.
pub open spec fn children_of(rec: Seq<((int, Seq<Seq<char>>), Seq<char>)>, k: (int, Seq<Seq<char>>)) -> Seq<Seq<char>>
    decreases rec.len(),
{
    if rec.len() == 0 {
        Seq::empty()
    } else if is_child(rec.last().0, k) {
        children_of(rec.drop_last(), k).push(rec.last().1)
    } else {
        children_of(rec.drop_last(), k)
    }
}

fn copy_bytes(b: &[u8]) -> (r: Vec<u8>)
    ensures
        r@ == b@,
{
    let mut v: Vec<u8> = Vec::new();
    let mut i: usize = 0;
    while i < b.len()
        invariant
            i <= b@.len(),
            v@ == b@.subrange(0, i as int),
        decreases b@.len() - i,
    {
        v.push(b[i]);
        i = i + 1;
    }
    assert(b@.subrange(0, b@.len() as int) =~= b@);
    v
}

fn copy_opt(o: &Option<String>) -> (r: Option<String>)
    ensures
        crate::text::opt_chars(r) == crate::text::opt_chars(*o),
{
    match o {
        Some(s) => Some(copy_str(s.as_str())),
        None => None,
    }
}

impl VfsFile {
    /// A copy of the file, belonging to `host`, made at `made`.
    fn copy_for(&self, host: &str, made: SystemTime) -> (r: VfsFile)
        ensures
            copied_file(Some(VfsEntry::File(r)), *self, host@),
    {
        let content = match &self.content {
            Some(c) => Some(copy_bytes(c.as_slice())),
            None => None,
        };
        VfsFile {
            content,
            content_source: copy_opt(&self.content_source),
            size: self.size,
            host: copy_str(host),
            target: copy_opt(&self.target),
            created: Some(made),
            modified: Some(made),
        }
    }
}

impl VirtualFileSystem {
    /// Removes the entry recorded for `key` and hands it back.
    fn take_entry(&mut self, key: &PathKey) -> (r: Option<VfsEntry>)
        ensures
            r == old(self).entry(key_view(*key)),
            final(self).host() == old(self).host(),
            forall|a: (int, Seq<Seq<char>>)| #[trigger] final(self).entry(a)
                == if a == key_view(*key) { None } else { old(self).entry(a) },
    {
        proof {
            use_type_invariant(&*self);
            lemma_lookup_some(self.slots@, key_view(*key));
        }
        let ghost before = self.slots@;
        match self.position(key) {
            Some(i) => {
                let mut slots: Vec<Slot> = Vec::new();
                std::mem::swap(&mut slots, &mut self.slots);
                let slot = slots.remove(i);
                proof {
                    assert forall|a: (int, Seq<Seq<char>>)| lookup_key(slots@, a)
                        == if a == key_view(*key) { None } else { lookup_key(before, a) } by {
                        lemma_lookup_remove(before, i as int, a);
                    }
                    lemma_lookup_remove(before, i as int, key_view(*key));
                }
                self.slots = slots;
                Some(slot.entry)
            }
            None => None,
        }
    }

    /// Writes a file at `path` holding `content`, making the folders above
    /// it; fails, without writing, when one of them is a file.
    pub fn write(&mut self, path: &str, content: &[u8]) -> (r: Result<(), VfsError>)
        ensures
            r is Ok <==> no_file_above(*old(self), spec_path_key(path@)),
            r is Ok ==> written_file(final(self).entry(spec_path_key(path@)), content@, old(self).host()),
            r is Ok ==> grown_and_set(*old(self), *final(self), spec_path_key(path@)),
            r is Err ==> grown_by_dirs(*old(self), *final(self), spec_path_key(path@)),
    {
        self.ensure_vfs_parent_dirs_exist(path)?;
        let ghost mid = *self;
        let made = now();
        let file = VfsFile {
            content: Some(copy_bytes(content)),
            content_source: None,
            size: Some(content.len() as u64),
            host: copy_str(self.simulated_host.as_str()),
            target: None,
            created: Some(made),
            modified: Some(made),
        };
        self.insert_vfs_entry(path, VfsEntry::File(file));
        proof {
            assert forall|a: (int, Seq<Seq<char>>)| a != spec_path_key(path@) implies (#[trigger] self.entry(a) == old(self).entry(a)
                || (is_ancestor(spec_path_key(path@), a) && old(self).entry(a) is None
                    && made_dir(self.entry(a), old(self).host()))) by {
                assert(self.entry(a) == mid.entry(a));
            }
        }
        Ok(())
    }

    /// The content of the file at `path`; nothing for a folder, a file
    /// without content, or a missing path.
    pub fn read(&self, path: &str) -> (r: Vec<u8>)
        ensures
            match self.entry(spec_path_key(path@)) {
                Some(VfsEntry::File(f)) => match f.content {
                    Some(c) => r@ == c@,
                    None => r@.len() == 0,
                },
                _ => r@.len() == 0,
            },
    {
        match self.get_vfs_entry(path) {
            Some(VfsEntry::File(f)) => match &f.content {
                Some(c) => copy_bytes(c.as_slice()),
                None => Vec::new(),
            },
            _ => Vec::new(),
        }
    }

    /// The paths recorded directly inside the folder at `path`, in the order
    /// they were recorded; fails for a file or a missing path.
    pub fn read_dir(&self, path: &str) -> (r: Result<Vec<String>, VfsError>)
        ensures
            match self.entry(spec_path_key(path@)) {
                Some(VfsEntry::File(_)) => r matches Err(e) && e is NotADirectory,
                None => r matches Err(e) && e is NotFound,
                Some(VfsEntry::Dir(_)) => r matches Ok(v)
                    && v@.map_values(|s: String| s@) == children_of(self.recorded(), spec_path_key(path@)),
            },
    {
        match self.get_vfs_entry(path) {
            Some(VfsEntry::File(_)) => return Err(VfsError::NotADirectory(copy_str(path))),
            None => return Err(VfsError::NotFound(copy_str(path))),
            Some(VfsEntry::Dir(_)) => {},
        }
        let key = path_key(path);
        let ghost k = key_view(key);
        let ghost rec = self.recorded();
        let mut out: Vec<String> = Vec::new();
        let mut i: usize = 0;
        while i < self.slots.len()
            invariant
                i <= self.slots@.len(),
                k == key_view(key),
                rec == self.recorded(),
                rec.len() == self.slots@.len(),
                out@.map_values(|s: String| s@) == children_of(rec.take(i as int), k),
            decreases self.slots@.len() - i,
        {
            let slot = &self.slots[i];
            proof {
                assert(rec.take(i + 1).drop_last() =~= rec.take(i as int));
                assert(rec.take(i + 1).last() == rec[i as int]);
                assert(rec[i as int] == (slot_key(self.slots@[i as int]), self.slots@[i as int].path@));
            }
            if is_child_exec(&slot.key, &key) {
                let ghost before = out@;
                out.push(copy_str(slot.path.as_str()));
                assert(out@.map_values(|s: String| s@) =~= before.map_values(|s: String| s@).push(slot.path@));
            }
            i = i + 1;
        }
        assert(rec.take(i as int) =~= rec);
        Ok(out)
    }

    /// Moves the entry at `from` to `to`, making the folders above `to`;
    /// fails when `from` is missing, when `to` exists, or when a folder above
    /// `to` is a file.
    pub fn rename(&mut self, from: &str, to: &str) -> (r: Result<(), VfsError>)
        ensures
            old(self).entry(spec_path_key(from@)) is None ==> (r matches Err(e) && e is NotFound
                && final(self).entry(spec_path_key(from@)) is None),
            (old(self).entry(spec_path_key(from@)) is Some && old(self).entry(spec_path_key(to@)) is Some)
                ==> (r matches Err(e) && e is AlreadyExists),
            r is Ok ==> {
                &&& moved_entry(old(self).entry(spec_path_key(from@)), final(self).entry(spec_path_key(to@)))
                &&& final(self).entry(spec_path_key(from@)) is None
                &&& forall|a: (int, Seq<Seq<char>>)| a != spec_path_key(from@) && a != spec_path_key(to@) ==>
                    (#[trigger] final(self).entry(a) == old(self).entry(a)
                    || (is_ancestor(spec_path_key(to@), a) && old(self).entry(a) is None
                        && made_dir(final(self).entry(a), old(self).host())))
            },
            (old(self).entry(spec_path_key(from@)) is Some && old(self).entry(spec_path_key(to@)) is None)
                ==> (r is Ok <==> no_file_above(*old(self), spec_path_key(to@))),
            final(self).host() == old(self).host(),
    {
        let from_key = path_key(from);
        let to_key = path_key(to);
        if self.position(&from_key).is_none() {
            proof {
                use_type_invariant(&*self);
                lemma_lookup_some(self.slots@, spec_path_key(from@));
            }
            return Err(VfsError::NotFound(copy_str(from)));
        }
        proof {
            use_type_invariant(&*self);
            lemma_lookup_some(self.slots@, spec_path_key(from@));
            lemma_lookup_some(self.slots@, spec_path_key(to@));
        }
        if self.position(&to_key).is_some() {
            return Err(VfsError::AlreadyExists(copy_str(to)));
        }
        let ghost start = *self;
        self.ensure_vfs_parent_dirs_exist(to)?;
        let ghost mid = *self;
        proof {
            // The source is not among the folders made above the target.
            if mid.entry(spec_path_key(from@)) != start.entry(spec_path_key(from@)) {
                assert(start.entry(spec_path_key(from@)) is None);
            }
        }
        let entry = match self.take_entry(&from_key) {
            Some(e) => e,
            None => {
                assert(false);
                return Err(VfsError::NotFound(copy_str(from)));
            }
        };
        let ghost taken = *self;
        let changed = now();
        let entry = match entry {
            VfsEntry::File(f) => VfsEntry::File(VfsFile {
                content: f.content, content_source: f.content_source, size: f.size, host: f.host, target: f.target,
                created: f.created, modified: Some(changed),
            }),
            VfsEntry::Dir(d) => VfsEntry::Dir(VfsDir { host: d.host, size: d.size, created: d.created, modified: Some(changed) }),
        };
        self.insert_key(to_key, copy_str(to), entry);
        proof {
            assert(spec_path_key(from@) != spec_path_key(to@));
            assert forall|a: (int, Seq<Seq<char>>)| a != spec_path_key(from@) && a != spec_path_key(to@) implies
                (#[trigger] self.entry(a) == old(self).entry(a)
                || (is_ancestor(spec_path_key(to@), a) && old(self).entry(a) is None
                    && made_dir(self.entry(a), old(self).host()))) by {
                assert(self.entry(a) == taken.entry(a));
                assert(taken.entry(a) == mid.entry(a));
            }
        }
        Ok(())
    }

    /// Forgets the entry at `path`; fails when there is none.
    pub fn delete(&mut self, path: &str) -> (r: Result<(), VfsError>)
        ensures
            r is Ok <==> old(self).entry(spec_path_key(path@)) is Some,
            r matches Err(e) ==> e is NotFound,
            final(self).host() == old(self).host(),
            forall|a: (int, Seq<Seq<char>>)| #[trigger] final(self).entry(a)
                == if a == spec_path_key(path@) { None } else { old(self).entry(a) },
    {
        if self.get_vfs_entry(path).is_none() {
            return Err(VfsError::NotFound(copy_str(path)));
        }
        self.remove_vfs_entry(path);
        Ok(())
    }
}

impl VirtualFileSystem {
    /// Copies the file at `from` to `to`, making the folders above `to`;
    /// the copy belongs to this file system's host and replaces what was at
    /// `to`. Fails for a folder or a missing path at `from`, and when a
    /// folder above `to` is a file.
    pub fn copy(&mut self, from: &str, to: &str) -> (r: Result<(), VfsError>)
        ensures
            final(self).host() == old(self).host(),
            match old(self).entry(spec_path_key(from@)) {
                None => r matches Err(e) && e is NotFound && *final(self) == *old(self),
                Some(VfsEntry::Dir(_)) => r matches Err(e) && e is IsADirectory && *final(self) == *old(self),
                Some(VfsEntry::File(f)) => {
                    &&& (r is Ok <==> no_file_above(*old(self), spec_path_key(to@)))
                    &&& r is Ok ==> copied_file(final(self).entry(spec_path_key(to@)), f, old(self).host())
                    &&& r is Ok ==> grown_and_set(*old(self), *final(self), spec_path_key(to@))
                },
            },
    {
        let copied = match self.get_vfs_entry(from) {
            Some(VfsEntry::File(f)) => f.copy_for(self.simulated_host.as_str(), now()),
            Some(VfsEntry::Dir(_)) => return Err(VfsError::IsADirectory(copy_str(from))),
            None => return Err(VfsError::NotFound(copy_str(from))),
        };
        self.ensure_vfs_parent_dirs_exist(to)?;
        let ghost mid = *self;
        self.insert_vfs_entry(to, VfsEntry::File(copied));
        proof {
            assert forall|a: (int, Seq<Seq<char>>)| a != spec_path_key(to@) implies (#[trigger] self.entry(a) == old(self).entry(a)
                || (is_ancestor(spec_path_key(to@), a) && old(self).entry(a) is None
                    && made_dir(self.entry(a), old(self).host()))) by {
                assert(self.entry(a) == mid.entry(a));
            }
        }
        Ok(())
    }

    /// Links `to` to the file at `from`: a copy of it at `to`, which must not
    /// exist, belonging to this file system's host. Fails for a folder or a
    /// missing path at `from`, for an existing `to`, and when a folder above
    /// `to` is a file.
    pub fn hardlink(&mut self, from: &str, to: &str) -> (r: Result<(), VfsError>)
        ensures
            final(self).host() == old(self).host(),
            match old(self).entry(spec_path_key(from@)) {
                None => r matches Err(e) && e is NotFound && *final(self) == *old(self),
                Some(VfsEntry::Dir(_)) => r matches Err(e) && e is PermissionDenied && *final(self) == *old(self),
                Some(VfsEntry::File(f)) => {
                    &&& old(self).entry(spec_path_key(to@)) is Some ==> (r matches Err(e) && e is AlreadyExists)
                    &&& old(self).entry(spec_path_key(to@)) is None ==> (r is Ok <==> no_file_above(*old(self), spec_path_key(to@)))
                    &&& r is Ok ==> copied_file(final(self).entry(spec_path_key(to@)), f, old(self).host())
                    &&& r is Ok ==> grown_and_set(*old(self), *final(self), spec_path_key(to@))
                },
            },
    {
        let copied = match self.get_vfs_entry(from) {
            Some(VfsEntry::File(f)) => f.copy_for(self.simulated_host.as_str(), now()),
            Some(VfsEntry::Dir(_)) => return Err(VfsError::PermissionDenied(copy_str(from))),
            None => return Err(VfsError::NotFound(copy_str(from))),
        };
        if self.get_vfs_entry(to).is_some() {
            return Err(VfsError::AlreadyExists(copy_str(to)));
        }
        self.ensure_vfs_parent_dirs_exist(to)?;
        let ghost mid = *self;
        self.insert_vfs_entry(to, VfsEntry::File(copied));
        proof {
            assert forall|a: (int, Seq<Seq<char>>)| a != spec_path_key(to@) implies (#[trigger] self.entry(a) == old(self).entry(a)
                || (is_ancestor(spec_path_key(to@), a) && old(self).entry(a) is None
                    && made_dir(self.entry(a), old(self).host()))) by {
                assert(self.entry(a) == mid.entry(a));
            }
        }
        Ok(())
    }

    /// Makes `to` a symbolic link to `from`: a file of this file system's
    /// host that holds the bytes of `from` and names it as its target.
    /// Fails for a missing `from`, an existing `to`, and when a folder above
    /// `to` is a file.
    pub fn symlink(&mut self, from: &str, to: &str) -> (r: Result<(), VfsError>)
        ensures
            final(self).host() == old(self).host(),
            old(self).entry(spec_path_key(from@)) is None ==> (r matches Err(e) && e is NotFound && *final(self) == *old(self)),
            (old(self).entry(spec_path_key(from@)) is Some && old(self).entry(spec_path_key(to@)) is Some)
                ==> (r matches Err(e) && e is AlreadyExists),
            (old(self).entry(spec_path_key(from@)) is Some && old(self).entry(spec_path_key(to@)) is None)
                ==> (r is Ok <==> no_file_above(*old(self), spec_path_key(to@))),
            r is Ok ==> link_file(final(self).entry(spec_path_key(to@)), from@, old(self).host()),
            r is Ok ==> grown_and_set(*old(self), *final(self), spec_path_key(to@)),
    {
        if self.get_vfs_entry(from).is_none() {
            return Err(VfsError::NotFound(copy_str(from)));
        }
        if self.get_vfs_entry(to).is_some() {
            return Err(VfsError::AlreadyExists(copy_str(to)));
        }
        self.ensure_vfs_parent_dirs_exist(to)?;
        let ghost mid = *self;
        let bytes = copy_bytes(from.as_bytes());
        let size = bytes.len() as u64;
        let made = now();
        let link = VfsFile {
            content: Some(bytes),
            content_source: None,
            size: Some(size),
            host: copy_str(self.simulated_host.as_str()),
            target: Some(copy_str(from)),
            created: Some(made),
            modified: Some(made),
        };
        self.insert_vfs_entry(to, VfsEntry::File(link));
        proof {
            assert forall|a: (int, Seq<Seq<char>>)| a != spec_path_key(to@) implies (#[trigger] self.entry(a) == old(self).entry(a)
                || (is_ancestor(spec_path_key(to@), a) && old(self).entry(a) is None
                    && made_dir(self.entry(a), old(self).host()))) by {
                assert(self.entry(a) == mid.entry(a));
            }
        }
        Ok(())
    }

    /// Receives a file at `to` in chunks: an empty file is written, then each
    /// chunk appended in order. Fails, without writing, when a folder above
    /// is a file.
    pub fn upload(&mut self, to: &str, chunks: &Vec<Vec<u8>>) -> (r: Result<(), VfsError>)
        ensures
            final(self).host() == old(self).host(),
            r is Ok <==> no_file_above(*old(self), spec_path_key(to@)),
            r is Ok ==> holds_content(*final(self), spec_path_key(to@), chunks@.map_values(|c: Vec<u8>| c@).flatten()),
            r is Ok ==> (final(self).entry(spec_path_key(to@)) matches Some(VfsEntry::File(g))
                && g.host@ == old(self).host() && g.target is None),
            r is Ok ==> grown_and_set(*old(self), *final(self), spec_path_key(to@)),
    {
        let ghost k = spec_path_key(to@);
        let ghost start = *self;
        let empty: Vec<u8> = Vec::new();
        self.write(to, empty.as_slice())?;
        proof {
            lemma_no_file_above_kept(start, *self, k);
        }
        let mut i: usize = 0;
        while i < chunks.len()
            invariant
                k == spec_path_key(to@),
                i <= chunks@.len(),
                self.host() == start.host(),
                no_file_above(*self, k),
                grown_and_set(start, *self, k),
                self.entry(k) matches Some(VfsEntry::File(g))
                    && content_of(g.content) == Some(chunks@.take(i as int).map_values(|c: Vec<u8>| c@).flatten())
                    && g.host@ == start.host() && g.target is None,
            decreases chunks@.len() - i,
        {
            let ghost before = *self;
            let r = self.append_to_vfs_file(to, chunks[i].as_slice());
            proof {
                assert(r is Ok);
                lemma_no_file_above_kept(before, *self, k);
                lemma_grown_and_set_trans(start, before, *self, k);
                let f = chunks@.take(i as int).map_values(|c: Vec<u8>| c@);
                let g = chunks@.take(i + 1).map_values(|c: Vec<u8>| c@);
                assert(g =~= f.push(chunks@[i as int]@));
                f.lemma_flatten_push(chunks@[i as int]@);
            }
            i = i + 1;
        }
        assert(chunks@.take(chunks@.len() as int) =~= chunks@);
        Ok(())
    }

    /// The content of the file at `path` as it is sent out: the whole
    /// content when the file holds one, else nothing.
    pub fn download(&self, path: &str) -> (r: Option<Vec<u8>>)
        ensures
            download_gives(*self, path@, content_of(r)),
    {
        match self.get_vfs_entry(path) {
            Some(VfsEntry::File(f)) => match &f.content {
                Some(c) => Some(copy_bytes(c.as_slice())),
                None => None,
            },
            _ => None,
        }
    }

    /// Appends `content` to the file at `path`, making the folders above it;
    /// a missing file is made with that content, for this file system's
    /// host. Fails for a folder, and when a folder above is a file.
    pub fn append_to_vfs_file(&mut self, path: &str, content: &[u8]) -> (r: Result<(), VfsError>)
        ensures
            final(self).host() == old(self).host(),
            no_file_above(*old(self), spec_path_key(path@)) ==> match old(self).entry(spec_path_key(path@)) {
                Some(VfsEntry::Dir(_)) => r matches Err(e) && e is IsADirectory,
                _ => r is Ok,
            },
            !no_file_above(*old(self), spec_path_key(path@)) ==> r is Err,
            r is Ok ==> grown_and_set(*old(self), *final(self), spec_path_key(path@)),
            r is Ok ==> appended(old(self).entry(spec_path_key(path@)), final(self).entry(spec_path_key(path@)),
                content@, old(self).host()),
    {
        let ghost start = *self;
        self.ensure_vfs_parent_dirs_exist(path)?;
        let ghost mid = *self;
        let key = path_key(path);
        proof {
            // The folders made lie above the path, so its own entry is as it was.
            if mid.entry(spec_path_key(path@)) != start.entry(spec_path_key(path@)) {
                let i = choose|i: int| first_ancestor(spec_path_key(path@)) <= i < spec_path_key(path@).1.len()
                    && spec_path_key(path@) == #[trigger] ancestor(spec_path_key(path@), i);
                assert(ancestor(spec_path_key(path@), i).1.len() < spec_path_key(path@).1.len());
            }
        }
        match self.take_entry(&key) {
            Some(VfsEntry::File(f)) => {
                let mut combined = match &f.content {
                    Some(c) => copy_bytes(c.as_slice()),
                    None => Vec::new(),
                };
                let ghost old_content = combined@;
                let mut i: usize = 0;
                while i < content.len()
                    invariant
                        i <= content@.len(),
                        combined@ == old_content + content@.subrange(0, i as int),
                    decreases content@.len() - i,
                {
                    combined.push(content[i]);
                    i = i + 1;
                    assert(combined@ =~= old_content + content@.subrange(0, i as int));
                }
                assert(content@.subrange(0, content@.len() as int) =~= content@);
                let size = combined.len() as u64;
                let updated = VfsFile {
                    content: Some(combined), content_source: None, size: Some(size), host: f.host, target: f.target,
                    created: f.created, modified: Some(now()),
                };
                self.insert_key(key, copy_str(path), VfsEntry::File(updated));
            }
            Some(VfsEntry::Dir(d)) => {
                self.insert_key(key, copy_str(path), VfsEntry::Dir(d));
                proof {
                    assert forall|a: (int, Seq<Seq<char>>)| #[trigger] self.entry(a) == mid.entry(a) by {}
                }
                return Err(VfsError::IsADirectory(copy_str(path)));
            }
            None => {
                let made = now();
                let file = VfsFile {
                    content: Some(copy_bytes(content)),
                    content_source: None,
                    size: Some(content.len() as u64),
                    host: copy_str(self.simulated_host.as_str()),
                    target: None,
                    created: Some(made),
                    modified: Some(made),
                };
                self.insert_key(key, copy_str(path), VfsEntry::File(file));
            }
        }
        proof {
            assert forall|a: (int, Seq<Seq<char>>)| a != spec_path_key(path@) implies (#[trigger] self.entry(a) == old(self).entry(a)
                || (is_ancestor(spec_path_key(path@), a) && old(self).entry(a) is None
                    && made_dir(self.entry(a), old(self).host()))) by {
                assert(self.entry(a) == mid.entry(a));
            }
        }
        Ok(())
    }
}

/// The kind of a configured entry.
#[derive(Debug, PartialEq, Eq, Structural, Clone, Copy)]
pub enum VfsEntryType {
    File,
    Dir,
}

impl VfsEntryType {
    /// Entries are files unless configured otherwise.
    pub fn default() -> (t: VfsEntryType)
        ensures
            t == VfsEntryType::File,
    {
        VfsEntryType::File
    }
}

/// An entry that the virtual file system starts with. For a file whose
/// bytes are kept in the content store, `content_source` names them and
/// `content` holds them, as the caller read them from the store.
#[derive(Debug, PartialEq, Eq)]
pub struct VfsEntryConfig {
    pub path: String,
    pub entry_type: VfsEntryType,
    pub content_source: Option<String>,
    pub content: Option<Vec<u8>>,
    pub size: Option<u64>,
    pub host: String,
}

/// When an entry was made and last changed.
pub open spec fn times_of(e: Option<VfsEntry>) -> (Option<SystemTime>, Option<SystemTime>) {
    match e {
        Some(VfsEntry::File(f)) => (f.created, f.modified),
        Some(VfsEntry::Dir(d)) => (d.created, d.modified),
        None => (None, None),
    }
}

/// The entry is the one the configuration describes, just made.
pub open spec fn configured(e: Option<VfsEntry>, c: VfsEntryConfig) -> bool {
    &&& fresh(times_of(e).0, times_of(e).1)
    &&& match c.entry_type {
        VfsEntryType::File => e matches Some(VfsEntry::File(f)) && content_of(f.content) == content_of(c.content)
            && f.size == c.size
            && f.host@ == c.host@ && crate::text::opt_chars(f.content_source) == crate::text::opt_chars(c.content_source)
            && f.target is None,
        VfsEntryType::Dir => e matches Some(VfsEntry::Dir(d)) && d.host@ == c.host@ && d.size == c.size,
    }
}

/// What an entry is, leaving out when it was made and changed.
pub enum Shape {
    Absent,
    File {
        content: Option<Seq<u8>>,
        content_source: Option<Seq<char>>,
        size: Option<u64>,
        host: Seq<char>,
        target: Option<Seq<char>>,
    },
    Dir { host: Seq<char>, size: Option<u64> },
}

/// The shape of an entry.
pub open spec fn shape(e: Option<VfsEntry>) -> Shape {
    match e {
        None => Shape::Absent,
        Some(VfsEntry::File(f)) => Shape::File {
            content: content_of(f.content),
            content_source: crate::text::opt_chars(f.content_source),
            size: f.size,
            host: f.host@,
            target: crate::text::opt_chars(f.target),
        },
        Some(VfsEntry::Dir(d)) => Shape::Dir { host: d.host@, size: d.size },
    }
}

/// The shape of the entry a configuration describes.
pub open spec fn config_shape(c: VfsEntryConfig) -> Shape {
    match c.entry_type {
        VfsEntryType::File => Shape::File {
            content: content_of(c.content),
            content_source: crate::text::opt_chars(c.content_source),
            size: c.size,
            host: c.host@,
            target: None,
        },
        VfsEntryType::Dir => Shape::Dir { host: c.host@, size: c.size },
    }
}

/// The shape of the entry at `k` once the first `n` configurations are
/// loaded into `fs`, none of them having failed: the configured entry for
/// its path; else a folder of `fs`'s host made above a configured path
/// where there was nothing; else what `fs` had.
pub open spec fn shape_after(fs: VirtualFileSystem, cs: Seq<VfsEntryConfig>, n: int, k: (int, Seq<Seq<char>>)) -> Shape
    decreases n,
{
    if n <= 0 {
        shape(fs.entry(k))
    } else {
        let kc = spec_path_key(cs[n - 1].path@);
        let prev = shape_after(fs, cs, n - 1, k);
        if k == kc {
            config_shape(cs[n - 1])
        } else if is_ancestor(kc, k) && prev is Absent {
            Shape::Dir { host: fs.host(), size: None }
        } else {
            prev
        }
    }
}

/// Loading the same configurations into two file systems with the same host
/// and the same entries, leaving times aside, gives the same entries.
proof fn lemma_shape_after_same(f1: VirtualFileSystem, f2: VirtualFileSystem, cs: Seq<VfsEntryConfig>, n: int,
    k: (int, Seq<Seq<char>>))
    requires
        f1.host() == f2.host(),
        forall|a: (int, Seq<Seq<char>>)| #[trigger] shape(f1.entry(a)) == shape(f2.entry(a)),
    ensures
        shape_after(f1, cs, n, k) == shape_after(f2, cs, n, k),
    decreases n,
{
    if n > 0 {
        lemma_shape_after_same(f1, f2, cs, n - 1, k);
    }
}

/// The entry loaded for the `j`-th of the configurations `cs`: the last one
/// for its path.
pub open spec fn loaded_last(cs: Seq<VfsEntryConfig>, j: int) -> bool {
    0 <= j < cs.len() && last_for_key(cs, j, cs.len() as int)
}

/// No later configuration among the first `n` names the same path as the
/// `j`-th.
pub open spec fn last_for_key(cs: Seq<VfsEntryConfig>, j: int, n: int) -> bool {
    forall|m: int| j < m < n ==> spec_path_key((#[trigger] cs[m]).path@) != spec_path_key(cs[j].path@)
}

/// The entry is a file.
pub open spec fn is_file(e: Option<VfsEntry>) -> bool {
    e matches Some(VfsEntry::File(_))
}

/// Whether a file is recorded at `a` once the first `n` configurations are
/// loaded into `fs`, none of them having failed.
pub open spec fn file_after(fs: VirtualFileSystem, cs: Seq<VfsEntryConfig>, n: int, a: (int, Seq<Seq<char>>)) -> bool
    decreases n,
{
    if n <= 0 {
        is_file(fs.entry(a))
    } else if spec_path_key(cs[n - 1].path@) == a {
        cs[n - 1].entry_type == VfsEntryType::File
    } else {
        file_after(fs, cs, n - 1, a)
    }
}

/// Loading the `i`-th configuration into `fs`, after the ones before it,
/// fails: a folder above it is a file by then.
pub open spec fn blocked_at(fs: VirtualFileSystem, cs: Seq<VfsEntryConfig>, i: int) -> bool {
    let k = spec_path_key(cs[i].path@);
    exists|t: int| first_ancestor(k) <= t < k.1.len() && checked_ancestor(k, t)
        && #[trigger] file_after(fs, cs, i, ancestor(k, t))
}

impl VirtualFileSystem {
    /// Records the configured entries in order, with the folders above each;
    /// a later entry for the same path replaces an earlier one. Fails when a
    /// folder above an entry is a file.
    pub fn load(&mut self, configs: &Vec<VfsEntryConfig>) -> (r: Result<(), VfsError>)
        ensures
            final(self).host() == old(self).host(),
            r is Ok <==> forall|i: int| 0 <= i < configs@.len() ==> !#[trigger] blocked_at(*old(self), configs@, i),
            r matches Err(e) ==> e is AlreadyExists,
            r is Ok ==> forall|j: int| 0 <= j < configs@.len() && last_for_key(configs@, j, configs@.len() as int)
                ==> configured(final(self).entry(spec_path_key((#[trigger] configs@[j]).path@)), configs@[j]),
            r is Ok ==> forall|k: (int, Seq<Seq<char>>)| #[trigger] shape(final(self).entry(k))
                == shape_after(*old(self), configs@, configs@.len() as int, k),
            r is Ok ==> forall|j1: int, j2: int| #[trigger] loaded_last(configs@, j1) && #[trigger] loaded_last(configs@, j2)
                ==> times_of(final(self).entry(spec_path_key(configs@[j1].path@)))
                    == times_of(final(self).entry(spec_path_key(configs@[j2].path@))),
    {
        let ghost start = *self;
        let made = now();
        let mut i: usize = 0;
        while i < configs.len()
            invariant
                i <= configs@.len(),
                start == *old(self),
                self.host() == old(self).host(),
                forall|j: int| 0 <= j < i && last_for_key(configs@, j, i as int)
                    ==> configured(self.entry(spec_path_key((#[trigger] configs@[j]).path@)), configs@[j])
                    && times_of(self.entry(spec_path_key(configs@[j].path@))) == (Some(made), Some(made)),
                forall|a: (int, Seq<Seq<char>>)| #[trigger] is_file(self.entry(a)) == file_after(start, configs@, i as int, a),
                forall|a: (int, Seq<Seq<char>>)| #[trigger] shape(self.entry(a)) == shape_after(start, configs@, i as int, a),
                forall|m: int| 0 <= m < i ==> !#[trigger] blocked_at(start, configs@, m),
            decreases configs@.len() - i,
        {
            let c = &configs[i];
            let ghost before = *self;
            let ghost k = spec_path_key(configs@[i as int].path@);
            match self.ensure_vfs_parent_dirs_exist(c.path.as_str()) {
                Ok(()) => {
                    proof {
                        assert(!blocked_at(start, configs@, i as int)) by {
                            if blocked_at(start, configs@, i as int) {
                                let t = choose|t: int| first_ancestor(k) <= t < k.1.len() && checked_ancestor(k, t)
                                    && #[trigger] file_after(start, configs@, i as int, ancestor(k, t));
                                assert(is_file(before.entry(ancestor(k, t))));
                            }
                        }
                    }
                },
                Err(e) => {
                    proof {
                        let t = choose|t: int| first_ancestor(k) <= t < k.1.len() && checked_ancestor(k, t)
                            && (#[trigger] before.entry(ancestor(k, t))) matches Some(VfsEntry::File(_));
                        assert(is_file(before.entry(ancestor(k, t))));
                        assert(file_after(start, configs@, i as int, ancestor(k, t)));
                        assert(blocked_at(start, configs@, i as int));
                    }
                    return Err(e);
                },
            }
            let ghost mid = *self;
            let entry = match c.entry_type {
                VfsEntryType::File => VfsEntry::File(VfsFile {
                    content: match &c.content {
                        Some(b) => Some(copy_bytes(b.as_slice())),
                        None => None,
                    },
                    content_source: copy_opt(&c.content_source),
                    size: c.size,
                    host: copy_str(c.host.as_str()),
                    target: None,
                    created: Some(made),
                    modified: Some(made),
                }),
                VfsEntryType::Dir => VfsEntry::Dir(VfsDir {
                    host: copy_str(c.host.as_str()), size: c.size, created: Some(made), modified: Some(made),
                }),
            };
            self.insert_vfs_entry(c.path.as_str(), entry);
            proof {
                assert forall|j: int| 0 <= j < i + 1 && last_for_key(configs@, j, i + 1)
                    implies configured(self.entry(spec_path_key((#[trigger] configs@[j]).path@)), configs@[j])
                    && times_of(self.entry(spec_path_key(configs@[j].path@))) == (Some(made), Some(made)) by {
                    if j < i {
                        let kj = spec_path_key(configs@[j].path@);
                        assert(kj != spec_path_key(configs@[i as int].path@));
                        assert(last_for_key(configs@, j, i as int));
                        assert(configured(before.entry(kj), configs@[j]));
                        assert(self.entry(kj) == mid.entry(kj));
                        assert(before.entry(kj) is Some);
                    }
                }
                assert forall|a: (int, Seq<Seq<char>>)| #[trigger] is_file(self.entry(a))
                    == file_after(start, configs@, i + 1, a) by {
                    assert(is_file(mid.entry(a)) == is_file(before.entry(a)));
                }
                assert forall|a: (int, Seq<Seq<char>>)| #[trigger] shape(self.entry(a))
                    == shape_after(start, configs@, i + 1, a) by {
                    assert(shape(before.entry(a)) == shape_after(start, configs@, i as int, a));
                    if a != k {
                        assert(self.entry(a) == mid.entry(a));
                        if is_ancestor(k, a) && before.entry(a) is None {
                            let t = choose|t: int| first_ancestor(k) <= t < k.1.len() && a == #[trigger] ancestor(k, t);
                            assert(mid.entry(ancestor(k, t)) is Some);
                            assert(made_dir(mid.entry(a), before.host()));
                        } else {
                            assert(mid.entry(a) == before.entry(a));
                        }
                    }
                }
            }
            i = i + 1;
        }
        proof {
            assert forall|j1: int, j2: int| #[trigger] loaded_last(configs@, j1) && #[trigger] loaded_last(configs@, j2)
                implies times_of(self.entry(spec_path_key(configs@[j1].path@)))
                    == times_of(self.entry(spec_path_key(configs@[j2].path@))) by {
                assert(last_for_key(configs@, j1, i as int));
                assert(last_for_key(configs@, j2, i as int));
            }
        }
        Ok(())
    }
}

/// Where and how a location of the virtual file system is walked.
#[derive(Debug, PartialEq, Eq)]
pub struct VfsLocation {
    pub path: String,
    pub host: String,
    pub min_depth: usize,
    pub max_depth: usize,
    pub exclude: Vec<String>,
    pub hidden_files: bool,
    pub partial_files: bool,
    pub target: crate::storage::Target,
}

/// The host of an entry.
pub open spec fn entry_host(e: VfsEntry) -> Seq<char> {
    match e {
        VfsEntry::File(f) => f.host@,
        VfsEntry::Dir(d) => d.host@,
    }
}

/// The key names a hidden entry: its last component starts with a dot and
/// is not `..`.
pub open spec fn hidden_key(k: (int, Seq<Seq<char>>)) -> bool {
    k.1.len() > 0 && k.1.last() != seq!['.', '.'] && k.1.last().len() > 0 && k.1.last()[0] == '.'
}

/// One of the excluded paths names the key.
pub open spec fn excluded_key(exclude: Seq<String>, k: (int, Seq<Seq<char>>)) -> bool {
    exists|i: int| 0 <= i < exclude.len() && spec_path_key((#[trigger] exclude[i])@) == k
}

/// The entry at key `n`, `depth` levels below the walked path, is visited:
/// it is recorded for the location's host, it is not a folder at or below
/// the maximum depth, not excluded, not a hidden entry unless those are
/// walked, and not a partial file unless those are walked (`ext` is the
/// extension of its path).
pub open spec fn visited(fs: VirtualFileSystem, loc: VfsLocation, n: (int, Seq<Seq<char>>), depth: int, ext: Option<Seq<char>>) -> bool {
    &&& fs.entry(n) is Some
    &&& entry_host(fs.entry(n)->Some_0) == loc.host@
    &&& !(fs.entry(n) matches Some(VfsEntry::Dir(_)) && loc.max_depth > 0 && depth >= loc.max_depth)
    &&& !excluded_key(loc.exclude@, n)
    &&& !(!loc.hidden_files && hidden_key(n))
    &&& !(!loc.partial_files && (fs.entry(n) matches Some(VfsEntry::File(_)))
        && (ext matches Some(x) && crate::storage::partial_extension(x)))
}

/// The entry recorded under `k` at `p` is discovered from the location: it
/// lies at or below the walked path, every folder from the walked path down
/// to it is visited, it is visited itself, it is of the kind the location
/// targets, and it lies at least the minimum depth below.
pub open spec fn discovered(fs: VirtualFileSystem, loc: VfsLocation, k: (int, Seq<Seq<char>>), p: Seq<char>) -> bool {
    let r = spec_path_key(loc.path@);
    let d = k.1.len() - r.1.len();
    &&& k.0 == r.0
    &&& d >= 0
    &&& k.1.take(r.1.len() as int) == r.1
    &&& forall|j: int| 0 <= j < d ==> {
        &&& visited(fs, loc, #[trigger] ancestor(k, r.1.len() + j), j, None)
        &&& fs.entry(ancestor(k, r.1.len() + j)) matches Some(VfsEntry::Dir(_))
    }
    &&& visited(fs, loc, k, d, crate::path::spec_extension(p))
    &&& match loc.target {
        crate::storage::Target::Files => fs.entry(k) matches Some(VfsEntry::File(_)),
        crate::storage::Target::Folders => fs.entry(k) matches Some(VfsEntry::Dir(_)),
    }
    &&& d >= loc.min_depth
}

/// The paths of the recorded entries that are discovered, in the order
/// recorded.
pub open spec fn discovered_paths(fs: VirtualFileSystem, loc: VfsLocation, rec: Seq<((int, Seq<Seq<char>>), Seq<char>)>) -> Seq<Seq<char>>
    decreases rec.len(),
{
    if rec.len() == 0 {
        Seq::empty()
    } else if discovered(fs, loc, rec.last().0, rec.last().1) {
        discovered_paths(fs, loc, rec.drop_last()).push(rec.last().1)
    } else {
        discovered_paths(fs, loc, rec.drop_last())
    }
}

fn excluded_exec(exclude: &Vec<String>, n: &PathKey) -> (r: bool)
    ensures
        r == excluded_key(exclude@, key_view(*n)),
{
    let mut i: usize = 0;
    while i < exclude.len()
        invariant
            i <= exclude@.len(),
            forall|j: int| 0 <= j < i ==> spec_path_key((#[trigger] exclude@[j])@) != key_view(*n),
        decreases exclude@.len() - i,
    {
        let k = path_key(exclude[i].as_str());
        if keys_equal(&k, n) {
            return true;
        }
        i = i + 1;
    }
    false
}

fn hidden_exec(n: &PathKey) -> (r: bool)
    ensures
        r == hidden_key(key_view(*n)),
{
    let len = n.comps.len();
    if len == 0 {
        return false;
    }
    let last = n.comps[len - 1].as_str();
    let is_dotdot = str_eq(last, "..");
    proof {
        reveal_strlit("..");
        assert(key_view(*n).1.last() == last@);
        assert(".."@ =~= seq!['.', '.']);
    }
    let l = last.unicode_len();
    !is_dotdot && l > 0 && last.get_char(0) == '.'
}

impl VirtualFileSystem {
    /// Whether the entry under `n`, `depth` levels down, is visited.
    fn visits(&self, loc: &VfsLocation, n: &PathKey, depth: usize, path: Option<&str>) -> (r: bool)
        ensures
            r == visited(*self, *loc, key_view(*n), depth as int,
                match path { Some(p) => crate::path::spec_extension(p@), None => None }),
    {
        proof {
            use_type_invariant(self);
            lemma_lookup_some(self.slots@, key_view(*n));
        }
        let e = match self.position(n) {
            Some(i) => &self.slots[i].entry,
            None => return false,
        };
        let host_ok = match e {
            VfsEntry::File(f) => str_eq(f.host.as_str(), loc.host.as_str()),
            VfsEntry::Dir(d) => str_eq(d.host.as_str(), loc.host.as_str()),
        };
        if !host_ok {
            return false;
        }
        let is_dir = match e {
            VfsEntry::Dir(_) => true,
            VfsEntry::File(_) => false,
        };
        if is_dir && loc.max_depth > 0 && depth >= loc.max_depth {
            return false;
        }
        if excluded_exec(&loc.exclude, n) {
            return false;
        }
        if !loc.hidden_files && hidden_exec(n) {
            return false;
        }
        if !loc.partial_files && !is_dir {
            match path {
                Some(p) => match crate::path::extension(p) {
                    Some(x) => {
                        let partial = str_eq(x.as_str(), "crdownload") || str_eq(x.as_str(), "part")
                            || str_eq(x.as_str(), "download");
                        if partial {
                            return false;
                        }
                    }
                    None => {}
                },
                None => {}
            }
        }
        true
    }

    /// Whether the entry under `n` is a folder.
    fn is_dir_at(&self, n: &PathKey) -> (r: bool)
        ensures
            r == (self.entry(key_view(*n)) matches Some(VfsEntry::Dir(_))),
    {
        proof {
            use_type_invariant(self);
            lemma_lookup_some(self.slots@, key_view(*n));
        }
        match self.position(n) {
            Some(i) => match &self.slots[i].entry {
                VfsEntry::Dir(_) => true,
                VfsEntry::File(_) => false,
            },
            None => false,
        }
    }

    /// Whether the entry recorded under `k` at `p` is discovered.
    fn discovers(&self, loc: &VfsLocation, root: &PathKey, k: &PathKey, p: &str) -> (r: bool)
        requires
            key_view(*root) == spec_path_key(loc.path@),
        ensures
            r == discovered(*self, *loc, key_view(*k), p@),
    {
        let ghost kv = key_view(*k);
        let ghost rv = key_view(*root);
        if k.kind != root.kind || k.comps.len() < root.comps.len() {
            return false;
        }
        let base = root.comps.len();
        let prefix = ancestor_key(k, base);
        if !keys_equal(&prefix, root) {
            return false;
        }
        let d = k.comps.len() - base;
        let mut j: usize = 0;
        while j < d
            invariant
                kv == key_view(*k),
                rv == key_view(*root),
                rv == spec_path_key(loc.path@),
                base == root.comps@.len(),
                d + base == k.comps.len(),
                j <= d,
                forall|m: int| 0 <= m < j ==> {
                    &&& visited(*self, *loc, #[trigger] ancestor(kv, rv.1.len() + m), m, None)
                    &&& self.entry(ancestor(kv, rv.1.len() + m)) matches Some(VfsEntry::Dir(_))
                },
            decreases d - j,
        {
            let n = ancestor_key(k, base + j);
            if !self.visits(loc, &n, j, None) || !self.is_dir_at(&n) {
                return false;
            }
            j = j + 1;
        }
        if !self.visits(loc, k, d, Some(p)) {
            return false;
        }
        let is_dir = self.is_dir_at(k);
        proof {
            assert(ancestor(kv, kv.1.len() as int) =~= kv) by {
                assert(kv.1.take(kv.1.len() as int) =~= kv.1);
            }
        }
        let kind_ok = match loc.target {
            crate::storage::Target::Files => {
                proof {
                    use_type_invariant(self);
                    lemma_lookup_some(self.slots@, kv);
                }
                !is_dir && self.position(k).is_some()
            }
            crate::storage::Target::Folders => is_dir,
        };
        kind_ok && d >= loc.min_depth
    }

    /// The paths of the entries discovered from the location, in the order
    /// they were recorded.
    pub fn discover(&self, location: &VfsLocation) -> (r: Vec<String>)
        ensures
            r@.map_values(|s: String| s@) == discovered_paths(*self, *location, self.recorded()),
    {
        let root = path_key(location.path.as_str());
        let ghost rec = self.recorded();
        let mut out: Vec<String> = Vec::new();
        let mut i: usize = 0;
        while i < self.slots.len()
            invariant
                i <= self.slots@.len(),
                rec == self.recorded(),
                rec.len() == self.slots@.len(),
                key_view(root) == spec_path_key(location.path@),
                out@.map_values(|s: String| s@) == discovered_paths(*self, *location, rec.take(i as int)),
            decreases self.slots@.len() - i,
        {
            let slot = &self.slots[i];
            proof {
                assert(rec.take(i + 1).drop_last() =~= rec.take(i as int));
                assert(rec.take(i + 1).last() == rec[i as int]);
                assert(rec[i as int] == (slot_key(self.slots@[i as int]), self.slots@[i as int].path@));
            }
            if self.discovers(location, &root, &slot.key, slot.path.as_str()) {
                let ghost before = out@;
                out.push(copy_str(slot.path.as_str()));
                assert(out@.map_values(|s: String| s@) =~= before.map_values(|s: String| s@).push(slot.path@));
            }
            i = i + 1;
        }
        assert(rec.take(i as int) =~= rec);
        out
    }
}

/// What is uploaded is downloaded back: after chunks are uploaded to `p`,
/// downloading `p`, or any path that names the same entry, gives the chunks
/// one after the other.
pub proof fn law_upload_download(fs: VirtualFileSystem, p: Seq<char>, q: Seq<char>, chunks: Seq<Seq<u8>>,
    r: Option<Seq<u8>>)
    requires
        holds_content(fs, spec_path_key(p), chunks.flatten()),
        spec_path_key(q) == spec_path_key(p),
        download_gives(fs, q, r),
    ensures
        r == Some(chunks.flatten()),
{
}

/// A load depends on the configurations alone: two loads of the same
/// configurations, each into a file system with no entries, both of the same
/// host, give the same entry at every path, leaving aside when the entries
/// were made.
pub proof fn law_load_depends_on_configs(empty1: VirtualFileSystem, loaded1: VirtualFileSystem,
    empty2: VirtualFileSystem, loaded2: VirtualFileSystem, cs: Seq<VfsEntryConfig>)
    requires
        empty1.host() == empty2.host(),
        forall|a: (int, Seq<Seq<char>>)| #[trigger] empty1.entry(a) is None && empty2.entry(a) is None,
        forall|a: (int, Seq<Seq<char>>)| #[trigger] shape(loaded1.entry(a)) == shape_after(empty1, cs, cs.len() as int, a),
        forall|a: (int, Seq<Seq<char>>)| #[trigger] shape(loaded2.entry(a)) == shape_after(empty2, cs, cs.len() as int, a),
    ensures
        forall|a: (int, Seq<Seq<char>>)| #[trigger] shape(loaded1.entry(a)) == shape(loaded2.entry(a)),
{
    assert forall|a: (int, Seq<Seq<char>>)| #[trigger] shape(empty1.entry(a)) == shape(empty2.entry(a)) by {
        assert(empty1.entry(a) is None && empty2.entry(a) is None);
    }
    assert forall|a: (int, Seq<Seq<char>>)| #[trigger] shape(loaded1.entry(a)) == shape(loaded2.entry(a)) by {
        lemma_shape_after_same(empty1, empty2, cs, cs.len() as int, a);
    }
}

/// What a snapshot stores is kept on appending: a file loaded with the bytes
/// its content source holds, then appended to, holds those bytes followed by
/// the appended ones.
pub proof fn law_load_append(loaded: VirtualFileSystem, after: Option<VfsEntry>, c: VfsEntryConfig,
    stored: Seq<u8>, added: Seq<u8>)
    requires
        c.entry_type == VfsEntryType::File,
        content_of(c.content) == Some(stored),
        configured(loaded.entry(spec_path_key(c.path@)), c),
        appended(loaded.entry(spec_path_key(c.path@)), after, added, loaded.host()),
    ensures
        after matches Some(VfsEntry::File(g)) && content_of(g.content) == Some(stored + added),
{
}

/// What is written can be read back, also after the file is moved: a file
/// written at `p` with `content` and then renamed to `q` holds `content` at
/// `q`, and nothing remains at `p`.
pub proof fn law_write_rename_read(written: VirtualFileSystem, moved: VirtualFileSystem,
    p: Seq<char>, q: Seq<char>, content: Seq<u8>)
    requires
        written_file(written.entry(spec_path_key(p)), content, written.host()),
        moved_entry(written.entry(spec_path_key(p)), moved.entry(spec_path_key(q))),
        moved.entry(spec_path_key(p)) is None,
        moved.host() == written.host(),
    ensures
        moved.entry(spec_path_key(q)) matches Some(VfsEntry::File(f)) && content_of(f.content) == Some(content)
            && f.size == Some(content.len() as u64),
        moved.entry(spec_path_key(p)) is None,
{
}

/// Whether `c` is a child of `k`.
fn is_child_exec(c: &PathKey, k: &PathKey) -> (r: bool)
    ensures
        r == is_child(key_view(*c), key_view(*k)),
{
    if c.kind != k.kind || c.comps.len() == 0 || c.comps.len() - 1 != k.comps.len() {
        proof {
            if c.kind == k.kind {
                assert(key_view(*c).1.len() == c.comps@.len());
                assert(key_view(*k).1.len() == k.comps@.len());
            }
        }
        return false;
    }
    let mut i: usize = 0;
    while i < k.comps.len()
        invariant
            i <= k.comps@.len(),
            c.comps@.len() == k.comps@.len() + 1,
            forall|j: int| 0 <= j < i ==> (#[trigger] c.comps@[j])@ == k.comps@[j]@,
        decreases k.comps@.len() - i,
    {
        if !str_eq(c.comps[i].as_str(), k.comps[i].as_str()) {
            proof {
                assert(key_view(*c).1.take(k.comps@.len() as int)[i as int] != key_view(*k).1[i as int]);
            }
            return false;
        }
        i = i + 1;
    }
    assert(key_view(*c).1.take(k.comps@.len() as int) =~= key_view(*k).1);
    true
}

/// Whether two keys are equal.
fn keys_equal(a: &PathKey, b: &PathKey) -> (r: bool)
    ensures
        r == (key_view(*a) == key_view(*b)),
{
    if a.kind != b.kind || a.comps.len() != b.comps.len() {
        proof {
            if a.kind == b.kind {
                assert(key_view(*a).1.len() != key_view(*b).1.len());
            }
        }
        return false;
    }
    let mut i: usize = 0;
    while i < a.comps.len()
        invariant
            i <= a.comps@.len() == b.comps@.len(),
            forall|j: int| 0 <= j < i ==> (#[trigger] a.comps@[j])@ == b.comps@[j]@,
        decreases a.comps@.len() - i,
    {
        if !str_eq(a.comps[i].as_str(), b.comps[i].as_str()) {
            proof {
                assert(key_view(*a).1[i as int] != key_view(*b).1[i as int]);
            }
            return false;
        }
        i = i + 1;
    }
    assert(key_view(*a).1 =~= key_view(*b).1);
    true
}

} // verus!

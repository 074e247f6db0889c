//! Which entries of a walked folder become resources.

use vstd::prelude::*;
use crate::hidden::{IsHidden, hidden_path};
use crate::path::{spec_extension, spec_path_eq, extension, path_eq};
use crate::text::{str_eq, copy_str};

verus! {

/// Whether a location's rules act on files or on folders.
#[derive(Debug, PartialEq, Eq, Structural, Clone, Copy)]
pub enum Target {
    Files,
    Folders,
}

/// The options of a location that decide which entries are kept.
#[derive(Debug, PartialEq, Eq)]
pub struct LocationOptions {
    pub exclude: Vec<String>,
    pub target: Target,
    pub partial_files: bool,
    pub hidden_files: bool,
}

/// An entry found while walking a location: its path and its kind.
#[derive(Debug, PartialEq, Eq)]
pub struct Entry {
    pub path: String,
    pub is_file: bool,
    pub is_dir: bool,
}

/// The local file system.
#[derive(Debug, PartialEq, Eq)]
pub struct LocalFileSystem;

/// The handler of an SFTP connection.
#[derive(Debug, PartialEq, Eq)]
pub struct Client;

/// The extension marks a file that is still being downloaded.
pub open spec fn partial_extension(e: Seq<char>) -> bool {
    e == "crdownload"@ || e == "part"@ || e == "download"@
}

/// The path is one of the excluded paths.
pub open spec fn excluded(exclude: Seq<String>, p: Seq<char>) -> bool {
    exists|i: int| 0 <= i < exclude.len() && spec_path_eq(#[trigger] exclude[i]@, p)
}

/// Whether an entry is kept: it is not excluded, it is of the kind the
/// location targets, and a file is neither partial nor hidden unless the
/// options allow it.
pub open spec fn entry_kept(e: Entry, o: LocationOptions) -> bool {
    &&& !excluded(o.exclude@, e.path@)
    &&& !(e.is_file && o.target == Target::Folders)
    &&& !(e.is_dir && o.target == Target::Files)
    &&& e.is_file ==> !(spec_extension(e.path@) matches Some(x) && partial_extension(x) && !o.partial_files)
    &&& e.is_file ==> !(hidden_path(e.path@) && !o.hidden_files)
}

impl LocalFileSystem {
    /// Whether the walked entry becomes a resource.
    pub fn filter_entry(&self, entry: &Entry, options: &LocationOptions) -> (b: bool)
        ensures
            b == entry_kept(*entry, *options),
    {
        let mut i: usize = 0;
        while i < options.exclude.len()
            invariant
                i <= options.exclude@.len(),
                forall|j: int| 0 <= j < i ==> !spec_path_eq(#[trigger] options.exclude@[j]@, entry.path@),
            decreases options.exclude@.len() - i,
        {
            if path_eq(options.exclude[i].as_str(), entry.path.as_str()) {
                return false;
            }
            i = i + 1;
        }
        if entry.is_file && options.target == Target::Folders {
            return false;
        }
        if entry.is_dir && options.target == Target::Files {
            return false;
        }
        if entry.is_file {
            match extension(entry.path.as_str()) {
                Some(x) => {
                    let partial = str_eq(x.as_str(), "crdownload") || str_eq(x.as_str(), "part")
                        || str_eq(x.as_str(), "download");
                    if partial && !options.partial_files {
                        return false;
                    }
                }
                None => {}
            }
            let hidden = match entry.path.as_str().is_hidden() {
                Ok(h) => h,
                Err(_) => false,
            };
            if hidden && !options.hidden_files {
                return false;
            }
        }
        true
    }
}

impl Client {
    /// Every server key is accepted.
    pub fn check_server_key(&mut self) -> (r: Result<bool, core::convert::Infallible>)
        ensures
            r matches Ok(b) && b,
    {
        Ok(true)
    }
}

/// The options of a remote location that decide what its walk keeps.
#[derive(Debug, PartialEq, Eq)]
pub struct SftpOptions {
    pub min_depth: usize,
    pub max_depth: usize,
    pub exclude: Vec<String>,
    pub hidden_files: bool,
    pub target: Target,
}

/// A location reached over SFTP.
#[derive(Debug, PartialEq, Eq)]
pub struct Sftp;

/// The parts a remote folder's path is written from: `/` for its first
/// component, then its other components.
pub open spec fn sftp_parts(p: Seq<char>) -> Seq<Seq<char>> {
    let k = crate::path::spec_path_key(p);
    if k.0 != 0 {
        seq![seq!['/']] + k.1
    } else if k.1.len() > 0 {
        seq![seq!['/']] + k.1.drop_first()
    } else {
        Seq::empty()
    }
}

/// `s` with each `//`, read from the left, made `/`.
pub open spec fn single_slashes(s: Seq<char>) -> Seq<char>
    decreases s.len(),
{
    if s.len() >= 2 && s[0] == '/' && s[1] == '/' {
        seq!['/'] + single_slashes(s.skip(2))
    } else if s.len() == 0 {
        s
    } else {
        seq![s[0]] + single_slashes(s.drop_first())
    }
}

/// The path of the entry `name` of the remote folder `folder`.
pub open spec fn sftp_entry_path(folder: Seq<char>, name: Seq<char>) -> Seq<char> {
    single_slashes(crate::lines::joined_by(sftp_parts(folder).push(name), '/'))
}

fn single_slashes_exec(s: &str) -> (r: String)
    ensures
        r@ == single_slashes(s@),
{
    let v = crate::text::chars_of(s);
    let mut out: Vec<char> = Vec::new();
    let mut i: usize = 0;
    assert(v@.skip(0) =~= v@);
    assert(out@ + single_slashes(v@.skip(0)) =~= single_slashes(s@));
    while i < v.len()
        invariant
            i <= v@.len(),
            v@ == s@,
            out@ + single_slashes(v@.skip(i as int)) == single_slashes(s@),
        decreases v@.len() - i,
    {
        let ghost rest = v@.skip(i as int);
        if i + 1 < v.len() && v[i] == '/' && v[i + 1] == '/' {
            assert(rest[0] == '/' && rest[1] == '/');
            assert(rest.skip(2) =~= v@.skip(i + 2));
            out.push('/');
            i = i + 2;
            assert(out@ + single_slashes(v@.skip(i as int)) =~= single_slashes(s@)) by {
                assert(single_slashes(rest) == seq!['/'] + single_slashes(rest.skip(2)));
            }
        } else {
            assert(rest[0] == v@[i as int]);
            assert(rest.drop_first() =~= v@.skip(i + 1));
            proof {
                if rest.len() >= 2 {
                    assert(rest[1] == v@[i + 1]);
                }
            }
            out.push(v[i]);
            i = i + 1;
            assert(out@ + single_slashes(v@.skip(i as int)) =~= single_slashes(s@)) by {
                assert(single_slashes(rest) == seq![rest[0]] + single_slashes(rest.drop_first()));
            }
        }
    }
    assert(v@.skip(i as int).len() == 0);
    assert(out@ =~= single_slashes(s@));
    crate::text::string_from(&out, 0, out.len())
}

impl Sftp {
    /// The path of the entry `name` listed in the remote folder `folder`.
    pub fn entry_path(folder: &str, name: &str) -> (r: String)
        ensures
            r@ == sftp_entry_path(folder@, name@),
    {
        let key = crate::path::path_key(folder);
        let ghost parts = sftp_parts(folder@).push(name@);
        let has_first = key.kind != 0 || key.comps.len() > 0;
        let start: usize = if key.kind != 0 { 0 } else if key.comps.len() > 0 { 1 } else { 0 };
        let mut pieces: Vec<String> = Vec::new();
        proof {
            reveal_strlit("/");
        }
        if has_first {
            pieces.push(String::from_str("/"));
        }
        let mut i: usize = start;
        while i < key.comps.len()
            invariant
                start <= i <= key.comps@.len(),
                start == (if key.kind != 0 { 0usize } else if key.comps@.len() > 0 { 1usize } else { 0usize }),
                has_first == (key.kind != 0 || key.comps@.len() > 0),
                crate::path::key_view(key) == crate::path::spec_path_key(folder@),
                pieces@.len() == (if has_first { 1int } else { 0int }) + i - start,
                forall|j: int| 0 <= j < pieces@.len() ==> (#[trigger] pieces@[j])@ == sftp_parts(folder@)[j],
            decreases key.comps@.len() - i,
        {
            pieces.push(copy_str(key.comps[i].as_str()));
            i = i + 1;
        }
        pieces.push(copy_str(name));
        proof {
            reveal_strlit("/");
            assert(pieces@.map_values(|x: String| x@) =~= parts);
        }
        let ghost pv = pieces@.map_values(|x: String| x@);
        let joined_all = crate::lines::join_with(&pieces, '/');
        assert(joined_all@ == crate::lines::joined_by(pv, '/'));
        single_slashes_exec(joined_all.as_str())
    }

    /// Whether the walk lists the folder at `depth`: not below the maximum
    /// depth.
    pub fn lists(depth: usize, options: &SftpOptions) -> (b: bool)
        ensures
            b == (depth <= options.max_depth),
    {
        depth <= options.max_depth
    }

    /// Whether a listed entry is looked at: it is not excluded, and its path
    /// does not start with a dot unless hidden files are walked.
    pub fn considers(entry: &str, options: &SftpOptions) -> (b: bool)
        ensures
            b == (!excluded(options.exclude@, entry@)
                && !(!options.hidden_files && entry@.len() > 0 && entry@[0] == '.')),
    {
        let mut i: usize = 0;
        while i < options.exclude.len()
            invariant
                i <= options.exclude@.len(),
                forall|j: int| 0 <= j < i ==> !spec_path_eq(#[trigger] options.exclude@[j]@, entry@),
            decreases options.exclude@.len() - i,
        {
            if path_eq(options.exclude[i].as_str(), entry) {
                return false;
            }
            i = i + 1;
        }
        let n = entry.unicode_len();
        !(!options.hidden_files && n > 0 && entry.get_char(0) == '.')
    }

    /// What becomes of an entry that is looked at, at `depth`: whether it is
    /// kept as a resource (of the targeted kind, at least the minimum depth
    /// down), and whether the walk goes into it (a folder).
    pub fn keeps(is_dir: bool, depth: usize, options: &SftpOptions) -> (r: (bool, bool))
        ensures
            r.0 == (depth >= options.min_depth
                && (if is_dir { options.target == Target::Folders } else { options.target == Target::Files })),
            r.1 == is_dir,
    {
        let targeted = if is_dir { options.target == Target::Folders } else { options.target == Target::Files };
        (depth >= options.min_depth && targeted, is_dir)
    }
}

/// A file still being downloaded is never kept unless partial files are
/// asked for: a kept file without that option has an extension other than
/// `crdownload`, `part` and `download`.
pub proof fn law_partial_files_skipped(e: Entry, o: LocationOptions, x: Seq<char>)
    requires
        entry_kept(e, o),
        e.is_file,
        !o.partial_files,
        spec_extension(e.path@) == Some(x),
    ensures
        x != "crdownload"@,
        x != "part"@,
        x != "download"@,
{
}

} // verus!

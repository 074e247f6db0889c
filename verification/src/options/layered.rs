//! Options of a folder walk, configured on a folder, on its rule or as
//! defaults; the first one set, in that order, is the one used.

use vstd::prelude::*;
use crate::hidden::{IsHidden, hidden_path};
use crate::options::targets::Targets;
use crate::path::{spec_extension, spec_file_name, spec_path_eq, extension, file_name, path_eq, front_kind, components};
use crate::lines::joined_by;
use crate::storage::partial_extension;
use crate::templates::{Template, TemplateEngine, Context, RenderError, is_plain};
use crate::text::{copy_str, str_eq, concat, starts_with};

verus! {

/// Options of a folder walk; `None` where this layer does not set one.
#[derive(Debug, PartialEq, Eq)]
pub struct Options {
    pub exclude: Option<Vec<String>>,
    pub hidden_files: Option<bool>,
    pub partial_files: Option<bool>,
    pub targets: Option<Targets>,
}

/// A configured folder, before its root is rendered.
#[derive(Debug, PartialEq, Eq)]
pub struct FolderBuilder {
    pub root: Template,
    pub options: Options,
}

/// A folder, ready to be walked.
#[derive(Debug, PartialEq, Eq)]
pub struct Folder {
    pub path: String,
    pub options: Options,
}

/// The first of three layers that is set, else the fallback.
pub open spec fn first_set<T>(a: Option<T>, b: Option<T>, c: Option<T>, fallback: T) -> T {
    match a {
        Some(x) => x,
        None => match b {
            Some(x) => x,
            None => match c {
                Some(x) => x,
                None => fallback,
            },
        },
    }
}

/// The names left when the components are cleaned in order, as
/// `path_clean::clean` does: a `..` drops the name before it; after the root
/// it is dropped itself; at the start of a path without a root, or after
/// another `..`, it stays.
pub open spec fn clean_names(rooted: bool, comps: Seq<Seq<char>>) -> Seq<Seq<char>>
    decreases comps.len(),
{
    if comps.len() == 0 {
        Seq::empty()
    } else {
        let acc = clean_names(rooted, comps.drop_last());
        let c = comps.last();
        if c == seq!['.', '.'] {
            if acc.len() > 0 && acc.last() != seq!['.', '.'] {
                acc.drop_last()
            } else if acc.len() == 0 && rooted {
                acc
            } else {
                acc.push(c)
            }
        } else {
            acc.push(c)
        }
    }
}

/// The lexically cleaned form of a path, as `path_clean::clean` gives it:
/// its components (repeated separators and `.` already gone) cleaned of
/// `..`, written after the root if it has one; `.` when nothing is left.
pub open spec fn cleaned(p: Seq<char>) -> Seq<char> {
    let rooted = front_kind(p) == 1;
    let names = clean_names(rooted, components(p));
    if rooted {
        seq!['/'] + joined_by(names, '/')
    } else if names.len() == 0 {
        seq!['.']
    } else {
        joined_by(names, '/')
    }
}

/// `path_clean::clean`: the path with repeated separators, `.` and
/// resolvable `..` components removed; `.` when nothing is left.
#[verifier::external_body]
fn clean_path(p: &str) -> (r: String)
    ensures
        r@ == cleaned(p@),
{
    path_clean::clean(p).to_string_lossy().to_string()
}

/// A path with a leading `~` read as the home directory.
pub open spec fn expand_user(p: Seq<char>, home: Seq<char>) -> Seq<char> {
    if p == seq!['~'] {
        home
    } else if starts_with(p, seq!['~', '/']) {
        home + p.drop_first()
    } else {
        p
    }
}

/// The entry at `path` is left out of the walk by an excluded path: one
/// equal to it, or with the same file name.
pub open spec fn excluded_by(exclude: Seq<String>, path: Seq<char>) -> bool {
    exists|i: int| 0 <= i < exclude.len() && {
        let dir = (#[trigger] exclude[i])@;
        &&& spec_file_name(dir) is Some
        &&& spec_file_name(path) is Some
        &&& (spec_path_eq(path, dir) || spec_file_name(path) == spec_file_name(dir))
    }
}

/// Whether a discovered entry is kept for the options in force: it is of
/// the targeted kind, and a file is neither partial nor hidden unless they
/// are allowed.
pub open spec fn entry_passes(targets: Targets, partial_files: bool, hidden_files: bool, path: Seq<char>, is_file: bool, is_dir: bool) -> bool {
    &&& !(is_file && targets == Targets::Dir)
    &&& !(is_dir && targets == Targets::File)
    &&& is_file ==> !(spec_extension(path) matches Some(x) && partial_extension(x) && !partial_files)
    &&& is_file ==> !(hidden_path(path) && !hidden_files)
}

fn copy_strings(v: &Vec<String>) -> (r: Vec<String>)
    ensures
        r@.len() == v@.len(),
        forall|i: int| 0 <= i < v@.len() ==> (#[trigger] r@[i])@ == v@[i]@,
{
    let mut out: Vec<String> = Vec::new();
    let mut i: usize = 0;
    while i < v.len()
        invariant
            i <= v@.len(),
            out@.len() == i,
            forall|j: int| 0 <= j < i ==> (#[trigger] out@[j])@ == v@[j]@,
        decreases v@.len() - i,
    {
        out.push(copy_str(v[i].as_str()));
        i = i + 1;
    }
    out
}

impl Options {
    /// A layer that sets nothing.
    pub fn default_none() -> (o: Options)
        ensures
            o.exclude is None && o.hidden_files is None && o.partial_files is None && o.targets is None,
    {
        Options { exclude: None, hidden_files: None, partial_files: None, targets: None }
    }

    /// The built-in layer: nothing excluded, hidden and partial files left
    /// out, files targeted.
    pub fn default_some() -> (o: Options)
        ensures
            o.exclude matches Some(v) && v@.len() == 0,
            o.hidden_files == Some(false),
            o.partial_files == Some(false),
            o.targets == Some(Targets::File),
    {
        Options { exclude: Some(Vec::new()), hidden_files: Some(false), partial_files: Some(false), targets: Some(Targets::default()) }
    }

    /// Whether hidden files are walked: the folder's setting, else the
    /// rule's, else the defaults', else not.
    pub fn hidden_files(defaults: &Options, rule: &Options, folder: &Options) -> (b: bool)
        ensures
            b == first_set(folder.hidden_files, rule.hidden_files, defaults.hidden_files, false),
    {
        match folder.hidden_files {
            Some(b) => b,
            None => match rule.hidden_files {
                Some(b) => b,
                None => match defaults.hidden_files {
                    Some(b) => b,
                    None => false,
                },
            },
        }
    }

    /// Whether partial files are walked, layered as `hidden_files`.
    pub fn partial_files(defaults: &Options, rule: &Options, folder: &Options) -> (b: bool)
        ensures
            b == first_set(folder.partial_files, rule.partial_files, defaults.partial_files, false),
    {
        match folder.partial_files {
            Some(b) => b,
            None => match rule.partial_files {
                Some(b) => b,
                None => match defaults.partial_files {
                    Some(b) => b,
                    None => false,
                },
            },
        }
    }

    /// The kind of entries walked, layered as `hidden_files`; files by
    /// default.
    pub fn targets(defaults: &Options, rule: &Options, folder: &Options) -> (t: Targets)
        ensures
            t == first_set(folder.targets, rule.targets, defaults.targets, Targets::File),
    {
        match folder.targets {
            Some(t) => t,
            None => match rule.targets {
                Some(t) => t,
                None => match defaults.targets {
                    Some(t) => t,
                    None => Targets::default(),
                },
            },
        }
    }

    /// The excluded paths, layered as `hidden_files`; none by default.
    pub fn excluded(defaults: &Options, rule: &Options, folder: &Options) -> (r: Vec<String>)
        ensures
            match folder.exclude {
                Some(v) => r@.len() == v@.len() && forall|i: int| 0 <= i < v@.len() ==> (#[trigger] r@[i])@ == v@[i]@,
                None => match rule.exclude {
                    Some(v) => r@.len() == v@.len() && forall|i: int| 0 <= i < v@.len() ==> (#[trigger] r@[i])@ == v@[i]@,
                    None => match defaults.exclude {
                        Some(v) => r@.len() == v@.len() && forall|i: int| 0 <= i < v@.len() ==> (#[trigger] r@[i])@ == v@[i]@,
                        None => r@.len() == 0,
                    },
                },
            },
    {
        match &folder.exclude {
            Some(v) => copy_strings(v),
            None => match &rule.exclude {
                Some(v) => copy_strings(v),
                None => match &defaults.exclude {
                    Some(v) => copy_strings(v),
                    None => Vec::new(),
                },
            },
        }
    }

    /// Whether the walk enters `path`: no excluded path is equal to it or
    /// has its file name.
    pub fn prefilter(excluded: &Vec<String>, path: &str) -> (b: bool)
        ensures
            b == !excluded_by(excluded@, path@),
    {
        let name = file_name(path);
        let mut i: usize = 0;
        while i < excluded.len()
            invariant
                i <= excluded@.len(),
                crate::text::opt_chars(name) == spec_file_name(path@),
                forall|j: int| 0 <= j < i ==> !({
                    let dir = (#[trigger] excluded@[j])@;
                    &&& spec_file_name(dir) is Some
                    &&& spec_file_name(path@) is Some
                    &&& (spec_path_eq(path@, dir) || spec_file_name(path@) == spec_file_name(dir))
                }),
            decreases excluded@.len() - i,
        {
            let dir = &excluded[i];
            match (file_name(dir.as_str()), &name) {
                (Some(dn), Some(pn)) => {
                    if path_eq(path, dir.as_str()) || str_eq(pn.as_str(), dn.as_str()) {
                        return false;
                    }
                }
                _ => {}
            }
            i = i + 1;
        }
        true
    }

    /// Whether a discovered entry is kept.
    pub fn postfilter(targets: Targets, partial_files: bool, hidden_files: bool, path: &str, is_file: bool, is_dir: bool) -> (b: bool)
        ensures
            b == entry_passes(targets, partial_files, hidden_files, path@, is_file, is_dir),
    {
        if is_file && targets == Targets::Dir {
            return false;
        }
        if is_dir && targets == Targets::File {
            return false;
        }
        if is_file {
            match extension(path) {
                Some(x) => {
                    let partial = str_eq(x.as_str(), "crdownload") || str_eq(x.as_str(), "part")
                        || str_eq(x.as_str(), "download");
                    if partial && !partial_files {
                        return false;
                    }
                }
                None => {}
            }
            let hidden = match path.is_hidden() {
                Ok(h) => h,
                Err(_) => false,
            };
            if hidden && !hidden_files {
                return false;
            }
        }
        true
    }
}

/// `p` with a leading `~` read as `home`.
pub(crate) fn expand_user_exec(p: &str, home: &str) -> (r: String)
    ensures
        r@ == expand_user(p@, home@),
{
    let v = crate::text::chars_of(p);
    if v.len() == 1 && v[0] == '~' {
        assert(p@ =~= seq!['~']);
        copy_str(home)
    } else if v.len() >= 2 && v[0] == '~' && v[1] == '/' {
        assert(starts_with(p@, seq!['~', '/'])) by {
            assert(p@.subrange(0, 2) =~= seq!['~', '/']);
        }
        let rest = crate::text::string_from(&v, 1, v.len());
        assert(rest@ =~= p@.drop_first());
        concat(home, rest.as_str())
    } else {
        proof {
            if starts_with(p@, seq!['~', '/']) {
                assert(p@.subrange(0, 2)[0] == p@[0]);
                assert(p@.subrange(0, 2)[1] == p@[1]);
            }
        }
        copy_str(p)
    }
}

impl FolderBuilder {
    /// The folder: the root rendered with no values, a leading `~` read as
    /// `home`, and cleaned; with the options set on the folder.
    pub fn build(self, home: &str) -> (r: Result<Folder, RenderError>)
        ensures
            is_plain(self.root.text@) ==> (r matches Ok(f)
                && f.path@ == cleaned(expand_user(self.root.text@, home@))),
            r matches Ok(f) ==> f.options == self.options,
    {
        let context = Context::new();
        let rendered = TemplateEngine.render(&self.root, &context)?;
        let expanded = expand_user_exec(rendered.as_str(), home);
        let path = clean_path(expanded.as_str());
        Ok(Folder { path, options: self.options })
    }
}

/// A setting made on the folder wins over the rule's and the defaults'; the
/// built-in value is used only when no layer sets one.
pub proof fn law_folder_setting_wins<T>(folder: Option<T>, rule: Option<T>, defaults: Option<T>, fallback: T)
    ensures
        folder matches Some(x) ==> first_set(folder, rule, defaults, fallback) == x,
        folder is None ==> (rule matches Some(x) ==> first_set(folder, rule, defaults, fallback) == x),
        (folder is None && rule is None && defaults is None) ==> first_set(folder, rule, defaults, fallback) == fallback,
{
}

} // verus!

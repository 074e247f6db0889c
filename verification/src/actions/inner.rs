//! Destinations of the linking actions: move, copy, hard link and symbolic
//! link.

use vstd::prelude::*;
use crate::actions::prepare::{place, target_of, placed};
use crate::conflict;
use crate::path::{spec_parent, parent, path_eq, spec_path_eq};
use crate::resource::Resource;
use crate::templates::{Template, TemplateEngine};
use crate::variables::{known_with, lemma_known_with};
use crate::expand::{expand_vars, expand_user_then_vars};
use crate::options::layered::expand_user;
use crate::text::{opt_chars, str_eq};

verus! {

/// What to do when the destination of a file already exists; `Delete`
/// removes the file that was to be moved there.
#[derive(Debug, PartialEq, Eq, Structural, Clone, Copy)]
pub enum ConflictOption {
    Overwrite,
    Skip,
    Rename,
    Delete,
}

/// A destination, what to do when it exists, and whether a file may land in
/// its own folder.
#[derive(Debug, PartialEq, Eq)]
pub struct Inner {
    pub to: String,
    pub if_exists: ConflictOption,
    pub allow_cycles: bool,
}

/// Moves files.
#[derive(Debug, PartialEq, Eq)]
pub struct Move(pub Inner);

/// The option of the shared resolution that an option stands for; `Delete`
/// gives up on the file as `Skip` does.
pub open spec fn shared_option(o: ConflictOption) -> conflict::ConflictOption {
    match o {
        ConflictOption::Overwrite => conflict::ConflictOption::Overwrite,
        ConflictOption::Rename => conflict::ConflictOption::Rename,
        _ => conflict::ConflictOption::Skip,
    }
}

/// The names of the options.
pub open spec fn option_named(s: Seq<char>) -> Option<ConflictOption> {
    if s == "delete"@ {
        Some(ConflictOption::Delete)
    } else if s == "overwrite"@ {
        Some(ConflictOption::Overwrite)
    } else if s == "skip"@ {
        Some(ConflictOption::Skip)
    } else if s == "rename"@ {
        Some(ConflictOption::Rename)
    } else {
        None
    }
}

impl ConflictOption {
    /// The option used when none is configured: `Rename`.
    pub fn default() -> (r: ConflictOption)
        ensures
            r == ConflictOption::Rename,
    {
        ConflictOption::Rename
    }

    /// The option named `s`; only the four names are accepted.
    pub fn from_str(s: &str) -> (r: ConflictOption)
        requires
            option_named(s@) is Some,
        ensures
            option_named(s@) == Some(r),
    {
        if str_eq(s, "delete") {
            ConflictOption::Delete
        } else if str_eq(s, "overwrite") {
            ConflictOption::Overwrite
        } else if str_eq(s, "skip") {
            ConflictOption::Skip
        } else {
            ConflictOption::Rename
        }
    }

    fn shared(&self) -> (r: conflict::ConflictOption)
        ensures
            r == shared_option(*self),
    {
        match self {
            ConflictOption::Overwrite => conflict::ConflictOption::Overwrite,
            ConflictOption::Rename => conflict::ConflictOption::Rename,
            _ => conflict::ConflictOption::Skip,
        }
    }
}

impl Inner {
    /// An action to the path written `to`, a leading `~` read as `home` and
    /// then each `$NAME` as its value in `vars`, that renames on conflict and
    /// refuses cycles.
    pub fn try_from(to: &str, home: &str, vars: &Vec<(String, String)>) -> (r: Result<Inner, core::convert::Infallible>)
        ensures
            r matches Ok(i) && i.to@ == expand_vars(expand_user(to@, home@), vars@)
                && i.if_exists == ConflictOption::Rename && !i.allow_cycles,
    {
        Ok(Inner { to: expand_user_then_vars(to, home, vars), if_exists: ConflictOption::default(), allow_cycles: false })
    }

    /// Where the file at `path` goes, given the paths that exist and those
    /// that are directories: the destination rendered with the file's values,
    /// the file's name added when it has no extension or is a directory, and
    /// the conflict option applied when it is taken. `None` when the file
    /// stays, also when the destination cannot be rendered.
    pub fn prepare_path(&self, path: &str, existing: &Vec<String>, directories: &Vec<String>) -> (r: Option<String>)
        requires
            existing@.len() < u64::MAX,
        ensures
            known_with(self.to@, Some(Some(path@))) matches Some(k) ==> placed(shared_option(self.if_exists),
                existing@, target_of(k, true, path@, directories@), opt_chars(r)),
    {
        let res = Resource::new(path, "");
        let template = Template::new(self.to.as_str());
        proof {
            if known_with(self.to@, Some(Some(path@))) is Some {
                lemma_known_with(self.to@, res.context.entries@, Some(Some(path@)));
            }
        }
        let rendered = match TemplateEngine.render(&template, &res.context) {
            Ok(s) => s,
            Err(_) => return None,
        };
        place(&self.if_exists.shared(), rendered.as_str(), true, path, existing, directories)
    }

    /// Whether the action refuses to put a file into the folder it is
    /// already in.
    pub fn refuses(&self, from: &str, to: &str) -> (b: bool)
        requires
            spec_parent(from@) is Some,
            spec_parent(to@) is Some,
        ensures
            b == (!self.allow_cycles && spec_path_eq(spec_parent(to@)->Some_0, spec_parent(from@)->Some_0)),
    {
        if self.allow_cycles {
            return false;
        }
        let pt = match parent(to) { Some(p) => p, None => return false };
        let pf = match parent(from) { Some(p) => p, None => return false };
        path_eq(pt.as_str(), pf.as_str())
    }
}

} // verus!

//! Actions whose decisions are whether to act and where the file goes.

use vstd::prelude::*;
use crate::actions::prepare::{prepare_target_path, prepared};
use crate::conflict::ConflictOption;
use crate::resource::Resource;
use crate::templates::{Template, TemplateEngine, RenderError};
use crate::text::{opt_chars, copy_str, concat};
use crate::path::{path_key, key_view, spec_path_key, spec_join};
use crate::lines::joined_by;
use crate::variables::{Variable, known_with, value_after, rendering_for};

verus! {

/// Deletes the file.
#[derive(Debug, PartialEq, Eq)]
pub struct Delete {
    pub enabled: bool,
}

/// Moves the file to the trash.
#[derive(Debug, PartialEq, Eq)]
pub struct Trash {
    pub enabled: bool,
}

/// Moves the file to a destination.
#[derive(Debug, PartialEq, Eq)]
pub struct Move {
    pub to: Template,
    pub if_exists: ConflictOption,
    pub enabled: bool,
}

/// Extracts an archive into a destination folder.
#[derive(Debug, PartialEq, Eq)]
pub struct Extract {
    pub to: Template,
    pub if_exists: ConflictOption,
    pub enabled: bool,
}

/// Prints a message rendered with the file's values.
#[derive(Debug, PartialEq, Eq)]
pub struct Echo {
    pub message: Template,
    pub enabled: bool,
}

impl Echo {
    /// The message to print, rendered with the values of the file and the
    /// rule's variables, when the action is enabled; the file carries on
    /// under its own path.
    pub fn execute(&self, res: &Resource, template_engine: &TemplateEngine, variables: &[Variable])
        -> (r: Result<(Option<String>, String), RenderError>)
        ensures
            !self.enabled ==> (r matches Ok((m, p)) && m is None && p@ == res.path@),
            r matches Ok((_, p)) ==> p@ == res.path@,
            r is Err ==> self.enabled,
            self.enabled ==> (rendering_for(self.message.text@, res.context.entries@, variables@)
                matches Some(k) ==> (r matches Ok((Some(m), _)) && m@ == k)),
    {
        if self.enabled {
            let context = TemplateEngine::new_context(res, variables);
            proof {
                let pv = value_after(variables@, res.context.entries@, "path"@);
                if known_with(self.message.text@, pv) is Some {
                    crate::variables::lemma_known_with(self.message.text@, context.entries@, pv);
                }
            }
            let message = template_engine.render(&self.message, &context)?;
            Ok((Some(message), crate::text::copy_str(res.path.as_str())))
        } else {
            Ok((None, crate::text::copy_str(res.path.as_str())))
        }
    }
}

impl Delete {
    /// Whether the file is to be deleted: not in a dry run, and when enabled.
    /// A deleted file does not carry on to later actions.
    pub fn acts(&self, dry_run: bool) -> (b: bool)
        ensures
            b == (!dry_run && self.enabled),
    {
        !dry_run && self.enabled
    }
}

impl Trash {
    /// Whether the file is to be trashed: not in a dry run, and when enabled.
    /// A trashed file does not carry on to later actions.
    pub fn acts(&self, dry_run: bool) -> (b: bool)
        ensures
            b == (!dry_run && self.enabled),
    {
        !dry_run && self.enabled
    }
}

impl Move {
    /// The templates of the action.
    pub fn templates(&self) -> (r: Vec<&Template>)
        ensures
            r@.len() == 1,
            *r@[0] == self.to,
    {
        let mut v: Vec<&Template> = Vec::new();
        v.push(&self.to);
        v
    }

    /// Where the file moves, with its name added when the destination is a
    /// folder; `None` when it stays. The file carries on under that path.
    pub fn destination(&self, res: &Resource, template_engine: &TemplateEngine, variables: &[Variable],
        existing: &Vec<String>, directories: &Vec<String>) -> (r: Result<Option<String>, RenderError>)
        requires
            existing@.len() < u64::MAX,
        ensures
            rendering_for(self.to.text@, res.context.entries@, variables@) is Some ==> r is Ok,
            r matches Ok(d) ==> exists|rendered: Seq<char>|
                #[trigger] prepared(self.if_exists, rendered, true, res.path@, existing@, directories@, opt_chars(d))
                && (rendering_for(self.to.text@, res.context.entries@, variables@) matches Some(k) ==> rendered == k),
    {
        prepare_target_path(&self.if_exists, res, &self.to, true, template_engine, variables, existing, directories)
    }

    /// Whether the move is carried out on disk: not in a dry run, and when
    /// enabled.
    pub fn acts(&self, dry_run: bool) -> (b: bool)
        ensures
            b == (!dry_run && self.enabled),
    {
        !dry_run && self.enabled
    }
}

impl Extract {
    /// The folder the archive is extracted into, taken as it is rendered;
    /// `None` when nothing is extracted.
    pub fn destination(&self, res: &Resource, template_engine: &TemplateEngine, variables: &[Variable],
        existing: &Vec<String>, directories: &Vec<String>) -> (r: Result<Option<String>, RenderError>)
        requires
            existing@.len() < u64::MAX,
        ensures
            rendering_for(self.to.text@, res.context.entries@, variables@) is Some ==> r is Ok,
            r matches Ok(d) ==> exists|rendered: Seq<char>|
                #[trigger] prepared(self.if_exists, rendered, false, res.path@, existing@, directories@, opt_chars(d))
                && (rendering_for(self.to.text@, res.context.entries@, variables@) matches Some(k) ==> rendered == k),
    {
        prepare_target_path(&self.if_exists, res, &self.to, false, template_engine, variables, existing, directories)
    }

    /// Whether the extraction is carried out on disk.
    pub fn acts(&self, dry_run: bool) -> (b: bool)
        ensures
            b == (!dry_run && self.enabled),
    {
        !dry_run && self.enabled
    }

    /// The single folder that an archive was extracted as, given what the
    /// destination holds afterwards (each path, and whether it is a folder):
    /// the one entry when there is exactly one and it is a folder. Its
    /// contents are then moved up into the destination.
    pub fn single_folder(listing: &Vec<(String, bool)>) -> (r: Option<String>)
        ensures
            match r {
                Some(d) => listing@.len() == 1 && listing@[0].1 && d@ == listing@[0].0@,
                None => !(listing@.len() == 1 && listing@[0].1),
            },
    {
        if listing.len() == 1 && listing[0].1 {
            Some(copy_str(listing[0].0.as_str()))
        } else {
            None
        }
    }

    /// Where an entry of the single extracted folder `dir` is moved to: the
    /// destination joined with the entry's components that are not among
    /// the folder's.
    pub fn flattened_path(dest: &str, dir: &str, entry: &str) -> (r: String)
        ensures
            r@ == flattened(dest@, dir@, entry@),
    {
        let ke = path_key(entry);
        let kd = path_key(dir);
        let mut names: Vec<String> = Vec::new();
        let cur_kept = ke.kind == 2 && kd.kind != 2;
        if cur_kept {
            proof {
                reveal_strlit(".");
            }
            names.push(String::from_str("."));
            assert(names@[0]@ =~= seq!['.']);
            assert(names@.map_values(|s: String| s@) =~= seq![seq!['.']]);
        }
        let ghost dcomps = key_view(kd).1;
        let ghost ecomps = key_view(ke).1;
        let ghost prefix: Seq<Seq<char>> = if cur_kept { seq![seq!['.']] } else { Seq::empty() };
        let mut i: usize = 0;
        assert(ecomps.take(0) =~= Seq::<Seq<char>>::empty());
        assert(names@.map_values(|s: String| s@) =~= prefix + kept_names(ecomps.take(0), dcomps));
        while i < ke.comps.len()
            invariant
                i <= ke.comps@.len(),
                ecomps == key_view(ke).1,
                dcomps == key_view(kd).1,
                names@.map_values(|s: String| s@) == prefix + kept_names(ecomps.take(i as int), dcomps),
            decreases ke.comps@.len() - i,
        {
            let c = ke.comps[i].as_str();
            let mut found = false;
            let mut j: usize = 0;
            while j < kd.comps.len()
                invariant
                    j <= kd.comps@.len(),
                    dcomps == key_view(kd).1,
                    found == exists|m: int| 0 <= m < j && dcomps[m] == c@,
                decreases kd.comps@.len() - j,
            {
                if crate::text::str_eq(kd.comps[j].as_str(), c) {
                    found = true;
                }
                assert(dcomps[j as int] == kd.comps@[j as int]@);
                j = j + 1;
            }
            proof {
                assert(ecomps.take(i + 1).drop_last() =~= ecomps.take(i as int));
                assert(ecomps.take(i + 1).last() == c@);
                assert(found == dcomps.contains(c@));
            }
            let ghost before = names@;
            if !found {
                names.push(copy_str(c));
                assert(names@.map_values(|s: String| s@) =~= before.map_values(|s: String| s@).push(c@));
            }
            proof {
                assert(names@.map_values(|s: String| s@) =~= prefix + kept_names(ecomps.take(i + 1), dcomps));
            }
            i = i + 1;
        }
        assert(ecomps.take(ecomps.len() as int) =~= ecomps);
        let joined = crate::lines::join_with(&names, '/');
        let root_kept = ke.kind == 1 && kd.kind != 1;
        let rel = if root_kept {
            proof {
                reveal_strlit("/");
            }
            concat("/", joined.as_str())
        } else {
            joined
        };
        crate::path::join(dest, rel.as_str())
    }
}

/// The components of `comps` that are not among `dir`'s, in order.
pub open spec fn kept_names(comps: Seq<Seq<char>>, dir: Seq<Seq<char>>) -> Seq<Seq<char>>
    decreases comps.len(),
{
    if comps.len() == 0 {
        Seq::empty()
    } else if dir.contains(comps.last()) {
        kept_names(comps.drop_last(), dir)
    } else {
        kept_names(comps.drop_last(), dir).push(comps.last())
    }
}

/// Where the entry `entry` of the extracted folder `dir` goes in `dest`: the
/// entry's components that are not among the folder's (a root or a leading
/// `.` counting as a component), written as a path and joined to `dest`.
pub open spec fn flattened(dest: Seq<char>, dir: Seq<char>, entry: Seq<char>) -> Seq<char> {
    let ke = spec_path_key(entry);
    let kd = spec_path_key(dir);
    let names = kept_names(ke.1, kd.1);
    let prefix: Seq<Seq<char>> = if ke.0 == 2 && kd.0 != 2 { seq![seq!['.']] } else { Seq::empty() };
    let joined = joined_by(prefix + names, '/');
    let rel = if ke.0 == 1 && kd.0 != 1 { seq!['/'] + joined } else { joined };
    spec_join(dest, rel)
}

/// Which path a file carries on under after a copy.
#[derive(Debug, PartialEq, Eq, Structural, Clone, Copy)]
pub enum CopyContinueWith {
    Original,
    Copy,
}

/// Which path a file carries on under after a link is made.
#[derive(Debug, PartialEq, Eq, Structural, Clone, Copy)]
pub enum LinkContinueWith {
    Original,
    Link,
}

/// Copies the file to a destination.
#[derive(Debug, PartialEq, Eq)]
pub struct Copy {
    pub to: Template,
    pub if_exists: ConflictOption,
    pub continue_with: CopyContinueWith,
    pub enabled: bool,
}

/// Makes a hard link to the file at a destination.
#[derive(Debug, PartialEq, Eq)]
pub struct Hardlink {
    pub to: Template,
    pub if_exists: ConflictOption,
    pub continue_with: LinkContinueWith,
    pub enabled: bool,
}

/// Makes a symbolic link to the file at a destination.
#[derive(Debug, PartialEq, Eq)]
pub struct Symlink {
    pub to: Template,
    pub if_exists: ConflictOption,
    pub continue_with: LinkContinueWith,
}

impl Copy {
    /// Where the copy goes, with the file's name added when the destination
    /// is a folder; `None` when nothing is copied.
    pub fn destination(&self, res: &Resource, template_engine: &TemplateEngine, variables: &[Variable],
        existing: &Vec<String>, directories: &Vec<String>) -> (r: Result<Option<String>, RenderError>)
        requires
            existing@.len() < u64::MAX,
        ensures
            rendering_for(self.to.text@, res.context.entries@, variables@) is Some ==> r is Ok,
            r matches Ok(d) ==> exists|rendered: Seq<char>|
                #[trigger] prepared(self.if_exists, rendered, true, res.path@, existing@, directories@, opt_chars(d))
                && (rendering_for(self.to.text@, res.context.entries@, variables@) matches Some(k) ==> rendered == k),
    {
        prepare_target_path(&self.if_exists, res, &self.to, true, template_engine, variables, existing, directories)
    }

    /// Whether the copy is made on disk.
    pub fn acts(&self, dry_run: bool) -> (b: bool)
        ensures
            b == (!dry_run && self.enabled),
    {
        !dry_run && self.enabled
    }

    /// The path the file carries on under once copied to `dest`: the copy's
    /// unless configured otherwise.
    pub fn next_path(&self, res: &Resource, dest: &str) -> (r: String)
        ensures
            self.continue_with == CopyContinueWith::Copy ==> r@ == dest@,
            self.continue_with == CopyContinueWith::Original ==> r@ == res.path@,
    {
        match self.continue_with {
            CopyContinueWith::Copy => crate::text::copy_str(dest),
            CopyContinueWith::Original => crate::text::copy_str(res.path.as_str()),
        }
    }
}

impl Hardlink {
    /// Where the link goes, with the file's name added when the destination
    /// is a folder; `None` when no link is made.
    pub fn destination(&self, res: &Resource, template_engine: &TemplateEngine, variables: &[Variable],
        existing: &Vec<String>, directories: &Vec<String>) -> (r: Result<Option<String>, RenderError>)
        requires
            existing@.len() < u64::MAX,
        ensures
            rendering_for(self.to.text@, res.context.entries@, variables@) is Some ==> r is Ok,
            r matches Ok(d) ==> exists|rendered: Seq<char>|
                #[trigger] prepared(self.if_exists, rendered, true, res.path@, existing@, directories@, opt_chars(d))
                && (rendering_for(self.to.text@, res.context.entries@, variables@) matches Some(k) ==> rendered == k),
    {
        prepare_target_path(&self.if_exists, res, &self.to, true, template_engine, variables, existing, directories)
    }

    /// Whether the link is made on disk.
    pub fn acts(&self, dry_run: bool) -> (b: bool)
        ensures
            b == (!dry_run && self.enabled),
    {
        !dry_run && self.enabled
    }

    /// The path the file carries on under once linked at `dest`: the link's
    /// when so configured and the action is enabled, else its own.
    pub fn next_path(&self, res: &Resource, dest: &str) -> (r: String)
        ensures
            (self.continue_with == LinkContinueWith::Link && self.enabled) ==> r@ == dest@,
            !(self.continue_with == LinkContinueWith::Link && self.enabled) ==> r@ == res.path@,
    {
        if self.continue_with == LinkContinueWith::Link && self.enabled {
            crate::text::copy_str(dest)
        } else {
            crate::text::copy_str(res.path.as_str())
        }
    }
}

impl Symlink {
    /// Where the link goes, with the file's name added when the destination
    /// is a folder; `None` when no link is made.
    pub fn destination(&self, res: &Resource, template_engine: &TemplateEngine, variables: &[Variable],
        existing: &Vec<String>, directories: &Vec<String>) -> (r: Result<Option<String>, RenderError>)
        requires
            existing@.len() < u64::MAX,
        ensures
            rendering_for(self.to.text@, res.context.entries@, variables@) is Some ==> r is Ok,
            r matches Ok(d) ==> exists|rendered: Seq<char>|
                #[trigger] prepared(self.if_exists, rendered, true, res.path@, existing@, directories@, opt_chars(d))
                && (rendering_for(self.to.text@, res.context.entries@, variables@) matches Some(k) ==> rendered == k),
    {
        prepare_target_path(&self.if_exists, res, &self.to, true, template_engine, variables, existing, directories)
    }

    /// The path the file carries on under once linked at `dest`.
    pub fn next_path(&self, res: &Resource, dest: &str) -> (r: String)
        ensures
            self.continue_with == LinkContinueWith::Link ==> r@ == dest@,
            self.continue_with == LinkContinueWith::Original ==> r@ == res.path@,
    {
        match self.continue_with {
            LinkContinueWith::Link => crate::text::copy_str(dest),
            LinkContinueWith::Original => crate::text::copy_str(res.path.as_str()),
        }
    }
}

} // verus!

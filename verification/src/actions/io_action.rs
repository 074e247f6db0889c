//! Moving, renaming and copying a file to a destination template, with a
//! chosen separator for renamed files.

use vstd::prelude::*;
use crate::conflict::{ConflictOption, resolved_with, candidate, candidate_name, first_free, ext_or_empty};
use crate::path::{spec_file_name, spec_file_stem, spec_with_file_name, spec_join, file_name, join};
use crate::resource::Resource;
use crate::templates::{Template, TemplateEngine, RenderError};
use crate::variables::{known_with, lemma_known_with};
use crate::text::{copy_str, listed, is_listed, opt_chars, str_eq};
use crate::expand::{expand_vars, expand_user_then_vars, expand_vars_then_user};
use crate::options::layered::expand_user;

verus! {

/// The separator between the stem and the counter of a renamed file.
#[derive(Debug, PartialEq, Eq)]
pub struct Sep(pub String);

/// Where files go, what to do when the destination exists, and how renamed
/// files are numbered.
#[derive(Debug, PartialEq, Eq)]
pub struct IOAction {
    pub to: String,
    pub if_exists: ConflictOption,
    pub sep: Sep,
}

/// The kind of an input/output action.
#[derive(Debug, PartialEq, Eq, Structural, Clone, Copy)]
pub enum ActionType {
    Move,
    Rename,
    Copy,
}

/// Why a destination could not be prepared.
#[derive(Debug, PartialEq, Eq)]
pub enum IoActionError {
    /// The destination template could not be rendered.
    Render(RenderError),
    /// The file has no name to put in the destination folder.
    NoFileName,
}

impl Sep {
    /// The default separator: a space.
    pub fn default() -> (s: Sep)
        ensures
            s.0@ == seq![' '],
    {
        proof {
            reveal_strlit(" ");
        }
        Sep(String::from_str(" "))
    }
}

/// Where the file at `path` goes for the rendered destination `rendered`.
pub open spec fn io_placed(path: Seq<char>, action: IOAction, kind: ActionType, rendered: Seq<char>,
    existing: Seq<String>, d: Option<Seq<char>>) -> bool
{
    let target = if kind == ActionType::Copy || kind == ActionType::Move {
        spec_join(rendered, spec_file_name(path)->Some_0)
    } else {
        rendered
    };
    if listed(existing, target) {
        resolved_with(action.if_exists, action.sep.0@, existing, target, d)
    } else {
        d == Some(target)
    }
}

impl IOAction {
    /// An action to `to`, renaming on conflict with the default separator.
    pub fn from(to: &str) -> (a: IOAction)
        ensures
            a.to@ == to@,
            a.if_exists == ConflictOption::Rename,
            a.sep.0@ == seq![' '],
    {
        IOAction { to: copy_str(to), if_exists: ConflictOption::default_option(), sep: Sep::default() }
    }

    /// The action for the destination written in `s`: a leading `~` read
    /// as `home`, then each `$NAME` as its value in `vars`.
    pub fn from_str(s: &str, home: &str, vars: &Vec<(String, String)>) -> (r: Result<IOAction, core::convert::Infallible>)
        ensures
            r matches Ok(a) && a.to@ == expand_vars(expand_user(s@, home@), vars@)
                && a.if_exists == ConflictOption::Rename && a.sep.0@ == seq![' '],
    {
        let to = expand_user_then_vars(s, home, vars);
        Ok(IOAction::from(to.as_str()))
    }

    /// Where the file at `path` goes for the action's rendered destination
    /// `rendered`: into that folder for a move or a copy, to that path for a
    /// rename; moved aside with the action's separator when the place is
    /// taken. `Ok(None)` when the conflict option skips the file.
    pub fn place(path: &str, action: &IOAction, kind: ActionType, rendered: &str, existing: &Vec<String>)
        -> (r: Result<Option<String>, IoActionError>)
        requires
            existing@.len() < u64::MAX,
        ensures
            r is Err <==> ((kind == ActionType::Copy || kind == ActionType::Move) && spec_file_name(path@) is None),
            r matches Ok(d) ==> io_placed(path@, *action, kind, rendered@, existing@, opt_chars(d)),
    {
        let to = if kind == ActionType::Copy || kind == ActionType::Move {
            match file_name(path) {
                Some(name) => join(rendered, name.as_str()),
                None => return Err(IoActionError::NoFileName),
            }
        } else {
            copy_str(rendered)
        };
        if is_listed(existing, to.as_str()) {
            Ok(action.if_exists.resolve_with_separator(to.as_str(), existing, action.sep.0.as_str()))
        } else {
            Ok(Some(to))
        }
    }

    /// Renders the destination with the values of the file at `path`, and
    /// places the file there.
    pub fn helper(path: &str, action: &IOAction, kind: ActionType, existing: &Vec<String>)
        -> (r: Result<Option<String>, IoActionError>)
        requires
            existing@.len() < u64::MAX,
        ensures
            (known_with(action.to@, Some(Some(path@))) is Some && !((kind == ActionType::Copy || kind == ActionType::Move)
                && spec_file_name(path@) is None)) ==> r is Ok,
            r matches Ok(d) ==> exists|rendered: Seq<char>|
                #[trigger] io_placed(path@, *action, kind, rendered, existing@, opt_chars(d))
                && (known_with(action.to@, Some(Some(path@))) matches Some(k) ==> rendered == k),
    {
        let res = Resource::new(path, "");
        let template = Template::new(action.to.as_str());
        proof {
            if known_with(action.to@, Some(Some(path@))) is Some {
                lemma_known_with(action.to@, res.context.entries@, Some(Some(path@)));
            }
        }
        let rendered = match TemplateEngine.render(&template, &res.context) {
            Ok(s) => s,
            Err(e) => return Err(IoActionError::Render(e)),
        };
        let r = Self::place(path, action, kind, rendered.as_str(), existing);
        proof {
            if r is Ok {
                assert(io_placed(path@, *action, kind, rendered@, existing@, opt_chars(r->Ok_0)));
            }
        }
        r
    }
}

/// The settings read from the entries of a map so far: the destination,
/// the conflict option and the separator; or the message of the first
/// entry that was refused.
pub open spec fn read_entries(entries: Seq<(String, String)>, existing: Seq<String>, home: Seq<char>,
    vars: Seq<(String, String)>) -> Result<(Seq<char>, ConflictOption, Seq<char>), Seq<char>>
    decreases entries.len(),
{
    if entries.len() == 0 {
        Ok((Seq::empty(), ConflictOption::Rename, seq![' ']))
    } else {
        match read_entries(entries.drop_last(), existing, home, vars) {
            Err(m) => Err(m),
            Ok(st) => {
                let key = entries.last().0@;
                let value = entries.last().1@;
                if key == "to"@ {
                    let to = expand_user(expand_vars(value, vars), home);
                    if listed(existing, to) { Ok((to, st.1, st.2)) } else { Err("path does not exist"@) }
                } else if key == "if_exists"@ {
                    match crate::conflict::named_option(value) {
                        Some(o) => Ok((st.0, o, st.2)),
                        None => Err("invalid value"@),
                    }
                } else if key == "sep"@ {
                    Ok((st.0, st.1, value))
                } else {
                    Err("unexpected key"@)
                }
            },
        }
    }
}

/// A refused entry stays refused whatever follows it.
proof fn lemma_refusal_stays(entries: Seq<(String, String)>, existing: Seq<String>, home: Seq<char>,
    vars: Seq<(String, String)>, i: int)
    requires
        0 <= i <= entries.len(),
        read_entries(entries.take(i), existing, home, vars) is Err,
    ensures
        read_entries(entries, existing, home, vars) == read_entries(entries.take(i), existing, home, vars),
    decreases entries.len() - i,
{
    if i < entries.len() {
        assert(entries.take(i + 1).drop_last() =~= entries.take(i));
        lemma_refusal_stays(entries, existing, home, vars, i + 1);
    } else {
        assert(entries.take(i) =~= entries);
    }
}

impl IOAction {
    /// The action written as a map of `to`, `if_exists` and `sep`, given the
    /// paths that exist, the home folder and the values of the variables:
    /// the destination, its variables expanded and then a leading `~` read as
    /// `home`, must exist; the option must be known, no other key is allowed,
    /// and the destination must be given.
    pub fn from_entries(entries: &Vec<(String, String)>, existing: &Vec<String>, home: &str,
        vars: &Vec<(String, String)>) -> (r: Result<IOAction, String>)
        ensures
            match read_entries(entries@, existing@, home@, vars@) {
                Err(m) => r matches Err(e) && e@ == m,
                Ok(st) => if st.0.len() == 0 {
                    r matches Err(e) && e@ == "missing path"@
                } else {
                    r matches Ok(a) && a.to@ == st.0 && a.if_exists == st.1 && a.sep.0@ == st.2
                },
            },
    {
        let mut to = String::new();
        let mut if_exists = ConflictOption::default_option();
        let mut sep = Sep::default();
        let mut i: usize = 0;
        while i < entries.len()
            invariant
                i <= entries@.len(),
                read_entries(entries@.take(i as int), existing@, home@, vars@) == Ok::<(Seq<char>, ConflictOption, Seq<char>), Seq<char>>((to@, if_exists, sep.0@)),
            decreases entries@.len() - i,
        {
            proof {
                assert(entries@.take(i + 1).drop_last() =~= entries@.take(i as int));
                assert(entries@.take(i + 1).last() == entries@[i as int]);
            }
            let key = entries[i].0.as_str();
            let value = entries[i].1.as_str();
            if str_eq(key, "to") {
                let expanded = expand_vars_then_user(value, home, vars);
                if !is_listed(existing, expanded.as_str()) {
                    proof {
                        lemma_refusal_stays(entries@, existing@, home@, vars@, i + 1);
                    }
                    return Err(String::from_str("path does not exist"));
                }
                to = expanded;
            } else if str_eq(key, "if_exists") {
                match ConflictOption::from_str(value) {
                    Ok(o) => if_exists = o,
                    Err(e) => {
                        proof {
                            lemma_refusal_stays(entries@, existing@, home@, vars@, i + 1);
                        }
                        return Err(e);
                    }
                }
            } else if str_eq(key, "sep") {
                sep = Sep(copy_str(value));
            } else {
                proof {
                    lemma_refusal_stays(entries@, existing@, home@, vars@, i + 1);
                }
                return Err(String::from_str("unexpected key"));
            }
            i = i + 1;
        }
        proof {
            assert(entries@.take(entries@.len() as int) =~= entries@);
        }
        if to.unicode_len() == 0 {
            return Err(String::from_str("missing path"));
        }
        Ok(IOAction { to, if_exists, sep })
    }
}

/// A move into a folder where the file's name is taken renames it with the
/// action's own separator: the result is the target with the file name
/// `stem`, the separator, `(n)` and the extension, for some `n` from 1 on,
/// and is not taken.
pub proof fn law_rename_uses_separator(path: Seq<char>, action: IOAction, rendered: Seq<char>,
    existing: Seq<String>, d: Option<Seq<char>>, name: Seq<char>)
    requires
        io_placed(path, action, ActionType::Move, rendered, existing, d),
        action.if_exists == ConflictOption::Rename,
        spec_file_name(path) == Some(name),
        listed(existing, spec_join(rendered, name)),
        spec_file_stem(spec_join(rendered, name)) is Some,
    ensures
        exists|n: nat| n >= 1 && d == Some(spec_with_file_name(spec_join(rendered, name),
            #[trigger] candidate_name(spec_file_stem(spec_join(rendered, name))->Some_0, action.sep.0@,
                ext_or_empty(spec_join(rendered, name)), n)))
            && !listed(existing, d->Some_0),
{
    let t = spec_join(rendered, name);
    let n = choose|n: nat| first_free(existing, t, action.sep.0@, n) && d == Some(#[trigger] candidate(t, action.sep.0@, n));
    assert(d == Some(spec_with_file_name(t, candidate_name(spec_file_stem(t)->Some_0, action.sep.0@, ext_or_empty(t), n))));
}

} // verus!

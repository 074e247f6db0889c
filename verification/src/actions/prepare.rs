//! Where a file goes: the rendered destination, completed with the file's
//! name and moved aside from a file already there.

use vstd::prelude::*;
use crate::conflict::{ConflictOption, resolved};
use crate::path::{spec_extension, spec_file_name, spec_join, extension, file_name, join};
use crate::resource::Resource;
use crate::templates::{Template, TemplateEngine, RenderError};
use crate::text::{listed, is_listed, opt_chars};
use crate::variables::{Variable, known_with, value_after, rendering_for, lemma_known_with};

verus! {

/// The path a file would go to for a rendered destination: the destination
/// itself, or, when names are added and the destination has no extension or
/// is a directory, the destination joined with the file's name (nothing when
/// the file has no name).
pub open spec fn target_of(rendered: Seq<char>, with_filename: bool, path: Seq<char>, directories: Seq<String>) -> Option<Seq<char>> {
    if with_filename && (spec_extension(rendered) is None || listed(directories, rendered)) {
        match spec_file_name(path) {
            Some(n) => Some(spec_join(rendered, n)),
            None => None,
        }
    } else {
        Some(rendered)
    }
}

/// Where a file bound for `target` goes: there when it is free, else where
/// the conflict option says.
pub open spec fn placed(opt: ConflictOption, existing: Seq<String>, target: Option<Seq<char>>, r: Option<Seq<char>>) -> bool {
    match target {
        None => r is None,
        Some(t) => if listed(existing, t) { resolved(opt, existing, t, r) } else { r == Some(t) },
    }
}

/// The outcome of preparing a destination from its rendered text.
pub open spec fn prepared(opt: ConflictOption, rendered: Seq<char>, with_filename: bool, path: Seq<char>,
    existing: Seq<String>, directories: Seq<String>, r: Option<Seq<char>>) -> bool
{
    placed(opt, existing, target_of(rendered, with_filename, path, directories), r)
}

/// Where the file at `path` goes for the rendered destination `rendered`,
/// given the paths that exist and those that are directories.
pub fn place(if_exists: &ConflictOption, rendered: &str, with_filename: bool, path: &str,
    existing: &Vec<String>, directories: &Vec<String>) -> (r: Option<String>)
    requires
        existing@.len() < u64::MAX,
    ensures
        prepared(*if_exists, rendered@, with_filename, path@, existing@, directories@, opt_chars(r)),
{
    let no_extension = match extension(rendered) {
        Some(_) => false,
        None => true,
    };
    let target = if with_filename && (no_extension || is_listed(directories, rendered)) {
        match file_name(path) {
            Some(n) => join(rendered, n.as_str()),
            None => return None,
        }
    } else {
        crate::text::copy_str(rendered)
    };
    if is_listed(existing, target.as_str()) {
        if_exists.resolve_naming_conflict(target.as_str(), existing)
    } else {
        Some(target)
    }
}

/// Renders the destination template with the resource's context and the
/// rule's variables, and places the file there.
pub fn prepare_target_path(if_exists: &ConflictOption, res: &Resource, to: &Template, with_filename: bool,
    template_engine: &TemplateEngine, variables: &[Variable], existing: &Vec<String>,
    directories: &Vec<String>) -> (r: Result<Option<String>, RenderError>)
    requires
        existing@.len() < u64::MAX,
    ensures
        rendering_for(to.text@, res.context.entries@, variables@) is Some ==> r is Ok,
        r matches Ok(d) ==> exists|rendered: Seq<char>|
            #[trigger] prepared(*if_exists, rendered, with_filename, res.path@, existing@, directories@, opt_chars(d))
            && (rendering_for(to.text@, res.context.entries@, variables@) matches Some(k) ==> rendered == k),
{
    let context = TemplateEngine::new_context(res, variables);
    proof {
        let pv = value_after(variables@, res.context.entries@, "path"@);
        if known_with(to.text@, pv) is Some {
            lemma_known_with(to.text@, context.entries@, pv);
        }
    }
    let rendered = template_engine.render(to, &context)?;
    let d = place(if_exists, rendered.as_str(), with_filename, res.path.as_str(), existing, directories);
    assert(prepared(*if_exists, rendered@, with_filename, res.path@, existing@, directories@, opt_chars(d)));
    Ok(d)
}

/// With `Overwrite`, a file goes to its target whether or not the target
/// exists; with `Skip`, it goes nowhere when the target exists.
pub proof fn law_overwrite_and_skip(existing: Seq<String>, t: Seq<char>, r: Option<Seq<char>>)
    ensures
        placed(ConflictOption::Overwrite, existing, Some(t), r) <==> r == Some(t),
        listed(existing, t) ==> (placed(ConflictOption::Skip, existing, Some(t), r) <==> r is None),
{
}

/// A file placed into a destination that is a directory, or that has no
/// extension, goes inside it under its own name, whatever the destination's
/// name looks like (an extension-like suffix such as `v1.2` included): when
/// that place is free it is the result, with `Overwrite` it is the result in
/// any case, and with `Skip` it is the result or nothing.
pub proof fn law_into_directory(opt: ConflictOption, d: Seq<char>, p: Seq<char>, n: Seq<char>,
    existing: Seq<String>, directories: Seq<String>, r: Option<Seq<char>>)
    requires
        prepared(opt, d, true, p, existing, directories, r),
        listed(directories, d) || spec_extension(d) is None,
        spec_file_name(p) == Some(n),
    ensures
        !listed(existing, spec_join(d, n)) ==> r == Some(spec_join(d, n)),
        opt == ConflictOption::Overwrite ==> r == Some(spec_join(d, n)),
        opt == ConflictOption::Skip ==> (r == Some(spec_join(d, n)) || r is None),
{
}

} // verus!

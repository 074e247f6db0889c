//! A file that rules are applied to, with the values its templates see.

use vstd::prelude::*;
use crate::templates::{Context, lookup};
use crate::text::copy_str;

verus! {

/// A file found under a watched folder.
#[derive(Debug)]
pub struct Resource {
    /// The path of the file.
    pub path: String,
    /// The folder it was found in.
    pub root: String,
    /// The values its templates are rendered with.
    pub context: Context,
}

/// The context of a resource names its path and its folder.
pub open spec fn resource_context(c: Context, path: Seq<char>, root: Seq<char>) -> bool {
    &&& lookup(c.entries@, "path"@) == Some(path)
    &&& lookup(c.entries@, "root"@) == Some(root)
}

impl Resource {
    /// A resource for `path`, found in `root`.
    pub fn new(path: &str, root: &str) -> (r: Resource)
        ensures
            r.path@ == path@,
            r.root@ == root@,
            r.context.entries@.len() == 2,
            resource_context(r.context, path@, root@),
    {
        let mut context = Context::new();
        context.insert("path", path);
        context.insert("root", root);
        proof {
            reveal_strlit("path");
            reveal_strlit("root");
            assert("path"@[0] != "root"@[0]);
        }
        Resource { path: copy_str(path), root: copy_str(root), context }
    }

    /// A resource for the path written in `s`, with no folder.
    pub fn from_str(s: &str) -> (r: Result<Resource, core::convert::Infallible>)
        ensures
            r matches Ok(res) && res.path@ == s@ && res.root@ == Seq::<char>::empty()
                && resource_context(res.context, s@, Seq::<char>::empty()),
    {
        proof {
            reveal_strlit("");
        }
        Ok(Resource::new(s, ""))
    }
}

} // verus!

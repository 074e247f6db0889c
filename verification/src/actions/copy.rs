//! Which files carry on after a copy.

use vstd::prelude::*;
use crate::text::copy_str;

verus! {

/// Which files carry on after a copy: the original, the new copy, or both.
#[derive(Debug, PartialEq, Eq, Structural, Clone, Copy)]
pub enum ContinueWith {
    Original,
    New,
    Both,
}

impl ContinueWith {
    /// The new copy carries on unless configured otherwise.
    pub fn default() -> (c: ContinueWith)
        ensures
            c == ContinueWith::New,
    {
        ContinueWith::New
    }

    /// The paths that carry on after copying `original`; `copied` is the
    /// path of the copy, or `None` when nothing was copied, in which case the
    /// original carries on.
    pub fn next(&self, original: &str, copied: Option<&str>) -> (r: Vec<String>)
        ensures
            copied is None ==> r@.len() == 1 && r@[0]@ == original@,
            copied matches Some(c) ==> match *self {
                ContinueWith::Original => r@.len() == 1 && r@[0]@ == original@,
                ContinueWith::New => r@.len() == 1 && r@[0]@ == c@,
                ContinueWith::Both => r@.len() == 2 && r@[0]@ == original@ && r@[1]@ == c@,
            },
    {
        let mut r: Vec<String> = Vec::new();
        match copied {
            None => r.push(copy_str(original)),
            Some(c) => match self {
                ContinueWith::Original => r.push(copy_str(original)),
                ContinueWith::New => r.push(copy_str(c)),
                ContinueWith::Both => {
                    r.push(copy_str(original));
                    r.push(copy_str(c));
                }
            },
        }
        r
    }
}

} // verus!

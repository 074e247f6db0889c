//! What a folder walk yields: files or directories.

use vstd::prelude::*;

verus! {

/// The kind of entries a rule works on.
#[derive(Debug, Clone, Copy, PartialEq, Eq, Structural)]
pub enum Targets {
    File,
    Dir,
}

impl Targets {
    /// The default: files.
    pub fn default() -> (r: Targets)
        ensures
            r == Targets::File,
    {
        Targets::File
    }
}

} // verus!

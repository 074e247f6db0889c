//! Whether a path names a hidden file.

use vstd::prelude::*;
use crate::path::{file_name, spec_file_name};

verus! {

/// Telling hidden files apart.
pub trait IsHidden {
    type Err;

    /// Whether the file is hidden.
    fn is_hidden(&self) -> Result<bool, Self::Err>;
}

/// A path is hidden when its file name starts with a dot.
pub open spec fn hidden_path(p: Seq<char>) -> bool {
    match spec_file_name(p) {
        Some(name) => name.len() > 0 && name[0] == '.',
        None => false,
    }
}

impl IsHidden for str {
    type Err = core::convert::Infallible;

    /// Whether the file name starts with a dot; a path without a file name
    /// is not hidden.
    fn is_hidden(&self) -> (r: Result<bool, core::convert::Infallible>)
        ensures
            r matches Ok(b) && b == hidden_path(self@),
    {
        match file_name(self) {
            None => Ok(false),
            Some(name) => {
                let n = name.unicode_len();
                Ok(n > 0 && name.get_char(0) == '.')
            }
        }
    }
}

} // verus!

//! Filtering empty files and folders.

use vstd::prelude::*;

verus! {

/// Lets empty files and empty folders pass.
#[derive(Debug, PartialEq, Eq, Default)]
pub struct Empty;

impl Empty {
    /// Whether an entry is empty: a file of length zero, or a folder with no
    /// entry. An entry whose length or listing could not be read is not
    /// empty. `size` is the length of a file, `has_entries` whether a folder
    /// lists anything; `None` where reading failed.
    pub fn judge(&self, is_file: bool, size: Option<u64>, has_entries: Option<bool>) -> (b: bool)
        ensures
            is_file ==> b == (size == Some(0u64)),
            !is_file ==> b == (has_entries == Some(false)),
    {
        if is_file {
            match size {
                Some(n) => n == 0,
                None => false,
            }
        } else {
            match has_entries {
                Some(h) => !h,
                None => false,
            }
        }
    }

    /// Whether read content is empty.
    pub fn content_is_empty(&self, content: &[u8]) -> (b: bool)
        ensures
            b == (content@.len() == 0),
    {
        content.len() == 0
    }
}

} // verus!

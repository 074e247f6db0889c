//! Whether a file goes through the first matching rule only, or all of them.

use vstd::prelude::*;

verus! {

/// Which matching rules a file goes through.
#[derive(Debug, Clone, Copy, PartialEq, Eq, Structural)]
pub enum Match {
    All,
    First,
}

impl Match {
    /// The default: only the first matching rule.
    pub fn default() -> (r: Match)
        ensures
            r == Match::First,
    {
        Match::First
    }
}

} // verus!

//! The plain `apply` mode of earlier configurations: all or any.

use vstd::prelude::*;

verus! {

/// Whether all or any of a rule's filters must hold.
#[derive(Debug, Clone, Copy, PartialEq, Eq, Structural)]
pub enum Apply {
    All,
    Any,
}

impl Apply {
    /// The default mode: `All`.
    pub fn default() -> (r: Apply)
        ensures
            r == Apply::All,
    {
        Apply::All
    }

    /// The mode used when a setting is left out: `All`.
    pub fn default_none() -> (r: Apply)
        ensures
            r == Apply::All,
    {
        Apply::All
    }

    /// The mode used when a setting falls back to the defaults: `All`.
    pub fn default_some() -> (r: Apply)
        ensures
            r == Apply::All,
    {
        Apply::All
    }

    /// The name of the mode: `all` or `any`.
    pub fn to_string(&self) -> (s: String)
        ensures
            s@ == match self {
                Apply::All => "all"@,
                Apply::Any => "any"@,
            },
    {
        match self {
            Apply::All => crate::text::copy_str("all"),
            Apply::Any => crate::text::copy_str("any"),
        }
    }
}

} // verus!

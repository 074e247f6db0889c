//! Options that say how rules apply: the `apply` mode of actions and
//! filters, how they combine from defaults to a rule, and what a folder
//! walk yields.

pub mod apply;
pub mod basic;
pub mod match_mode;
pub mod targets;
pub mod wrapper;
pub mod layered;

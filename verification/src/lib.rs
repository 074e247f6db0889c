//! Rule-driven file organisation: the decisions that pick, name, group and
//! filter files, stated and proved over plain values.

pub mod text;
pub mod expand;
pub mod path;
pub mod conflict;
pub mod config;
pub mod options;
pub mod templates;
pub mod resource;
pub mod variables;
pub mod providers;
pub mod pattern;
pub mod media;
pub mod filters;
pub mod hidden;
pub mod batch;
pub mod storage;
pub mod backup;
pub mod vfs;
pub mod lines;
pub mod actions;

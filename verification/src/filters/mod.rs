//! Filters: the tests that decide which files a rule acts on.

pub mod empty;
pub mod expressions;
pub mod extension;
pub mod filename;
pub mod file_regex;
pub mod mime_types;
pub mod mime_wrapper;

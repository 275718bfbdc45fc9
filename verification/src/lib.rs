//! Core logic of the slio-git client: repository-side rules (branches, clone
//! URLs, patches, commit rewriting, native operation journal) and the
//! diff/merge view models used by the desktop shell.

pub mod git;
pub mod path;
pub mod text;
pub mod ui;

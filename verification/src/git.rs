pub mod capability;
pub mod diff;
pub mod blame;
pub mod error;
pub mod graph;
pub mod history;
pub mod clone;
pub mod branch;
pub mod auth;
pub mod commit;
pub mod commit_actions;
pub mod gitignore;
pub mod index;
pub mod journal;
pub mod sequencer;
pub mod operation;

pub mod diff_core;
pub mod merge_editor;
pub mod diff_editor;
pub mod autosquash;
pub mod changelist;
pub mod diff_file_header;
pub mod statusbar;
pub mod scrollable;
pub mod syntax;
pub mod tree_widget;
pub mod blame_cache;
pub mod commit_compare;
pub mod log_tabs;
pub mod menu;
pub mod progress_bar;
pub mod blame_worker;
pub mod diff_viewer;

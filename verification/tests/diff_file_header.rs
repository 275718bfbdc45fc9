use slio_git::git::diff::FileDiff;
use slio_git::ui::diff_file_header::{BadgeTone, DiffFileHeaderMeta, DiffFileToolbarSummary};

#[test]
fn describe_paths_marks_renames() {
    let meta = DiffFileHeaderMeta::describe(Some("old/src/lib.rs"), Some("new/src/lib.rs"));
    assert_eq!(meta.file_name, "lib.rs");
    assert_eq!(meta.parent_path.as_deref(), Some("new/src"));
    assert_eq!(meta.rename_hint.as_deref(), Some("old/src/lib.rs -> new/src/lib.rs"));
    assert_eq!(meta.status_label, "Renamed");
    assert!(matches!(meta.status_tone, BadgeTone::Accent));
}

#[test]
fn describe_paths_handles_new_files() {
    let meta = DiffFileHeaderMeta::describe(None, Some("src/new.rs"));
    assert_eq!(meta.file_name, "new.rs");
    assert_eq!(meta.parent_path.as_deref(), Some("src"));
    assert_eq!(meta.rename_hint, None);
    assert_eq!(meta.status_label, "New File");
    assert!(matches!(meta.status_tone, BadgeTone::Success));
}

#[test]
fn toolbar_summary_preserves_single_file_status_and_totals() {
    let file_diff = FileDiff {
        old_path: None,
        new_path: Some("src/new.rs".to_string()),
        hunks: Vec::new(),
        additions: 7,
        deletions: 0,
    };
    let summary = DiffFileToolbarSummary::from_file_diff(&file_diff);
    assert_eq!(summary.meta.file_name, "new.rs");
    assert_eq!(summary.meta.parent_path.as_deref(), Some("src"));
    assert_eq!(summary.meta.status_label, "New File");
    assert!(matches!(summary.meta.status_tone, BadgeTone::Success));
    assert_eq!(summary.change_summary, "+7 / -0");
}

#[test]
fn describe_marks_deleted_and_modified_files() {
    let deleted = DiffFileHeaderMeta::describe(Some("gone.txt"), None);
    assert_eq!(deleted.status_label, "Deleted");
    assert!(matches!(deleted.status_tone, BadgeTone::Danger));
    assert_eq!(deleted.parent_path, None);
    let same = DiffFileHeaderMeta::describe(Some("a/b.txt"), Some("a/b.txt"));
    assert_eq!(same.status_label, "Modified");
    assert_eq!(same.rename_hint, None);
    let unnamed = DiffFileHeaderMeta::describe(None, None);
    assert_eq!(unnamed.file_name, "Unnamed");
    assert_eq!(unnamed.status_label, "Modified");
}

#[test]
fn toolbar_summary_counts_both_sides() {
    let file_diff = FileDiff {
        old_path: Some("a.rs".to_string()),
        new_path: Some("a.rs".to_string()),
        hunks: Vec::new(),
        additions: 120,
        deletions: 35,
    };
    assert_eq!(DiffFileToolbarSummary::from_file_diff(&file_diff).change_summary, "+120 / -35");
}

use slio_git::git::index::{
    change_from_status, convert_status, generate_hunk_patch, generate_line_patch, generate_line_patch_for_test,
    generate_line_unstage_patch, generate_reverse_hunk_patch, get_conflicted_files, has_conflicts,
    parse_hunk_header, select_hunk, Change, ChangeStatus, Hunk, HunkLine, LineSide, StatusFlags,
};
use slio_git::git::error::GitError;

fn line(origin: char, content: &str) -> HunkLine {
    HunkLine { origin, content: content.to_string() }
}

fn hunk() -> Hunk {
    Hunk {
        old_start: 3,
        old_lines: 3,
        new_start: 3,
        new_lines: 3,
        header: "@@ -3,3 +3,3 @@".to_string(),
        lines: vec![line(' ', "a\n"), line('-', "b\n"), line('+', "B\n"), line(' ', "c")],
    }
}

#[test]
fn hunk_patch_replays_the_hunk() {
    let p = generate_hunk_patch("src/x.txt", &hunk());
    assert_eq!(p, "diff --git a/src/x.txt b/src/x.txt\n--- a/src/x.txt\n+++ b/src/x.txt\n@@ -3,3 +3,3 @@\n a\n-b\n+B\n c\n");
}

#[test]
fn reverse_patch_swaps_additions_and_deletions() {
    let p = generate_reverse_hunk_patch("f", &hunk());
    assert!(p.ends_with("@@ -3,3 +3,3 @@\n a\n+b\n-B\n c\n"));
}

#[test]
fn staging_selected_addition_keeps_deletion_as_context() {
    let p = generate_line_patch_for_test("f", &hunk(), &[2], LineSide::New);
    assert!(p.ends_with("@@ -3,3 +3,4 @@\n a\n b\n+B\n c\n"), "{p}");
}

#[test]
fn staging_selected_deletion_drops_additions() {
    let p = generate_line_patch("f", &hunk(), &[1], LineSide::Old).unwrap();
    assert!(p.ends_with("@@ -3,3 +3,2 @@\n a\n-b\n c\n"), "{p}");
}

#[test]
fn empty_selection_is_refused() {
    let err = generate_line_patch("f", &hunk(), &[], LineSide::New).unwrap_err();
    assert_eq!(err.message(), "Git operation failed: generate_line_patch - Selected lines produce an empty diff");
    assert!(generate_line_unstage_patch("f", &hunk(), &[1], LineSide::New).is_err());
}

#[test]
fn unstaging_selected_addition_removes_it() {
    let p = generate_line_unstage_patch("f", &hunk(), &[2], LineSide::New).unwrap();
    assert!(p.ends_with("@@ -3,3 +3,2 @@\n a\n-B\n c\n"), "{p}");
}

#[test]
fn hunk_headers_are_parsed() {
    assert_eq!(parse_hunk_header("@@ -10,4 +12,6 @@ fn main()"), (10, 4, 12, 6));
    assert_eq!(parse_hunk_header("@@ -1 +1 @@"), (1, 1, 1, 1));
    assert_eq!(parse_hunk_header("@@"), (0, 0, 0, 0));
    assert_eq!(parse_hunk_header("@@ -x,y"), (0, 1, 0, 1));
    assert_eq!(parse_hunk_header("@@ -99999999999,2 +5,+7 @@"), (0, 2, 5, 7));
}

fn flags() -> StatusFlags {
    StatusFlags {
        index_new: false,
        index_modified: false,
        index_deleted: false,
        index_renamed: false,
        index_typechange: false,
        wt_new: false,
        wt_modified: false,
        wt_deleted: false,
        wt_typechange: false,
        wt_renamed: false,
        ignored: false,
        conflicted: false,
    }
}

#[test]
fn statuses_are_classified() {
    assert_eq!(convert_status(StatusFlags { index_new: true, wt_modified: true, ..flags() }), ChangeStatus::Added);
    assert_eq!(convert_status(StatusFlags { wt_new: true, ..flags() }), ChangeStatus::Untracked);
    assert_eq!(convert_status(StatusFlags { conflicted: true, ..flags() }), ChangeStatus::Conflict);
    assert!(change_from_status("x".into(), StatusFlags { ignored: true, ..flags() }, false, None).is_none());
    let c = change_from_status("x".into(), StatusFlags { index_modified: true, wt_typechange: true, ..flags() }, false, Some("a..b".into())).unwrap();
    assert!(c.staged && c.unstaged && c.is_submodule);
    assert_eq!(c.submodule_summary.as_deref(), Some("a..b"));
}

fn change(path: &str, status: ChangeStatus) -> Change {
    Change { path: path.into(), status, staged: false, unstaged: true, old_oid: None, new_oid: None, is_submodule: false, submodule_summary: None }
}

#[test]
fn conflicts_are_found() {
    let changes = vec![change("a", ChangeStatus::Modified), change("b", ChangeStatus::Conflict), change("c", ChangeStatus::Conflict)];
    assert!(has_conflicts(&changes));
    assert_eq!(get_conflicted_files(&changes), vec!["b".to_string(), "c".to_string()]);
    assert!(!has_conflicts(&changes[..1].iter().map(|c| change(&c.path, c.status)).collect()));
}

#[test]
fn select_hunk_picks_by_position_or_names_the_missing_one() {
    let mut second = hunk();
    second.header = "@@ -9,1 +9,1 @@".to_string();
    let hunks = vec![hunk(), second];
    assert_eq!(select_hunk(&hunks, 1, "stage_hunk", "").unwrap().header, "@@ -9,1 +9,1 @@");
    assert_eq!(select_hunk(&hunks, 0, "stage_hunk", "").unwrap().header, "@@ -3,3 +3,3 @@");
    match select_hunk(&hunks, 2, "stage_hunk", "") {
        Err(GitError::OperationFailed { operation, details }) => {
            assert_eq!(operation, "stage_hunk");
            assert_eq!(details, "Hunk 2 not found");
        }
        _ => panic!("expected a missing hunk"),
    }
    match select_hunk(&hunks, 17, "unstage_lines", " in index-to-HEAD diff") {
        Err(GitError::OperationFailed { operation, details }) => {
            assert_eq!(operation, "unstage_lines");
            assert_eq!(details, "Hunk 17 not found in index-to-HEAD diff");
        }
        _ => panic!("expected a missing hunk"),
    }
}

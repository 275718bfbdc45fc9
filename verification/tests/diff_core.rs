use slio_git::git::diff::{DiffHunk, DiffLine, DiffLineOrigin};
use slio_git::ui::diff_core::{build_aligned_rows, format_line_number, prefix_char, ChunkTag};

fn make_line(origin: DiffLineOrigin, content: &str, old: Option<u32>, new: Option<u32>) -> DiffLine {
    DiffLine { origin, content: content.to_string(), old_lineno: old, new_lineno: new, inline_changes: Vec::new() }
}

fn test_hunk(lines: Vec<DiffLine>) -> DiffHunk {
    DiffHunk { header: String::new(), old_start: 1, old_lines: 0, new_start: 1, new_lines: 0, lines }
}

#[test]
fn context_lines_become_equal() {
    let hunk = test_hunk(vec![make_line(DiffLineOrigin::Context, "hello", Some(1), Some(1))]);
    let rows = build_aligned_rows(&hunk);
    assert_eq!(rows.len(), 1);
    assert_eq!(rows[0].tag, ChunkTag::Equal);
    assert!(rows[0].left.is_some());
    assert!(rows[0].right.is_some());
}

#[test]
fn pure_addition_becomes_insert() {
    let hunk = test_hunk(vec![make_line(DiffLineOrigin::Addition, "new line", None, Some(1))]);
    let rows = build_aligned_rows(&hunk);
    assert_eq!(rows.len(), 1);
    assert_eq!(rows[0].tag, ChunkTag::Insert);
    assert!(rows[0].left.is_none());
    assert!(rows[0].right.is_some());
}

#[test]
fn pure_deletion_becomes_delete() {
    let hunk = test_hunk(vec![make_line(DiffLineOrigin::Deletion, "old line", Some(1), None)]);
    let rows = build_aligned_rows(&hunk);
    assert_eq!(rows.len(), 1);
    assert_eq!(rows[0].tag, ChunkTag::Delete);
    assert!(rows[0].left.is_some());
    assert!(rows[0].right.is_none());
}

#[test]
fn paired_deletion_addition_becomes_replace() {
    let hunk = test_hunk(vec![
        make_line(DiffLineOrigin::Deletion, "old", Some(1), None),
        make_line(DiffLineOrigin::Addition, "new", None, Some(1)),
    ]);
    let rows = build_aligned_rows(&hunk);
    assert_eq!(rows.len(), 1);
    assert_eq!(rows[0].tag, ChunkTag::Replace);
    assert!(rows[0].left.is_some());
    assert!(rows[0].right.is_some());
}

#[test]
fn uneven_delete_add_produces_replace_plus_insert() {
    let hunk = test_hunk(vec![
        make_line(DiffLineOrigin::Deletion, "old1", Some(1), None),
        make_line(DiffLineOrigin::Addition, "new1", None, Some(1)),
        make_line(DiffLineOrigin::Addition, "new2", None, Some(2)),
    ]);
    let rows = build_aligned_rows(&hunk);
    assert_eq!(rows.len(), 2);
    assert_eq!(rows[0].tag, ChunkTag::Replace);
    assert_eq!(rows[1].tag, ChunkTag::Insert);
}

#[test]
fn uneven_more_deletes_produces_replace_plus_delete() {
    let hunk = test_hunk(vec![
        make_line(DiffLineOrigin::Deletion, "old1", Some(1), None),
        make_line(DiffLineOrigin::Deletion, "old2", Some(2), None),
        make_line(DiffLineOrigin::Addition, "new1", None, Some(1)),
    ]);
    let rows = build_aligned_rows(&hunk);
    assert_eq!(rows.len(), 2);
    assert_eq!(rows[0].tag, ChunkTag::Replace);
    assert_eq!(rows[1].tag, ChunkTag::Delete);
}

#[test]
fn mixed_context_and_changes() {
    let hunk = test_hunk(vec![
        make_line(DiffLineOrigin::Context, "ctx1", Some(1), Some(1)),
        make_line(DiffLineOrigin::Deletion, "old", Some(2), None),
        make_line(DiffLineOrigin::Addition, "new", None, Some(2)),
        make_line(DiffLineOrigin::Context, "ctx2", Some(3), Some(3)),
    ]);
    let rows = build_aligned_rows(&hunk);
    assert_eq!(rows.len(), 3);
    assert_eq!(rows[0].tag, ChunkTag::Equal);
    assert_eq!(rows[1].tag, ChunkTag::Replace);
    assert_eq!(rows[2].tag, ChunkTag::Equal);
}

#[test]
fn aligned_rows_keep_each_side_in_order() {
    let hunk = test_hunk(vec![
        make_line(DiffLineOrigin::Deletion, "a", Some(1), None),
        make_line(DiffLineOrigin::Deletion, "b", Some(2), None),
        make_line(DiffLineOrigin::Addition, "x", None, Some(1)),
        make_line(DiffLineOrigin::Context, "c", Some(3), Some(2)),
        make_line(DiffLineOrigin::Addition, "y", None, Some(3)),
    ]);
    let rows = build_aligned_rows(&hunk);
    let left: Vec<String> = rows.iter().filter_map(|r| r.left.as_ref().map(|l| l.content.clone())).collect();
    let right: Vec<String> = rows.iter().filter_map(|r| r.right.as_ref().map(|l| l.content.clone())).collect();
    assert_eq!(left, vec!["a", "b", "c"]);
    assert_eq!(right, vec!["x", "c", "y"]);
}

#[test]
fn line_numbers_are_right_aligned() {
    assert_eq!(format_line_number(Some(7)), format!("{:>4}", 7));
    assert_eq!(format_line_number(Some(12345)), "12345");
    assert_eq!(format_line_number(None), format!("{:>4}", ""));
}

#[test]
fn prefixes_follow_the_row_kind() {
    assert_eq!(prefix_char(ChunkTag::Equal, true), " ");
    assert_eq!(prefix_char(ChunkTag::Delete, true), "-");
    assert_eq!(prefix_char(ChunkTag::Insert, false), "+");
}

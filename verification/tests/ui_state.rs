use slio_git::git::blame::{expand_blame_hunk, BlameInfo};
use slio_git::git::history::{committer_if_different, HistoryEntry};
use slio_git::ui::blame_cache::BlameCache;
use slio_git::ui::commit_compare::CommitCompareState;
use slio_git::ui::tree_widget::{count_leaves, node_matches_filter, TreeNode};

fn info(line: u32) -> BlameInfo {
    BlameInfo {
        line_no: line,
        commit_oid: "abc".into(),
        author_name: "n".into(),
        author_email: "e".into(),
        author_time: 0,
        summary: "s".into(),
    }
}

#[test]
fn blame_cache_reads_back_what_was_inserted() {
    let mut cache = BlameCache::new();
    assert!(cache.get("a.rs", "HEAD").is_none());
    cache.insert("a.rs".into(), "HEAD".into(), vec![info(1)]);
    cache.insert("b.rs".into(), "HEAD".into(), vec![info(2), info(3)]);
    cache.insert("a.rs".into(), "HEAD".into(), vec![info(4)]);
    assert_eq!(cache.get("a.rs", "HEAD").unwrap()[0].line_no, 4);
    assert_eq!(cache.get("b.rs", "HEAD").unwrap().len(), 2);
    assert!(cache.get("a.rs", "HEAD~1").is_none());
    cache.clear();
    assert!(cache.get("b.rs", "HEAD").is_none());
}

#[test]
fn blame_cache_compares_paths_by_component() {
    let mut cache = BlameCache::new();
    cache.insert("src/a.rs".into(), "HEAD".into(), vec![info(7)]);
    assert_eq!(cache.get("src//a.rs", "HEAD").unwrap()[0].line_no, 7);
    assert_eq!(cache.get("src/./a.rs", "HEAD").unwrap()[0].line_no, 7);
    assert_eq!(cache.get("src/a.rs/", "HEAD").unwrap()[0].line_no, 7);
    assert!(cache.get("src/b.rs", "HEAD").is_none());
    assert!(cache.get("./src/a.rs", "HEAD").is_none());
    cache.insert("src//a.rs".into(), "HEAD".into(), vec![info(8), info(9)]);
    assert_eq!(cache.get("src/a.rs", "HEAD").unwrap().len(), 2);
}

#[test]
fn blame_cache_keeps_a_write_through_other_writes() {
    let mut cache = BlameCache::new();
    cache.insert("a.rs".into(), "HEAD".into(), vec![info(1)]);
    cache.insert("b.rs".into(), "HEAD".into(), vec![info(2)]);
    cache.insert("a.rs".into(), "HEAD~1".into(), vec![info(3)]);
    cache.insert("c.rs".into(), "HEAD".into(), vec![info(4)]);
    assert_eq!(cache.get("a.rs", "HEAD").unwrap()[0].line_no, 1);
    assert_eq!(cache.get("a.rs", "HEAD").unwrap()[0].line_no, 1);
    assert_eq!(cache.get("a.rs", "HEAD~1").unwrap()[0].line_no, 3);
}

#[test]
fn blame_hunks_expand_to_lines() {
    let mut lines = Vec::new();
    expand_blame_hunk(&mut lines, 5, 3, &"c1".to_string(), &"A".to_string(), &"a@x".to_string(), 42, &"sum".to_string());
    assert_eq!(lines.iter().map(|l| l.line_no).collect::<Vec<_>>(), vec![5, 6, 7]);
    assert!(lines.iter().all(|l| l.commit_oid == "c1" && l.author_time == 42));
}

fn entry(id: &str) -> HistoryEntry {
    HistoryEntry {
        id: id.into(),
        message: String::new(),
        author_name: String::new(),
        author_email: String::new(),
        timestamp: 0,
        parent_ids: Vec::new(),
        committer_name: None,
        committer_email: None,
        refs: Vec::new(),
    }
}

#[test]
fn commit_compare_selects_the_two_newest_commits() {
    let mut state = CommitCompareState::new();
    state.load_entries(Ok(vec![entry("new"), entry("old"), entry("older")]));
    assert_eq!(state.right_commit.as_deref(), Some("new"));
    assert_eq!(state.left_commit.as_deref(), Some("old"));
    assert!(!state.is_loading);
    state.swap_commits();
    assert_eq!(state.left_commit.as_deref(), Some("new"));
    state.swap_commits();
    assert_eq!(state.left_commit.as_deref(), Some("old"));
    assert_eq!(state.compare(), Some(("old".to_string(), "new".to_string())));
    assert!(state.is_loading);
    state.finish_compare(Err("boom".into()));
    assert_eq!(state.error.as_deref(), Some("Comparison failed: boom"));
}

#[test]
fn commit_compare_reports_missing_selection_and_load_errors() {
    let mut state = CommitCompareState::new();
    assert_eq!(state.compare(), None);
    assert_eq!(state.error.as_deref(), Some("Please select a left commit"));
    state.set_left_commit("x".into());
    assert_eq!(state.compare(), None);
    assert_eq!(state.error.as_deref(), Some("Please select a right commit"));
    state.load_entries(Err("no repo".into()));
    assert_eq!(state.error.as_deref(), Some("Failed to load commit history: no repo"));
}

#[test]
fn committer_is_kept_only_when_different() {
    assert_eq!(committer_if_different("Ada", "Ada"), None);
    assert_eq!(committer_if_different("Ada", "Bob"), Some("Bob".to_string()));
}

#[test]
fn tree_counts_leaves_and_filters_by_label() {
    let tree = TreeNode::group(
        "root",
        "Branches",
        vec![TreeNode::leaf("a", "Main"), TreeNode::group("g", "Feature", vec![TreeNode::leaf("b", "Login"), TreeNode::leaf("c", "Auth")])],
    )
    .with_icon("*");
    assert_eq!(count_leaves(&tree), 3);
    assert!(node_matches_filter(&tree, "LOG"));
    assert!(!node_matches_filter(&tree.children[0], "feat"));
    assert!(node_matches_filter(&tree.children[1], "feat"));
    assert_eq!(tree.icon.as_deref(), Some("*"));
    assert!(!TreeNode::leaf("x", "y").with_expanded(false).expanded);
}

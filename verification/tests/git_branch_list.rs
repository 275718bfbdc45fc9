use slio_git::git::branch::{
    check_worktree_clean, has_uncommitted, is_uncommitted, uncommitted_paths, STATUS_CURRENT, STATUS_IGNORED,
};
use slio_git::git::branch::{
    branch_from_listing, check_branch_deletion, checkout_plan, is_checkout_conflict_error, mentions_checkout_conflict, RefKind, remote_branch_local_name, sort_branches_by_recency,
    tracking_label, BranchListing, SyncStatus,
};
use slio_git::git::error::GitError;

fn listing(name: &str, remote: bool, ts: Option<i64>) -> BranchListing {
    BranchListing {
        name: name.to_string(),
        is_remote: remote,
        oid: Some("abc".to_string()),
        last_commit_timestamp: ts,
        is_head_ref: false,
        upstream_ref: None,
    }
}

#[test]
fn tracking_labels_follow_sync_status() {
    assert_eq!(tracking_label(SyncStatus::Ahead(3)), Some("↑3".to_string()));
    assert_eq!(tracking_label(SyncStatus::Behind(12)), Some("↓12".to_string()));
    assert_eq!(tracking_label(SyncStatus::Diverged { ahead: 2, behind: 5 }), Some("↕2/5".to_string()));
    assert_eq!(tracking_label(SyncStatus::Synced), Some("✓".to_string()));
    assert_eq!(tracking_label(SyncStatus::NoUpstream), None);
    assert_eq!(tracking_label(SyncStatus::Unknown), Some("?".to_string()));
}

#[test]
fn remote_head_alias_is_skipped() {
    assert!(branch_from_listing(listing("origin/HEAD", true, None), "main", SyncStatus::Synced).is_none());
}

#[test]
fn current_local_branch_gets_tracking_and_short_upstream() {
    let mut item = listing("feature/auth/login", false, Some(10));
    item.upstream_ref = Some("refs/remotes/origin/feature/auth/login".to_string());
    let b = branch_from_listing(item, "feature/auth/login", SyncStatus::Ahead(1)).unwrap();
    assert!(b.is_head);
    assert_eq!(b.upstream.as_deref(), Some("origin/feature/auth/login"));
    assert_eq!(b.tracking_status.as_deref(), Some("↑1"));
    assert_eq!(
        b.group_path,
        Some(vec!["feature".to_string(), "auth".to_string(), "login".to_string()])
    );
    assert_eq!(b.oid, "abc");
}

#[test]
fn other_branches_have_no_tracking_label() {
    let mut item = listing("origin/fix/bug", true, None);
    item.oid = None;
    let b = branch_from_listing(item, "fix/bug", SyncStatus::Ahead(1)).unwrap();
    assert!(!b.is_head);
    assert_eq!(b.tracking_status, None);
    assert_eq!(b.oid, "");
    assert_eq!(b.group_path, Some(vec!["fix".to_string(), "bug".to_string()]));
}

#[test]
fn branches_sort_newest_first_and_keep_ties_in_order() {
    let names = [("a", Some(5)), ("b", None), ("c", Some(9)), ("d", Some(5)), ("e", None)];
    let branches = names
        .iter()
        .map(|(n, t)| branch_from_listing(listing(n, false, *t), "zzz", SyncStatus::Synced).unwrap())
        .collect();
    let sorted: Vec<String> = sort_branches_by_recency(branches).into_iter().map(|b| b.name).collect();
    assert_eq!(sorted, vec!["c", "a", "d", "b", "e"]);
}

#[test]
fn remote_ref_gives_local_branch_name() {
    assert_eq!(remote_branch_local_name("origin/feature/x").unwrap(), "feature/x");
    match remote_branch_local_name("main") {
        Err(GitError::OperationFailed { operation, details }) => {
            assert_eq!(operation, "checkout_remote_branch");
            assert_eq!(details, "invalid remote branch ref: main");
        }
        other => panic!("unexpected {other:?}"),
    }
}

#[test]
fn branch_deletion_checks_run_in_order() {
    match check_branch_deletion("topic", false, false, true, false) {
        Err(GitError::OperationFailed { operation, details }) => {
            assert_eq!(operation, "delete_branch");
            assert_eq!(details, "branch 'topic' is not fully merged");
        }
        other => panic!("unexpected {other:?}"),
    }
    assert!(matches!(check_branch_deletion("topic", true, false, false, false), Err(GitError::BranchNotFound { name }) if name == "topic"));
    match check_branch_deletion("main", false, true, true, true) {
        Err(GitError::OperationFailed { details, .. }) => assert_eq!(details, "cannot delete the checked-out branch 'main'"),
        other => panic!("unexpected {other:?}"),
    }
    assert!(check_branch_deletion("topic", true, false, true, false).is_ok());
}

#[test]
fn checkout_conflict_errors_are_recognised_by_message() {
    let overwritten = GitError::OperationFailed {
        operation: "checkout".into(),
        details: "Your local changes to the following files Would Be Overwritten by checkout".into(),
    };
    assert!(is_checkout_conflict_error(&overwritten));
    assert!(is_checkout_conflict_error(&GitError::Git2("Please commit your changes or stash them".into())));
    assert!(!is_checkout_conflict_error(&GitError::BranchNotFound { name: "x".into() }));
}

#[test]
fn dirty_working_tree_is_refused() {
    assert!(check_worktree_clean(&vec![]).is_ok());
    assert!(check_worktree_clean(&vec![STATUS_CURRENT, STATUS_IGNORED, STATUS_IGNORED | 128]).is_ok());
    assert!(matches!(check_worktree_clean(&vec![STATUS_CURRENT, 256]), Err(GitError::DirtyWorkingTree)));
    assert!(matches!(check_worktree_clean(&vec![1]), Err(GitError::DirtyWorkingTree)));
    assert!(!is_uncommitted(STATUS_CURRENT));
    assert!(!is_uncommitted(STATUS_IGNORED));
    assert!(is_uncommitted(128));
}

#[test]
fn uncommitted_files_are_listed_in_order() {
    let entries = vec![
        (128u32, Some("new.txt".to_string())),
        (STATUS_CURRENT, Some("same.txt".to_string())),
        (STATUS_IGNORED, Some("target/".to_string())),
        (256u32, None),
        (2u32, Some("staged.rs".to_string())),
    ];
    assert_eq!(uncommitted_paths(&entries), vec!["new.txt".to_string(), "staged.rs".to_string()]);
    assert!(has_uncommitted(&entries));
    let clean = vec![(STATUS_CURRENT, Some("a".to_string())), (STATUS_IGNORED, Some("b".to_string()))];
    assert!(uncommitted_paths(&clean).is_empty());
    assert!(!has_uncommitted(&clean));
}

#[test]
fn checkout_plan_prefers_branch_then_tag_then_commit() {
    assert_eq!(checkout_plan(true, true), (RefKind::Branch, true));
    assert_eq!(checkout_plan(true, false), (RefKind::Branch, true));
    assert_eq!(checkout_plan(false, true), (RefKind::Tag, false));
    assert_eq!(checkout_plan(false, false), (RefKind::Commit, false));
}

#[test]
fn conflict_wording_is_recognised_in_lower_case_messages() {
    assert!(mentions_checkout_conflict("your local changes would be overwritten by checkout"));
    assert!(mentions_checkout_conflict("please commit your changes or stash them before you switch"));
    assert!(mentions_checkout_conflict("3 local changes"));
    assert!(!mentions_checkout_conflict("Would Be Overwritten"));
    assert!(!mentions_checkout_conflict("branch not found"));
}

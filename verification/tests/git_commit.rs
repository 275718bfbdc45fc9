use slio_git::git::commit::{
    changed_file, prepared_message_from_text, read_merge_head_oids, remember_message, short_oid, sort_changed_files,
    synthesize_merge_message, CommitChangeStatus, DeltaKind, MergeSource,
};
use slio_git::git::commit_actions::{
    check_clean_worktree, check_commit_action_in_progress, check_new_message, check_not_published, check_reset_target,
    check_rewrite_target,
    check_drop_allowed, commit_subject, edit_todo_entries, parse_upstream_ref, plan_rewrite, push_refspec,
    resolve_push_current_branch_target, rewrite_failure_error, select_rewrite_range, squash_message, ResetMode,
    RewriteFailure, RewriteKind, RewriteSelection, RewriteStep,
};
use slio_git::git::error::GitError;

#[test]
fn synthesize_merge_message_names_branch_and_target() {
    let sources = vec![MergeSource::Branch("feature".into())];
    assert_eq!(synthesize_merge_message(&sources, Some("main".into())).unwrap(), "Merge branch 'feature' into main");
}

#[test]
fn synthesize_merge_message_omits_into_when_head_is_detached() {
    let sources = vec![MergeSource::Branch("feature".into())];
    assert_eq!(synthesize_merge_message(&sources, None).unwrap(), "Merge branch 'feature'");
}

#[test]
fn synthesize_merge_message_handles_multiple_merge_head_entries() {
    let sources = vec![MergeSource::Branch("alpha".into()), MergeSource::Branch("beta".into())];
    assert_eq!(
        synthesize_merge_message(&sources, Some("main".into())).unwrap(),
        "Merge branches 'alpha', 'beta' into main"
    );
    let mixed = vec![MergeSource::Commit("abc1234".into()), MergeSource::Branch("b".into()), MergeSource::Commit("def5678".into())];
    assert_eq!(synthesize_merge_message(&mixed, None).unwrap(), "Merge branches 'abc1234', 'b', 'def5678'");
    let single_commit = vec![MergeSource::Commit("abc1234".into())];
    assert_eq!(synthesize_merge_message(&single_commit, Some("dev".into())).unwrap(), "Merge commit 'abc1234' into dev");
}

#[test]
fn synthesize_merge_message_refuses_empty_merge_head() {
    match synthesize_merge_message(&Vec::new(), Some("main".into())) {
        Err(GitError::OperationFailed { operation, details }) => {
            assert_eq!(operation, "synthesize_merge_message");
            assert_eq!(details, "MERGE_HEAD is empty; nothing to synthesize");
        }
        _ => panic!("empty MERGE_HEAD accepted"),
    }
}

#[test]
fn merge_head_lines_are_trimmed_and_checked() {
    let a = "1234567890abcdef1234567890abcdef12345678";
    let b = "abcdef1234567890abcdef1234567890abcdef12";
    let ids = read_merge_head_oids(&format!("  {a}\n\n{b}\r\n"), "create_commit").unwrap();
    assert_eq!(ids, vec![a.to_string(), b.to_string()]);
    match read_merge_head_oids("zzz\n", "create_commit") {
        Err(GitError::OperationFailed { operation, details }) => {
            assert_eq!(operation, "create_commit");
            assert!(details.starts_with("Invalid MERGE_HEAD commit id 'zzz': "));
        }
        _ => panic!("invalid id accepted"),
    }
}

#[test]
fn merge_head_short_ids_are_read_as_full_lower_case_ids() {
    let ids = read_merge_head_oids("ABC12\n", "create_commit").unwrap();
    assert_eq!(ids, vec![format!("abc12{}", "0".repeat(35))]);
}

#[test]
fn short_oid_keeps_seven_characters() {
    assert_eq!(short_oid("1234567890abcdef"), "1234567");
    assert_eq!(short_oid("abc"), "abc");
}

#[test]
fn prepared_message_trims_trailing_white_space() {
    assert_eq!(prepared_message_from_text("Merge branch 'x'\n\n# Conflicts:\n#\ta.txt\n\n"), Some("Merge branch 'x'\n\n# Conflicts:\n#\ta.txt".to_string()));
    assert_eq!(prepared_message_from_text(" \n\t\n"), None);
}

#[test]
fn recent_messages_move_to_front_without_duplicates() {
    let existing: Vec<String> = vec!["b".into(), "a".into(), "c".into()];
    assert_eq!(remember_message(existing, "a"), vec!["a".to_string(), "b".to_string(), "c".to_string()]);
    let blank: Vec<String> = vec!["x".into()];
    assert_eq!(remember_message(blank, "   "), vec!["x".to_string()]);
    let many: Vec<String> = (0..12).map(|i| format!("m{i}")).collect();
    let kept = remember_message(many, "new");
    assert_eq!(kept.len(), 10);
    assert_eq!(kept[0], "new");
    assert_eq!(kept[9], "m8");
}

#[test]
fn reset_modes_have_flags_and_labels() {
    assert_eq!(ResetMode::Soft.git_flag(), "--soft");
    assert_eq!(ResetMode::Mixed.git_flag(), "--mixed");
    assert_eq!(ResetMode::Hard.git_flag(), "--hard");
    assert_eq!(ResetMode::Hard.label(), "Hard");
}

#[test]
fn upstream_refs_split_at_the_first_slash() {
    assert_eq!(parse_upstream_ref("origin/feature/x"), Some(("origin".to_string(), "feature/x".to_string())));
    assert_eq!(parse_upstream_ref("origin"), None);
}

#[test]
fn commit_subject_is_the_first_filled_line() {
    assert_eq!(commit_subject("\n  \nFix bug\r\nmore"), "Fix bug");
    assert_eq!(commit_subject("\n\nlast line\r"), "last line\r");
    assert_eq!(commit_subject("   "), "   ");
}

#[test]
fn squash_message_joins_both_messages() {
    assert_eq!(squash_message("Base\n", "  extra  "), "Base\n\nextra");
    assert_eq!(squash_message("Base\n", "  "), "Base\n");
    assert_eq!(squash_message("  \n", "extra\n"), "extra");
}

#[test]
fn push_target_is_resolved_from_the_upstream() {
    let t = resolve_push_current_branch_target(
        Some("main".into()),
        Some("origin/main".into()),
        true,
        "aaa".into(),
        "bbb".into(),
        false,
    )
    .unwrap();
    assert_eq!(t.remote_name, "origin");
    assert_eq!(t.upstream_branch_name, "main");
    assert!(t.requires_force_with_lease);
    assert_eq!(push_refspec(&t), "+aaa:refs/heads/main");
    match resolve_push_current_branch_target(Some("dev".into()), None, true, "a".into(), "b".into(), true) {
        Err(GitError::OperationFailed { operation, details }) => {
            assert_eq!(operation, "push-to-here");
            assert_eq!(details, "当前分支 dev 还没有配置上游");
        }
        _ => panic!("missing upstream accepted"),
    }
    assert!(resolve_push_current_branch_target(None, Some("o/m".into()), true, "a".into(), "b".into(), true).is_err());
}

fn chain() -> Vec<String> {
    vec!["c0".into(), "c1".into(), "c2".into(), "c3".into()]
}

#[test]
fn rewrite_range_starts_before_a_fixup() {
    let sel = select_rewrite_range(chain(), "c2".into(), 1, "fixup", RewriteKind::Fixup).unwrap();
    assert_eq!(sel.selected_index, 2);
    assert_eq!(sel.base_spec.as_deref(), Some("c0"));
    let sel = select_rewrite_range(chain(), "c2".into(), 1, "reword", RewriteKind::EditMessage).unwrap();
    assert_eq!(sel.base_spec.as_deref(), Some("c1"));
    assert!(select_rewrite_range(chain(), "c0".into(), 0, "squash", RewriteKind::Squash).is_err());
    assert!(select_rewrite_range(chain(), "zz".into(), 1, "drop", RewriteKind::Drop).is_err());
    assert!(select_rewrite_range(chain(), "c1".into(), 2, "drop", RewriteKind::Drop).is_err());
}

fn steps_text(steps: &[RewriteStep]) -> Vec<String> {
    steps
        .iter()
        .map(|s| match s {
            RewriteStep::Replay { commit, message } => format!("replay {commit} {message}"),
            RewriteStep::Combine { commit, message } => format!("combine {commit} {message}"),
        })
        .collect()
}

#[test]
fn rewrite_plans_follow_the_action() {
    let messages: Vec<String> = vec!["m0".into(), "m1".into(), "m2".into(), "m3".into()];
    let counts = vec![0usize, 1, 1, 1];
    let squash = select_rewrite_range(chain(), "c2".into(), 1, "squash", RewriteKind::Squash).unwrap();
    let steps = plan_rewrite(&squash, RewriteKind::Squash, None, &messages, &counts, "m0").unwrap();
    assert_eq!(steps_text(&steps), vec!["replay c1 m1", "combine c2 m1\n\nm2", "replay c3 m3"]);
    let fixup = plan_rewrite(&squash, RewriteKind::Fixup, None, &messages, &counts, "m0").unwrap();
    assert_eq!(steps_text(&fixup), vec!["replay c1 m1", "combine c2 m1", "replay c3 m3"]);
    let drop_sel = select_rewrite_range(chain(), "c1".into(), 1, "drop", RewriteKind::Drop).unwrap();
    let dropped = plan_rewrite(&drop_sel, RewriteKind::Drop, None, &messages, &counts, "m0").unwrap();
    assert_eq!(steps_text(&dropped), vec!["replay c2 m2", "replay c3 m3"]);
    let reword = select_rewrite_range(chain(), "c3".into(), 1, "reword", RewriteKind::EditMessage).unwrap();
    let reworded = plan_rewrite(&reword, RewriteKind::EditMessage, Some("new"), &messages, &counts, "m2").unwrap();
    assert_eq!(steps_text(&reworded), vec!["replay c3 new"]);
    let merges = vec![0usize, 2, 1, 1];
    assert!(matches!(plan_rewrite(&squash, RewriteKind::Squash, None, &messages, &merges, "m0"), Err(RewriteFailure::MergeInRange)));
    let only: Vec<String> = vec!["c0".into()];
    let root = RewriteSelection { selected_oid: "c0".into(), base_spec: None, chain: only, selected_index: 0 };
    assert!(matches!(plan_rewrite(&root, RewriteKind::Drop, None, &vec!["m0".into()], &vec![0], ""), Err(RewriteFailure::EmptyResult)));
    assert!(check_drop_allowed(&root).is_err());
    match rewrite_failure_error(RewriteFailure::EmptyResult) {
        GitError::OperationFailed { operation, .. } => assert_eq!(operation, "rewrite"),
        _ => panic!("wrong error"),
    }
}

#[test]
fn edit_todo_marks_the_selected_commit() {
    let sel = select_rewrite_range(chain(), "c2".into(), 1, "reword", RewriteKind::EditMessage).unwrap();
    let todo = edit_todo_entries(&sel);
    let actions: Vec<(String, String)> = todo.iter().map(|t| (t.action.clone(), t.commit.clone())).collect();
    assert_eq!(actions, vec![("edit".to_string(), "c2".to_string()), ("pick".to_string(), "c3".to_string())]);
}

#[test]
fn changed_files_are_sorted_by_path_old_path_and_status() {
    let files = vec![
        changed_file(DeltaKind::Other, Some("b.txt".into()), Some("b.txt".into())),
        changed_file(DeltaKind::Renamed, Some("old-name.txt".into()), Some("new-name.txt".into())),
        changed_file(DeltaKind::Deleted, Some("deleted.txt".into()), None),
        changed_file(DeltaKind::Added, None, Some("a.txt".into())),
    ];
    let sorted = sort_changed_files(files);
    let paths: Vec<&str> = sorted.iter().map(|f| f.path.as_str()).collect();
    assert_eq!(paths, vec!["a.txt", "b.txt", "deleted.txt", "new-name.txt"]);
    assert_eq!(sorted[2].status, CommitChangeStatus::Deleted);
    assert_eq!(sorted[2].old_path, None);
    assert_eq!(sorted[3].old_path.as_deref(), Some("old-name.txt"));
    assert_eq!(sorted[0].status, CommitChangeStatus::Added);
}

#[test]
fn rewrite_preconditions_are_checked_in_order() {
    match check_clean_worktree("fixup", &Some("rebase".into()), true) {
        Err(GitError::OperationFailed { operation, details }) => {
            assert_eq!(operation, "fixup");
            assert_eq!(details, "当前仓库正处于 rebase，请先完成或中止当前流程");
        }
        other => panic!("{other:?}"),
    }
    assert!(matches!(check_clean_worktree("fixup", &None, true), Err(GitError::OperationFailed { details, .. }) if details == "当前仓库还有未提交改动，请先提交、暂存或清理工作区"));
    assert!(check_clean_worktree("fixup", &None, false).is_ok());
    assert!(matches!(check_rewrite_target("drop", false, true), Err(GitError::OperationFailed { details, .. }) if details == "当前为 detached HEAD，不能直接改写当前分支历史"));
    assert!(matches!(check_rewrite_target("drop", true, false), Err(GitError::OperationFailed { details, .. }) if details == "只能改写当前分支主线上的历史提交"));
    assert!(check_rewrite_target("drop", true, true).is_ok());
    assert!(matches!(check_not_published("squash", &Some("origin/main".into()), true), Err(GitError::OperationFailed { details, .. }) if details == "提交已经包含在当前上游 origin/main 中，暂不支持直接改写已发布历史"));
    assert!(check_not_published("squash", &Some("origin/main".into()), false).is_ok());
    assert!(check_not_published("squash", &None, true).is_ok());
    assert!(matches!(check_new_message("  \n"), Err(GitError::InvalidInput { message }) if message == "提交说明不能为空"));
    assert!(check_new_message("Fix").is_ok());
    assert!(matches!(check_reset_target(false, true), Err(GitError::OperationFailed { details, .. }) if details == "当前为 detached HEAD，无法重置当前分支"));
    assert!(matches!(check_reset_target(true, false), Err(GitError::OperationFailed { details, .. }) if details == "只能把当前分支重置到它自己的历史祖先提交"));
    assert!(matches!(check_commit_action_in_progress(false), Err(GitError::InvalidInput { message }) if message == "没有对应的进行中操作"));
}

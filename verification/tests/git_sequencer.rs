use slio_git::git::error::GitError;
use slio_git::git::journal::{Entry, Head, IndexImage};
use slio_git::git::sequencer::{
    check_active_kind, check_edit_allowed, check_no_active_operation, merge_action_name, merge_result, parse_todo, pick_result,
    plan_merge, MergeAction, MergePlan,
    abort_step, advance_decision, check_amend, check_can_start, check_finish_merge, check_identity, check_journal_position,
    check_not_dropping_everything, check_publish_head, check_quit_merge, check_skip, check_start_worktree, check_transition_paths,
    conflicted_paths, contains_conflict_marker, continue_step, normalize_action, parse_phase, phase_name, plan_error,
    plan_replay_commit, replay_outcome, skips_emptied_pick, touches_dirty, unrelated_entries_match, AbortStep, Advance,
    AuthorChoice, CommitFacts, ContinueStep, Kind, Phase, PlanProblem, PlanStep, ReplayFacts, ReplayOutcome, validate_plan,
};

fn step(action: &str, id: &str, parents: usize) -> PlanStep {
    PlanStep { action: action.to_string(), commit: Some(CommitFacts { id: id.to_string(), parent_count: parents }) }
}

fn recovery(r: Result<impl std::fmt::Debug, GitError>) -> String {
    match r {
        Err(GitError::RecoveryRequired { reason }) => reason,
        other => panic!("expected a recovery error, got {other:?}"),
    }
}

#[test]
fn phase_names_round_trip() {
    for p in [
        Phase::Starting,
        Phase::Transition,
        Phase::Ready,
        Phase::Conflict,
        Phase::Edit,
        Phase::Empty,
        Phase::MergeReady,
        Phase::Publishing,
        Phase::Completed,
        Phase::Aborted,
    ] {
        assert_eq!(parse_phase(phase_name(p)), Some(p));
    }
    assert_eq!(parse_phase("paused"), None);
}

#[test]
fn actions_are_trimmed_and_lower_cased() {
    assert_eq!(normalize_action("  Fixup \n"), "fixup");
}

#[test]
fn plans_are_checked_step_by_step() {
    assert_eq!(validate_plan(&vec![step("pick", "a", 1), step("squash", "b", 1)], Kind::Rebase), Ok(()));
    assert_eq!(validate_plan(&vec![step("pick", "a", 1), step("explode", "b", 1)], Kind::Rebase), Err(PlanProblem::UnsupportedAction));
    assert_eq!(validate_plan(&vec![step("pick", "a", 2)], Kind::Rebase), Err(PlanProblem::MergeCommit));
    assert_eq!(validate_plan(&vec![step("merge", "a", 2)], Kind::Merge), Ok(()));
    assert_eq!(validate_plan(&vec![step("pick", "a", 1), step("drop", "a", 1)], Kind::Rebase), Err(PlanProblem::DuplicateCommit));
    assert_eq!(validate_plan(&vec![step("drop", "a", 1), step("fixup", "b", 1)], Kind::Rebase), Err(PlanProblem::CombinesFirst));
    assert_eq!(validate_plan(&vec![step("pick", "a", 1), step("pick", "b", 1)], Kind::CherryPick), Err(PlanProblem::WrongLength));
    let missing = PlanStep { action: "pick".into(), commit: None };
    assert_eq!(validate_plan(&vec![step("pick", "a", 1), missing], Kind::Rebase), Err(PlanProblem::MissingCommit { index: 1 }));
    match plan_error(PlanProblem::CombinesFirst) {
        GitError::InvalidInput { message } => assert_eq!(message, "the first retained commit cannot be fixup or squash"),
        other => panic!("{other:?}"),
    }
}

#[test]
fn starting_checks_follow_their_order() {
    assert_eq!(recovery(check_can_start(true, false, true)), "finish or abort the active slio operation first");
    assert_eq!(recovery(check_can_start(false, false, true)), "finish the existing Git operation in the tool that started it");
    assert!(matches!(check_can_start(false, true, true), Err(GitError::InvalidInput { .. })));
    assert!(check_can_start(false, true, false).is_ok());
    let drops = vec!["drop".to_string(), "drop".to_string()];
    assert!(matches!(check_not_dropping_everything(Kind::Rebase, true, &drops), Err(GitError::InvalidInput { message }) if message == "cannot drop every root commit"));
    assert!(check_not_dropping_everything(Kind::Rebase, false, &drops).is_ok());
    assert!(check_not_dropping_everything(Kind::Rebase, true, &vec!["drop".to_string(), "pick".to_string()]).is_ok());
    assert!(matches!(check_start_worktree(Kind::Rebase, true, false), Err(GitError::DirtyWorkingTree)));
    assert!(check_start_worktree(Kind::CherryPick, true, false).is_ok());
    assert!(matches!(check_start_worktree(Kind::CherryPick, true, true), Err(GitError::DirtyWorkingTree)));
    assert!(touches_dirty(&vec!["a".into(), "b".into()], &vec!["b".into()]));
    assert!(!touches_dirty(&vec!["a".into()], &vec!["b".into()]));
}

#[test]
fn the_engine_steps_by_phase() {
    let actions = vec!["pick".to_string(), "drop".to_string()];
    assert_eq!(advance_decision("ready", 0, &actions).unwrap(), Advance::Replay);
    assert_eq!(advance_decision("ready", 1, &actions).unwrap(), Advance::SkipDropped);
    assert_eq!(advance_decision("ready", 2, &actions).unwrap(), Advance::StartPublishing);
    assert_eq!(advance_decision("transition", 0, &actions).unwrap(), Advance::FinishTransition);
    assert_eq!(advance_decision("starting", 0, &actions).unwrap(), Advance::CheckOutBase);
    assert_eq!(advance_decision("merge-ready", 0, &actions).unwrap(), Advance::Pause);
    assert_eq!(advance_decision("publishing", 2, &actions).unwrap(), Advance::Publish);
    assert_eq!(advance_decision("aborted", 2, &actions).unwrap(), Advance::CleanUp);
    assert_eq!(recovery(advance_decision("weird", 0, &actions)), "unknown operation phase: weird");
    assert_eq!(replay_outcome(Kind::Rebase, "pick", true), ReplayOutcome::Conflict);
    assert_eq!(replay_outcome(Kind::Merge, "squash-merge", false), ReplayOutcome::AwaitMergeMessage);
    assert_eq!(replay_outcome(Kind::Merge, "merge", false), ReplayOutcome::Commit);
    assert!(skips_emptied_pick(Kind::Rebase, "pick", false, true));
    assert!(!skips_emptied_pick(Kind::Rebase, "pick", true, true));
    assert!(!skips_emptied_pick(Kind::CherryPick, "pick", false, true));
}

fn facts(kind: Kind, action: &str) -> ReplayFacts {
    ReplayFacts {
        kind,
        action: action.to_string(),
        recorded_message: None,
        tip: Some("tip".into()),
        tip_parents: vec!["p1".into()],
        tip_message: "Parent subject\n\n".into(),
        source: "src".into(),
        source_message: "Source subject\n".into(),
        source_summary: "Source subject".into(),
    }
}

#[test]
fn replayed_commits_get_parents_authors_and_messages() {
    let pick = plan_replay_commit(&facts(Kind::Rebase, "pick")).unwrap();
    assert_eq!(pick.parents, vec!["tip".to_string()]);
    assert_eq!(pick.author, AuthorChoice::Source);
    assert_eq!(pick.message, "Source subject\n");
    assert_eq!(pick.next_phase, Phase::Ready);
    let squash = plan_replay_commit(&facts(Kind::Rebase, "squash")).unwrap();
    assert_eq!(squash.parents, vec!["p1".to_string()]);
    assert_eq!(squash.author, AuthorChoice::Predecessor);
    assert_eq!(squash.message, "Parent subject\n\nSource subject\n");
    let fixup = plan_replay_commit(&facts(Kind::Rebase, "fixup")).unwrap();
    assert_eq!(fixup.message, "Parent subject\n\n");
    let reword = plan_replay_commit(&facts(Kind::Rebase, "reword")).unwrap();
    assert_eq!(reword.next_phase, Phase::Edit);
    let revert = plan_replay_commit(&facts(Kind::Revert, "pick")).unwrap();
    assert_eq!(revert.message, "Revert \"Source subject\"\n\nThis reverts commit src.\n");
    assert_eq!(revert.author, AuthorChoice::Committer);
    let merge = plan_replay_commit(&facts(Kind::Merge, "merge")).unwrap();
    assert_eq!(merge.parents, vec!["tip".to_string(), "src".to_string()]);
    assert_eq!(merge.message, "Merge commit 'src'\n");
    let squash_merge = plan_replay_commit(&facts(Kind::Merge, "squash-merge")).unwrap();
    assert_eq!(squash_merge.parents, vec!["tip".to_string()]);
    assert_eq!(squash_merge.message, "Squash commit 'src'\n");
    let ff = plan_replay_commit(&facts(Kind::Merge, "fast-forward")).unwrap();
    assert!(ff.reuse_source);
    let mut recorded = facts(Kind::Merge, "merge");
    recorded.recorded_message = Some("Chosen message".into());
    assert_eq!(plan_replay_commit(&recorded).unwrap().message, "Chosen message");
    let mut root = facts(Kind::Rebase, "fixup");
    root.tip = None;
    assert_eq!(recovery(plan_replay_commit(&root)), "missing squash predecessor");
}

fn head(reference: Option<&str>, oid: &str) -> Head {
    Head { reference: reference.map(str::to_string), oid: oid.to_string() }
}

#[test]
fn recovery_controls_guard_the_operation() {
    assert!(check_journal_position(1, 2, 2).is_ok());
    assert_eq!(recovery(check_journal_position(2, 0, 2)), "unsupported native operation journal version or position");
    assert_eq!(recovery(check_journal_position(1, 3, 2)), "unsupported native operation journal version or position");
    assert!(check_identity(true, &Some("o".into()), "o", "ready", &None).is_ok());
    assert!(check_identity(true, &Some("t".into()), "o", "publishing", &Some("t".into())).is_ok());
    assert_eq!(recovery(check_identity(true, &Some("t".into()), "o", "ready", &Some("t".into()))), "the original branch changed outside the active operation");
    assert!(check_identity(false, &None, "o", "ready", &None).is_ok());
    let expected = head(None, "e");
    let published = head(Some("refs/heads/main"), "t");
    assert!(check_publish_head(&head(None, "e"), &expected, &published).is_ok());
    assert!(check_publish_head(&head(Some("refs/heads/main"), "t"), &expected, &published).is_ok());
    assert_eq!(recovery(check_publish_head(&head(None, "x"), &expected, &published)), "HEAD changed before publication");
    assert!(check_skip(Kind::Rebase, "empty").is_ok());
    assert_eq!(recovery(check_skip(Kind::CherryPick, "conflict")), "only a conflicting rebase step can be skipped");
    assert!(check_amend("edit", &Some("c".into()), "c").is_ok());
    assert_eq!(recovery(check_amend("edit", &Some("c".into()), "d")), "only the paused native edit commit can be amended");
    assert!(check_quit_merge(Kind::Merge, "merge-ready").is_ok());
    assert_eq!(recovery(check_quit_merge(Kind::Merge, "ready")), "this operation cannot quit merge");
    assert_eq!(recovery(check_finish_merge(Kind::Rebase)), "finish the active history operation with its recovery controls");
    assert_eq!(abort_step("transition").unwrap(), AbortStep::FinishTransition);
    assert_eq!(abort_step("aborted").unwrap(), AbortStep::CleanUp);
    assert_eq!(abort_step("conflict").unwrap(), AbortStep::Restore { check_ready: false });
    assert_eq!(abort_step("ready").unwrap(), AbortStep::Restore { check_ready: true });
    assert_eq!(recovery(abort_step("completed")), "history was published; finish recovery before using reset to undo it");
    assert_eq!(continue_step("empty"), ContinueStep::CommitResolution);
    assert_eq!(continue_step("edit"), ContinueStep::ResumeAfterEdit);
    assert_eq!(continue_step("ready"), ContinueStep::Advance);
}

#[test]
fn transitions_may_not_touch_dirty_paths() {
    let dirty = vec!["docs".to_string(), "notes.txt".to_string()];
    assert!(matches!(check_transition_paths(&dirty, &vec!["docs/a.md".into()]), Err(GitError::DirtyWorkingTree)));
    assert!(matches!(check_transition_paths(&dirty, &vec!["notes.txt".into()]), Err(GitError::DirtyWorkingTree)));
    assert!(matches!(check_transition_paths(&vec!["src/x.rs".to_string()], &vec!["src".into()]), Err(GitError::DirtyWorkingTree)));
    assert!(check_transition_paths(&dirty, &vec!["docsx/a.md".into(), "src".into()]).is_ok());
}

fn entry(path: &str, stage: u16, oid: &str) -> Entry {
    Entry { path: path.as_bytes().to_vec(), oid: oid.into(), mode: 0o100644, stage, flags_extended: 0, assume_valid: false }
}

#[test]
fn conflicts_and_unrelated_entries_are_told_apart() {
    let expected = IndexImage(vec![entry("a", 0, "1"), entry("c", 1, "2"), entry("c", 2, "3"), entry("b", 3, "4")]);
    let conflicts = conflicted_paths(&expected);
    assert_eq!(conflicts, vec![b"b".to_vec(), b"c".to_vec()]);
    let resolved = IndexImage(vec![entry("a", 0, "1"), entry("c", 0, "9")]);
    assert!(unrelated_entries_match(&resolved, &expected, &conflicts));
    let meddled = IndexImage(vec![entry("a", 0, "7"), entry("c", 0, "9")]);
    assert!(!unrelated_entries_match(&meddled, &expected, &conflicts));
    assert!(contains_conflict_marker(b"ok\n<<<<<<< ours\n"));
    assert!(contains_conflict_marker(b"<<<<<<< HEAD"));
    assert!(!contains_conflict_marker(b"x <<<<<<< not at start\n<<<<<<<\n"));
}

#[test]
fn todo_lists_split_into_action_commit_and_message() {
    let entries = parse_todo("pick abc first commit message\r\nfixup def\nexec\n");
    let seen: Vec<(String, String, String)> = entries.into_iter().map(|e| (e.action, e.commit, e.message)).collect();
    assert_eq!(
        seen,
        vec![
            ("pick".into(), "abc".into(), "first commit message".into()),
            ("fixup".into(), "def".into(), "".into()),
            ("exec".into(), "".into(), "".into()),
        ]
    );
    assert!(parse_todo("").is_empty());
}

#[test]
fn merges_choose_their_action() {
    assert_eq!(plan_merge(false, true, false, false, false, false).unwrap(), MergePlan::UpToDate);
    assert_eq!(plan_merge(false, false, true, false, false, true).unwrap(), MergePlan::UpToDate);
    assert_eq!(plan_merge(false, false, false, true, false, false).unwrap(), MergePlan::Run(MergeAction::FastForward));
    assert_eq!(plan_merge(false, false, false, true, true, false).unwrap(), MergePlan::Run(MergeAction::Merge));
    assert_eq!(plan_merge(false, false, false, true, false, true).unwrap(), MergePlan::Run(MergeAction::SquashMerge));
    assert_eq!(
        recovery(plan_merge(true, true, false, false, false, false)),
        "finish or abort the active slio operation before starting another operation"
    );
    assert_eq!(
        recovery(plan_merge(true, false, false, true, false, false)),
        "finish or abort the active slio operation before starting another operation"
    );
    assert_eq!(merge_action_name(MergeAction::FastForward), "fast-forward");
    assert!(matches!(merge_result(false, false), Err(GitError::MergeConflict)));
    assert!(merge_result(false, true).is_ok());
    assert!(matches!(pick_result(Kind::Revert, false), Err(GitError::OperationFailed { operation, .. }) if operation == "revert"));
    assert!(pick_result(Kind::CherryPick, true).is_ok());
}

#[test]
fn recovery_gates_depend_on_the_active_operation() {
    assert_eq!(recovery(check_no_active_operation(true, false)), "finish or abort the active slio operation before starting another operation");
    assert!(check_no_active_operation(false, false).is_ok());
    assert_eq!(recovery(check_active_kind(None, Kind::Merge)), "no native operation");
    assert_eq!(recovery(check_active_kind(Some(Kind::Rebase), Kind::Merge)), "use the recovery controls for the active operation");
    assert!(check_active_kind(Some(Kind::Merge), Kind::Merge).is_ok());
    assert!(check_edit_allowed(Some("edit"), true).is_ok());
    assert!(check_edit_allowed(Some("ready"), false).is_err());
    assert!(check_edit_allowed(None, false).is_ok());
    assert!(check_edit_allowed(None, true).is_err());
}

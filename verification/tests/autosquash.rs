use slio_git::ui::autosquash::{apply_autosquash, truncate_subject, RebaseTodoItem};

fn pick(msg: &str) -> RebaseTodoItem {
    RebaseTodoItem {
        action: "pick".to_string(),
        commit: "abc0001".to_string(),
        message: msg.to_string(),
    }
}

#[test]
fn fixup_exact_match() {
    let todos = vec![pick("Subject1"), pick("fixup! Subject1"), pick("Subject2")];
    let result = apply_autosquash(todos);
    assert_eq!(result.len(), 3);
    assert_eq!(result[0].message, "Subject1");
    assert_eq!(result[1].message, "fixup! Subject1");
    assert_eq!(result[1].action, "fixup");
    assert_eq!(result[2].message, "Subject2");
}

#[test]
fn squash_exact_match() {
    let todos = vec![pick("Subject1"), pick("squash! Subject1")];
    let result = apply_autosquash(todos);
    assert_eq!(result[1].action, "squash");
    assert_eq!(result[1].message, "squash! Subject1");
}

#[test]
fn multiple_fixups_same_pick() {
    let todos = vec![pick("Base"), pick("fixup! Base"), pick("fixup! Base"), pick("Other")];
    let result = apply_autosquash(todos);
    assert_eq!(result[0].message, "Base");
    assert_eq!(result[1].action, "fixup");
    assert_eq!(result[2].action, "fixup");
    assert_eq!(result[3].message, "Other");
}

#[test]
fn fixup_squash_mixed() {
    let todos = vec![pick("Alpha"), pick("Beta"), pick("fixup! Alpha"), pick("squash! Beta")];
    let result = apply_autosquash(todos);
    assert_eq!(result[0].message, "Alpha");
    assert_eq!(result[1].action, "fixup");
    assert_eq!(result[2].message, "Beta");
    assert_eq!(result[3].action, "squash");
}

#[test]
fn fixup_no_match_stays_in_place() {
    let todos = vec![pick("Subject1"), pick("fixup! NonExistent")];
    let result = apply_autosquash(todos);
    assert_eq!(result[1].action, "pick");
    assert_eq!(result[1].message, "fixup! NonExistent");
}

#[test]
fn empty_todos() {
    let result = apply_autosquash(vec![]);
    assert!(result.is_empty());
}

#[test]
fn all_picks_no_fixup() {
    let todos = vec![pick("A"), pick("B"), pick("C")];
    let result = apply_autosquash(todos);
    assert_eq!(result.len(), 3);
    assert!(result.iter().all(|r| r.action == "pick"));
}

fn same_list(a: &[RebaseTodoItem], b: &[RebaseTodoItem]) -> bool {
    a.len() == b.len() && a.iter().zip(b.iter()).all(|(x, y)| x.action == y.action && x.message == y.message)
}

fn copy_list(v: &[RebaseTodoItem]) -> Vec<RebaseTodoItem> {
    v.iter()
        .map(|t| RebaseTodoItem { action: t.action.clone(), commit: t.commit.clone(), message: t.message.clone() })
        .collect()
}

#[test]
fn reapply_after_reorder() {
    let todos = vec![pick("B"), pick("A"), pick("fixup! A")];
    let first = apply_autosquash(todos);
    let second = apply_autosquash(copy_list(&first));
    assert_eq!(first.len(), second.len());
    for (a, b) in first.iter().zip(second.iter()) {
        assert_eq!(a.action, b.action);
        assert_eq!(a.message, b.message);
    }
}

#[test]
fn idempotency() {
    let todos = vec![
        pick("Subject1"),
        pick("fixup! Subject1"),
        pick("Subject2"),
        pick("squash! Subject2"),
        pick("fixup! Ghost"),
    ];
    let once = apply_autosquash(todos);
    let twice = apply_autosquash(copy_list(&once));
    assert_eq!(once.len(), twice.len());
    for (a, b) in once.iter().zip(twice.iter()) {
        assert_eq!(a.action, b.action, "action mismatch: {}", a.message);
        assert_eq!(a.message, b.message);
    }
}

#[test]
fn trimmed_subjects_match_targets() {
    let todos = vec![pick("  Base  "), pick("fixup!  Base"), pick("Other")];
    let result = apply_autosquash(todos);
    assert_eq!(result[1].message, "fixup!  Base");
    assert_eq!(result[1].action, "fixup");
    assert_eq!(result[2].message, "Other");
}

fn messages(v: &[RebaseTodoItem]) -> Vec<&str> {
    v.iter().map(|t| t.message.as_str()).collect()
}

#[test]
fn unmatched_candidates_stay_in_place() {
    let todos = vec![pick("fixup! X"), pick("A"), pick("squash! Y"), pick("B")];
    let result = apply_autosquash(todos);
    assert_eq!(messages(&result), vec!["fixup! X", "A", "squash! Y", "B"]);
    assert!(result.iter().all(|r| r.action == "pick"));
}

#[test]
fn unmatched_fixup_before_its_missing_target_stays_first() {
    let result = apply_autosquash(vec![pick("fixup! Ghost"), pick("A")]);
    assert_eq!(result.len(), 2);
    assert_eq!(result[0].message, "fixup! Ghost");
    assert_eq!(result[0].action, "pick");
    assert_eq!(result[1].message, "A");
    assert_eq!(result[1].action, "pick");
}

#[test]
fn candidates_of_one_target_keep_their_order() {
    let mut c1 = pick("fixup! A");
    c1.commit = "c1".to_string();
    let mut c2 = pick("squash! A");
    c2.commit = "c2".to_string();
    let once = apply_autosquash(vec![pick("A"), c1, c2]);
    assert_eq!(messages(&once), vec!["A", "fixup! A", "squash! A"]);
    assert_eq!(once[1].commit, "c1");
    assert_eq!(once[1].action, "fixup");
    assert_eq!(once[2].commit, "c2");
    assert_eq!(once[2].action, "squash");
    let twice = apply_autosquash(copy_list(&once));
    assert!(same_list(&once, &twice));
    assert_eq!(twice[1].commit, "c1");
    assert_eq!(twice[2].commit, "c2");
}

#[test]
fn candidate_before_its_target_moves_behind_it() {
    let result = apply_autosquash(vec![pick("fixup! A"), pick("B"), pick("A"), pick("squash! B")]);
    assert_eq!(messages(&result), vec!["B", "squash! B", "A", "fixup! A"]);
    assert_eq!(result[1].action, "squash");
    assert_eq!(result[3].action, "fixup");
}

#[test]
fn candidates_follow_the_first_of_equal_subjects() {
    let result = apply_autosquash(vec![pick("A"), pick("A"), pick("fixup! A")]);
    assert_eq!(messages(&result), vec!["A", "fixup! A", "A"]);
    assert_eq!(result[1].action, "fixup");
    assert_eq!(result[2].action, "pick");
}

#[test]
fn reapplying_a_mixed_list_changes_nothing() {
    let todos = vec![
        pick("fixup! Ghost"),
        pick("squash! B"),
        pick("A"),
        pick("fixup! A"),
        pick("B"),
        pick("squash! A"),
        pick("C"),
    ];
    let once = apply_autosquash(todos);
    assert_eq!(
        messages(&once),
        vec!["fixup! Ghost", "A", "fixup! A", "squash! A", "B", "squash! B", "C"]
    );
    let twice = apply_autosquash(copy_list(&once));
    assert!(same_list(&once, &twice));
}

#[test]
fn truncate_subject_keeps_short_subjects() {
    assert_eq!(truncate_subject("short", 10), "short");
    assert_eq!(truncate_subject("exactly10!", 10), "exactly10!");
}

#[test]
fn truncate_subject_appends_ellipsis() {
    assert_eq!(truncate_subject("abcdefghijk", 5), "abcd…");
    assert_eq!(truncate_subject("abc", 0), "…");
}

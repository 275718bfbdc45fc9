use slio_git::git::error::GitError;
use slio_git::git::journal::{Head, IndexImage};
use slio_git::git::operation::{
    check_change, check_transition_start, file_mode, install_order, FileChange, FileImage, FileMap, Journal, Step, Transition,
};
use slio_git::git::sequencer::Kind;

fn image(blob: &str, mode: u32) -> Option<FileImage> {
    Some(FileImage { blob: blob.to_string(), mode })
}

fn change(path: &str, before: Option<FileImage>, after: Option<FileImage>) -> FileChange {
    FileChange { path: path.to_string(), before, after }
}

#[test]
fn file_modes_follow_what_the_path_holds() {
    assert_eq!(file_mode(true, false, false, false).unwrap(), 0o120000);
    assert_eq!(file_mode(false, true, false, false).unwrap(), 0o040000);
    assert_eq!(file_mode(false, false, true, true).unwrap(), 0o100755);
    assert_eq!(file_mode(false, false, true, false).unwrap(), 0o100644);
    assert!(matches!(file_mode(false, false, false, false), Err(GitError::RecoveryRequired { .. })));
}

#[test]
fn changes_accept_their_before_or_after_state() {
    let c = change("a.txt", image("1", 0o100644), image("2", 0o100644));
    assert_eq!(check_change(&image("1", 0o100644), &c).unwrap(), false);
    assert_eq!(check_change(&image("2", 0o100644), &c).unwrap(), false);
    match check_change(&image("3", 0o100644), &c) {
        Err(GitError::RecoveryRequired { reason }) => assert_eq!(reason, "a.txt changed outside the active operation"),
        other => panic!("{other:?}"),
    }
    let dir = change("d", image("t", 0o040000), None);
    assert_eq!(check_change(&None, &dir).unwrap(), false);
    assert_eq!(check_change(&image("t", 0o040000), &dir).unwrap(), true);
}

#[test]
fn transitions_start_from_their_before_or_after_state() {
    let before = Head { reference: None, oid: "b".into() };
    let after = Head { reference: None, oid: "a".into() };
    assert!(check_transition_start(&before, &before, &after, true, false).is_ok());
    assert!(matches!(check_transition_start(&Head { reference: None, oid: "x".into() }, &before, &after, true, true),
        Err(GitError::RecoveryRequired { reason }) if reason == "HEAD changed outside the active operation"));
    assert!(matches!(check_transition_start(&after, &before, &after, false, false),
        Err(GitError::RecoveryRequired { reason }) if reason == "the index changed outside the active operation"));
}

#[test]
fn removals_come_first_deepest_first_then_directories_then_files() {
    let changes = vec![
        change("a/b.txt", None, image("1", 0o100644)),
        change("x", None, None),
        change("d/e", None, image("t", 0o040000)),
        change("x/y/z", None, None),
        change("d", None, image("t", 0o040000)),
        change("c.txt", None, image("2", 0o100644)),
    ];
    assert_eq!(install_order(&changes), vec![3, 1, 4, 2, 5, 0]);
}

#[test]
fn file_maps_read_back_what_was_recorded() {
    let mut m = FileMap::new();
    m.insert("b".into(), image("1", 0o100644));
    m.insert("a".into(), None);
    m.insert("b".into(), image("2", 0o100644));
    m.insert_if_absent("a".into(), image("3", 0o100644));
    m.insert_if_absent("c".into(), image("4", 0o100644));
    let pairs: Vec<(String, Option<String>)> = m.to_pairs().into_iter().map(|(k, v)| (k, v.map(|i| i.blob))).collect();
    assert_eq!(pairs, vec![("a".into(), None), ("b".into(), Some("2".into())), ("c".into(), Some("4".into()))]);
    assert!(matches!(m.get("b"), Some(Some(FileImage { blob, .. })) if blob == "2"));
    assert!(m.get("z").is_none());
}

fn journal() -> Journal {
    let head = Head { reference: Some("refs/heads/main".into()), oid: "o".into() };
    Journal {
        version: 1,
        id: "1-2".into(),
        kind: Kind::Rebase,
        original_head: Head { reference: Some("refs/heads/main".into()), oid: "o".into() },
        original_index: IndexImage(vec![]),
        original_files: FileMap::new(),
        expected_files: FileMap::new(),
        dirty_paths: vec!["notes".into()],
        base: None,
        tip: None,
        expected_head: head,
        steps: vec![Step { action: "pick".into(), commit: "c".into() }],
        cursor: 0,
        message: None,
        generated: vec![],
        phase: "ready".into(),
        transition: None,
        expected_index: IndexImage(vec![]),
        force_autocrlf: false,
        committer_name: "A".into(),
        committer_email: "a@b".into(),
        committer_time: 0,
        committer_offset: 0,
    }
}

fn transition(files: Vec<FileChange>) -> Transition {
    Transition {
        before_head: Head { reference: None, oid: "o".into() },
        after_head: Head { reference: None, oid: "n".into() },
        before_index: IndexImage(vec![]),
        after_index: IndexImage(vec![]),
        files,
        next_phase: "edit".into(),
        next_cursor: 1,
        next_tip: Some("n".into()),
    }
}

#[test]
fn journals_record_and_complete_transitions() {
    let mut j = journal();
    assert!(matches!(j.complete_transition(), Err(GitError::RecoveryRequired { reason }) if reason == "operation is missing its transition"));
    assert!(matches!(j.record_transition(transition(vec![change("notes/x", None, None)])), Err(GitError::DirtyWorkingTree)));
    j.record_transition(transition(vec![change("f", image("1", 0o100644), image("2", 0o100644))])).unwrap();
    assert_eq!(j.phase, "transition");
    j.complete_transition().unwrap();
    assert_eq!(j.phase, "edit");
    assert_eq!(j.cursor, 1);
    assert_eq!(j.tip.as_deref(), Some("n"));
    assert_eq!(j.expected_head.oid, "n");
    assert!(matches!(j.expected_files.get("f"), Some(Some(FileImage { blob, .. })) if blob == "2"));
    j.record_transition(transition(vec![change("f", image("2", 0o100644), image("3", 0o100644))])).unwrap();
    j.complete_transition().unwrap();
    assert!(matches!(j.original_files.get("f"), Some(Some(FileImage { blob, .. })) if blob == "1"));
    assert!(matches!(j.expected_files.get("f"), Some(Some(FileImage { blob, .. })) if blob == "3"));
}

use slio_git::git::journal::{checked_relative, Entry, Head, IndexImage};

fn entry(path: &str, oid: &str) -> Entry {
    Entry { path: path.as_bytes().to_vec(), oid: oid.to_string(), mode: 0o100644, stage: 0, flags_extended: 0, assume_valid: false }
}

#[test]
fn checked_relative_accepts_plain_relative_paths() {
    assert_eq!(checked_relative(b"src/main.rs"), Ok("src/main.rs".to_string()));
    assert_eq!(checked_relative(b"a/.gitignore"), Ok("a/.gitignore".to_string()));
}

#[test]
fn checked_relative_rejects_special_components_and_git_dirs() {
    let invalid = Err("invalid path in native operation".to_string());
    assert_eq!(checked_relative(b""), invalid);
    assert_eq!(checked_relative(b"/etc/passwd"), invalid);
    assert_eq!(checked_relative(b"../escape"), invalid);
    assert_eq!(checked_relative(b"a/../b"), invalid);
    assert_eq!(checked_relative(b"./a"), invalid);
    assert_eq!(checked_relative(b".git/config"), invalid);
    assert_eq!(checked_relative(b"sub/.GIT/HEAD"), invalid);
}

#[test]
fn checked_relative_rejects_non_utf8() {
    assert_eq!(checked_relative(&[0x66, 0xff, 0x6f]), Err("native history requires UTF-8 file names".to_string()));
}

#[test]
fn paths_changed_from_lists_differing_paths_in_byte_order() {
    let before = IndexImage(vec![entry("b.txt", "1"), entry("a.txt", "1"), entry("same.txt", "5")]);
    let after = IndexImage(vec![entry("same.txt", "5"), entry("c.txt", "2"), entry("a.txt", "3")]);
    assert_eq!(
        after.paths_changed_from(&before),
        Ok(vec!["a.txt".to_string(), "b.txt".to_string(), "c.txt".to_string()])
    );
    assert_eq!(after.paths_changed_from(&after), Ok(vec![]));
}

#[test]
fn paths_changed_from_reports_unusable_path() {
    let before = IndexImage(vec![]);
    let after = IndexImage(vec![entry("ok.txt", "1"), entry(".git/x", "1")]);
    assert_eq!(after.paths_changed_from(&before), Err("invalid path in native operation".to_string()));
}

#[test]
fn paths_changed_from_is_the_same_in_either_order() {
    let a = IndexImage(vec![entry("b.txt", "1"), entry("a.txt", "1"), entry("same.txt", "5")]);
    let b = IndexImage(vec![entry("same.txt", "5"), entry("c.txt", "2"), entry("a.txt", "3")]);
    assert_eq!(a.paths_changed_from(&b), b.paths_changed_from(&a));
    let bad = IndexImage(vec![entry("ok.txt", "1"), entry(".git/x", "1")]);
    assert_eq!(bad.paths_changed_from(&a), a.paths_changed_from(&bad));
    assert!(bad.paths_changed_from(&a).is_err());
}

#[test]
fn usable_paths_never_give_an_error() {
    let a = IndexImage(vec![entry("dir/x.txt", "1"), entry("y", "2")]);
    let b = IndexImage(vec![entry("z/w", "3")]);
    assert!(a.paths_changed_from(&b).is_ok());
    assert!(b.paths_changed_from(&a).is_ok());
}

#[test]
fn detached_head_has_no_reference() {
    let h = Head::detached("abc".to_string());
    assert_eq!(h.reference, None);
    assert_eq!(h.oid, "abc");
}

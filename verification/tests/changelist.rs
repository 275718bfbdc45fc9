use slio_git::ui::changelist::{split_path, ChangeSectionKind};

#[test]
fn change_section_kind_exposes_compact_context_label() {
    assert_eq!(ChangeSectionKind::Staged.context_label(), "Staged");
    assert_eq!(ChangeSectionKind::Unstaged.context_label(), "Changes");
    assert_eq!(ChangeSectionKind::Untracked.context_label(), "New Files");
}

#[test]
fn split_path_returns_file_name_and_parent_directory() {
    assert_eq!(split_path("src/ui/main.rs"), ("main.rs".to_string(), "src/ui".to_string()));
    assert_eq!(split_path("Cargo.toml"), ("Cargo.toml".to_string(), String::new()));
}

#[test]
fn split_path_of_a_root_keeps_the_whole_text() {
    assert_eq!(split_path("/"), ("/".to_string(), String::new()));
    assert_eq!(split_path("a/b/"), ("b".to_string(), "a".to_string()));
}

#[test]
fn files_group_by_directory_in_name_order() {
    let paths: Vec<String> = ["src/a.rs", "b.txt", "src/c.rs", "docs/x.md", "src/ui/d.rs"].iter().map(|s| s.to_string()).collect();
    let groups = slio_git::ui::changelist::group_by_directory(&paths);
    let seen: Vec<(String, Vec<usize>)> = groups.into_iter().map(|g| (g.dir, g.indices)).collect();
    assert_eq!(
        seen,
        vec![
            ("".to_string(), vec![1]),
            ("docs".to_string(), vec![3]),
            ("src".to_string(), vec![0, 2]),
            ("src/ui".to_string(), vec![4]),
        ]
    );
}

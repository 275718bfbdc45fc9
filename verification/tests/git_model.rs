use slio_git::git::auth::{resolve_native_identity, AuthContext, AuthRegistry};
use slio_git::git::branch::Branch;
use slio_git::git::capability::{github_updater, implicit_home_ssh, is_app_store_build, requires_bookmarks, system_git};
use slio_git::git::error::GitError;
use slio_git::git::history::{date_range_step, RangeStep};
use slio_git::git::gitignore::{gitignore_addition, gitignore_block, gitignore_list_templates, gitignore_template_content};

#[test]
fn default_build_keeps_desktop_capabilities() {
    assert!(!is_app_store_build());
    assert_eq!(system_git(), !is_app_store_build());
    assert_eq!(github_updater(), !is_app_store_build());
    assert_eq!(implicit_home_ssh(), !is_app_store_build());
    assert!(!requires_bookmarks());
}

#[test]
fn templates_are_listed() {
    let names = gitignore_list_templates();
    assert!(names.contains(&"Rust"));
    assert!(names.contains(&"Python"));
    assert!(names.contains(&"macOS"));
    assert!(names.len() >= 10);
}

#[test]
fn template_content_lookup() {
    let rust = gitignore_template_content("Rust").expect("rust template");
    assert!(rust.contains("target/"));
    assert!(gitignore_template_content("nonexistent").is_none());
}

#[test]
fn gitignore_block_separates_existing_content() {
    assert_eq!(gitignore_block("", "X", "a\n"), "# === X ===\na\n");
    assert_eq!(gitignore_block("/secret\n", "X", "a"), "\n# === X ===\na\n");
    assert_eq!(gitignore_block("/secret", "X", "a\n"), "\n\n# === X ===\na\n");
}

#[test]
fn unknown_template_errors() {
    match gitignore_addition("", "Nope") {
        Err(e) => assert!(e.message().contains("Nope")),
        Ok(_) => panic!("unknown template accepted"),
    }
    let block = gitignore_addition("", "macOS").unwrap();
    assert!(block.starts_with("# === macOS ===\n"));
    assert!(block.contains(".DS_Store"));
}

fn ctx(name: Option<&str>, email: Option<&str>) -> AuthContext {
    AuthContext {
        imported_ssh_key: None,
        imported_ssh_pub: None,
        user_name: name.map(|s| s.to_string()),
        user_email: email.map(|s| s.to_string()),
    }
}

#[test]
fn identity_requires_both_fields() {
    let mut registry: AuthRegistry<()> = AuthRegistry::new();
    registry.set_context(ctx(Some("Ada"), None));
    assert!(registry.configured_identity().is_none());
    registry.set_context(ctx(Some("Ada"), Some("ada@example.com")));
    assert_eq!(registry.configured_identity(), Some(("Ada".into(), "ada@example.com".into())));
    registry.set_context(ctx(Some("  "), Some("ada@example.com")));
    assert!(registry.configured_identity().is_none());
}

#[test]
fn native_identity_prefers_repository_values() {
    let settings = ctx(Some("Ada"), Some("ada@example.com"));
    let (name, email) = resolve_native_identity(Some("Repository Author".into()), Some("".into()), &settings).unwrap();
    assert_eq!(name, "Repository Author");
    assert_eq!(email, "ada@example.com");
    match resolve_native_identity(None, None, &ctx(None, None)) {
        Err(GitError::InvalidInput { message }) => {
            assert_eq!(message, "Set the commit name and email in repository config or application settings")
        }
        _ => panic!("missing identity accepted"),
    }
}

#[test]
fn context_reads_back_what_was_set() {
    let mut registry: AuthRegistry<u8> = AuthRegistry::new();
    registry.set_context_with_access(ctx(Some("A"), Some("a@b")), Some(7));
    let c = registry.context();
    assert_eq!(c.user_name.as_deref(), Some("A"));
    assert_eq!(c.user_email.as_deref(), Some("a@b"));
}

fn branch(name: &str, is_remote: bool) -> Branch {
    Branch {
        name: name.to_string(),
        oid: String::new(),
        is_remote,
        is_head: false,
        upstream: None,
        tracking_status: None,
        sync_hint: None,
        recency_hint: None,
        last_commit_timestamp: None,
        group_path: None,
    }
}

#[test]
fn group_path_splits_branch_folders() {
    let mut b = branch("feature/auth", false);
    b.compute_group_path();
    assert_eq!(b.group_path, Some(vec!["feature".to_string(), "auth".to_string()]));
    assert_eq!(b.leaf_name(), "auth");
    let mut deep = branch("feature/auth/login", false);
    deep.compute_group_path();
    assert_eq!(
        deep.group_path,
        Some(vec!["feature".to_string(), "auth".to_string(), "login".to_string()])
    );
    assert_eq!(deep.leaf_name(), "login");
    let mut r = branch("origin/feature/auth", true);
    r.compute_group_path();
    assert_eq!(r.group_path, Some(vec!["feature".to_string(), "auth".to_string()]));
    let mut plain = branch("main", false);
    plain.compute_group_path();
    assert_eq!(plain.group_path, None);
    assert_eq!(plain.leaf_name(), "main");
    let mut remote_main = branch("origin/main", true);
    remote_main.compute_group_path();
    assert_eq!(remote_main.group_path, None);
}

#[test]
fn error_messages_name_the_failure() {
    let e = GitError::OperationFailed { operation: "push".into(), details: "rejected".into() };
    assert_eq!(e.message(), "Git operation failed: push - rejected");
    assert_eq!(GitError::StashNotFound { index: 12 }.message(), "Stash not found at index: 12");
    assert!(GitError::CloneFailed { url: "u".into(), details: "d".into() }.is_retryable());
    assert!(!GitError::MergeConflict.is_retryable());
}

#[test]
fn history_filters_ignore_case_and_stop_before_the_range() {
    assert!(slio_git::git::history::message_matches("Fix Parser crash", "parser"));
    assert!(!slio_git::git::history::message_matches("Fix Parser crash", "lexer"));
    assert!(slio_git::git::history::author_matches("Ada Lovelace", "ada@example.com", "LOVE"));
    assert!(slio_git::git::history::author_matches("Ada", "ada@example.com", "EXAMPLE"));
    assert!(!slio_git::git::history::author_matches("Ada", "ada@example.com", "bob"));
    assert_eq!(date_range_step(5, 10, 20), RangeStep::Stop);
    assert_eq!(date_range_step(15, 10, 20), RangeStep::Take);
    assert_eq!(date_range_step(25, 10, 20), RangeStep::Skip);
}

use slio_git::git::clone::{check_clone_url, is_ssh_url, validate_clone_url};
use slio_git::git::error::GitError;

#[test]
fn validate_rejects_empty_url() {
    assert!(validate_clone_url("").is_err());
    assert!(validate_clone_url("   ").is_err());
}

#[test]
fn validate_accepts_https_url() {
    assert!(validate_clone_url("https://github.com/user/repo.git").is_ok());
}

#[test]
fn validate_accepts_http_url() {
    assert!(validate_clone_url("http://example.com/repo.git").is_ok());
}

#[test]
fn validate_accepts_ssh_url() {
    assert!(validate_clone_url("git@github.com:user/repo.git").is_ok());
}

#[test]
fn validate_accepts_ssh_url_with_user() {
    assert!(validate_clone_url("admin@gitlab.com:group/project.git").is_ok());
}

#[test]
fn validate_accepts_ssh_scheme_url() {
    assert!(validate_clone_url("ssh://git@github.com/user/repo.git").is_ok());
}

#[test]
fn validate_accepts_git_scheme_url() {
    assert!(validate_clone_url("git://github.com/user/repo.git").is_ok());
}

#[test]
fn validate_rejects_nonexistent_local_path() {
    assert!(validate_clone_url("/no/such/path/at/all").is_err());
}

#[test]
fn ssh_detects_standard_form() {
    assert!(is_ssh_url("git@github.com:user/repo.git"));
}

#[test]
fn ssh_detects_custom_user() {
    assert!(is_ssh_url("deploy@server:repo.git"));
}

#[test]
fn ssh_detects_ssh_scheme() {
    assert!(is_ssh_url("ssh://git@github.com/user/repo.git"));
}

#[test]
fn ssh_rejects_https() {
    assert!(!is_ssh_url("https://github.com/user/repo.git"));
}

#[test]
fn ssh_rejects_http() {
    assert!(!is_ssh_url("http://example.com/repo.git"));
}

#[test]
fn ssh_rejects_local_path_with_colon() {
    assert!(!is_ssh_url("/tmp/something:else"));
}

#[test]
fn validate_accepts_existing_local_path() {
    assert!(validate_clone_url("/").is_ok());
}

#[test]
fn check_clone_url_reports_each_error() {
    match check_clone_url("  ", false) {
        Err(GitError::InvalidInput { message }) => assert_eq!(message, "clone URL must not be empty"),
        _ => panic!("empty URL must be refused"),
    }
    match check_clone_url(" nowhere ", false) {
        Err(GitError::InvalidInput { message }) => assert_eq!(message, "'nowhere' is not a valid clone URL"),
        _ => panic!("unknown URL must be refused"),
    }
    assert!(check_clone_url(" nowhere ", true).is_ok());
}

//! Errors of repository operations.
use crate::text::{decimal, u64_to_decimal};
use vstd::prelude::*;

verus! {

/// Why a repository operation failed.
#[derive(Debug)]
pub enum GitError {
    RepositoryNotFound { path: String },
    InvalidRepository { reason: String },
    OperationFailed { operation: String, details: String },
    BranchNotFound { name: String },
    CommitNotFound { id: String },
    StashNotFound { index: u32 },
    TagNotFound { name: String },
    RemoteFailed { remote: String, details: String },
    MergeConflict,
    DirtyWorkingTree,
    InvalidInput { message: String },
    AuthenticationFailed { remote: String },
    CloneFailed { url: String, details: String },
    /// A native operation needs the user to finish or undo it first.
    RecoveryRequired { reason: String },
    /// An input/output failure, with the system's message.
    Io(String),
    /// A failure reported by the git library, with its message.
    Git2(String),
}

/// The message shown for an error.
pub open spec fn error_message(e: GitError) -> Seq<char> {
    match e {
        GitError::RepositoryNotFound { path } => "Repository not found at path: "@ + path@,
        GitError::InvalidRepository { reason } => "Invalid repository: "@ + reason@,
        GitError::OperationFailed { operation, details } => "Git operation failed: "@ + operation@ + " - "@ + details@,
        GitError::BranchNotFound { name } => "Branch not found: "@ + name@,
        GitError::CommitNotFound { id } => "Commit not found: "@ + id@,
        GitError::StashNotFound { index } => "Stash not found at index: "@ + decimal(index as nat),
        GitError::TagNotFound { name } => "Tag not found: "@ + name@,
        GitError::RemoteFailed { remote, details } => "Remote operation failed: "@ + remote@ + " - "@ + details@,
        GitError::MergeConflict => "Merge conflict detected"@,
        GitError::DirtyWorkingTree => "Working tree has uncommitted changes"@,
        GitError::InvalidInput { message } => "Invalid input: "@ + message@,
        GitError::AuthenticationFailed { remote } => "Authentication failed for remote: "@ + remote@,
        GitError::CloneFailed { url, details } => "Clone failed for '"@ + url@ + "': "@ + details@,
        GitError::RecoveryRequired { reason } => reason@,
        GitError::Io(m) => "IO error: "@ + m@,
        GitError::Git2(m) => "Git library error: "@ + m@,
    }
}

fn joined(a: &str, b: &str) -> (s: String)
    ensures
        s@ == a@ + b@,
{
    let mut s = String::from_str(a);
    s.append(b);
    s
}

fn joined4(a: &str, b: &str, c: &str, d: &str) -> (s: String)
    ensures
        s@ == a@ + b@ + c@ + d@,
{
    let mut s = String::from_str(a);
    s.append(b);
    s.append(c);
    s.append(d);
    s
}

impl GitError {
    /// The message shown for this error.
    pub fn message(&self) -> (s: String)
        ensures
            s@ == error_message(*self),
    {
        match self {
            GitError::RepositoryNotFound { path } => joined("Repository not found at path: ", path.as_str()),
            GitError::InvalidRepository { reason } => joined("Invalid repository: ", reason.as_str()),
            GitError::OperationFailed { operation, details } => joined4("Git operation failed: ", operation.as_str(), " - ", details.as_str()),
            GitError::BranchNotFound { name } => joined("Branch not found: ", name.as_str()),
            GitError::CommitNotFound { id } => joined("Commit not found: ", id.as_str()),
            GitError::StashNotFound { index } => {
                let n = u64_to_decimal(*index as u64);
                joined("Stash not found at index: ", n.as_str())
            },
            GitError::TagNotFound { name } => joined("Tag not found: ", name.as_str()),
            GitError::RemoteFailed { remote, details } => joined4("Remote operation failed: ", remote.as_str(), " - ", details.as_str()),
            GitError::MergeConflict => String::from_str("Merge conflict detected"),
            GitError::DirtyWorkingTree => String::from_str("Working tree has uncommitted changes"),
            GitError::InvalidInput { message } => joined("Invalid input: ", message.as_str()),
            GitError::AuthenticationFailed { remote } => joined("Authentication failed for remote: ", remote.as_str()),
            GitError::CloneFailed { url, details } => joined4("Clone failed for '", url.as_str(), "': ", details.as_str()),
            GitError::RecoveryRequired { reason } => reason.clone(),
            GitError::Io(m) => joined("IO error: ", m.as_str()),
            GitError::Git2(m) => joined("Git library error: ", m.as_str()),
        }
    }

    /// Whether retrying the operation may succeed (authentication, remote and
    /// clone failures).
    pub fn is_retryable(&self) -> (r: bool)
        ensures
            r == (self is AuthenticationFailed || self is RemoteFailed || self is CloneFailed),
    {
        match self {
            GitError::AuthenticationFailed { .. } | GitError::RemoteFailed { .. } | GitError::CloneFailed { .. } => true,
            _ => false,
        }
    }
}

} // verus!

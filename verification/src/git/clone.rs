//! Clone options and validation of clone URLs.
use crate::git::error::GitError;
use crate::text::{
    chars_contain, chars_of, chars_start_with, contains_seq, first_index_of, lemma_first_index_after, starts_with, string_from_chars, trim,
    trim_vec,
};
use vstd::prelude::*;

verus! {

/// Options for cloning a repository.
#[derive(Debug, Clone)]
pub struct CloneOptions {
    /// URL of the remote repository.
    pub url: String,
    /// Directory in which the clone is created.
    pub parent_dir: String,
    /// Name of the new repository's directory.
    pub directory_name: String,
    /// Depth of a shallow clone (0 or none: full clone).
    pub depth: Option<u32>,
    /// Branch to check out after cloning.
    pub branch: Option<String>,
}

/// Progress events of a clone, each with a percentage.
#[derive(Debug, Clone, Copy, PartialEq, Eq, Structural)]
pub enum CloneProgress {
    ReceivingObjects { pct: u8 },
    ResolvingDeltas { pct: u8 },
    CheckingOutFiles { pct: u8 },
}

/// Whether `url` is an SSH URL: `ssh://…`, or the scp-like `[user@]host:path`
/// (a `:` with no `/` before the first one, and no `://` anywhere).
pub open spec fn spec_is_ssh_url(url: Seq<char>) -> bool {
    if starts_with(url, "ssh://"@) {
        true
    } else if contains_seq(url, "://"@) {
        false
    } else {
        match first_index_of(url, ':', 0) {
            Some(c) => !url.subrange(0, c).contains('/'),
            None => false,
        }
    }
}

/// Whether `url` has the form of a remote URL (SSH, HTTP(S) or git).
pub open spec fn is_remote_form(url: Seq<char>) -> bool {
    ||| spec_is_ssh_url(url)
    ||| starts_with(url, "http://"@)
    ||| starts_with(url, "https://"@)
    ||| starts_with(url, "git://"@)
}

/// The message for a string that is no clone URL.
pub open spec fn invalid_url_message(t: Seq<char>) -> Seq<char> {
    "'"@ + t + "' is not a valid clone URL"@
}

/// Whether `url` is an SSH URL.
pub fn is_ssh_url(url: &str) -> (r: bool)
    ensures
        r == spec_is_ssh_url(url@),
{
    let v = chars_of(url);
    proof {
        reveal_strlit("ssh://");
        reveal_strlit("://");
    }
    if chars_start_with(&v, "ssh://") {
        return true;
    }
    let sep = chars_of("://");
    if chars_contain(&v, &sep) {
        return false;
    }
    let mut i: usize = 0;
    while i < v.len()
        invariant
            i <= v@.len(),
            v@ == url@,
            !starts_with(url@, "ssh://"@),
            !contains_seq(url@, "://"@),
            first_index_of(v@, ':', 0) == first_index_of(v@, ':', i as int),
            !v@.subrange(0, i as int).contains('/'),
        decreases v@.len() - i,
    {
        if v[i] == ':' {
            return true;
        }
        if v[i] == '/' {
            proof {
                let c = first_index_of(v@, ':', 0);
                lemma_first_index_after(v@, ':', i as int);
                if let Some(ci) = c {
                    assert(v@.subrange(0, ci)[i as int] == '/');
                }
            }
            return false;
        }
        assert(v@.subrange(0, i + 1) == v@.subrange(0, i as int).push(v[i as int]));
        i = i + 1;
    }
    false
}

/// `Path::new(path).exists()`: whether something exists at `path` on disk.
/// Nothing is claimed of the result, which depends on the file system.
#[verifier::external_body]
fn path_exists(path: &str) -> (r: bool) {
    std::path::Path::new(path).exists()
}

/// Validation of a clone URL once it is known whether the trimmed URL names
/// an existing local path: an empty URL is refused, a remote URL or an
/// existing path is accepted, anything else is refused.
pub fn check_clone_url(url: &str, local_path_exists: bool) -> (r: Result<(), GitError>)
    ensures
        trim(url@).len() == 0 ==> (r matches Err(GitError::InvalidInput { message }) && message@ == "clone URL must not be empty"@),
        trim(url@).len() > 0 ==> (r is Ok <==> (is_remote_form(trim(url@)) || local_path_exists)),
        trim(url@).len() > 0 && r is Err ==> (r matches Err(GitError::InvalidInput { message }) && message@ == invalid_url_message(trim(url@))),
{
    let t = trim_vec(&chars_of(url));
    if t.len() == 0 {
        return Err(GitError::InvalidInput { message: String::from_str("clone URL must not be empty") });
    }
    let ts = string_from_chars(t.as_slice());
    if is_ssh_url(ts.as_str()) {
        return Ok(());
    }
    proof {
        reveal_strlit("http://");
        reveal_strlit("https://");
        reveal_strlit("git://");
    }
    if chars_start_with(&t, "http://") || chars_start_with(&t, "https://") || chars_start_with(&t, "git://") {
        return Ok(());
    }
    if local_path_exists {
        return Ok(());
    }
    let mut message = String::from_str("'");
    message.append(ts.as_str());
    message.append("' is not a valid clone URL");
    Err(GitError::InvalidInput { message })
}

/// Validates a clone URL: an SSH, HTTP(S) or git URL, or an existing local
/// path (after trimming). Whether the path exists is asked of the disk.
pub fn validate_clone_url(url: &str) -> (r: Result<(), GitError>)
    ensures
        trim(url@).len() == 0 ==> (r matches Err(GitError::InvalidInput { message }) && message@ == "clone URL must not be empty"@),
        trim(url@).len() > 0 && is_remote_form(trim(url@)) ==> r is Ok,
        trim(url@).len() > 0 && r is Err ==> (r matches Err(GitError::InvalidInput { message }) && message@ == invalid_url_message(trim(url@))),
{
    let t = crate::text::trimmed_chars(url);
    let ts = string_from_chars(t.as_slice());
    let exists = if t.len() == 0 {
        false
    } else {
        path_exists(ts.as_str())
    };
    check_clone_url(url, exists)
}

} // verus!

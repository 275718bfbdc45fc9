//! Commit history entries.
use crate::git::graph::RefLabel;
use crate::text::{chars_contain, chars_of, contains_seq, lowercase, to_lowercase};
use crate::ui::diff_file_header::same_str;
use vstd::prelude::*;

verus! {

/// One commit of the history list.
#[derive(Debug, Clone)]
pub struct HistoryEntry {
    pub id: String,
    pub message: String,
    pub author_name: String,
    pub author_email: String,
    pub timestamp: i64,
    pub parent_ids: Vec<String>,
    /// Committer name, when it differs from the author's.
    pub committer_name: Option<String>,
    /// Committer email, when it differs from the author's.
    pub committer_email: Option<String>,
    /// Branch and tag labels pointing at this commit.
    pub refs: Vec<RefLabel>,
}

/// The committer's value, kept only when it differs from the author's.
pub fn committer_if_different(author: &str, committer: &str) -> (r: Option<String>)
    ensures
        match r {
            Some(c) => committer@ != author@ && c@ == committer@,
            None => committer@ == author@,
        },
{
    if same_str(committer, author) {
        None
    } else {
        Some(String::from_str(committer))
    }
}

/// Whether a commit message contains the searched text, ignoring case.
pub fn message_matches(message: &str, pattern: &str) -> (r: bool)
    ensures
        r == contains_seq(lowercase(message@), lowercase(pattern@)),
{
    let m = chars_of(to_lowercase(message).as_str());
    let p = chars_of(to_lowercase(pattern).as_str());
    chars_contain(&m, &p)
}

/// Whether a commit's author name or email contains the searched author,
/// ignoring case.
pub fn author_matches(name: &str, email: &str, author: &str) -> (r: bool)
    ensures
        r == (contains_seq(lowercase(name@), lowercase(author@)) || contains_seq(lowercase(email@), lowercase(author@))),
{
    let a = chars_of(to_lowercase(author).as_str());
    let n = chars_of(to_lowercase(name).as_str());
    let e = chars_of(to_lowercase(email).as_str());
    chars_contain(&n, &a) || chars_contain(&e, &a)
}

/// What the walk over newest-first history does with a commit of time
/// `timestamp` when collecting a time range.
#[derive(Debug, Clone, Copy, PartialEq, Eq, Structural)]
pub enum RangeStep {
    /// The commit is older than the range: nothing further can match.
    Stop,
    Take,
    Skip,
}

/// Stop before the range, take commits up to its end, skip newer ones.
pub fn date_range_step(timestamp: i64, start_time: i64, end_time: i64) -> (r: RangeStep)
    ensures
        timestamp < start_time ==> r == RangeStep::Stop,
        start_time <= timestamp <= end_time ==> r == RangeStep::Take,
        start_time <= timestamp && timestamp > end_time ==> r == RangeStep::Skip,
{
    if timestamp < start_time {
        RangeStep::Stop
    } else if timestamp <= end_time {
        RangeStep::Take
    } else {
        RangeStep::Skip
    }
}

} // verus!

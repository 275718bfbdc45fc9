//! Blame data: per-hunk attribution and its per-line expansion.
use vstd::prelude::*;

verus! {

/// Attribution of a run of lines to the commit that last changed them.
#[derive(Debug, Clone)]
pub struct BlameEntry {
    /// Commit that last modified these lines.
    pub commit_id: String,
    pub author_name: String,
    pub author_email: String,
    /// Commit timestamp (Unix epoch seconds).
    pub timestamp: i64,
    /// First line of the commit message.
    pub message: String,
    /// First line number (1-based).
    pub start_line: u32,
    /// Number of lines in this hunk.
    pub line_count: u32,
}

/// Attribution of one line, as the gutter renders it.
#[derive(Debug, Clone)]
pub struct BlameInfo {
    pub line_no: u32,
    pub commit_oid: String,
    pub author_name: String,
    pub author_email: String,
    /// Unix epoch seconds.
    pub author_time: i64,
    pub summary: String,
}

/// A line's attribution as plain values: line, commit, name, email, time, summary.
pub type BlameLineView = (u32, Seq<char>, Seq<char>, Seq<char>, i64, Seq<char>);

impl View for BlameInfo {
    type V = BlameLineView;

    open spec fn view(&self) -> BlameLineView {
        (self.line_no, self.commit_oid@, self.author_name@, self.author_email@, self.author_time, self.summary@)
    }
}

/// The per-line entries of one hunk: lines `start .. start + count`, each
/// attributed like the hunk.
pub open spec fn hunk_lines(start: u32, count: u32, commit: Seq<char>, name: Seq<char>, email: Seq<char>, time: i64, summary: Seq<char>) -> Seq<BlameLineView> {
    Seq::new(count as nat, |k: int| ((start + k) as u32, commit, name, email, time, summary))
}

/// Appends the per-line entries of one blame hunk to `lines`.
pub fn expand_blame_hunk(
    lines: &mut Vec<BlameInfo>,
    start: u32,
    count: u32,
    commit_oid: &String,
    author_name: &String,
    author_email: &String,
    author_time: i64,
    summary: &String,
)
    requires
        start + count <= u32::MAX,
    ensures
        final(lines)@.map_values(|b: BlameInfo| b@) == old(lines)@.map_values(|b: BlameInfo| b@) + hunk_lines(
            start,
            count,
            commit_oid@,
            author_name@,
            author_email@,
            author_time,
            summary@,
        ),
{
    let ghost before = old(lines)@.map_values(|b: BlameInfo| b@);
    let ghost want = hunk_lines(start, count, commit_oid@, author_name@, author_email@, author_time, summary@);
    let mut offset: u32 = 0;
    while offset < count
        invariant
            offset <= count,
            start + count <= u32::MAX,
            want == hunk_lines(start, count, commit_oid@, author_name@, author_email@, author_time, summary@),
            lines@.map_values(|b: BlameInfo| b@) == before + want.subrange(0, offset as int),
        decreases count - offset,
    {
        let ghost prev = lines@;
        lines.push(
            BlameInfo {
                line_no: start + offset,
                commit_oid: commit_oid.clone(),
                author_name: author_name.clone(),
                author_email: author_email.clone(),
                author_time,
                summary: summary.clone(),
            },
        );
        assert(lines@.map_values(|b: BlameInfo| b@) == prev.map_values(|b: BlameInfo| b@).push(lines@.last()@));
        assert(want.subrange(0, offset + 1) == want.subrange(0, offset as int).push(want[offset as int]));
        offset = offset + 1;
    }
    assert(want.subrange(0, count as int) == want);
}

} // verus!

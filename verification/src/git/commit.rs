//! Commit data, merge-message synthesis and the recent-message history.
use crate::git::error::GitError;
use crate::text::{
    char_range, chars_less, chars_lt, chars_of, lemma_chars_lt_irreflexive_asym, lemma_chars_lt_total, lemma_chars_lt_trans,
    same_chars, split_chars, split_on, string_from_chars, trim, trim_end, trim_vec,
};
use crate::ui::diff_file_header::same_str;
use crate::ui::syntax::ascii_lowercase;
use vstd::prelude::*;

verus! {

/// A Git commit.
#[derive(Debug, Clone)]
pub struct CommitInfo {
    pub id: String,
    pub message: String,
    pub author_name: String,
    pub author_email: String,
    pub author_time: i64,
    pub committer_name: String,
    pub committer_email: String,
    pub committer_time: i64,
    pub parent_ids: Vec<String>,
}

/// File-level change status in a commit.
#[derive(Debug, Clone, Copy, PartialEq, Eq, Structural)]
pub enum CommitChangeStatus {
    Added,
    Modified,
    Deleted,
    Renamed,
}

/// A file changed by a commit.
#[derive(Debug, Clone)]
pub struct CommitChangedFile {
    pub path: String,
    pub old_path: Option<String>,
    pub status: CommitChangeStatus,
}

/// Where a merged commit came from: a branch pointing at it, or only its
/// abbreviated id.
#[derive(Debug, Clone)]
pub enum MergeSource {
    Branch(String),
    Commit(String),
}

pub open spec fn source_text(s: MergeSource) -> Seq<char> {
    match s {
        MergeSource::Branch(n) => n@,
        MergeSource::Commit(c) => c@,
    }
}

/// `'a', 'b', …` for the sources from index `i` on.
pub open spec fn quoted_list(sources: Seq<MergeSource>) -> Seq<char>
    decreases sources.len(),
{
    if sources.len() == 0 {
        Seq::empty()
    } else if sources.len() == 1 {
        "'"@ + source_text(sources[0]) + "'"@
    } else {
        quoted_list(sources.drop_last()) + ", '"@ + source_text(sources.last()) + "'"@
    }
}

/// The fallback merge message, in Git's wording: `Merge branch 'x'`,
/// `Merge commit 'abc1234'` or `Merge branches 'a', 'b'`, followed by
/// ` into <target>` unless HEAD is detached.
pub open spec fn spec_merge_message(sources: Seq<MergeSource>, target: Option<Seq<char>>) -> Seq<char> {
    let body = if sources.len() == 1 {
        match sources[0] {
            MergeSource::Branch(n) => "Merge branch '"@ + n@ + "'"@,
            MergeSource::Commit(c) => "Merge commit '"@ + c@ + "'"@,
        }
    } else {
        "Merge branches "@ + quoted_list(sources)
    };
    match target {
        Some(t) => body + " into "@ + t,
        None => body,
    }
}

/// Builds the fallback merge message from the merged commits' sources and
/// the checked-out branch (none when HEAD is detached). Without any source
/// there is nothing to describe, which is an error.
pub fn synthesize_merge_message(sources: &Vec<MergeSource>, target_branch: Option<String>) -> (r: Result<String, GitError>)
    ensures
        sources@.len() == 0 ==> (r matches Err(GitError::OperationFailed { operation, details })
            && operation@ == "synthesize_merge_message"@ && details@ == "MERGE_HEAD is empty; nothing to synthesize"@),
        sources@.len() > 0 ==> (r matches Ok(m) && m@ == spec_merge_message(
            sources@,
            match target_branch {
                Some(t) => Some(t@),
                None => None,
            },
        )),
{
    if sources.len() == 0 {
        return Err(GitError::OperationFailed {
            operation: String::from_str("synthesize_merge_message"),
            details: String::from_str("MERGE_HEAD is empty; nothing to synthesize"),
        });
    }
    let mut body = String::new();
    if sources.len() == 1 {
        match &sources[0] {
            MergeSource::Branch(name) => {
                body.append("Merge branch '");
                body.append(name.as_str());
                body.append("'");
            },
            MergeSource::Commit(short) => {
                body.append("Merge commit '");
                body.append(short.as_str());
                body.append("'");
            },
        }
    } else {
        body.append("Merge branches ");
        let ghost prefix = body@;
        let mut i: usize = 0;
        while i < sources.len()
            invariant
                i <= sources@.len(),
                body@ == prefix + quoted_list(sources@.subrange(0, i as int)),
            decreases sources@.len() - i,
        {
            let ghost before = sources@.subrange(0, i as int);
            assert(sources@.subrange(0, i + 1).drop_last() == before);
            if i > 0 {
                body.append(", '");
            } else {
                body.append("'");
            }
            let text = match &sources[i] {
                MergeSource::Branch(n) => n.as_str(),
                MergeSource::Commit(c) => c.as_str(),
            };
            body.append(text);
            body.append("'");
            proof {
                let now = sources@.subrange(0, i + 1);
                assert(now.last() == sources@[i as int]);
                if i == 0 {
                    assert(now.len() == 1);
                    assert(now[0] == sources@[0]);
                }
            }
            i = i + 1;
        }
        assert(sources@.subrange(0, sources@.len() as int) == sources@);
    }
    match target_branch {
        Some(target) => {
            body.append(" into ");
            body.append(target.as_str());
        },
        None => {},
    }
    Ok(body)
}

/// The non-empty lines of `s`.
pub open spec fn non_empty(s: Seq<Seq<char>>) -> Seq<Seq<char>> {
    s.filter(|l: Seq<char>| l.len() > 0)
}

/// The commit ids listed in a `MERGE_HEAD` file: its lines, trimmed, empty
/// ones left out.
pub open spec fn merge_head_entries(contents: Seq<char>) -> Seq<Seq<char>> {
    non_empty(split_on(contents, '\n').map_values(|l: Seq<char>| trim(l)))
}

/// Whether `text` is what `git2::Oid::from_str` accepts: one to forty
/// hexadecimal digits.
pub open spec fn is_oid_text(text: Seq<char>) -> bool {
    &&& 1 <= text.len() <= 40
    &&& forall|i: int| 0 <= i < text.len() ==> {
        let c = #[trigger] text[i];
        ('0' <= c && c <= '9') || ('a' <= c && c <= 'f') || ('A' <= c && c <= 'F')
    }
}

/// The full hexadecimal id of the object id `text` spells, when it is one:
/// its digits in lower case, filled up to forty with `0`.
pub open spec fn oid_hex(text: Seq<char>) -> Option<Seq<char>> {
    if is_oid_text(text) {
        Some(ascii_lowercase(text) + Seq::new((40 - text.len()) as nat, |i: int| '0'))
    } else {
        None
    }
}

/// `git2::Oid::from_str(text)`, as text: the parsed id's hexadecimal form
/// (`Oid`'s `Display`), or the library's error message. The contract claims
/// what the crate documents (an error exactly for an empty text, one longer
/// than forty hexadecimal digits, or one with another character) and what
/// its source shows of a parsed id: the digits fill the id from the front,
/// the rest stays zero, and it is shown in lower case. The error message is
/// left unsaid.
#[verifier::external_body]
fn parse_oid(text: &str) -> (r: Result<String, String>)
    ensures
        r is Ok <==> is_oid_text(text@),
        match r {
            Ok(h) => oid_hex(text@) == Some(h@),
            Err(_) => oid_hex(text@) is None,
        },
{
    match git2::Oid::from_str(text) {
        Ok(oid) => Ok(oid.to_string()),
        Err(e) => Err(e.message().to_string()),
    }
}

/// The commit ids of a `MERGE_HEAD` file's contents, checked to be object
/// ids, in order; the first entry that is not one is reported as an error of
/// `operation`.
pub fn read_merge_head_oids(contents: &str, operation: &str) -> (r: Result<Vec<String>, GitError>)
    ensures
        match r {
            Ok(ids) => {
                &&& ids@.len() == merge_head_entries(contents@).len()
                &&& forall|k: int| 0 <= k < ids@.len() ==> oid_hex(merge_head_entries(contents@)[k]) == Some(#[trigger] ids@[k]@)
                &&& forall|k: int| 0 <= k < ids@.len() ==> is_oid_text(#[trigger] merge_head_entries(contents@)[k])
            },
            Err(e) => {
                &&& e matches GitError::OperationFailed { operation: op, details } && op@ == operation@
                &&& exists|k: int| 0 <= k < merge_head_entries(contents@).len() && #[trigger] oid_hex(merge_head_entries(contents@)[k]) is None
                    && !is_oid_text(merge_head_entries(contents@)[k])
            },
        },
{
    let chars = chars_of(contents);
    let lines = split_chars(&chars, '\n');
    let ghost all = split_on(contents@, '\n').map_values(|l: Seq<char>| trim(l));
    let ghost entries = merge_head_entries(contents@);
    let mut ids: Vec<String> = Vec::new();
    let mut i: usize = 0;
    assert(non_empty(all.subrange(0, 0)) == Seq::<Seq<char>>::empty());
    while i < lines.len()
        invariant
            i <= lines@.len(),
            chars@ == contents@,
            lines@.map_values(|p: Vec<char>| p@) == split_on(contents@, '\n'),
            all == split_on(contents@, '\n').map_values(|l: Seq<char>| trim(l)),
            entries == merge_head_entries(contents@),
            ids@.len() == non_empty(all.subrange(0, i as int)).len(),
            forall|k: int| 0 <= k < ids@.len() ==> oid_hex(non_empty(all.subrange(0, i as int))[k]) == Some(#[trigger] ids@[k]@),
            forall|k: int| 0 <= k < ids@.len() ==> is_oid_text(#[trigger] non_empty(all.subrange(0, i as int))[k]),
        decreases lines@.len() - i,
    {
        let ghost pre = all.subrange(0, i as int);
        let t = trim_vec(&lines[i]);
        assert(all[i as int] == t@);
        assert(all.subrange(0, i + 1) == pre.push(t@));
        proof {
            pre.lemma_filter_push(t@, |l: Seq<char>| l.len() > 0);
        }
        if t.len() > 0 {
            let ts = string_from_chars(t.as_slice());
            match parse_oid(ts.as_str()) {
                Ok(hex) => {
                    ids.push(hex);
                },
                Err(e) => {
                    proof {
                        lemma_filter_prefix(all, i as int + 1);
                        let k = non_empty(pre).len() as int;
                        assert(non_empty(all.subrange(0, i + 1))[k] == t@);
                        assert(entries == non_empty(all));
                        assert(entries[k] == t@);
                    }
                    let mut details = String::from_str("Invalid MERGE_HEAD commit id '");
                    details.append(ts.as_str());
                    details.append("': ");
                    details.append(e.as_str());
                    return Err(GitError::OperationFailed { operation: String::from_str(operation), details });
                },
            }
        }
        i = i + 1;
    }
    assert(all.subrange(0, lines@.len() as int) == all);
    Ok(ids)
}

proof fn lemma_filter_prefix(s: Seq<Seq<char>>, n: int)
    requires
        0 <= n <= s.len(),
    ensures
        forall|k: int| 0 <= k < non_empty(s.subrange(0, n)).len() ==> non_empty(s.subrange(0, n))[k] == #[trigger] non_empty(s)[k],
        non_empty(s.subrange(0, n)).len() <= non_empty(s).len(),
    decreases s.len() - n,
{
    if n < s.len() {
        lemma_filter_prefix(s, n + 1);
        assert(s.subrange(0, n + 1) == s.subrange(0, n).push(s[n]));
        s.subrange(0, n).lemma_filter_push(s[n], |l: Seq<char>| l.len() > 0);
    } else {
        assert(s.subrange(0, n) == s);
    }
}

/// The first seven characters of an object id.
pub open spec fn spec_short_oid(hex: Seq<char>) -> Seq<char> {
    if hex.len() <= 7 {
        hex
    } else {
        hex.subrange(0, 7)
    }
}

/// Abbreviates an object id to seven characters.
pub fn short_oid(hex: &str) -> (s: String)
    ensures
        s@ == spec_short_oid(hex@),
{
    let v = chars_of(hex);
    let n = if v.len() <= 7 {
        v.len()
    } else {
        7
    };
    let head = char_range(&v, 0, n);
    assert(v@.subrange(0, v@.len() as int) == v@);
    string_from_chars(head.as_slice())
}

/// The message Git prepared in `MERGE_MSG`, from the file's text: the text
/// without trailing white space, unless nothing else is left.
pub open spec fn spec_prepared_message(text: Seq<char>) -> Option<Seq<char>> {
    if trim_end(text).len() == 0 {
        None
    } else {
        Some(trim_end(text))
    }
}

/// The prepared merge message held by a `MERGE_MSG` file's text.
pub fn prepared_message_from_text(text: &str) -> (r: Option<String>)
    ensures
        match r {
            Some(m) => spec_prepared_message(text@) == Some(m@),
            None => spec_prepared_message(text@) is None,
        },
{
    let v = chars_of(text);
    let n = v.len();
    let mut j: usize = n;
    assert(v@.subrange(0, n as int) == v@);
    while j > 0 && crate::text::white_space(v[j - 1])
        invariant
            n == v@.len(),
            v@ == text@,
            j <= n,
            trim_end(text@) == trim_end(v@.subrange(0, j as int)),
        decreases j,
    {
        assert(v@.subrange(0, j as int).drop_last() == v@.subrange(0, j - 1));
        j = j - 1;
    }
    assert(trim_end(v@.subrange(0, j as int)) == v@.subrange(0, j as int));
    if j == 0 {
        None
    } else {
        let kept = char_range(&v, 0, j);
        Some(string_from_chars(kept.as_slice()))
    }
}

/// Most messages remembered per repository.
pub const MAX_RECENT_MESSAGES: usize = 10;

pub open spec fn message_views(v: Seq<String>) -> Seq<Seq<char>> {
    v.map_values(|m: String| m@)
}

/// `messages` without the copies of `message`.
pub open spec fn without(messages: Seq<Seq<char>>, message: Seq<char>) -> Seq<Seq<char>>
    decreases messages.len(),
{
    if messages.len() == 0 {
        messages
    } else {
        let prev = without(messages.drop_last(), message);
        if messages.last() != message {
            prev.push(messages.last())
        } else {
            prev
        }
    }
}

proof fn lemma_without(messages: Seq<Seq<char>>, message: Seq<char>)
    ensures
        without(messages, message).len() <= messages.len(),
        forall|k: int| 0 <= k < without(messages, message).len() ==> #[trigger] without(messages, message)[k] != message,
    decreases messages.len(),
{
    if messages.len() > 0 {
        lemma_without(messages.drop_last(), message);
    }
}

proof fn lemma_without_push(messages: Seq<Seq<char>>, x: Seq<char>, message: Seq<char>)
    ensures
        without(messages.push(x), message) == if x != message {
            without(messages, message).push(x)
        } else {
            without(messages, message)
        },
{
    assert(messages.push(x).drop_last() == messages);
}

/// The recent-message list after committing with `message`: a blank message
/// changes nothing; otherwise the message moves to the front (earlier copies
/// are dropped) and only the ten newest are kept.
pub open spec fn spec_remember_message(messages: Seq<Seq<char>>, message: Seq<char>) -> Seq<Seq<char>> {
    if trim(message).len() == 0 {
        messages
    } else {
        let list = seq![message] + without(messages, message);
        if list.len() <= 10 {
            list
        } else {
            list.subrange(0, 10)
        }
    }
}

/// Records `message` at the front of the recent-message list.
pub fn remember_message(messages: Vec<String>, message: &str) -> (r: Vec<String>)
    ensures
        message_views(r@) == spec_remember_message(message_views(messages@), message@),
{
    let t = crate::text::trimmed_chars(message);
    if t.len() == 0 {
        return messages;
    }
    let ghost mv = message_views(messages@);
    let mut kept: Vec<String> = Vec::new();
    let mut i: usize = 0;
    while i < messages.len()
        invariant
            i <= messages@.len(),
            mv == message_views(messages@),
            message_views(kept@) == without(mv.subrange(0, i as int), message@),
        decreases messages@.len() - i,
    {
        assert(mv.subrange(0, i + 1) == mv.subrange(0, i as int).push(mv[i as int]));
        proof {
            lemma_without_push(mv.subrange(0, i as int), mv[i as int], message@);
        }
        if !same_str(messages[i].as_str(), message) {
            let ghost before = message_views(kept@);
            kept.push(messages[i].clone());
            assert(message_views(kept@) == before.push(mv[i as int]));
        }
        i = i + 1;
    }
    assert(mv.subrange(0, messages@.len() as int) == mv);
    let ghost list = seq![message@] + message_views(kept@);
    let mut out: Vec<String> = Vec::new();
    out.push(String::from_str(message));
    let mut j: usize = 0;
    while j < kept.len() && j + 1 < MAX_RECENT_MESSAGES
        invariant
            j <= kept@.len(),
            j + 1 <= MAX_RECENT_MESSAGES,
            list == seq![message@] + message_views(kept@),
            message_views(out@) == list.subrange(0, j + 1),
        decreases kept@.len() - j,
    {
        let ghost before = message_views(out@);
        out.push(kept[j].clone());
        assert(message_views(out@) == before.push(kept@[j as int]@));
        assert(list.subrange(0, j + 2) == list.subrange(0, j + 1).push(list[j + 1]));
        j = j + 1;
    }
    assert(list.len() == kept@.len() + 1);
    proof {
        if list.len() <= 10 {
            assert(list.subrange(0, list.len() as int) == list);
        }
    }
    out
}

/// After remembering a non-blank message it comes first, appears only
/// once, and at most ten messages are kept.
pub proof fn lemma_remembered_message_first_and_unique(messages: Seq<Seq<char>>, message: Seq<char>)
    requires
        trim(message).len() > 0,
    ensures
        spec_remember_message(messages, message).len() <= 10,
        spec_remember_message(messages, message)[0] == message,
        forall|k: int| 1 <= k < spec_remember_message(messages, message).len() ==> #[trigger] spec_remember_message(messages, message)[k] != message,
{
    let kept = without(messages, message);
    lemma_without(messages, message);
    let list = seq![message] + kept;
    let r = spec_remember_message(messages, message);
    if list.len() <= 10 {
        assert(r == list);
    } else {
        assert(r == list.subrange(0, 10));
    }
    assert(r[0] == list[0]);
    assert forall|k: int| 1 <= k < r.len() implies #[trigger] r[k] != message by {
        assert(r[k] == list[k]);
        assert(list[k] == kept[k - 1]);
    }
}

/// How a file changed, as the diff of a commit reports it.
#[derive(Debug, Clone, Copy, PartialEq, Eq, Structural)]
pub enum DeltaKind {
    Added,
    Deleted,
    Renamed,
    /// Any other change (modified, copied, type change, …).
    Other,
}

/// A changed file as plain values: path, old path, status.
pub type ChangedFileView = (Seq<char>, Option<Seq<char>>, CommitChangeStatus);

pub open spec fn changed_file_view(f: CommitChangedFile) -> ChangedFileView {
    (f.path@, match f.old_path {
        Some(p) => Some(p@),
        None => None,
    }, f.status)
}

/// The entry for one delta of a commit's diff: shown under its new path (or
/// the old one when it has none); the old path is kept for renames only.
pub fn changed_file(kind: DeltaKind, old_path: Option<String>, new_path: Option<String>) -> (f: CommitChangedFile)
    ensures
        f.status == match kind {
            DeltaKind::Added => CommitChangeStatus::Added,
            DeltaKind::Deleted => CommitChangeStatus::Deleted,
            DeltaKind::Renamed => CommitChangeStatus::Renamed,
            DeltaKind::Other => CommitChangeStatus::Modified,
        },
        f.path@ == match (new_path, old_path) {
            (Some(n), _) => n@,
            (None, Some(o)) => o@,
            (None, None) => Seq::empty(),
        },
        f.old_path == if kind == DeltaKind::Renamed {
            old_path
        } else {
            None
        },
{
    let status = match kind {
        DeltaKind::Added => CommitChangeStatus::Added,
        DeltaKind::Deleted => CommitChangeStatus::Deleted,
        DeltaKind::Renamed => CommitChangeStatus::Renamed,
        DeltaKind::Other => CommitChangeStatus::Modified,
    };
    let path = match &new_path {
        Some(n) => n.clone(),
        None => match &old_path {
            Some(o) => o.clone(),
            None => String::new(),
        },
    };
    let old = if kind == DeltaKind::Renamed {
        old_path
    } else {
        None
    };
    CommitChangedFile { path, old_path: old, status }
}

pub open spec fn opt_chars_lt(a: Option<Seq<char>>, b: Option<Seq<char>>) -> bool {
    match (a, b) {
        (None, Some(_)) => true,
        (Some(x), Some(y)) => chars_lt(x, y),
        _ => false,
    }
}

pub open spec fn status_rank(s: CommitChangeStatus) -> int {
    match s {
        CommitChangeStatus::Added => 0,
        CommitChangeStatus::Modified => 1,
        CommitChangeStatus::Deleted => 2,
        CommitChangeStatus::Renamed => 3,
    }
}

/// The order of changed files: by path, then old path, then status.
pub open spec fn file_lt(a: ChangedFileView, b: ChangedFileView) -> bool {
    ||| chars_lt(a.0, b.0)
    ||| (a.0 == b.0 && opt_chars_lt(a.1, b.1))
    ||| (a.0 == b.0 && a.1 == b.1 && status_rank(a.2) < status_rank(b.2))
}

proof fn lemma_file_lt_order(a: ChangedFileView, b: ChangedFileView, c: ChangedFileView)
    ensures
        !(file_lt(a, b) && file_lt(b, a)),
        file_lt(a, b) && file_lt(b, c) ==> file_lt(a, c),
        a != b ==> file_lt(a, b) || file_lt(b, a),
{
    lemma_chars_lt_irreflexive_asym(a.0, b.0);
    lemma_chars_lt_irreflexive_asym(b.0, c.0);
    lemma_chars_lt_irreflexive_asym(a.0, c.0);
    lemma_chars_lt_total(a.0, b.0);
    if chars_lt(a.0, b.0) && chars_lt(b.0, c.0) {
        lemma_chars_lt_trans(a.0, b.0, c.0);
    }
    match (a.1, b.1, c.1) {
        (Some(x), Some(y), Some(z)) => {
            lemma_chars_lt_irreflexive_asym(x, y);
            lemma_chars_lt_total(x, y);
            if chars_lt(x, y) && chars_lt(y, z) {
                lemma_chars_lt_trans(x, y, z);
            }
        },
        (Some(x), Some(y), None) => {
            lemma_chars_lt_irreflexive_asym(x, y);
            lemma_chars_lt_total(x, y);
        },
        (_, Some(y), Some(z)) => {
            lemma_chars_lt_irreflexive_asym(y, z);
        },
        (Some(x), None, _) => {},
        _ => {},
    }
    match (a.1, b.1) {
        (Some(x), Some(y)) => {
            lemma_chars_lt_irreflexive_asym(x, y);
            lemma_chars_lt_total(x, y);
        },
        _ => {},
    }
}

/// Whether a list of changed files is in order.
pub open spec fn files_sorted(s: Seq<ChangedFileView>) -> bool {
    forall|i: int, j: int| 0 <= i < j < s.len() ==> !file_lt(#[trigger] s[j], #[trigger] s[i])
}

fn file_less(a: &CommitChangedFile, b: &CommitChangedFile) -> (r: bool)
    ensures
        r == file_lt(changed_file_view(*a), changed_file_view(*b)),
{
    let ap = chars_of(a.path.as_str());
    let bp = chars_of(b.path.as_str());
    if chars_less(&ap, &bp) {
        return true;
    }
    if !same_chars(&ap, &bp) {
        return false;
    }
    let old_lt = match (&a.old_path, &b.old_path) {
        (None, Some(_)) => true,
        (Some(x), Some(y)) => chars_less(&chars_of(x.as_str()), &chars_of(y.as_str())),
        _ => false,
    };
    if old_lt {
        return true;
    }
    let old_eq = match (&a.old_path, &b.old_path) {
        (None, None) => true,
        (Some(x), Some(y)) => same_str(x.as_str(), y.as_str()),
        _ => false,
    };
    if !old_eq {
        return false;
    }
    let ra: u8 = match a.status {
        CommitChangeStatus::Added => 0,
        CommitChangeStatus::Modified => 1,
        CommitChangeStatus::Deleted => 2,
        CommitChangeStatus::Renamed => 3,
    };
    let rb: u8 = match b.status {
        CommitChangeStatus::Added => 0,
        CommitChangeStatus::Modified => 1,
        CommitChangeStatus::Deleted => 2,
        CommitChangeStatus::Renamed => 3,
    };
    ra < rb
}

pub open spec fn file_views(v: Seq<CommitChangedFile>) -> Seq<ChangedFileView> {
    v.map_values(|f: CommitChangedFile| changed_file_view(f))
}

/// Two changed files of which neither comes before the other are the same
/// file: the order is total, so a sorted list of given files is unique.
pub proof fn lemma_file_order_is_total(a: ChangedFileView, b: ChangedFileView)
    ensures
        !file_lt(a, b) && !file_lt(b, a) ==> a == b,
{
    lemma_file_lt_order(a, b, a);
}

/// Puts the changed files in order (by path, then old path, then status);
/// the result holds the same files.
pub fn sort_changed_files(files: Vec<CommitChangedFile>) -> (r: Vec<CommitChangedFile>)
    ensures
        files_sorted(file_views(r@)),
        file_views(r@).to_multiset() == file_views(files@).to_multiset(),
{
    let ghost input = file_views(files@);
    let mut rest = files;
    let mut out: Vec<CommitChangedFile> = Vec::new();
    let n = rest.len();
    let mut k: usize = 0;
    assert(file_views(out@) == input.subrange(0, 0));
    while k < n
        invariant
            k <= n,
            n == input.len(),
            rest@.len() == n - k,
            forall|m: int| 0 <= m < n - k ==> changed_file_view(#[trigger] rest@[m]) == input[k + m],
            files_sorted(file_views(out@)),
            file_views(out@).to_multiset() == input.subrange(0, k as int).to_multiset(),
        decreases n - k,
    {
        let x = rest.remove(0);
        assert(changed_file_view(x) == input[k as int]);
        let ghost xs = changed_file_view(x);
        let ghost ov = file_views(out@);
        let mut p: usize = 0;
        while p < out.len() && !file_less(&x, &out[p])
            invariant
                p <= out@.len(),
                ov == file_views(out@),
                xs == changed_file_view(x),
                forall|j: int| 0 <= j < p ==> !file_lt(xs, #[trigger] ov[j]),
            decreases out@.len() - p,
        {
            assert(ov[p as int] == changed_file_view(out@[p as int]));
            p = p + 1;
        }
        proof {
            if p < out@.len() {
                assert(ov[p as int] == changed_file_view(out@[p as int]));
                assert(file_lt(xs, ov[p as int]));
            }
        }
        out.insert(p, x);
        proof {
            let nv = file_views(out@);
            assert(nv == ov.insert(p as int, xs));
            assert forall|i: int, j: int| 0 <= i < j < nv.len() implies !file_lt(#[trigger] nv[j], #[trigger] nv[i]) by {
                if i < p && j == p {
                    lemma_file_lt_order(xs, ov[i], xs);
                } else if i == p && j > p {
                    let y = ov[j - 1];
                    lemma_file_lt_order(y, xs, ov[p as int]);
                    if (p as int) < j - 1 {
                        lemma_file_lt_order(y, xs, ov[p as int]);
                        lemma_file_lt_order(ov[p as int], y, xs);
                    }
                    lemma_file_lt_order(xs, y, xs);
                    lemma_file_lt_order(y, ov[p as int], y);
                } else if i < p && j > p {
                    assert(nv[i] == ov[i]);
                    assert(nv[j] == ov[j - 1]);
                } else if j < p {
                    assert(nv[i] == ov[i]);
                } else {
                    assert(nv[i] == ov[i - 1]);
                    assert(nv[j] == ov[j - 1]);
                }
            }
            vstd::seq_lib::to_multiset_insert(ov, p as int, xs);
            assert(input.subrange(0, k + 1) == input.subrange(0, k as int).push(xs));
            vstd::seq_lib::to_multiset_build(input.subrange(0, k as int), xs);
        }
        k = k + 1;
    }
    assert(input.subrange(0, n as int) == input);
    out
}

} // verus!

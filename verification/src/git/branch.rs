//! Branches: what checkout resolved, branch lists and the tree grouping of
//! branch names.
use crate::text::{
    chars_contain, chars_end_with, chars_of, chars_start_with, contains_seq, lowercase, to_lowercase, decimal, ends_with, lemma_first_part_len, lemma_split_nonempty, push_all, push_char,
    split_chars, split_on, starts_with, string_from_chars, u64_to_decimal,
};
use vstd::prelude::*;

verus! {

/// What a checked-out ref turned out to be.
#[derive(Debug, Clone, Copy, PartialEq, Eq, Structural)]
pub enum RefKind {
    Branch,
    Tag,
    Commit,
}

/// Result of checking out a ref.
#[derive(Debug, Clone)]
pub struct CheckoutOutcome {
    pub ref_kind: RefKind,
    pub target_oid: String,
}

/// A branch that contains some commit.
#[derive(Debug, Clone)]
pub struct BranchRef {
    pub name: String,
    pub is_remote: bool,
}

/// A Git branch.
#[derive(Debug, Clone)]
pub struct Branch {
    pub name: String,
    pub oid: String,
    pub is_remote: bool,
    pub is_head: bool,
    pub upstream: Option<String>,
    pub tracking_status: Option<String>,
    pub sync_hint: Option<String>,
    pub recency_hint: Option<String>,
    pub last_commit_timestamp: Option<i64>,
    /// Hierarchical group path for tree display (`["feature", "auth"]` for
    /// `feature/auth`).
    pub group_path: Option<Vec<String>>,
}

/// What follows the first `/` of `s` (`split_once('/')`), if there is one.
pub open spec fn after_first_slash(s: Seq<char>) -> Option<Seq<char>> {
    let parts = split_on(s, '/');
    if parts.len() > 1 {
        Some(s.subrange(parts[0].len() + 1int, s.len() as int))
    } else {
        None
    }
}

/// The part of a branch name that is grouped: a remote branch loses its
/// remote's name.
pub open spec fn grouped_name(name: Seq<char>, is_remote: bool) -> Seq<char> {
    if is_remote {
        match after_first_slash(name) {
            Some(rest) => rest,
            None => name,
        }
    } else {
        name
    }
}

/// The group path of a branch name: its `/`-separated parts, when there are
/// several.
pub open spec fn spec_group_path(name: Seq<char>, is_remote: bool) -> Option<Seq<Seq<char>>> {
    let parts = split_on(grouped_name(name, is_remote), '/');
    if parts.len() > 1 {
        Some(parts)
    } else {
        None
    }
}

impl Branch {
    /// Sets `group_path` from the branch name: its `/`-separated parts when
    /// there are several (for a remote branch, after the remote's name).
    pub fn compute_group_path(&mut self)
        ensures
            match spec_group_path(old(self).name@, old(self).is_remote) {
                Some(g) => final(self).group_path is Some && final(self).group_path->0@.map_values(|p: String| p@) == g,
                None => final(self).group_path is None,
            },
            final(self).name == old(self).name,
            final(self).oid == old(self).oid,
            final(self).is_remote == old(self).is_remote,
            final(self).is_head == old(self).is_head,
            final(self).upstream == old(self).upstream,
            final(self).tracking_status == old(self).tracking_status,
            final(self).sync_hint == old(self).sync_hint,
            final(self).recency_hint == old(self).recency_hint,
            final(self).last_commit_timestamp == old(self).last_commit_timestamp,
    {
        let name = chars_of(self.name.as_str());
        let name_parts = split_chars(&name, '/');
        proof {
            lemma_split_nonempty(name@, '/');
        }
        let display: Vec<char> = if self.is_remote && name_parts.len() > 1 {
            let nlen = name.len();
            proof {
                lemma_first_part_len(name@, '/');
                assert(name_parts@.map_values(|p: Vec<char>| p@)[0] == name_parts@[0]@);
                assert(split_on(name@, '/').len() > 1);
            }
            let start = name_parts[0].len() + 1;
            crate::text::char_range(&name, start, name.len())
        } else {
            name
        };
        let parts = split_chars(&display, '/');
        if parts.len() > 1 {
            let mut group: Vec<String> = Vec::new();
            let mut k: usize = 0;
            while k < parts.len()
                invariant
                    parts@.len() > 1,
                    k <= parts@.len(),
                    group@.map_values(|p: String| p@) == parts@.map_values(|p: Vec<char>| p@).subrange(0, k as int),
                decreases parts@.len() - k,
            {
                let g = string_from_chars(parts[k].as_slice());
                let ghost before = group@.map_values(|p: String| p@);
                group.push(g);
                assert(group@.map_values(|p: String| p@) == before.push(g@));
                k = k + 1;
            }
            assert(parts@.map_values(|p: Vec<char>| p@) == parts@.map_values(|p: Vec<char>| p@).subrange(0, parts@.len() as int));
            self.group_path = Some(group);
        } else {
            self.group_path = None;
        }
    }

    /// The last `/`-separated part of the branch name.
    pub fn leaf_name(&self) -> (leaf: String)
        ensures
            leaf@ == split_on(self.name@, '/').last(),
    {
        let name = chars_of(self.name.as_str());
        let parts = split_chars(&name, '/');
        proof {
            lemma_split_nonempty(name@, '/');
        }
        string_from_chars(parts[parts.len() - 1].as_slice())
    }
}

/// For a local branch, the group path, when there is one, holds every part of
/// the name and ends with its leaf name; otherwise the name is its own leaf.
pub proof fn lemma_local_group_path_and_leaf(name: Seq<char>)
    ensures
        match spec_group_path(name, false) {
            Some(g) => g == split_on(name, '/') && g.last() == split_on(name, '/').last(),
            None => split_on(name, '/').len() == 1 && split_on(name, '/').last() == split_on(name, '/')[0],
        },
{
    lemma_split_nonempty(name, '/');
}

/// What a checked-out ref is, and whether HEAD stays attached to it: a local
/// branch is checked out as a branch, else a tag name as a tag, else the ref
/// as a commit; only a branch leaves HEAD attached.
pub fn checkout_plan(is_local_branch: bool, is_tag: bool) -> (r: (RefKind, bool))
    ensures
        r.0 == (if is_local_branch {
            RefKind::Branch
        } else if is_tag {
            RefKind::Tag
        } else {
            RefKind::Commit
        }),
        r.1 == is_local_branch,
{
    if is_local_branch {
        (RefKind::Branch, true)
    } else if is_tag {
        (RefKind::Tag, false)
    } else {
        (RefKind::Commit, false)
    }
}

/// The ref a checkout is asked for, trimmed; it must hold between 1 and 512
/// bytes.
pub fn validate_checkout_ref(ref_str: &str) -> (r: Result<String, crate::git::error::GitError>)
    ensures
        ({
            let t = crate::text::trim(ref_str@);
            if t.len() == 0 || vstd::utf8::encode_utf8(t).len() > 512 {
                r matches Err(crate::git::error::GitError::InvalidInput { message }) && message@ == "ref must be 1–512 characters"@
            } else {
                r matches Ok(v) && v@ == t
            }
        }),
{
    let t = crate::text::trimmed_chars(ref_str);
    if t.len() == 0 || crate::text::utf8_longer_than(&t, 512) {
        return Err(crate::git::error::GitError::InvalidInput { message: String::from_str("ref must be 1–512 characters") });
    }
    Ok(string_from_chars(t.as_slice()))
}

/// The local branch name of a remote branch ref (`origin/feature/x` gives
/// `feature/x`); a ref without `/` is refused.
pub fn remote_branch_local_name(remote_ref: &str) -> (r: Result<String, crate::git::error::GitError>)
    ensures
        match after_first_slash(remote_ref@) {
            Some(local) => r matches Ok(s) && s@ == local,
            None => r matches Err(crate::git::error::GitError::OperationFailed { operation, details })
                && operation@ == "checkout_remote_branch"@ && details@ == "invalid remote branch ref: "@ + remote_ref@,
        },
{
    let v = chars_of(remote_ref);
    let parts = split_chars(&v, '/');
    proof {
        lemma_split_nonempty(v@, '/');
    }
    if parts.len() > 1 {
        let n = v.len();
        proof {
            assert(parts@.map_values(|p: Vec<char>| p@)[0] == parts@[0]@);
            assert(split_on(v@, '/').len() > 1);
            lemma_first_part_len(v@, '/');
        }
        let start = parts[0].len() + 1;
        Ok(string_from_chars(crate::text::char_range(&v, start, n).as_slice()))
    } else {
        let mut details = String::from_str("invalid remote branch ref: ");
        push_all(&mut details, remote_ref);
        Err(crate::git::error::GitError::OperationFailed { operation: String::from_str("checkout_remote_branch"), details })
    }
}

/// Whether deleting a local branch is refused, in the order the checks are
/// made: a branch that is not merged (unless forced), a branch that does
/// not exist, the checked-out branch.
pub fn check_branch_deletion(name: &str, force: bool, merged: bool, found: bool, is_head: bool) -> (r: Result<
    (),
    crate::git::error::GitError,
>)
    ensures
        (!force && !merged) ==> (r matches Err(crate::git::error::GitError::OperationFailed { operation, details })
            && operation@ == "delete_branch"@ && details@ == "branch '"@ + name@ + "' is not fully merged"@),
        (force || merged) && !found ==> (r matches Err(crate::git::error::GitError::BranchNotFound { name: n }) && n@ == name@),
        (force || merged) && found && is_head ==> (r matches Err(crate::git::error::GitError::OperationFailed { operation, details })
            && operation@ == "delete_branch"@ && details@ == "cannot delete the checked-out branch '"@ + name@ + "'"@),
        (force || merged) && found && !is_head ==> r is Ok,
{
    if !force && !merged {
        let mut details = String::from_str("branch '");
        push_all(&mut details, name);
        push_all(&mut details, "' is not fully merged");
        return Err(crate::git::error::GitError::OperationFailed { operation: String::from_str("delete_branch"), details });
    }
    if !found {
        return Err(crate::git::error::GitError::BranchNotFound { name: String::from_str(name) });
    }
    if is_head {
        let mut details = String::from_str("cannot delete the checked-out branch '");
        push_all(&mut details, name);
        push_all(&mut details, "'");
        return Err(crate::git::error::GitError::OperationFailed { operation: String::from_str("delete_branch"), details });
    }
    Ok(())
}

/// Whether a checkout failed because local changes would be overwritten:
/// its message, in lower case, mentions overwriting, stashing or local
/// changes.
pub open spec fn spec_is_checkout_conflict_error(e: crate::git::error::GitError) -> bool {
    spec_mentions_checkout_conflict(lowercase(crate::git::error::error_message(e)))
}

/// Whether a lower-case error message tells of local changes that a checkout
/// would overwrite: it mentions overwriting, stashing or local changes.
pub open spec fn spec_mentions_checkout_conflict(m: Seq<char>) -> bool {
    contains_seq(m, "would be overwritten"@) || contains_seq(m, "please commit your changes or stash them"@)
        || contains_seq(m, "local changes"@)
}

/// Whether a lower-case error message tells of local changes that a checkout
/// would overwrite.
pub fn mentions_checkout_conflict(lower_message: &str) -> (r: bool)
    ensures
        r == spec_mentions_checkout_conflict(lower_message@),
{
    let lower = chars_of(lower_message);
    let a = chars_of("would be overwritten");
    let b = chars_of("please commit your changes or stash them");
    let c = chars_of("local changes");
    chars_contain(&lower, &a) || chars_contain(&lower, &b) || chars_contain(&lower, &c)
}

/// Whether a checkout error is due to uncommitted changes that would be
/// overwritten.
pub fn is_checkout_conflict_error(error: &crate::git::error::GitError) -> (r: bool)
    ensures
        r == spec_is_checkout_conflict_error(*error),
{
    let msg = error.message();
    mentions_checkout_conflict(to_lowercase(msg.as_str()).as_str())
}

/// How the current branch stands against its upstream.
#[derive(Debug, Clone, Copy, PartialEq, Eq, Structural)]
pub enum SyncStatus {
    Ahead(usize),
    Behind(usize),
    Diverged { ahead: usize, behind: usize },
    Synced,
    NoUpstream,
    Unknown,
}

/// The short tracking label of a sync status: `↑n`, `↓n`, `↕a/b`, `✓`,
/// `?`, or none without an upstream.
pub open spec fn spec_tracking_label(status: SyncStatus) -> Option<Seq<char>> {
    match status {
        SyncStatus::Ahead(n) => Some(seq!['↑'] + decimal(n as nat)),
        SyncStatus::Behind(n) => Some(seq!['↓'] + decimal(n as nat)),
        SyncStatus::Diverged { ahead, behind } => Some(seq!['↕'] + decimal(ahead as nat) + seq!['/'] + decimal(behind as nat)),
        SyncStatus::Synced => Some(seq!['✓']),
        SyncStatus::NoUpstream => None,
        SyncStatus::Unknown => Some(seq!['?']),
    }
}

/// The tracking label shown on the current branch.
pub fn tracking_label(status: SyncStatus) -> (r: Option<String>)
    ensures
        match r {
            Some(s) => spec_tracking_label(status) == Some(s@),
            None => spec_tracking_label(status) is None,
        },
{
    match status {
        SyncStatus::Ahead(n) => {
            let mut s = String::new();
            push_char(&mut s, '↑');
            let d = u64_to_decimal(n as u64);
            push_all(&mut s, d.as_str());
            Some(s)
        },
        SyncStatus::Behind(n) => {
            let mut s = String::new();
            push_char(&mut s, '↓');
            let d = u64_to_decimal(n as u64);
            push_all(&mut s, d.as_str());
            Some(s)
        },
        SyncStatus::Diverged { ahead, behind } => {
            let mut s = String::new();
            push_char(&mut s, '↕');
            let a = u64_to_decimal(ahead as u64);
            push_all(&mut s, a.as_str());
            push_char(&mut s, '/');
            let b = u64_to_decimal(behind as u64);
            push_all(&mut s, b.as_str());
            Some(s)
        },
        SyncStatus::Synced => {
            let mut s = String::new();
            push_char(&mut s, '✓');
            Some(s)
        },
        SyncStatus::NoUpstream => None,
        SyncStatus::Unknown => {
            let mut s = String::new();
            push_char(&mut s, '?');
            Some(s)
        },
    }
}

/// What the repository reports of one branch when branches are listed.
#[derive(Debug, Clone)]
pub struct BranchListing {
    pub name: String,
    pub is_remote: bool,
    /// The commit the branch points at, when it peels to one.
    pub oid: Option<String>,
    /// That commit's time, in seconds.
    pub last_commit_timestamp: Option<i64>,
    /// Whether the branch is the one HEAD points at.
    pub is_head_ref: bool,
    /// The full ref name of the upstream, when there is one.
    pub upstream_ref: Option<String>,
}

/// An upstream ref name without its `refs/remotes/` prefix.
pub open spec fn spec_upstream_name(full: Seq<char>) -> Seq<char> {
    if starts_with(full, "refs/remotes/"@) {
        full.subrange(13, full.len() as int)
    } else {
        full
    }
}

fn upstream_name(full: &str) -> (r: String)
    ensures
        r@ == spec_upstream_name(full@),
{
    let v = chars_of(full);
    proof {
        reveal_strlit("refs/remotes/");
    }
    if chars_start_with(&v, "refs/remotes/") {
        string_from_chars(crate::text::char_range(&v, 13, v.len()).as_slice())
    } else {
        string_from_chars(v.as_slice())
    }
}

/// Whether a listed branch is the current one: HEAD points at it, or it is
/// the local branch of that name.
pub open spec fn listed_is_head(item: BranchListing, current_branch: Seq<char>) -> bool {
    item.is_head_ref || (!item.is_remote && item.name@ == current_branch)
}

/// The branch shown for a listed one; none for a remote's `HEAD` alias.
/// The tracking label is only given to the current branch. `sync_hint` and
/// `recency_hint` are left empty.
pub fn branch_from_listing(item: BranchListing, current_branch: &str, head_status: SyncStatus) -> (r: Option<Branch>)
    ensures
        ends_with(item.name@, "/HEAD"@) ==> r is None,
        !ends_with(item.name@, "/HEAD"@) ==> (r matches Some(b) && {
            &&& b.name == item.name
            &&& b.is_remote == item.is_remote
            &&& b.oid@ == (match item.oid { Some(o) => o@, None => Seq::<char>::empty() })
            &&& b.last_commit_timestamp == item.last_commit_timestamp
            &&& b.is_head == listed_is_head(item, current_branch@)
            &&& (match item.upstream_ref {
                Some(u) => b.upstream matches Some(n) && n@ == spec_upstream_name(u@),
                None => b.upstream is None,
            })
            &&& (if b.is_head {
                match spec_tracking_label(head_status) {
                    Some(l) => b.tracking_status matches Some(t) && t@ == l,
                    None => b.tracking_status is None,
                }
            } else {
                b.tracking_status is None
            })
            &&& b.sync_hint is None
            &&& b.recency_hint is None
            &&& (match spec_group_path(item.name@, item.is_remote) {
                Some(g) => b.group_path is Some && b.group_path->0@.map_values(|p: String| p@) == g,
                None => b.group_path is None,
            })
        }),
{
    let name_chars = chars_of(item.name.as_str());
    if chars_end_with(&name_chars, "/HEAD") {
        return None;
    }
    let is_head = item.is_head_ref || (!item.is_remote && crate::ui::diff_file_header::same_str(item.name.as_str(), current_branch));
    let oid = match item.oid {
        Some(o) => o,
        None => String::new(),
    };
    let upstream = match &item.upstream_ref {
        Some(u) => Some(upstream_name(u.as_str())),
        None => None,
    };
    let tracking_status = if is_head {
        tracking_label(head_status)
    } else {
        None
    };
    let mut b = Branch {
        name: item.name,
        oid,
        is_remote: item.is_remote,
        is_head,
        upstream,
        tracking_status,
        sync_hint: None,
        recency_hint: None,
        last_commit_timestamp: item.last_commit_timestamp,
        group_path: None,
    };
    b.compute_group_path();
    Some(b)
}

/// Whether commit time `a` is older than `b`; a branch without a commit
/// time counts as the oldest.
pub open spec fn older(a: Option<i64>, b: Option<i64>) -> bool {
    match (a, b) {
        (None, Some(_)) => true,
        (Some(x), Some(y)) => x < y,
        _ => false,
    }
}

/// The index of the first branch of `s` older than time `t` (the length
/// of `s` when there is none).
pub open spec fn first_older(s: Seq<Branch>, t: Option<i64>) -> int
    decreases s.len(),
{
    if s.len() == 0 {
        0
    } else if older(s[0].last_commit_timestamp, t) {
        0
    } else {
        1 + first_older(s.drop_first(), t)
    }
}

/// `s` sorted from the newest commit time to the oldest, keeping the
/// order of branches with the same time.
pub open spec fn by_recency(s: Seq<Branch>) -> Seq<Branch>
    decreases s.len(),
{
    if s.len() == 0 {
        s
    } else {
        let sorted = by_recency(s.drop_last());
        sorted.insert(first_older(sorted, s.last().last_commit_timestamp), s.last())
    }
}

proof fn lemma_first_older(s: Seq<Branch>, t: Option<i64>, j: int)
    requires
        0 <= j <= s.len(),
        forall|k: int| 0 <= k < j ==> !older(#[trigger] s[k].last_commit_timestamp, t),
        j == s.len() || older(s[j].last_commit_timestamp, t),
    ensures
        first_older(s, t) == j,
    decreases s.len(),
{
    if s.len() > 0 && j > 0 {
        assert forall|k: int| 0 <= k < j - 1 implies !older(#[trigger] s.drop_first()[k].last_commit_timestamp, t) by {
            assert(s.drop_first()[k] == s[k + 1]);
        }
        lemma_first_older(s.drop_first(), t, j - 1);
    }
}

/// Newest first: no branch comes before a newer one.
pub open spec fn newest_first(s: Seq<Branch>) -> bool {
    forall|i: int, j: int| 0 <= i < j < s.len() ==> !older(#[trigger] s[i].last_commit_timestamp, #[trigger] s[j].last_commit_timestamp)
}

proof fn lemma_first_older_bounds(s: Seq<Branch>, t: Option<i64>)
    ensures
        0 <= first_older(s, t) <= s.len(),
        forall|k: int| 0 <= k < first_older(s, t) ==> !older(#[trigger] s[k].last_commit_timestamp, t),
        first_older(s, t) < s.len() ==> older(s[first_older(s, t)].last_commit_timestamp, t),
    decreases s.len(),
{
    if s.len() > 0 {
        lemma_first_older_bounds(s.drop_first(), t);
        assert forall|k: int| 0 <= k < first_older(s, t) implies !older(#[trigger] s[k].last_commit_timestamp, t) by {
            if k > 0 {
                assert(s[k] == s.drop_first()[k - 1]);
            }
        }
    }
}

/// Sorting by recency gives the same branches, newest first.
pub proof fn lemma_by_recency_sorted(s: Seq<Branch>)
    ensures
        newest_first(by_recency(s)),
        by_recency(s).to_multiset() == s.to_multiset(),
        by_recency(s).len() == s.len(),
    decreases s.len(),
{
    if s.len() > 0 {
        let sorted = by_recency(s.drop_last());
        lemma_by_recency_sorted(s.drop_last());
        let x = s.last();
        let t = x.last_commit_timestamp;
        let j = first_older(sorted, t);
        lemma_first_older_bounds(sorted, t);
        let r = sorted.insert(j, x);
        assert forall|a: int, b: int| 0 <= a < b < r.len() implies !older(#[trigger] r[a].last_commit_timestamp, #[trigger] r[b].last_commit_timestamp) by {
            if b < j {
                assert(r[a] == sorted[a] && r[b] == sorted[b]);
            } else if b == j {
                assert(r[a] == sorted[a]);
            } else if a == j {
                assert(r[b] == sorted[b - 1]);
                if j < sorted.len() {
                    assert(older(sorted[j].last_commit_timestamp, t));
                    if b - 1 > j {
                        assert(!older(sorted[j].last_commit_timestamp, sorted[b - 1].last_commit_timestamp));
                    }
                }
            } else if a < j {
                assert(r[a] == sorted[a] && r[b] == sorted[b - 1]);
            } else {
                assert(r[a] == sorted[a - 1] && r[b] == sorted[b - 1]);
            }
        }
        assert(s == s.drop_last().push(x));
        vstd::seq_lib::to_multiset_insert(sorted, j, x);
        vstd::seq_lib::to_multiset_build(s.drop_last(), x);
    }
}

/// Sorts branches by commit time, newest first; branches with the same
/// time keep their order.
pub fn sort_branches_by_recency(branches: Vec<Branch>) -> (r: Vec<Branch>)
    ensures
        r@ == by_recency(branches@),
        newest_first(r@),
        r@.to_multiset() == branches@.to_multiset(),
{
    let mut input = branches;
    let ghost all = input@;
    let total = input.len();
    let mut r: Vec<Branch> = Vec::new();
    let mut rest: Vec<Branch> = Vec::new();
    // Take the branches from the back so each can be moved out.
    while input.len() > 0
        invariant
            all == input@ + rest@.reverse(),
        decreases input@.len(),
    {
        let x = input.pop().unwrap();
        proof {
            assert(rest@.push(x).reverse() == seq![x] + rest@.reverse());
        }
        rest.push(x);
        assert(all == input@ + rest@.reverse());
    }
    assert(rest@.reverse() == all);
    let mut i: usize = 0;
    assert(all.subrange(0, all.len() as int) == all);
    while rest.len() > 0
        invariant
            rest@.reverse() == all.subrange(i as int, all.len() as int),
            i + rest@.len() == all.len(),
            all.len() == total,
            r@ == by_recency(all.subrange(0, i as int)),
        decreases rest@.len(),
    {
        let ghost before = rest@;
        let x = rest.pop().unwrap();
        let ghost t = x.last_commit_timestamp;
        proof {
            assert(before == rest@.push(x));
            assert(before.reverse() == seq![x] + rest@.reverse());
            assert(all.subrange(i as int, all.len() as int)[0] == all[i as int]);
            assert(all[i as int] == x);
            assert((seq![x] + rest@.reverse()).drop_first() == rest@.reverse());
            assert(all.subrange(i as int, all.len() as int).drop_first() == all.subrange(i + 1, all.len() as int));
            lemma_first_older_bounds(r@, t);
        }
        let mut j: usize = 0;
        while j < r.len() && !older_exec(&r[j].last_commit_timestamp, &x.last_commit_timestamp)
            invariant
                j <= r@.len(),
                t == x.last_commit_timestamp,
                forall|k: int| 0 <= k < j ==> !older(#[trigger] r@[k].last_commit_timestamp, t),
            decreases r@.len() - j,
        {
            j = j + 1;
        }
        proof {
            lemma_first_older(r@, t, j as int);
            let p = all.subrange(0, i + 1);
            assert(p.drop_last() == all.subrange(0, i as int));
            assert(p.last() == x);
        }
        r.insert(j, x);
        i = i + 1;
    }
    assert(all.subrange(0, all.len() as int) == all);
    proof {
        lemma_by_recency_sorted(all);
    }
    r
}

fn older_exec(a: &Option<i64>, b: &Option<i64>) -> (r: bool)
    ensures
        r == older(*a, *b),
{
    match (a, b) {
        (None, Some(_)) => true,
        (Some(x), Some(y)) => *x < *y,
        _ => false,
    }
}

/// Status bits of a file that matches HEAD and the index.
pub const STATUS_CURRENT: u32 = 0;

/// Status bit of an ignored file.
pub const STATUS_IGNORED: u32 = 16384;

/// Whether a file's status bits count as an uncommitted change: anything but
/// an unchanged file, and not an ignored one.
pub open spec fn spec_is_uncommitted(bits: u32) -> bool {
    bits != STATUS_CURRENT && bits & STATUS_IGNORED == 0
}

/// Whether a file with these status bits is an uncommitted change.
pub fn is_uncommitted(bits: u32) -> (r: bool)
    ensures
        r == spec_is_uncommitted(bits),
{
    bits != STATUS_CURRENT && bits & STATUS_IGNORED == 0
}

/// Whether some file of the working tree holds an uncommitted change.
pub open spec fn spec_worktree_dirty(status_bits: Seq<u32>) -> bool {
    exists|i: int| 0 <= i < status_bits.len() && spec_is_uncommitted(#[trigger] status_bits[i])
}

/// A checkout is refused while the working tree, given by the status bits of
/// its files, holds an uncommitted change.
pub fn check_worktree_clean(status_bits: &Vec<u32>) -> (r: Result<(), crate::git::error::GitError>)
    ensures
        spec_worktree_dirty(status_bits@) ==> r matches Err(crate::git::error::GitError::DirtyWorkingTree),
        !spec_worktree_dirty(status_bits@) ==> r is Ok,
{
    let mut i: usize = 0;
    while i < status_bits.len()
        invariant
            i <= status_bits@.len(),
            forall|k: int| 0 <= k < i ==> !spec_is_uncommitted(#[trigger] status_bits@[k]),
        decreases status_bits@.len() - i,
    {
        if is_uncommitted(status_bits[i]) {
            return Err(crate::git::error::GitError::DirtyWorkingTree);
        }
        i = i + 1;
    }
    Ok(())
}

/// The paths of the files with an uncommitted change, in order; a file whose
/// path is not text is left out.
pub open spec fn spec_uncommitted_paths(entries: Seq<(u32, Option<Seq<char>>)>) -> Seq<Seq<char>>
    decreases entries.len(),
{
    if entries.len() == 0 {
        Seq::empty()
    } else {
        let rest = spec_uncommitted_paths(entries.drop_last());
        let e = entries.last();
        if spec_is_uncommitted(e.0) && e.1 is Some {
            rest.push(e.1->0)
        } else {
            rest
        }
    }
}

/// The views of status entries: their bits and their paths.
pub open spec fn status_entry_views(entries: Seq<(u32, Option<String>)>) -> Seq<(u32, Option<Seq<char>>)> {
    entries.map_values(|e: (u32, Option<String>)| (e.0, match e.1 {
        Some(p) => Some(p@),
        None => None,
    }))
}

/// The paths of the files with an uncommitted change, from the status bits and
/// path of each file.
pub fn uncommitted_paths(entries: &Vec<(u32, Option<String>)>) -> (r: Vec<String>)
    ensures
        r@.map_values(|p: String| p@) == spec_uncommitted_paths(status_entry_views(entries@)),
{
    let ghost ev = status_entry_views(entries@);
    let mut r: Vec<String> = Vec::new();
    let mut i: usize = 0;
    while i < entries.len()
        invariant
            i <= entries@.len(),
            ev == status_entry_views(entries@),
            r@.map_values(|p: String| p@) == spec_uncommitted_paths(ev.subrange(0, i as int)),
        decreases entries@.len() - i,
    {
        let ghost before = r@.map_values(|p: String| p@);
        assert(ev.subrange(0, i + 1).drop_last() == ev.subrange(0, i as int));
        assert(ev.subrange(0, i + 1).last() == ev[i as int]);
        let bits = entries[i].0;
        match &entries[i].1 {
            Some(p) => {
                if is_uncommitted(bits) {
                    r.push(p.clone());
                    assert(r@.map_values(|q: String| q@) == before.push(p@));
                }
            },
            None => {},
        }
        i = i + 1;
    }
    assert(ev.subrange(0, entries@.len() as int) == ev);
    r
}

/// Whether the working tree holds an uncommitted change, from the status bits
/// and path of each file: whether any such file is listed.
pub fn has_uncommitted(entries: &Vec<(u32, Option<String>)>) -> (r: bool)
    ensures
        r == (spec_uncommitted_paths(status_entry_views(entries@)).len() > 0),
{
    let paths = uncommitted_paths(entries);
    proof {
        assert(paths@.map_values(|p: String| p@).len() == paths@.len());
    }
    paths.len() > 0
}

} // verus!

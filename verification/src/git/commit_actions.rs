//! Commit-level actions: replaying, rewording, fixing up, squashing and
//! dropping commits of the current branch, resetting it and pushing part of
//! it. The repository is read and written by the caller; this module decides.
use crate::git::error::GitError;
use crate::text::{
    char_range, chars_of, lines_of, push_char, split_chars, split_on, str_lines, string_from_chars, trim, trim_end, trim_end_chars, trim_vec,
    trimmed_chars,
};
use crate::ui::autosquash::RebaseTodoItem;
use crate::ui::diff_file_header::same_str;
use vstd::prelude::*;

verus! {

/// The kind of commit replay that can stop on conflicts.
#[derive(Debug, Clone, Copy, PartialEq, Eq, Structural)]
pub enum InProgressCommitActionKind {
    CherryPick,
    Revert,
}

/// A cherry-pick or revert waiting for its conflicts to be resolved.
#[derive(Debug, Clone)]
pub struct InProgressCommitAction {
    pub kind: InProgressCommitActionKind,
    pub commit_id: Option<String>,
    pub subject: Option<String>,
    pub conflicted_files: Vec<String>,
}

/// Where "push to here" sends the current branch.
#[derive(Debug, Clone)]
pub struct PushCurrentBranchTarget {
    pub remote_name: String,
    pub local_branch_name: String,
    pub upstream_ref: String,
    pub upstream_branch_name: String,
    pub selected_commit: String,
    pub expected_remote_oid: String,
    pub is_fast_forward: bool,
    pub requires_force_with_lease: bool,
}

/// Whether a history rewrite finished or continues as an interactive rebase.
#[derive(Debug, Clone, Copy, PartialEq, Eq, Structural)]
pub enum RewriteExecution {
    Completed,
    InProgress,
}

/// How the selected commit is rewritten.
#[derive(Debug, Clone, Copy, PartialEq, Eq, Structural)]
pub enum RewriteKind {
    EditMessage,
    Fixup,
    Squash,
    Drop,
}

/// The commits a rewrite touches: the current branch's first-parent chain
/// (oldest first), the selected commit's position in it, and the commit the
/// rewritten part is built on (none: from the root).
#[derive(Debug, Clone)]
pub struct RewriteSelection {
    pub selected_oid: String,
    pub base_spec: Option<String>,
    pub chain: Vec<String>,
    pub selected_index: usize,
}

/// Reset mode.
#[derive(Debug, Clone, Copy, PartialEq, Eq, Structural)]
pub enum ResetMode {
    /// Keep changes in the working tree and the index.
    Soft,
    /// Keep changes in the working tree, unstage them (default).
    Mixed,
    /// Discard all changes.
    Hard,
}

impl ResetMode {
    /// The `git reset` flag of the mode.
    pub fn git_flag(&self) -> (f: &'static str)
        ensures
            f@ == match *self {
                ResetMode::Soft => "--soft"@,
                ResetMode::Mixed => "--mixed"@,
                ResetMode::Hard => "--hard"@,
            },
    {
        match self {
            ResetMode::Soft => "--soft",
            ResetMode::Mixed => "--mixed",
            ResetMode::Hard => "--hard",
        }
    }

    /// The display label of the mode.
    pub fn label(&self) -> (l: &'static str)
        ensures
            l@ == match *self {
                ResetMode::Soft => "Soft"@,
                ResetMode::Mixed => "Mixed"@,
                ResetMode::Hard => "Hard"@,
            },
    {
        match self {
            ResetMode::Soft => "Soft",
            ResetMode::Mixed => "Mixed",
            ResetMode::Hard => "Hard",
        }
    }
}

/// Remote and branch of an upstream reference `remote/branch`: what comes
/// before and after its first `/`.
pub open spec fn spec_parse_upstream_ref(reference: Seq<char>) -> Option<(Seq<char>, Seq<char>)> {
    let parts = split_on(reference, '/');
    if parts.len() > 1 {
        Some((parts[0], reference.subrange(parts[0].len() + 1int, reference.len() as int)))
    } else {
        None
    }
}

/// Splits an upstream reference into remote and branch.
pub fn parse_upstream_ref(reference: &str) -> (r: Option<(String, String)>)
    ensures
        match r {
            Some(p) => spec_parse_upstream_ref(reference@) == Some((p.0@, p.1@)),
            None => spec_parse_upstream_ref(reference@) is None,
        },
{
    let v = chars_of(reference);
    let parts = split_chars(&v, '/');
    proof {
        crate::text::lemma_first_part_len(v@, '/');
        crate::text::lemma_split_nonempty(v@, '/');
    }
    if parts.len() > 1 {
        let n = v.len();
        assert(parts@.map_values(|p: Vec<char>| p@)[0] == parts@[0]@);
        let start = parts[0].len() + 1;
        let rest = char_range(&v, start, n);
        Some((string_from_chars(parts[0].as_slice()), string_from_chars(rest.as_slice())))
    } else {
        None
    }
}

/// The first non-blank line among `lines` from `i` on.
pub open spec fn first_filled_line(lines: Seq<Seq<char>>, i: int) -> Option<Seq<char>>
    decreases lines.len() - i,
{
    if i < 0 || i >= lines.len() {
        None
    } else if trim(lines[i]).len() > 0 {
        Some(lines[i])
    } else {
        first_filled_line(lines, i + 1)
    }
}

/// The subject of a commit message: its first non-blank line, or the whole
/// message when every line is blank.
pub open spec fn spec_commit_subject(message: Seq<char>) -> Seq<char> {
    match first_filled_line(str_lines(message), 0) {
        Some(l) => l,
        None => message,
    }
}

/// The subject of a commit message.
pub fn commit_subject(message: &str) -> (s: String)
    ensures
        s@ == spec_commit_subject(message@),
{
    let lines = lines_of(message);
    let ghost lv = lines@.map_values(|p: Vec<char>| p@);
    let mut i: usize = 0;
    while i < lines.len()
        invariant
            i <= lines@.len(),
            lv == lines@.map_values(|p: Vec<char>| p@),
            lv == str_lines(message@),
            first_filled_line(lv, 0) == first_filled_line(lv, i as int),
        decreases lines@.len() - i,
    {
        let line = &lines[i];
        assert(lv[i as int] == line@);
        let t = trim_vec(line);
        if t.len() > 0 {
            return string_from_chars(line.as_slice());
        }
        i = i + 1;
    }
    String::from_str(message)
}

/// The message of a squash: the target's message (without trailing white
/// space), a blank line, and the squashed commit's trimmed message; when one
/// of them is empty, the other alone (the target's untrimmed).
pub open spec fn spec_squash_message(parent: Seq<char>, source: Seq<char>) -> Seq<char> {
    if trim(source).len() == 0 {
        parent
    } else if trim_end(parent).len() == 0 {
        trim(source)
    } else {
        trim_end(parent) + "\n\n"@ + trim(source)
    }
}

/// Combines the messages of a squash.
pub fn squash_message(parent: &str, source: &str) -> (m: String)
    ensures
        m@ == spec_squash_message(parent@, source@),
{
    let s = trimmed_chars(source);
    if s.len() == 0 {
        return String::from_str(parent);
    }
    let p = trim_end_chars(&chars_of(parent));
    if p.len() == 0 {
        return string_from_chars(s.as_slice());
    }
    let mut m = string_from_chars(p.as_slice());
    push_char(&mut m, '\n');
    push_char(&mut m, '\n');
    let tail = string_from_chars(s.as_slice());
    m.append(tail.as_str());
    proof {
        reveal_strlit("\n\n");
        assert("\n\n"@ == seq!['\n', '\n']);
    }
    m
}

/// The refspec that publishes `selected` as the upstream branch, forced
/// (`+`) when it is not a fast-forward.
pub open spec fn spec_push_refspec(selected: Seq<char>, upstream_branch: Seq<char>, force: bool) -> Seq<char> {
    let plain = selected + ":refs/heads/"@ + upstream_branch;
    if force {
        seq!['+'] + plain
    } else {
        plain
    }
}

/// The refspec of a push to `target`.
pub fn push_refspec(target: &PushCurrentBranchTarget) -> (r: String)
    ensures
        r@ == spec_push_refspec(target.selected_commit@, target.upstream_branch_name@, target.requires_force_with_lease),
{
    let mut r = String::new();
    if target.requires_force_with_lease {
        push_char(&mut r, '+');
    }
    r.append(target.selected_commit.as_str());
    r.append(":refs/heads/");
    r.append(target.upstream_branch_name.as_str());
    r
}

fn push_failure(details: String) -> (e: GitError)
    ensures
        e matches GitError::OperationFailed { operation, details: d } && operation@ == "push-to-here"@ && d@ == details@,
{
    GitError::OperationFailed { operation: String::from_str("push-to-here"), details }
}

pub open spec fn push_error(e: GitError, details: Seq<char>) -> bool {
    e matches GitError::OperationFailed { operation, details: d } && operation@ == "push-to-here"@ && d@ == details
}

/// Decides where "push to here" goes, from what the repository says: the
/// checked-out branch (none when HEAD is detached), its upstream reference,
/// whether the selected commit is in the current history, the selected and
/// upstream commits, and whether the upstream commit is in the selected
/// commit's history (a fast-forward). The checks fail in that order.
pub fn resolve_push_current_branch_target(
    local_branch_name: Option<String>,
    upstream_ref: Option<String>,
    selected_in_history: bool,
    selected_oid: String,
    upstream_oid: String,
    upstream_in_selected: bool,
) -> (r: Result<PushCurrentBranchTarget, GitError>)
    ensures
        match (local_branch_name, upstream_ref) {
            (None, _) => r matches Err(e) && push_error(e, "当前为 detached HEAD，无法解析当前分支的远端目标"@),
            (Some(b), None) => r matches Err(e) && push_error(e, "当前分支 "@ + b@ + " 还没有配置上游"@),
            (Some(b), Some(u)) => match spec_parse_upstream_ref(u@) {
                None => r matches Err(e) && push_error(e, "无法解析上游分支 "@ + u@),
                Some((remote, branch)) => if !selected_in_history {
                    r matches Err(e) && push_error(e, "只能把当前分支的远端发布到当前分支历史上的祖先提交"@)
                } else {
                    r matches Ok(t) && {
                        &&& t.remote_name@ == remote
                        &&& t.local_branch_name@ == b@
                        &&& t.upstream_ref@ == u@
                        &&& t.upstream_branch_name@ == branch
                        &&& t.selected_commit@ == selected_oid@
                        &&& t.expected_remote_oid@ == upstream_oid@
                        &&& t.is_fast_forward == upstream_in_selected
                        &&& t.requires_force_with_lease == !upstream_in_selected
                    }
                },
            },
        },
{
    let local = match local_branch_name {
        Some(b) => b,
        None => return Err(push_failure(String::from_str("当前为 detached HEAD，无法解析当前分支的远端目标"))),
    };
    let upstream = match upstream_ref {
        Some(u) => u,
        None => {
            let mut d = String::from_str("当前分支 ");
            d.append(local.as_str());
            d.append(" 还没有配置上游");
            return Err(push_failure(d));
        },
    };
    let (remote_name, upstream_branch_name) = match parse_upstream_ref(upstream.as_str()) {
        Some(p) => p,
        None => {
            let mut d = String::from_str("无法解析上游分支 ");
            d.append(upstream.as_str());
            return Err(push_failure(d));
        },
    };
    if !selected_in_history {
        return Err(push_failure(String::from_str("只能把当前分支的远端发布到当前分支历史上的祖先提交")));
    }
    Ok(PushCurrentBranchTarget {
        remote_name,
        local_branch_name: local,
        upstream_ref: upstream,
        upstream_branch_name,
        selected_commit: selected_oid,
        expected_remote_oid: upstream_oid,
        is_fast_forward: upstream_in_selected,
        requires_force_with_lease: !upstream_in_selected,
    })
}

pub open spec fn opt_views(o: Option<String>) -> Option<Seq<char>> {
    match o {
        Some(s) => Some(s@),
        None => None,
    }
}

pub open spec fn views(v: Seq<String>) -> Seq<Seq<char>> {
    v.map_values(|s: String| s@)
}

/// First index at or after `i` where `chain` holds `oid`.
pub open spec fn position_from(chain: Seq<Seq<char>>, oid: Seq<char>, i: int) -> Option<int>
    decreases chain.len() - i,
{
    if i < 0 || i >= chain.len() {
        None
    } else if chain[i] == oid {
        Some(i)
    } else {
        position_from(chain, oid, i + 1)
    }
}

proof fn lemma_position_range(chain: Seq<Seq<char>>, oid: Seq<char>, i: int)
    ensures
        match position_from(chain, oid, i) {
            Some(k) => 0 <= k < chain.len() && chain[k] == oid,
            None => true,
        },
    decreases chain.len() - i,
{
    if 0 <= i < chain.len() && chain[i] != oid {
        lemma_position_range(chain, oid, i + 1);
    }
}

fn position_of(chain: &Vec<String>, oid: &str) -> (r: Option<usize>)
    ensures
        match r {
            Some(k) => k < chain@.len() && position_from(views(chain@), oid@, 0) == Some(k as int),
            None => position_from(views(chain@), oid@, 0) is None,
        },
{
    let mut i: usize = 0;
    while i < chain.len()
        invariant
            i <= chain@.len(),
            position_from(views(chain@), oid@, 0) == position_from(views(chain@), oid@, i as int),
        decreases chain@.len() - i,
    {
        assert(views(chain@)[i as int] == chain@[i as int]@);
        if same_str(chain[i].as_str(), oid) {
            return Some(i);
        }
        i = i + 1;
    }
    None
}

pub open spec fn op_error(e: GitError, operation: Seq<char>, details: Seq<char>) -> bool {
    e matches GitError::OperationFailed { operation: o, details: d } && o@ == operation && d@ == details
}

fn op_failure(operation: &str, details: &str) -> (e: GitError)
    ensures
        op_error(e, operation@, details@),
{
    GitError::OperationFailed { operation: String::from_str(operation), details: String::from_str(details) }
}

/// Where the rewritten part of the chain starts.
pub open spec fn range_start(kind: RewriteKind, selected_index: int) -> int {
    match kind {
        RewriteKind::EditMessage | RewriteKind::Drop => selected_index,
        RewriteKind::Fixup | RewriteKind::Squash => if selected_index == 0 {
            0
        } else {
            selected_index - 1
        },
    }
}

/// Chooses what a rewrite of `selected_oid` touches on the current branch's
/// first-parent chain (oldest first). The selected commit must be on the
/// chain and must not be a merge, and a fixup or squash needs a commit before
/// it. The rewritten part starts at the selected commit, or the one before it
/// for a fixup or squash, and is built on the commit just before that.
pub fn select_rewrite_range(
    chain: Vec<String>,
    selected_oid: String,
    selected_parent_count: usize,
    operation: &str,
    kind: RewriteKind,
) -> (r: Result<RewriteSelection, GitError>)
    ensures
        match position_from(views(chain@), selected_oid@, 0) {
            None => r matches Err(e) && op_error(e, operation@, "暂只支持改写当前分支第一父链上的提交"@),
            Some(k) => if selected_parent_count > 1 {
                r matches Err(e) && op_error(e, operation@, "merge 提交暂不支持直接改说明、fixup、squash 或删除"@)
            } else if (kind == RewriteKind::Fixup || kind == RewriteKind::Squash) && k == 0 {
                r matches Err(e) && op_error(e, operation@, "根提交前面没有可合并的目标提交"@)
            } else {
                r matches Ok(sel) && {
                    &&& sel.selected_oid@ == selected_oid@
                    &&& sel.chain == chain
                    &&& sel.selected_index == k
                    &&& if range_start(kind, k) == 0 {
                        sel.base_spec is None
                    } else {
                        sel.base_spec matches Some(b) && b@ == chain@[range_start(kind, k) - 1]@
                    }
                }
            },
        },
{
    let selected_index = match position_of(&chain, selected_oid.as_str()) {
        Some(k) => k,
        None => return Err(op_failure(operation, "暂只支持改写当前分支第一父链上的提交")),
    };
    if selected_parent_count > 1 {
        return Err(op_failure(operation, "merge 提交暂不支持直接改说明、fixup、squash 或删除"));
    }
    let combining = match kind {
        RewriteKind::Fixup | RewriteKind::Squash => true,
        _ => false,
    };
    if combining && selected_index == 0 {
        return Err(op_failure(operation, "根提交前面没有可合并的目标提交"));
    }
    let start: usize = if combining {
        selected_index - 1
    } else {
        selected_index
    };
    let base_spec = if start == 0 {
        None
    } else {
        Some(chain[start - 1].clone())
    };
    Ok(RewriteSelection { selected_oid, base_spec, chain, selected_index })
}

/// One commit of a planned rewrite: replayed on the new head with a message,
/// or folded into the new head, which then takes the message.
#[derive(Debug, Clone)]
pub enum RewriteStep {
    Replay { commit: String, message: String },
    Combine { commit: String, message: String },
}

/// A rewrite step as plain values: folded or not, commit, message.
pub type StepView = (bool, Seq<char>, Seq<char>);

pub open spec fn step_view(s: RewriteStep) -> StepView {
    match s {
        RewriteStep::Replay { commit, message } => (false, commit@, message@),
        RewriteStep::Combine { commit, message } => (true, commit@, message@),
    }
}

/// Why a rewrite cannot be planned.
#[derive(Debug, Clone, Copy, PartialEq, Eq, Structural)]
pub enum RewriteFailure {
    /// A merge commit lies in the rewritten part.
    MergeInRange,
    /// A fixup has no commit before it to fold into.
    NoFixupTarget,
    /// A squash has no commit before it to fold into.
    NoSquashTarget,
    /// Nothing would be left on the branch.
    EmptyResult,
}

/// Plan state: the message of the new head (none before the first commit)
/// and the steps so far.
pub type PlanState = (Option<Seq<char>>, Seq<StepView>);

/// Planning of the commit at chain index `k`.
pub open spec fn plan_step(
    st: PlanState,
    chain: Seq<Seq<char>>,
    messages: Seq<Seq<char>>,
    parent_counts: Seq<usize>,
    selected: Seq<char>,
    kind: RewriteKind,
    override_message: Option<Seq<char>>,
    k: int,
) -> Result<PlanState, RewriteFailure> {
    let (head, steps) = st;
    if parent_counts[k] > 1 {
        Err(RewriteFailure::MergeInRange)
    } else if chain[k] == selected {
        match kind {
            RewriteKind::Drop => Ok(st),
            RewriteKind::EditMessage => {
                let m = match override_message {
                    Some(o) => o,
                    None => messages[k],
                };
                Ok((Some(m), steps.push((false, chain[k], m))))
            },
            RewriteKind::Fixup => match head {
                None => Err(RewriteFailure::NoFixupTarget),
                Some(h) => Ok((Some(h), steps.push((true, chain[k], h)))),
            },
            RewriteKind::Squash => match head {
                None => Err(RewriteFailure::NoSquashTarget),
                Some(h) => {
                    let m = spec_squash_message(h, messages[k]);
                    Ok((Some(m), steps.push((true, chain[k], m))))
                },
            },
        }
    } else {
        Ok((Some(messages[k]), steps.push((false, chain[k], messages[k]))))
    }
}

/// Planning of chain indexes `start .. k`.
pub open spec fn plan_fold(
    init: PlanState,
    chain: Seq<Seq<char>>,
    messages: Seq<Seq<char>>,
    parent_counts: Seq<usize>,
    selected: Seq<char>,
    kind: RewriteKind,
    override_message: Option<Seq<char>>,
    start: int,
    k: int,
) -> Result<PlanState, RewriteFailure>
    decreases k - start,
{
    if k <= start {
        Ok(init)
    } else {
        match plan_fold(init, chain, messages, parent_counts, selected, kind, override_message, start, k - 1) {
            Err(f) => Err(f),
            Ok(st) => plan_step(st, chain, messages, parent_counts, selected, kind, override_message, k - 1),
        }
    }
}

proof fn lemma_fold_failure_persists(
    init: PlanState,
    chain: Seq<Seq<char>>,
    messages: Seq<Seq<char>>,
    parent_counts: Seq<usize>,
    selected: Seq<char>,
    kind: RewriteKind,
    override_message: Option<Seq<char>>,
    start: int,
    k: int,
    m: int,
)
    requires
        start <= k <= m,
        plan_fold(init, chain, messages, parent_counts, selected, kind, override_message, start, k) is Err,
    ensures
        plan_fold(init, chain, messages, parent_counts, selected, kind, override_message, start, m) == plan_fold(
            init,
            chain,
            messages,
            parent_counts,
            selected,
            kind,
            override_message,
            start,
            k,
        ),
    decreases m - k,
{
    if m > k {
        lemma_fold_failure_persists(init, chain, messages, parent_counts, selected, kind, override_message, start, k, m - 1);
    }
}

/// Where the replay starts: just after the base commit when it is on the
/// chain, else at the root.
pub open spec fn replay_start(chain: Seq<Seq<char>>, base: Option<Seq<char>>) -> int {
    match base {
        Some(b) => match position_from(chain, b, 0) {
            Some(i) => i + 1,
            None => 0,
        },
        None => 0,
    }
}

/// The whole plan: the steps, unless a failure stops it or nothing would be
/// left on the branch.
pub open spec fn spec_plan_rewrite(
    chain: Seq<Seq<char>>,
    messages: Seq<Seq<char>>,
    parent_counts: Seq<usize>,
    selected: Seq<char>,
    base: Option<Seq<char>>,
    base_message: Seq<char>,
    kind: RewriteKind,
    override_message: Option<Seq<char>>,
) -> Result<Seq<StepView>, RewriteFailure> {
    let init: PlanState = (
        match base {
            Some(_) => Some(base_message),
            None => None,
        },
        Seq::empty(),
    );
    match plan_fold(init, chain, messages, parent_counts, selected, kind, override_message, replay_start(chain, base), chain.len() as int) {
        Err(f) => Err(f),
        Ok((head, steps)) => if head is None {
            Err(RewriteFailure::EmptyResult)
        } else {
            Ok(steps)
        },
    }
}

/// Plans the rewrite of the selected commit on the first-parent chain:
/// every commit after the base is replayed in order on the new head with its
/// own message, except the selected one, which is left out (drop), replayed
/// with the new message (reword), or folded into the new head keeping that
/// head's message (fixup) or joining both messages (squash). `messages` and
/// `parent_counts` describe the chain's commits; `base_message` is the base
/// commit's message.
pub fn plan_rewrite(
    selection: &RewriteSelection,
    kind: RewriteKind,
    override_message: Option<&str>,
    messages: &Vec<String>,
    parent_counts: &Vec<usize>,
    base_message: &str,
) -> (r: Result<Vec<RewriteStep>, RewriteFailure>)
    requires
        messages@.len() == selection.chain@.len(),
        parent_counts@.len() == selection.chain@.len(),
    ensures
        match spec_plan_rewrite(
            views(selection.chain@),
            views(messages@),
            parent_counts@,
            selection.selected_oid@,
            opt_views(selection.base_spec),
            base_message@,
            kind,
            match override_message {
                Some(o) => Some(o@),
                None => None,
            },
        ) {
            Ok(steps) => r matches Ok(v) && v@.map_values(|s: RewriteStep| step_view(s)) == steps,
            Err(f) => r == Err::<Vec<RewriteStep>, RewriteFailure>(f),
        },
{
    let ghost chain = views(selection.chain@);
    let ghost msgs = views(messages@);
    let ghost ovr = match override_message {
        Some(o) => Some(o@),
        None => None,
    };
    let ghost base = opt_views(selection.base_spec);
    let n = selection.chain.len();
    let start: usize = match &selection.base_spec {
        Some(b) => match position_of(&selection.chain, b.as_str()) {
            Some(i) => i + 1,
            None => 0,
        },
        None => 0,
    };
    let mut head: Option<String> = match &selection.base_spec {
        Some(_) => Some(String::from_str(base_message)),
        None => None,
    };
    let ghost init: PlanState = (
        match base {
            Some(_) => Some(base_message@),
            None => None,
        },
        Seq::empty(),
    );
    let mut steps: Vec<RewriteStep> = Vec::new();
    assert(steps@.map_values(|s: RewriteStep| step_view(s)) == Seq::<StepView>::empty());
    assert(start == replay_start(chain, base));
    let mut k: usize = start;
    while k < n
        invariant
            start <= k <= n,
            n == selection.chain@.len(),
            messages@.len() == n,
            parent_counts@.len() == n,
            chain == views(selection.chain@),
            msgs == views(messages@),
            start == replay_start(chain, base),
            base == opt_views(selection.base_spec),
            ovr == match override_message {
                Some(o) => Some(o@),
                None => None,
            },
            init == (
                match base {
                    Some(_) => Some(base_message@),
                    None => None,
                },
                Seq::<StepView>::empty(),
            ),
            plan_fold(init, chain, msgs, parent_counts@, selection.selected_oid@, kind, ovr, start as int, k as int) == Ok::<PlanState, RewriteFailure>((
                opt_views(head),
                steps@.map_values(|s: RewriteStep| step_view(s)),
            )),
        decreases n - k,
    {
        let ghost before = steps@.map_values(|s: RewriteStep| step_view(s));
        assert(chain[k as int] == selection.chain@[k as int]@);
        assert(msgs[k as int] == messages@[k as int]@);
        let ghost prev: PlanState = (
            opt_views(head),
            before,
        );
        if parent_counts[k] > 1 {
            proof {
                assert(plan_fold(init, chain, msgs, parent_counts@, selection.selected_oid@, kind, ovr, start as int, k + 1) == Err::<PlanState, RewriteFailure>(RewriteFailure::MergeInRange));
                lemma_fold_failure_persists(init, chain, msgs, parent_counts@, selection.selected_oid@, kind, ovr, start as int, k + 1, n as int);
            }
            return Err(RewriteFailure::MergeInRange);
        }
        let commit = &selection.chain[k];
        if same_str(commit.as_str(), selection.selected_oid.as_str()) {
            match kind {
                RewriteKind::Drop => {},
                RewriteKind::EditMessage => {
                    let m = match override_message {
                        Some(o) => String::from_str(o),
                        None => messages[k].clone(),
                    };
                    steps.push(RewriteStep::Replay { commit: commit.clone(), message: m.clone() });
                    head = Some(m);
                },
                RewriteKind::Fixup => {
                    match &head {
                        None => {
                            proof {
                                lemma_fold_failure_persists(init, chain, msgs, parent_counts@, selection.selected_oid@, kind, ovr, start as int, k + 1, n as int);
                            }
                            return Err(RewriteFailure::NoFixupTarget);
                        },
                        Some(h) => {
                            steps.push(RewriteStep::Combine { commit: commit.clone(), message: h.clone() });
                        },
                    }
                },
                RewriteKind::Squash => {
                    let m = match &head {
                        None => {
                            proof {
                                lemma_fold_failure_persists(init, chain, msgs, parent_counts@, selection.selected_oid@, kind, ovr, start as int, k + 1, n as int);
                            }
                            return Err(RewriteFailure::NoSquashTarget);
                        },
                        Some(h) => squash_message(h.as_str(), messages[k].as_str()),
                    };
                    steps.push(RewriteStep::Combine { commit: commit.clone(), message: m.clone() });
                    head = Some(m);
                },
            }
        } else {
            steps.push(RewriteStep::Replay { commit: commit.clone(), message: messages[k].clone() });
            head = Some(messages[k].clone());
        }
        proof {
            let now = steps@.map_values(|s: RewriteStep| step_view(s));
            if now.len() == before.len() + 1 {
                assert(now == before.push(now.last()));
            } else {
                assert(now == before);
            }
            assert(plan_step(prev, chain, msgs, parent_counts@, selection.selected_oid@, kind, ovr, k as int) == Ok::<PlanState, RewriteFailure>((
                opt_views(head),
                now,
            )));
        }
        k = k + 1;
    }
    proof {
        if let Some(b) = base {
            lemma_position_range(chain, b, 0);
        }
    }
    match head {
        None => Err(RewriteFailure::EmptyResult),
        Some(_) => Ok(steps),
    }
}

/// Dropping needs another commit to remain: the only (root) commit of a
/// branch cannot be dropped.
pub fn check_drop_allowed(selection: &RewriteSelection) -> (r: Result<(), GitError>)
    ensures
        (selection.selected_index == 0 && selection.chain@.len() == 1) ==> (r matches Err(e) && op_error(e, "drop"@, "当前分支只剩下这一条根提交，不能直接删除"@)),
        !(selection.selected_index == 0 && selection.chain@.len() == 1) ==> r is Ok,
{
    if selection.selected_index == 0 && selection.chain.len() == 1 {
        Err(op_failure("drop", "当前分支只剩下这一条根提交，不能直接删除"))
    } else {
        Ok(())
    }
}

/// The todo list of an interactive "edit message" rebase: every commit after
/// the base, `edit` for the selected one and `pick` for the others.
pub fn edit_todo_entries(selection: &RewriteSelection) -> (todo: Vec<RebaseTodoItem>)
    ensures
        todo@.len() == selection.chain@.len() - replay_start(views(selection.chain@), opt_views(selection.base_spec)),
        forall|i: int| 0 <= i < todo@.len() ==> {
            let k = i + replay_start(views(selection.chain@), opt_views(selection.base_spec));
            &&& (#[trigger] todo@[i]).commit@ == selection.chain@[k]@
            &&& todo@[i].message@.len() == 0
            &&& todo@[i].action@ == if selection.chain@[k]@ == selection.selected_oid@ {
                "edit"@
            } else {
                "pick"@
            }
        },
{
    let ghost chain = views(selection.chain@);
    let ghost base = opt_views(selection.base_spec);
    let n = selection.chain.len();
    let start: usize = match &selection.base_spec {
        Some(b) => match position_of(&selection.chain, b.as_str()) {
            Some(i) => i + 1,
            None => 0,
        },
        None => 0,
    };
    proof {
        if let Some(b) = base {
            lemma_position_range(chain, b, 0);
        }
    }
    assert(start == replay_start(chain, base));
    let mut todo: Vec<RebaseTodoItem> = Vec::new();
    let mut k: usize = start;
    while k < n
        invariant
            start <= k <= n,
            n == selection.chain@.len(),
            chain == views(selection.chain@),
            start == replay_start(chain, base),
            base == opt_views(selection.base_spec),
            todo@.len() == k - start,
            forall|i: int| 0 <= i < todo@.len() ==> {
                let j = i + start;
                &&& (#[trigger] todo@[i]).commit@ == selection.chain@[j]@
                &&& todo@[i].message@.len() == 0
                &&& todo@[i].action@ == if selection.chain@[j]@ == selection.selected_oid@ {
                    "edit"@
                } else {
                    "pick"@
                }
            },
        decreases n - k,
    {
        let action = if same_str(selection.chain[k].as_str(), selection.selected_oid.as_str()) {
            String::from_str("edit")
        } else {
            String::from_str("pick")
        };
        todo.push(RebaseTodoItem { action, commit: selection.chain[k].clone(), message: String::new() });
        k = k + 1;
    }
    todo
}

/// The error reported for a failed rewrite plan.
pub fn rewrite_failure_error(f: RewriteFailure) -> (e: GitError)
    ensures
        match f {
            RewriteFailure::MergeInRange => e matches GitError::InvalidInput { message } && message@ == "整理范围包含 merge 提交，不能按线性历史改写"@,
            RewriteFailure::NoFixupTarget => op_error(e, "fixup"@, "根提交前面没有可合并的目标提交"@),
            RewriteFailure::NoSquashTarget => op_error(e, "squash"@, "根提交前面没有可合并的目标提交"@),
            RewriteFailure::EmptyResult => op_error(e, "rewrite"@, "历史改写结果为空，无法更新分支"@),
        },
{
    match f {
        RewriteFailure::MergeInRange => GitError::InvalidInput { message: String::from_str("整理范围包含 merge 提交，不能按线性历史改写") },
        RewriteFailure::NoFixupTarget => op_failure("fixup", "根提交前面没有可合并的目标提交"),
        RewriteFailure::NoSquashTarget => op_failure("squash", "根提交前面没有可合并的目标提交"),
        RewriteFailure::EmptyResult => op_failure("rewrite", "历史改写结果为空，无法更新分支"),
    }
}

/// A history action needs a repository in no other Git operation
/// (`in_progress` names the one under way) and with nothing uncommitted.
pub fn check_clean_worktree(operation: &str, in_progress: &Option<String>, dirty: bool) -> (r: Result<(), GitError>)
    ensures
        in_progress matches Some(what) ==> (r matches Err(e) && op_error(e, operation@, "当前仓库正处于 "@ + what@ + "，请先完成或中止当前流程"@)),
        in_progress is None && dirty ==> (r matches Err(e) && op_error(e, operation@, "当前仓库还有未提交改动，请先提交、暂存或清理工作区"@)),
        in_progress is None && !dirty ==> r is Ok,
{
    if let Some(what) = in_progress {
        let mut details = String::from_str("当前仓库正处于 ");
        crate::text::push_all(&mut details, what.as_str());
        crate::text::push_all(&mut details, "，请先完成或中止当前流程");
        return Err(GitError::OperationFailed { operation: String::from_str(operation), details });
    }
    if dirty {
        return Err(op_failure(operation, "当前仓库还有未提交改动，请先提交、暂存或清理工作区"));
    }
    Ok(())
}

/// A history rewrite works on the current branch, and only on commits of
/// its history.
pub fn check_rewrite_target(operation: &str, on_branch: bool, selected_in_history: bool) -> (r: Result<(), GitError>)
    ensures
        !on_branch ==> (r matches Err(e) && op_error(e, operation@, "当前为 detached HEAD，不能直接改写当前分支历史"@)),
        on_branch && !selected_in_history ==> (r matches Err(e) && op_error(e, operation@, "只能改写当前分支主线上的历史提交"@)),
        on_branch && selected_in_history ==> r is Ok,
{
    if !on_branch {
        return Err(op_failure(operation, "当前为 detached HEAD，不能直接改写当前分支历史"));
    }
    if !selected_in_history {
        return Err(op_failure(operation, "只能改写当前分支主线上的历史提交"));
    }
    Ok(())
}

/// History that the current upstream already contains is not rewritten.
pub fn check_not_published(operation: &str, upstream: &Option<String>, selected_in_upstream: bool) -> (r: Result<(), GitError>)
    ensures
        match upstream {
            Some(u) => selected_in_upstream ==> (r matches Err(e) && op_error(
                e,
                operation@,
                "提交已经包含在当前上游 "@ + u@ + " 中，暂不支持直接改写已发布历史"@,
            )),
            None => true,
        },
        (upstream is None || !selected_in_upstream) ==> r is Ok,
{
    if let Some(u) = upstream {
        if selected_in_upstream {
            let mut details = String::from_str("提交已经包含在当前上游 ");
            crate::text::push_all(&mut details, u.as_str());
            crate::text::push_all(&mut details, " 中，暂不支持直接改写已发布历史");
            return Err(GitError::OperationFailed { operation: String::from_str(operation), details });
        }
    }
    Ok(())
}

/// A new commit message may not be blank.
pub fn check_new_message(message: &str) -> (r: Result<(), GitError>)
    ensures
        trim(message@).len() == 0 ==> (r matches Err(GitError::InvalidInput { message: m }) && m@ == "提交说明不能为空"@),
        trim(message@).len() > 0 ==> r is Ok,
{
    if trimmed_chars(message).len() == 0 {
        return Err(GitError::InvalidInput { message: String::from_str("提交说明不能为空") });
    }
    Ok(())
}

/// A reset moves the current branch, and only back to a commit of its own
/// history.
pub fn check_reset_target(on_branch: bool, target_in_history: bool) -> (r: Result<(), GitError>)
    ensures
        !on_branch ==> (r matches Err(e) && op_error(e, "reset"@, "当前为 detached HEAD，无法重置当前分支"@)),
        on_branch && !target_in_history ==> (r matches Err(e) && op_error(e, "reset"@, "只能把当前分支重置到它自己的历史祖先提交"@)),
        on_branch && target_in_history ==> r is Ok,
{
    if !on_branch {
        return Err(op_failure("reset", "当前为 detached HEAD，无法重置当前分支"));
    }
    if !target_in_history {
        return Err(op_failure("reset", "只能把当前分支重置到它自己的历史祖先提交"));
    }
    Ok(())
}

/// Continuing or aborting a cherry-pick or revert needs that operation to
/// be under way.
pub fn check_commit_action_in_progress(in_progress: bool) -> (r: Result<(), GitError>)
    ensures
        !in_progress ==> (r matches Err(GitError::InvalidInput { message }) && message@ == "没有对应的进行中操作"@),
        in_progress ==> r is Ok,
{
    if !in_progress {
        return Err(GitError::InvalidInput { message: String::from_str("没有对应的进行中操作") });
    }
    Ok(())
}

} // verus!

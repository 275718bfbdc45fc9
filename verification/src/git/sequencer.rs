//! Decisions of the native history engine: which plans it accepts, how it
//! steps through a journaled operation, what each replayed commit is made
//! of, and when its recovery controls apply. Reading and writing the
//! repository is left to the caller, which hands over what it found.
use crate::git::error::GitError;
use crate::git::journal::{
    byte_views, contains_bytes, copy_bytes, entry_view, image_view, insert_sorted, same_entry, strictly_sorted,
    EntryView, Head, IndexImage,
};
use crate::text::{trim, trimmed_chars, string_from_chars};
use crate::ui::diff_file_header::same_str;
use crate::ui::syntax::{ascii_lowercase, to_ascii_lower};
use vstd::prelude::*;

verus! {

/// What a native operation does.
#[derive(Debug, Clone, Copy, PartialEq, Eq, Structural)]
pub enum Kind {
    Rebase,
    CherryPick,
    Revert,
    Merge,
}

/// Where a journaled operation stands.
#[derive(Debug, Clone, Copy, PartialEq, Eq, Structural)]
pub enum Phase {
    Starting,
    Transition,
    Ready,
    Conflict,
    Edit,
    Empty,
    MergeReady,
    Publishing,
    Completed,
    Aborted,
}

/// The name a phase is recorded under.
pub open spec fn spec_phase_name(p: Phase) -> Seq<char> {
    match p {
        Phase::Starting => "starting"@,
        Phase::Transition => "transition"@,
        Phase::Ready => "ready"@,
        Phase::Conflict => "conflict"@,
        Phase::Edit => "edit"@,
        Phase::Empty => "empty"@,
        Phase::MergeReady => "merge-ready"@,
        Phase::Publishing => "publishing"@,
        Phase::Completed => "completed"@,
        Phase::Aborted => "aborted"@,
    }
}

/// The name a phase is recorded under.
pub fn phase_name(p: Phase) -> (s: &'static str)
    ensures
        s@ == spec_phase_name(p),
{
    match p {
        Phase::Starting => "starting",
        Phase::Transition => "transition",
        Phase::Ready => "ready",
        Phase::Conflict => "conflict",
        Phase::Edit => "edit",
        Phase::Empty => "empty",
        Phase::MergeReady => "merge-ready",
        Phase::Publishing => "publishing",
        Phase::Completed => "completed",
        Phase::Aborted => "aborted",
    }
}

/// The phase recorded under `name`, if it is one.
pub open spec fn spec_parse_phase(name: Seq<char>) -> Option<Phase> {
    if name == "starting"@ {
        Some(Phase::Starting)
    } else if name == "transition"@ {
        Some(Phase::Transition)
    } else if name == "ready"@ {
        Some(Phase::Ready)
    } else if name == "conflict"@ {
        Some(Phase::Conflict)
    } else if name == "edit"@ {
        Some(Phase::Edit)
    } else if name == "empty"@ {
        Some(Phase::Empty)
    } else if name == "merge-ready"@ {
        Some(Phase::MergeReady)
    } else if name == "publishing"@ {
        Some(Phase::Publishing)
    } else if name == "completed"@ {
        Some(Phase::Completed)
    } else if name == "aborted"@ {
        Some(Phase::Aborted)
    } else {
        None
    }
}

/// Reads a recorded phase name.
pub fn parse_phase(name: &str) -> (r: Option<Phase>)
    ensures
        r == spec_parse_phase(name@),
{
    if same_str(name, "starting") {
        Some(Phase::Starting)
    } else if same_str(name, "transition") {
        Some(Phase::Transition)
    } else if same_str(name, "ready") {
        Some(Phase::Ready)
    } else if same_str(name, "conflict") {
        Some(Phase::Conflict)
    } else if same_str(name, "edit") {
        Some(Phase::Edit)
    } else if same_str(name, "empty") {
        Some(Phase::Empty)
    } else if same_str(name, "merge-ready") {
        Some(Phase::MergeReady)
    } else if same_str(name, "publishing") {
        Some(Phase::Publishing)
    } else if same_str(name, "completed") {
        Some(Phase::Completed)
    } else if same_str(name, "aborted") {
        Some(Phase::Aborted)
    } else {
        None
    }
}

/// A recorded phase name reads back as the phase it was recorded for.
pub proof fn lemma_phase_names_read_back(p: Phase)
    ensures
        spec_parse_phase(spec_phase_name(p)) == Some(p),
{
    reveal_strlit("starting");
    reveal_strlit("transition");
    reveal_strlit("ready");
    reveal_strlit("conflict");
    reveal_strlit("edit");
    reveal_strlit("empty");
    reveal_strlit("merge-ready");
    reveal_strlit("publishing");
    reveal_strlit("completed");
    reveal_strlit("aborted");
    match p {
        Phase::Starting => {},
        _ => assert(spec_phase_name(p)[0] != 's' || spec_phase_name(p).len() != 8),
    }
    match p {
        Phase::Transition | Phase::Starting => {},
        _ => assert(spec_phase_name(p)[0] != 't'),
    }
    match p {
        Phase::Empty | Phase::Edit => assert(spec_phase_name(p)[1] != 'd' || spec_phase_name(p).len() == 4),
        Phase::Completed | Phase::Conflict => assert(spec_phase_name(p)[2] == 'm' || spec_phase_name(p)[2] == 'n'),
        _ => {},
    }
}

/// The actions a native plan may hold.
pub open spec fn supported_action(a: Seq<char>) -> bool {
    ||| a == "pick"@
    ||| a == "edit"@
    ||| a == "reword"@
    ||| a == "fixup"@
    ||| a == "squash"@
    ||| a == "drop"@
    ||| a == "merge"@
    ||| a == "squash-merge"@
    ||| a == "fast-forward"@
}

/// Whether an action folds its commit into the one before.
pub open spec fn combines(a: Seq<char>) -> bool {
    a == "fixup"@ || a == "squash"@
}

/// The action of a todo entry as a plan records it: trimmed, in lower case.
pub fn normalize_action(action: &str) -> (r: String)
    ensures
        r@ == ascii_lowercase(trim(action@)),
{
    let t = string_from_chars(trimmed_chars(action).as_slice());
    to_ascii_lower(t.as_str())
}

/// What the repository holds of a planned commit.
#[derive(Debug, Clone)]
pub struct CommitFacts {
    /// The commit's full id.
    pub id: String,
    pub parent_count: usize,
}

/// One step of a plan with what was found of its commit (none when it
/// could not be looked up).
#[derive(Debug, Clone)]
pub struct PlanStep {
    pub action: String,
    pub commit: Option<CommitFacts>,
}

pub type PlanStepView = (Seq<char>, Option<(Seq<char>, usize)>);

pub open spec fn plan_step_view(s: PlanStep) -> PlanStepView {
    (
        s.action@,
        match s.commit {
            Some(c) => Some((c.id@, c.parent_count)),
            None => None,
        },
    )
}

pub open spec fn plan_views(steps: Seq<PlanStep>) -> Seq<PlanStepView> {
    steps.map_values(|s: PlanStep| plan_step_view(s))
}

/// Why a plan is refused.
#[derive(Debug, Clone, Copy, PartialEq, Eq, Structural)]
pub enum PlanProblem {
    UnsupportedAction,
    /// The commit of the step at `index` could not be looked up.
    MissingCommit { index: usize },
    MergeCommit,
    DuplicateCommit,
    CombinesFirst,
    WrongLength,
}

/// Whether a step before `k` keeps its commit.
pub open spec fn retained_before(steps: Seq<PlanStepView>, k: int) -> bool {
    exists|j: int| 0 <= j < k && (#[trigger] steps[j]).0 != "drop"@
}

/// Whether a step before `k` names commit `id`.
pub open spec fn seen_before(steps: Seq<PlanStepView>, k: int, id: Seq<char>) -> bool {
    exists|j: int| 0 <= j < k && ((#[trigger] steps[j]).1 matches Some(c) && c.0 == id)
}

/// What is wrong with the step at `k`, given that the steps before it are
/// fine.
pub open spec fn problem_at(steps: Seq<PlanStepView>, k: int, kind: Kind) -> Option<PlanProblem> {
    let s = steps[k];
    if !supported_action(s.0) {
        Some(PlanProblem::UnsupportedAction)
    } else {
        match s.1 {
            None => Some(PlanProblem::MissingCommit { index: k as usize }),
            Some(c) => if kind != Kind::Merge && c.1 > 1 {
                Some(PlanProblem::MergeCommit)
            } else if seen_before(steps, k, c.0) {
                Some(PlanProblem::DuplicateCommit)
            } else if !retained_before(steps, k) && combines(s.0) {
                Some(PlanProblem::CombinesFirst)
            } else {
                None
            },
        }
    }
}

/// The problem of the first faulty step from `k` on.
pub open spec fn first_problem(steps: Seq<PlanStepView>, kind: Kind, k: int) -> Option<PlanProblem>
    decreases steps.len() - k,
{
    if k < 0 || k >= steps.len() {
        None
    } else {
        match problem_at(steps, k, kind) {
            Some(p) => Some(p),
            None => first_problem(steps, kind, k + 1),
        }
    }
}

/// A plan is checked step by step; then anything but a rebase must have
/// exactly one step.
pub open spec fn spec_validate_plan(steps: Seq<PlanStepView>, kind: Kind) -> Result<(), PlanProblem> {
    match first_problem(steps, kind, 0) {
        Some(p) => Err(p),
        None => if kind != Kind::Rebase && steps.len() != 1 {
            Err(PlanProblem::WrongLength)
        } else {
            Ok(())
        },
    }
}

proof fn lemma_first_problem_skip(steps: Seq<PlanStepView>, kind: Kind, k: int)
    requires
        0 <= k <= steps.len(),
        forall|j: int| 0 <= j < k ==> problem_at(steps, j, kind) is None,
    ensures
        first_problem(steps, kind, 0) == first_problem(steps, kind, k),
    decreases k,
{
    if k > 0 {
        lemma_first_problem_skip(steps, kind, k - 1);
        assert(problem_at(steps, k - 1, kind) is None);
    }
}

fn is_supported_action(a: &str) -> (r: bool)
    ensures
        r == supported_action(a@),
{
    same_str(a, "pick") || same_str(a, "edit") || same_str(a, "reword") || same_str(a, "fixup") || same_str(a, "squash")
        || same_str(a, "drop") || same_str(a, "merge") || same_str(a, "squash-merge") || same_str(a, "fast-forward")
}

fn is_combining(a: &str) -> (r: bool)
    ensures
        r == combines(a@),
{
    same_str(a, "fixup") || same_str(a, "squash")
}

/// Checks a plan: each action must be supported, each commit found, linear
/// (unless merging) and named once, and the first kept commit must not be
/// folded into a predecessor; anything but a rebase has exactly one step.
pub fn validate_plan(steps: &Vec<PlanStep>, kind: Kind) -> (r: Result<(), PlanProblem>)
    ensures
        r == spec_validate_plan(plan_views(steps@), kind),
{
    let ghost sv = plan_views(steps@);
    let mut seen: Vec<String> = Vec::new();
    let mut retained = false;
    let mut k: usize = 0;
    while k < steps.len()
        invariant
            sv == plan_views(steps@),
            k <= sv.len(),
            seen@.len() == k,
            forall|j: int| 0 <= j < k ==> problem_at(sv, j, kind) is None,
            forall|j: int| 0 <= j < k ==> ((#[trigger] sv[j]).1 matches Some(c) && c.0 == seen@[j]@),
            retained == retained_before(sv, k as int),
        decreases sv.len() - k,
    {
        let step = &steps[k];
        assert(sv[k as int] == plan_step_view(*step));
        if !is_supported_action(step.action.as_str()) {
            proof {
                lemma_first_problem_skip(sv, kind, k as int);
            }
            return Err(PlanProblem::UnsupportedAction);
        }
        let facts = match &step.commit {
            Some(c) => c,
            None => {
                proof {
                    lemma_first_problem_skip(sv, kind, k as int);
                }
                return Err(PlanProblem::MissingCommit { index: k });
            },
        };
        if kind != Kind::Merge && facts.parent_count > 1 {
            proof {
                lemma_first_problem_skip(sv, kind, k as int);
            }
            return Err(PlanProblem::MergeCommit);
        }
        let mut dup = false;
        let mut m: usize = 0;
        while m < seen.len()
            invariant
                m <= seen@.len(),
                seen@.len() == k,
                k < sv.len(),
                forall|j: int| 0 <= j < k ==> ((#[trigger] sv[j]).1 matches Some(c) && c.0 == seen@[j]@),
                dup == exists|j: int| 0 <= j < m && (#[trigger] seen@[j])@ == facts.id@,
            decreases seen@.len() - m,
        {
            if same_str(seen[m].as_str(), facts.id.as_str()) {
                dup = true;
            }
            m = m + 1;
        }
        assert(dup == seen_before(sv, k as int, facts.id@)) by {
            if dup {
                let j = choose|j: int| 0 <= j < k && (#[trigger] seen@[j])@ == facts.id@;
                assert(sv[j].1 matches Some(c) && c.0 == seen@[j]@);
            }
            if seen_before(sv, k as int, facts.id@) {
                let j = choose|j: int| 0 <= j < k && ((#[trigger] sv[j]).1 matches Some(c) && c.0 == facts.id@);
                assert(seen@[j]@ == facts.id@);
            }
        }
        if dup {
            proof {
                lemma_first_problem_skip(sv, kind, k as int);
            }
            return Err(PlanProblem::DuplicateCommit);
        }
        if !retained && is_combining(step.action.as_str()) {
            proof {
                lemma_first_problem_skip(sv, kind, k as int);
            }
            return Err(PlanProblem::CombinesFirst);
        }
        let keeps = !same_str(step.action.as_str(), "drop");
        proof {
            assert(retained_before(sv, k + 1) == (retained || sv[k as int].0 != "drop"@)) by {
                if retained_before(sv, k + 1) && !retained {
                    let j = choose|j: int| 0 <= j < k + 1 && (#[trigger] sv[j]).0 != "drop"@;
                    assert(j == k);
                }
                if retained {
                    let j = choose|j: int| 0 <= j < k && (#[trigger] sv[j]).0 != "drop"@;
                    assert(sv[j].0 != "drop"@);
                }
                if sv[k as int].0 != "drop"@ {
                    assert(sv[k as int].0 != "drop"@);
                }
            }
        }
        retained = retained || keeps;
        seen.push(facts.id.clone());
        k = k + 1;
    }
    proof {
        lemma_first_problem_skip(sv, kind, k as int);
    }
    if kind != Kind::Rebase && steps.len() != 1 {
        return Err(PlanProblem::WrongLength);
    }
    Ok(())
}

/// The error a refused plan is reported with; a missing commit is reported
/// by the lookup that failed.
pub open spec fn spec_plan_error_message(p: PlanProblem) -> Seq<char> {
    match p {
        PlanProblem::UnsupportedAction => "unsupported native history action"@,
        PlanProblem::MergeCommit => "select a linear range; merge commits require an explicit mainline"@,
        PlanProblem::DuplicateCommit => "a history plan cannot contain duplicate commits"@,
        PlanProblem::CombinesFirst => "the first retained commit cannot be fixup or squash"@,
        PlanProblem::WrongLength => "invalid native history plan"@,
        PlanProblem::MissingCommit { .. } => Seq::empty(),
    }
}

/// The error a refused plan is reported with.
pub fn plan_error(p: PlanProblem) -> (e: GitError)
    requires
        !(p is MissingCommit),
    ensures
        e matches GitError::InvalidInput { message } && message@ == spec_plan_error_message(p),
{
    let message = match p {
        PlanProblem::UnsupportedAction => String::from_str("unsupported native history action"),
        PlanProblem::MergeCommit => String::from_str("select a linear range; merge commits require an explicit mainline"),
        PlanProblem::DuplicateCommit => String::from_str("a history plan cannot contain duplicate commits"),
        PlanProblem::CombinesFirst => String::from_str("the first retained commit cannot be fixup or squash"),
        _ => String::from_str("invalid native history plan"),
    };
    GitError::InvalidInput { message }
}

/// Whether a native operation may start: none is active, the repository is
/// in no other Git operation, and it has a working tree.
pub fn check_can_start(journal_active: bool, repository_clean: bool, bare: bool) -> (r: Result<(), GitError>)
    ensures
        journal_active ==> (r matches Err(GitError::RecoveryRequired { reason }) && reason@ == "finish or abort the active slio operation first"@),
        !journal_active && !repository_clean ==> (r matches Err(GitError::RecoveryRequired { reason })
            && reason@ == "finish the existing Git operation in the tool that started it"@),
        !journal_active && repository_clean && bare ==> (r matches Err(GitError::InvalidInput { message })
            && message@ == "history operations need a working tree"@),
        !journal_active && repository_clean && !bare ==> r is Ok,
{
    if journal_active {
        return Err(GitError::RecoveryRequired { reason: String::from_str("finish or abort the active slio operation first") });
    }
    if !repository_clean {
        return Err(GitError::RecoveryRequired { reason: String::from_str("finish the existing Git operation in the tool that started it") });
    }
    if bare {
        return Err(GitError::InvalidInput { message: String::from_str("history operations need a working tree") });
    }
    Ok(())
}

/// Whether every step of a plan drops its commit.
pub open spec fn drops_everything(actions: Seq<String>) -> bool {
    forall|i: int| 0 <= i < actions.len() ==> (#[trigger] actions[i])@ == "drop"@
}

/// A rebase from the root may not drop every commit.
pub fn check_not_dropping_everything(kind: Kind, base_is_none: bool, actions: &Vec<String>) -> (r: Result<(), GitError>)
    ensures
        (kind == Kind::Rebase && base_is_none && drops_everything(actions@)) ==> (r matches Err(GitError::InvalidInput { message })
            && message@ == "cannot drop every root commit"@),
        !(kind == Kind::Rebase && base_is_none && drops_everything(actions@)) ==> r is Ok,
{
    if kind == Kind::Rebase && base_is_none {
        let mut all = true;
        let mut i: usize = 0;
        while i < actions.len()
            invariant
                i <= actions@.len(),
                all == forall|j: int| 0 <= j < i ==> (#[trigger] actions@[j])@ == "drop"@,
            decreases actions@.len() - i,
        {
            let d = same_str(actions[i].as_str(), "drop");
            proof {
                if !d {
                    assert(!(actions@[i as int]@ == "drop"@));
                }
            }
            all = all && d;
            i = i + 1;
        }
        if all {
            return Err(GitError::InvalidInput { message: String::from_str("cannot drop every root commit") });
        }
    }
    Ok(())
}

/// The working tree a native operation starts from: a rebase needs it
/// without any change, the others only without staged changes or conflicts.
pub fn check_start_worktree(kind: Kind, any_change: bool, any_staged_or_conflicted: bool) -> (r: Result<(), GitError>)
    ensures
        r is Err <==> ((kind == Kind::Rebase && any_change) || any_staged_or_conflicted),
        r is Err ==> r matches Err(GitError::DirtyWorkingTree),
{
    if (kind == Kind::Rebase && any_change) || any_staged_or_conflicted {
        Err(GitError::DirtyWorkingTree)
    } else {
        Ok(())
    }
}

/// Whether one of `touched` is among `dirty`.
pub fn touches_dirty(touched: &Vec<String>, dirty: &Vec<String>) -> (r: bool)
    ensures
        r == exists|i: int, j: int| 0 <= i < touched@.len() && 0 <= j < dirty@.len() && (#[trigger] touched@[i])@ == (#[trigger] dirty@[j])@,
{
    let mut i: usize = 0;
    while i < touched.len()
        invariant
            i <= touched@.len(),
            forall|a: int, b: int| 0 <= a < i && 0 <= b < dirty@.len() ==> (#[trigger] touched@[a])@ != (#[trigger] dirty@[b])@,
        decreases touched@.len() - i,
    {
        let mut j: usize = 0;
        while j < dirty.len()
            invariant
                i < touched@.len(),
                j <= dirty@.len(),
                forall|a: int, b: int| 0 <= a < i && 0 <= b < dirty@.len() ==> (#[trigger] touched@[a])@ != (#[trigger] dirty@[b])@,
                forall|b: int| 0 <= b < j ==> touched@[i as int]@ != (#[trigger] dirty@[b])@,
            decreases dirty@.len() - j,
        {
            if same_str(touched[i].as_str(), dirty[j].as_str()) {
                return true;
            }
            j = j + 1;
        }
        i = i + 1;
    }
    false
}

/// What the engine does next, from the phase it is in.
#[derive(Debug, Clone, Copy, PartialEq, Eq, Structural)]
pub enum Advance {
    /// Finish the interrupted worktree transition.
    FinishTransition,
    /// Check out the base the plan starts from.
    CheckOutBase,
    /// All steps are done: move on to publishing.
    StartPublishing,
    /// Pass over a dropped step.
    SkipDropped,
    /// Replay the step at the cursor.
    Replay,
    /// Wait for the user (a conflict, an edit, an empty commit, a merge
    /// message).
    Pause,
    /// Move the original branch to the new history.
    Publish,
    /// Remove what the finished operation left behind.
    CleanUp,
}

/// The decision for `phase` with the cursor at `cursor` of the plan's
/// `actions`, or the unknown phase's name.
pub open spec fn spec_advance(phase: Seq<char>, cursor: int, actions: Seq<Seq<char>>) -> Result<Advance, Seq<char>> {
    match spec_parse_phase(phase) {
        None => Err("unknown operation phase: "@ + phase),
        Some(Phase::Transition) => Ok(Advance::FinishTransition),
        Some(Phase::Starting) => Ok(Advance::CheckOutBase),
        Some(Phase::Ready) => if cursor == actions.len() {
            Ok(Advance::StartPublishing)
        } else if actions[cursor] == "drop"@ {
            Ok(Advance::SkipDropped)
        } else {
            Ok(Advance::Replay)
        },
        Some(Phase::Conflict) | Some(Phase::Edit) | Some(Phase::Empty) | Some(Phase::MergeReady) => Ok(Advance::Pause),
        Some(Phase::Publishing) => Ok(Advance::Publish),
        Some(Phase::Completed) | Some(Phase::Aborted) => Ok(Advance::CleanUp),
    }
}

/// One turn of the engine's loop: what to do in `phase`. An unknown phase
/// needs recovery.
pub fn advance_decision(phase: &str, cursor: usize, actions: &Vec<String>) -> (r: Result<Advance, GitError>)
    requires
        cursor <= actions@.len(),
    ensures
        match spec_advance(phase@, cursor as int, actions@.map_values(|a: String| a@)) {
            Ok(a) => r == Ok::<Advance, GitError>(a),
            Err(m) => r matches Err(GitError::RecoveryRequired { reason }) && reason@ == m,
        },
{
    let ghost av = actions@.map_values(|a: String| a@);
    match parse_phase(phase) {
        None => {
            let mut reason = String::from_str("unknown operation phase: ");
            crate::text::push_all(&mut reason, phase);
            Err(GitError::RecoveryRequired { reason })
        },
        Some(Phase::Transition) => Ok(Advance::FinishTransition),
        Some(Phase::Starting) => Ok(Advance::CheckOutBase),
        Some(Phase::Ready) => {
            if cursor == actions.len() {
                Ok(Advance::StartPublishing)
            } else {
                assert(av[cursor as int] == actions@[cursor as int]@);
                if same_str(actions[cursor].as_str(), "drop") {
                    Ok(Advance::SkipDropped)
                } else {
                    Ok(Advance::Replay)
                }
            }
        },
        Some(Phase::Conflict) | Some(Phase::Edit) | Some(Phase::Empty) | Some(Phase::MergeReady) => Ok(Advance::Pause),
        Some(Phase::Publishing) => Ok(Advance::Publish),
        Some(Phase::Completed) | Some(Phase::Aborted) => Ok(Advance::CleanUp),
    }
}

/// What a replayed step leads to once its index is computed: a conflict
/// to resolve, a squash merge whose message is awaited, or a commit.
#[derive(Debug, Clone, Copy, PartialEq, Eq, Structural)]
pub enum ReplayOutcome {
    Conflict,
    AwaitMergeMessage,
    Commit,
}

pub open spec fn spec_replay_outcome(kind: Kind, action: Seq<char>, has_conflicts: bool) -> ReplayOutcome {
    if has_conflicts {
        ReplayOutcome::Conflict
    } else if kind == Kind::Merge && action == "squash-merge"@ {
        ReplayOutcome::AwaitMergeMessage
    } else {
        ReplayOutcome::Commit
    }
}

/// What a replayed step leads to.
pub fn replay_outcome(kind: Kind, action: &str, has_conflicts: bool) -> (r: ReplayOutcome)
    ensures
        r == spec_replay_outcome(kind, action@, has_conflicts),
{
    if has_conflicts {
        ReplayOutcome::Conflict
    } else if kind == Kind::Merge && same_str(action, "squash-merge") {
        ReplayOutcome::AwaitMergeMessage
    } else {
        ReplayOutcome::Commit
    }
}

/// The phase a replay outcome that stops the engine leaves it in.
pub fn paused_phase(outcome: ReplayOutcome) -> (p: Phase)
    requires
        outcome != ReplayOutcome::Commit,
    ensures
        outcome == ReplayOutcome::Conflict ==> p == Phase::Conflict,
        outcome == ReplayOutcome::AwaitMergeMessage ==> p == Phase::MergeReady,
{
    match outcome {
        ReplayOutcome::Conflict => Phase::Conflict,
        _ => Phase::MergeReady,
    }
}

/// A rebase passes over a picked commit that its replay leaves empty,
/// unless the commit was empty to begin with.
pub fn skips_emptied_pick(kind: Kind, action: &str, originally_empty: bool, now_empty: bool) -> (r: bool)
    ensures
        r == (now_empty && !originally_empty && action@ == "pick"@ && kind == Kind::Rebase),
{
    now_empty && !originally_empty && same_str(action, "pick") && kind == Kind::Rebase
}

/// Whose author a replayed commit carries.
#[derive(Debug, Clone, Copy, PartialEq, Eq, Structural)]
pub enum AuthorChoice {
    /// The commit it is folded into.
    Predecessor,
    /// The operation's committer.
    Committer,
    /// The replayed commit.
    Source,
}

/// What the replay of one step commits, once its tree is known.
#[derive(Debug, Clone)]
pub struct ReplayCommit {
    pub parents: Vec<String>,
    pub author: AuthorChoice,
    pub message: String,
    /// The step reuses the source commit itself (a fast-forward).
    pub reuse_source: bool,
    /// The phase after the step: a paused edit or the next step.
    pub next_phase: Phase,
}

/// The facts of a replayed step.
#[derive(Debug, Clone)]
pub struct ReplayFacts {
    pub kind: Kind,
    pub action: String,
    /// The message recorded for the operation (a merge's), if any.
    pub recorded_message: Option<String>,
    /// The new history's current tip, if any, with its parents and message.
    pub tip: Option<String>,
    pub tip_parents: Vec<String>,
    pub tip_message: String,
    /// The replayed commit: id, message and summary line.
    pub source: String,
    pub source_message: String,
    pub source_summary: String,
}

pub open spec fn string_seq(v: Seq<String>) -> Seq<Seq<char>> {
    v.map_values(|s: String| s@)
}

/// The parents of a replayed commit: the tip's own parents when the step
/// folds into the tip, the tip otherwise; a merge (but a squash merge) adds
/// the merged commit.
pub open spec fn spec_replay_parents(f: ReplayFacts) -> Option<Seq<Seq<char>>> {
    let base = if combines(f.action@) {
        match f.tip {
            Some(_) => Some(string_seq(f.tip_parents@)),
            None => None,
        }
    } else {
        match f.tip {
            Some(t) => Some(seq![t@]),
            None => Some(Seq::empty()),
        }
    };
    match base {
        None => None,
        Some(b) => if f.kind == Kind::Merge && f.action@ != "squash-merge"@ {
            Some(b.push(f.source@))
        } else {
            Some(b)
        },
    }
}

pub open spec fn spec_author_choice(kind: Kind, action: Seq<char>) -> AuthorChoice {
    if combines(action) {
        AuthorChoice::Predecessor
    } else if kind == Kind::Revert || kind == Kind::Merge {
        AuthorChoice::Committer
    } else {
        AuthorChoice::Source
    }
}

/// Who authors a replayed commit: a fixup or squash folds into its
/// predecessor and keeps that author; any other step of a merge or a revert is
/// a new commit by the person running the operation, never by the source
/// commit's author; any other step of a rebase or cherry-pick keeps the source
/// commit's author.
pub proof fn lemma_replay_author(kind: Kind, action: Seq<char>)
    ensures
        action == "fixup"@ || action == "squash"@ ==> spec_author_choice(kind, action) == AuthorChoice::Predecessor,
        action != "fixup"@ && action != "squash"@ && (kind == Kind::Merge || kind == Kind::Revert)
            ==> spec_author_choice(kind, action) == AuthorChoice::Committer,
        action != "fixup"@ && action != "squash"@ && (kind == Kind::Rebase || kind == Kind::CherryPick)
            ==> spec_author_choice(kind, action) == AuthorChoice::Source,
        kind == Kind::Merge ==> spec_author_choice(kind, action) != AuthorChoice::Source,
{
}

/// The message of a replayed commit: the recorded one, else by action: a
/// merge or squash merge names the merged commit, a fixup keeps the tip's
/// message, a squash appends the source's to it, a revert says what it
/// reverts, and anything else keeps the source's message.
pub open spec fn spec_replay_message(f: ReplayFacts) -> Seq<char> {
    match f.recorded_message {
        Some(m) => m@,
        None => if f.action@ == "merge"@ {
            "Merge commit '"@ + f.source@ + "'\n"@
        } else if f.action@ == "squash-merge"@ {
            "Squash commit '"@ + f.source@ + "'\n"@
        } else if f.action@ == "fixup"@ {
            f.tip_message@
        } else if f.action@ == "squash"@ {
            crate::text::trim_end(f.tip_message@) + "\n\n"@ + f.source_message@
        } else if f.kind == Kind::Revert {
            "Revert \""@ + f.source_summary@ + "\"\n\nThis reverts commit "@ + f.source@ + ".\n"@
        } else {
            f.source_message@
        },
    }
}

fn copy_strings(v: &Vec<String>) -> (r: Vec<String>)
    ensures
        string_seq(r@) == string_seq(v@),
{
    let mut r: Vec<String> = Vec::new();
    let mut i: usize = 0;
    while i < v.len()
        invariant
            i <= v@.len(),
            string_seq(r@) == string_seq(v@).subrange(0, i as int),
        decreases v@.len() - i,
    {
        let ghost before = string_seq(r@);
        r.push(v[i].clone());
        assert(string_seq(r@) == before.push(v@[i as int]@));
        i = i + 1;
    }
    assert(string_seq(v@).subrange(0, v@.len() as int) == string_seq(v@));
    r
}

fn concat(parts: &[&str]) -> (s: String)
    ensures
        s@ == parts@.fold_left(Seq::<char>::empty(), |acc: Seq<char>, p: &str| acc + p@),
{
    let mut s = String::new();
    let mut i: usize = 0;
    while i < parts.len()
        invariant
            i <= parts@.len(),
            s@ == parts@.subrange(0, i as int).fold_left(Seq::<char>::empty(), |acc: Seq<char>, p: &str| acc + p@),
        decreases parts@.len() - i,
    {
        crate::text::push_all(&mut s, parts[i]);
        proof {
            let sub = parts@.subrange(0, i + 1);
            assert(sub.drop_last() == parts@.subrange(0, i as int));
            assert(sub.last() == parts@[i as int]);
        }
        i = i + 1;
    }
    assert(parts@.subrange(0, parts@.len() as int) == parts@);
    s
}

/// What the replay of a step commits: its parents, author and message,
/// whether it reuses the source commit, and the phase that follows. A step
/// that folds into a predecessor needs one.
pub fn plan_replay_commit(f: &ReplayFacts) -> (r: Result<ReplayCommit, GitError>)
    ensures
        match spec_replay_parents(*f) {
            None => r matches Err(GitError::RecoveryRequired { reason }) && reason@ == "missing squash predecessor"@,
            Some(parents) => r matches Ok(c) && {
                &&& string_seq(c.parents@) == parents
                &&& c.author == spec_author_choice(f.kind, f.action@)
                &&& c.message@ == spec_replay_message(*f)
                &&& c.reuse_source == (f.action@ == "fast-forward"@)
                &&& c.next_phase == (if f.action@ == "edit"@ || f.action@ == "reword"@ {
                    Phase::Edit
                } else {
                    Phase::Ready
                })
            },
        },
{
    let combine = is_combining(f.action.as_str());
    let mut parents: Vec<String> = if combine {
        match &f.tip {
            Some(_) => copy_strings(&f.tip_parents),
            None => {
                return Err(GitError::RecoveryRequired { reason: String::from_str("missing squash predecessor") });
            },
        }
    } else {
        match &f.tip {
            Some(t) => {
                let mut v: Vec<String> = Vec::new();
                v.push(t.clone());
                assert(string_seq(v@) == seq![t@]);
                v
            },
            None => {
                let v: Vec<String> = Vec::new();
                assert(string_seq(v@) == Seq::<Seq<char>>::empty());
                v
            },
        }
    };
    if f.kind == Kind::Merge && !same_str(f.action.as_str(), "squash-merge") {
        let ghost before = string_seq(parents@);
        parents.push(f.source.clone());
        assert(string_seq(parents@) == before.push(f.source@));
    }
    let author = if combine {
        AuthorChoice::Predecessor
    } else if f.kind == Kind::Revert || f.kind == Kind::Merge {
        AuthorChoice::Committer
    } else {
        AuthorChoice::Source
    };
    let a = f.action.as_str();
    let message = match &f.recorded_message {
        Some(m) => m.clone(),
        None => if same_str(a, "merge") {
            let m = concat(&["Merge commit '", f.source.as_str(), "'\n"]);
            proof {
                reveal_with_fuel(Seq::fold_left, 4);
            }
            m
        } else if same_str(a, "squash-merge") {
            let m = concat(&["Squash commit '", f.source.as_str(), "'\n"]);
            proof {
                reveal_with_fuel(Seq::fold_left, 4);
            }
            m
        } else if same_str(a, "fixup") {
            f.tip_message.clone()
        } else if same_str(a, "squash") {
            let t = string_from_chars(crate::text::trim_end_chars(&crate::text::chars_of(f.tip_message.as_str())).as_slice());
            let m = concat(&[t.as_str(), "\n\n", f.source_message.as_str()]);
            proof {
                reveal_with_fuel(Seq::fold_left, 4);
            }
            m
        } else if f.kind == Kind::Revert {
            let m = concat(&["Revert \"", f.source_summary.as_str(), "\"\n\nThis reverts commit ", f.source.as_str(), ".\n"]);
            proof {
                reveal_with_fuel(Seq::fold_left, 6);
            }
            m
        } else {
            f.source_message.clone()
        },
    };
    let next_phase = if same_str(a, "edit") || same_str(a, "reword") {
        Phase::Edit
    } else {
        Phase::Ready
    };
    Ok(ReplayCommit { parents, author, message, reuse_source: same_str(a, "fast-forward"), next_phase })
}

/// A journal is usable when it is of version 1 and its cursor lies within
/// its plan.
pub fn check_journal_position(version: u32, cursor: usize, steps: usize) -> (r: Result<(), GitError>)
    ensures
        (version != 1 || cursor > steps) ==> (r matches Err(GitError::RecoveryRequired { reason })
            && reason@ == "unsupported native operation journal version or position"@),
        !(version != 1 || cursor > steps) ==> r is Ok,
{
    if version != 1 || cursor > steps {
        return Err(GitError::RecoveryRequired { reason: String::from_str("unsupported native operation journal version or position") });
    }
    Ok(())
}

fn same_opt_str(a: &Option<String>, b: &Option<String>) -> (r: bool)
    ensures
        r == (match (a, b) {
            (Some(x), Some(y)) => x@ == y@,
            (None, None) => true,
            _ => false,
        }),
{
    match (a, b) {
        (Some(x), Some(y)) => same_str(x.as_str(), y.as_str()),
        (None, None) => true,
        _ => false,
    }
}

pub open spec fn opt_view(a: Option<String>) -> Option<Seq<char>> {
    match a {
        Some(x) => Some(x@),
        None => None,
    }
}

/// The original branch of an operation must still point where it did,
/// except once publishing has moved it to the new tip.
pub open spec fn spec_identity_holds(
    has_reference: bool,
    actual_target: Option<Seq<char>>,
    original_oid: Seq<char>,
    phase: Seq<char>,
    tip: Option<Seq<char>>,
) -> bool {
    !has_reference || actual_target == Some(original_oid) || ((phase == "publishing"@ || phase == "completed"@) && actual_target == tip)
}

/// Checks that the original branch was not moved behind the operation's
/// back; `actual_target` is where it points now.
pub fn check_identity(
    has_reference: bool,
    actual_target: &Option<String>,
    original_oid: &str,
    phase: &str,
    tip: &Option<String>,
) -> (r: Result<(), GitError>)
    ensures
        spec_identity_holds(has_reference, opt_view(*actual_target), original_oid@, phase@, opt_view(*tip)) ==> r is Ok,
        !spec_identity_holds(has_reference, opt_view(*actual_target), original_oid@, phase@, opt_view(*tip)) ==> (r matches Err(
            GitError::RecoveryRequired { reason },
        ) && reason@ == "the original branch changed outside the active operation"@),
{
    if has_reference {
        let at_original = match actual_target {
            Some(a) => same_str(a.as_str(), original_oid),
            None => false,
        };
        let same_as_tip = same_opt_str(actual_target, tip);
        let published = (same_str(phase, "publishing") || same_str(phase, "completed")) && same_as_tip;
        proof {
            assert(opt_view(*actual_target) == Some(original_oid@) <==> at_original);
            assert((opt_view(*actual_target) == opt_view(*tip)) <==> same_as_tip) by {
                match (actual_target, tip) {
                    (Some(x), Some(y)) => {},
                    _ => {},
                }
            }
        }
        if !at_original && !published {
            return Err(GitError::RecoveryRequired { reason: String::from_str("the original branch changed outside the active operation") });
        }
    }
    Ok(())
}

pub open spec fn head_view(h: Head) -> (Option<Seq<char>>, Seq<char>) {
    (opt_view(h.reference), h.oid@)
}

/// Whether two records of HEAD agree.
pub fn same_head(a: &Head, b: &Head) -> (r: bool)
    ensures
        r == (head_view(*a) == head_view(*b)),
{
    let same_ref = same_opt_str(&a.reference, &b.reference);
    proof {
        assert(same_ref == (opt_view(a.reference) == opt_view(b.reference))) by {
            match (a.reference, b.reference) {
                (Some(x), Some(y)) => {},
                _ => {},
            }
        }
    }
    same_ref && same_str(a.oid.as_str(), b.oid.as_str())
}

/// Before publishing, HEAD must be where the operation left it, or already
/// where publishing puts it.
pub fn check_publish_head(current: &Head, expected: &Head, published: &Head) -> (r: Result<(), GitError>)
    ensures
        (head_view(*current) != head_view(*expected) && head_view(*current) != head_view(*published)) ==> (r matches Err(
            GitError::RecoveryRequired { reason },
        ) && reason@ == "HEAD changed before publication"@),
        !(head_view(*current) != head_view(*expected) && head_view(*current) != head_view(*published)) ==> r is Ok,
{
    if !same_head(current, expected) && !same_head(current, published) {
        return Err(GitError::RecoveryRequired { reason: String::from_str("HEAD changed before publication") });
    }
    Ok(())
}

/// Whether a changed path and a path that was dirty when the operation
/// started are the same, or one holds the other.
pub open spec fn paths_overlap(dirty: Seq<char>, path: Seq<char>) -> bool {
    dirty == path || crate::text::starts_with(dirty, path + "/"@) || crate::text::starts_with(path, dirty + "/"@)
}

fn overlaps(dirty: &str, path: &str) -> (r: bool)
    ensures
        r == paths_overlap(dirty@, path@),
{
    let mut p = String::from_str(path);
    crate::text::push_char(&mut p, '/');
    let mut d = String::from_str(dirty);
    crate::text::push_char(&mut d, '/');
    let dv = crate::text::chars_of(dirty);
    let pv = crate::text::chars_of(path);
    proof {
        reveal_strlit("/");
        assert(p@ == path@ + "/"@);
        assert(d@ == dirty@ + "/"@);
    }
    same_str(dirty, path) || crate::text::chars_start_with(&dv, p.as_str()) || crate::text::chars_start_with(&pv, d.as_str())
}

/// A transition may not touch what was dirty when the operation started:
/// the first changed path that overlaps a dirty one refuses it.
pub fn check_transition_paths(dirty: &Vec<String>, changed: &Vec<String>) -> (r: Result<(), GitError>)
    ensures
        (exists|i: int, j: int|
            0 <= i < changed@.len() && 0 <= j < dirty@.len() && paths_overlap((#[trigger] dirty@[j])@, (#[trigger] changed@[i])@))
            ==> r matches Err(GitError::DirtyWorkingTree),
        !(exists|i: int, j: int|
            0 <= i < changed@.len() && 0 <= j < dirty@.len() && paths_overlap((#[trigger] dirty@[j])@, (#[trigger] changed@[i])@))
            ==> r is Ok,
{
    let mut i: usize = 0;
    while i < changed.len()
        invariant
            i <= changed@.len(),
            forall|a: int, b: int| 0 <= a < i && 0 <= b < dirty@.len() ==> !paths_overlap((#[trigger] dirty@[b])@, (#[trigger] changed@[a])@),
        decreases changed@.len() - i,
    {
        let mut j: usize = 0;
        while j < dirty.len()
            invariant
                i < changed@.len(),
                j <= dirty@.len(),
                forall|a: int, b: int| 0 <= a < i && 0 <= b < dirty@.len() ==> !paths_overlap((#[trigger] dirty@[b])@, (#[trigger] changed@[a])@),
                forall|b: int| 0 <= b < j ==> !paths_overlap((#[trigger] dirty@[b])@, changed@[i as int]@),
            decreases dirty@.len() - j,
        {
            if overlaps(dirty[j].as_str(), changed[i].as_str()) {
                return Err(GitError::DirtyWorkingTree);
            }
            j = j + 1;
        }
        i = i + 1;
    }
    Ok(())
}

/// Only a conflicting or emptied rebase step can be skipped.
pub fn check_skip(kind: Kind, phase: &str) -> (r: Result<(), GitError>)
    ensures
        (kind == Kind::Rebase && (phase@ == "conflict"@ || phase@ == "empty"@)) ==> r is Ok,
        !(kind == Kind::Rebase && (phase@ == "conflict"@ || phase@ == "empty"@)) ==> (r matches Err(GitError::RecoveryRequired { reason })
            && reason@ == "only a conflicting rebase step can be skipped"@),
{
    if kind != Kind::Rebase || !(same_str(phase, "conflict") || same_str(phase, "empty")) {
        return Err(GitError::RecoveryRequired { reason: String::from_str("only a conflicting rebase step can be skipped") });
    }
    Ok(())
}

/// Only the paused edit commit can be amended.
pub fn check_amend(phase: &str, tip: &Option<String>, commit_id: &str) -> (r: Result<(), GitError>)
    ensures
        (phase@ == "edit"@ && opt_view(*tip) == Some(commit_id@)) ==> r is Ok,
        !(phase@ == "edit"@ && opt_view(*tip) == Some(commit_id@)) ==> (r matches Err(GitError::RecoveryRequired { reason })
            && reason@ == "only the paused native edit commit can be amended"@),
{
    let at_tip = match tip {
        Some(t) => same_str(t.as_str(), commit_id),
        None => false,
    };
    if !same_str(phase, "edit") || !at_tip {
        return Err(GitError::RecoveryRequired { reason: String::from_str("only the paused native edit commit can be amended") });
    }
    Ok(())
}

/// Only a merge waiting on a conflict or its message can be quit.
pub fn check_quit_merge(kind: Kind, phase: &str) -> (r: Result<(), GitError>)
    ensures
        (kind == Kind::Merge && (phase@ == "conflict"@ || phase@ == "merge-ready"@)) ==> r is Ok,
        !(kind == Kind::Merge && (phase@ == "conflict"@ || phase@ == "merge-ready"@)) ==> (r matches Err(GitError::RecoveryRequired { reason })
            && reason@ == "this operation cannot quit merge"@),
{
    if kind != Kind::Merge || !(same_str(phase, "conflict") || same_str(phase, "merge-ready")) {
        return Err(GitError::RecoveryRequired { reason: String::from_str("this operation cannot quit merge") });
    }
    Ok(())
}

/// A merge message can only finish a merge.
pub fn check_finish_merge(kind: Kind) -> (r: Result<(), GitError>)
    ensures
        kind == Kind::Merge ==> r is Ok,
        kind != Kind::Merge ==> (r matches Err(GitError::RecoveryRequired { reason })
            && reason@ == "finish the active history operation with its recovery controls"@),
{
    if kind != Kind::Merge {
        return Err(GitError::RecoveryRequired { reason: String::from_str("finish the active history operation with its recovery controls") });
    }
    Ok(())
}

/// How an abort proceeds from the recorded phase.
#[derive(Debug, Clone, Copy, PartialEq, Eq, Structural)]
pub enum AbortStep {
    /// Finish the interrupted transition, then decide again.
    FinishTransition,
    /// Only clean up: the operation was already aborted.
    CleanUp,
    /// Restore the original state; `check_ready` when the worktree must
    /// first be where the operation left it.
    Restore { check_ready: bool },
}

pub open spec fn spec_abort_step(phase: Seq<char>) -> Result<AbortStep, Seq<char>> {
    if phase == "transition"@ {
        Ok(AbortStep::FinishTransition)
    } else if phase == "aborted"@ {
        Ok(AbortStep::CleanUp)
    } else if phase == "publishing"@ || phase == "completed"@ {
        Err("history was published; finish recovery before using reset to undo it"@)
    } else {
        Ok(AbortStep::Restore {
            check_ready: !(phase == "conflict"@ || phase == "edit"@ || phase == "empty"@ || phase == "merge-ready"@),
        })
    }
}

/// What an abort does in `phase`; published history cannot be aborted.
pub fn abort_step(phase: &str) -> (r: Result<AbortStep, GitError>)
    ensures
        match spec_abort_step(phase@) {
            Ok(s) => r == Ok::<AbortStep, GitError>(s),
            Err(m) => r matches Err(GitError::RecoveryRequired { reason }) && reason@ == m,
        },
{
    if same_str(phase, "transition") {
        Ok(AbortStep::FinishTransition)
    } else if same_str(phase, "aborted") {
        Ok(AbortStep::CleanUp)
    } else if same_str(phase, "publishing") || same_str(phase, "completed") {
        Err(GitError::RecoveryRequired { reason: String::from_str("history was published; finish recovery before using reset to undo it") })
    } else {
        let paused = same_str(phase, "conflict") || same_str(phase, "edit") || same_str(phase, "empty") || same_str(phase, "merge-ready");
        Ok(AbortStep::Restore { check_ready: !paused })
    }
}

/// How `continue` proceeds from the recorded phase.
#[derive(Debug, Clone, Copy, PartialEq, Eq, Structural)]
pub enum ContinueStep {
    /// Take the user's resolution and commit the step.
    CommitResolution,
    /// Leave the paused edit and go on.
    ResumeAfterEdit,
    /// Just go on.
    Advance,
}

pub open spec fn spec_continue_step(phase: Seq<char>) -> ContinueStep {
    if phase == "conflict"@ || phase == "empty"@ || phase == "merge-ready"@ {
        ContinueStep::CommitResolution
    } else if phase == "edit"@ {
        ContinueStep::ResumeAfterEdit
    } else {
        ContinueStep::Advance
    }
}

/// What `continue` does in `phase`.
pub fn continue_step(phase: &str) -> (r: ContinueStep)
    ensures
        r == spec_continue_step(phase@),
{
    if same_str(phase, "conflict") || same_str(phase, "empty") || same_str(phase, "merge-ready") {
        ContinueStep::CommitResolution
    } else if same_str(phase, "edit") {
        ContinueStep::ResumeAfterEdit
    } else {
        ContinueStep::Advance
    }
}

/// The entries of `image` whose path is not among `owned`, in order.
pub open spec fn entries_outside(image: Seq<EntryView>, owned: Seq<Seq<u8>>) -> Seq<EntryView>
    decreases image.len(),
{
    if image.len() == 0 {
        Seq::empty()
    } else {
        let prev = entries_outside(image.drop_last(), owned);
        if owned.contains(image.last().0) {
            prev
        } else {
            prev.push(image.last())
        }
    }
}

fn outside_entries(img: &IndexImage, owned: &Vec<Vec<u8>>) -> (r: Vec<crate::git::journal::Entry>)
    ensures
        r@.map_values(|e: crate::git::journal::Entry| entry_view(e)) == entries_outside(image_view(*img), byte_views(owned@)),
{
    let ghost iv = image_view(*img);
    let mut r: Vec<crate::git::journal::Entry> = Vec::new();
    let mut i: usize = 0;
    while i < img.0.len()
        invariant
            i <= img.0@.len(),
            iv == image_view(*img),
            r@.map_values(|e: crate::git::journal::Entry| entry_view(e)) == entries_outside(iv.subrange(0, i as int), byte_views(owned@)),
        decreases img.0@.len() - i,
    {
        assert(iv.subrange(0, i + 1).drop_last() == iv.subrange(0, i as int));
        assert(iv.subrange(0, i + 1).last() == entry_view(img.0@[i as int]));
        if !contains_bytes(owned, &img.0[i].path) {
            let ghost before = r@.map_values(|e: crate::git::journal::Entry| entry_view(e));
            r.push(img.0[i].clone_entry());
            assert(r@.map_values(|e: crate::git::journal::Entry| entry_view(e)) == before.push(entry_view(img.0@[i as int])));
        }
        i = i + 1;
    }
    assert(iv.subrange(0, img.0@.len() as int) == iv);
    r
}

/// Whether two images agree on every entry whose path is not `owned` by
/// the operation.
pub fn unrelated_entries_match(actual: &IndexImage, expected: &IndexImage, owned: &Vec<Vec<u8>>) -> (r: bool)
    ensures
        r == (entries_outside(image_view(*actual), byte_views(owned@)) == entries_outside(image_view(*expected), byte_views(owned@))),
{
    let a = outside_entries(actual, owned);
    let b = outside_entries(expected, owned);
    let ghost av = a@.map_values(|e: crate::git::journal::Entry| entry_view(e));
    let ghost bv = b@.map_values(|e: crate::git::journal::Entry| entry_view(e));
    if a.len() != b.len() {
        assert(av.len() != bv.len());
        return false;
    }
    let mut i: usize = 0;
    while i < a.len()
        invariant
            av == a@.map_values(|e: crate::git::journal::Entry| entry_view(e)),
            bv == b@.map_values(|e: crate::git::journal::Entry| entry_view(e)),
            av == entries_outside(image_view(*actual), byte_views(owned@)),
            bv == entries_outside(image_view(*expected), byte_views(owned@)),
            a@.len() == b@.len(),
            i <= a@.len(),
            forall|k: int| 0 <= k < i ==> av[k] == bv[k],
        decreases a@.len() - i,
    {
        assert(av[i as int] == entry_view(a@[i as int]) && bv[i as int] == entry_view(b@[i as int]));
        if !same_entry(&a[i], &b[i]) {
            assert(av[i as int] != bv[i as int]);
            return false;
        }
        i = i + 1;
    }
    assert(av == bv);
    true
}

/// Whether some entry of `image` has path `p` and a conflict stage.
pub open spec fn has_conflict_entry(image: Seq<EntryView>, p: Seq<u8>) -> bool {
    exists|i: int| 0 <= i < image.len() && (#[trigger] image[i]).0 == p && image[i].3 != 0
}

/// The paths with conflict entries in `img`, each once, in byte order.
pub fn conflicted_paths(img: &IndexImage) -> (r: Vec<Vec<u8>>)
    ensures
        strictly_sorted(byte_views(r@)),
        forall|p: Seq<u8>| #[trigger] byte_views(r@).contains(p) <==> has_conflict_entry(image_view(*img), p),
{
    let ghost iv = image_view(*img);
    let mut r: Vec<Vec<u8>> = Vec::new();
    assert(byte_views(r@) == Seq::<Seq<u8>>::empty());
    let mut i: usize = 0;
    while i < img.0.len()
        invariant
            i <= img.0@.len(),
            iv == image_view(*img),
            strictly_sorted(byte_views(r@)),
            forall|p: Seq<u8>| #[trigger] byte_views(r@).contains(p) <==> has_conflict_entry(iv.subrange(0, i as int), p),
        decreases img.0@.len() - i,
    {
        let e = &img.0[i];
        assert(iv[i as int] == entry_view(*e));
        let ghost before = byte_views(r@);
        if e.stage != 0 && !contains_bytes(&r, &e.path) {
            insert_sorted(&mut r, copy_bytes(&e.path));
        }
        proof {
            assert forall|p: Seq<u8>| #[trigger] byte_views(r@).contains(p) <==> has_conflict_entry(iv.subrange(0, i + 1), p) by {
                let sub = iv.subrange(0, i + 1);
                if has_conflict_entry(sub, p) {
                    let k = choose|k: int| 0 <= k < sub.len() && (#[trigger] sub[k]).0 == p && sub[k].3 != 0;
                    if k < i {
                        assert(iv.subrange(0, i as int)[k] == sub[k]);
                    }
                }
                if has_conflict_entry(iv.subrange(0, i as int), p) {
                    let k = choose|k: int| 0 <= k < i && (#[trigger] iv.subrange(0, i as int)[k]).0 == p && iv.subrange(0, i as int)[k].3 != 0;
                    assert(sub[k] == iv.subrange(0, i as int)[k]);
                }
                if iv[i as int].0 == p && iv[i as int].3 != 0 {
                    assert(sub[i as int] == iv[i as int]);
                }
            }
        }
        i = i + 1;
    }
    assert(iv.subrange(0, img.0@.len() as int) == iv);
    r
}

/// Whether a line of `contents` starts a conflict region (`<<<<<<< `).
pub open spec fn has_conflict_marker(contents: Seq<u8>) -> bool {
    exists|i: int|
        0 <= i && i + 8 <= contents.len() && (i == 0 || contents[i - 1] == 10u8) && #[trigger] contents.subrange(i, i + 8) == seq![
            60u8,
            60u8,
            60u8,
            60u8,
            60u8,
            60u8,
            60u8,
            32u8,
        ]
}

fn marker_at(contents: &[u8], i: usize) -> (r: bool)
    requires
        i + 8 <= contents@.len(),
    ensures
        r == (contents@.subrange(i as int, i + 8) == seq![60u8, 60u8, 60u8, 60u8, 60u8, 60u8, 60u8, 32u8]),
{
    let r = contents[i] == 60 && contents[i + 1] == 60 && contents[i + 2] == 60 && contents[i + 3] == 60 && contents[i + 4] == 60
        && contents[i + 5] == 60 && contents[i + 6] == 60 && contents[i + 7] == 32;
    proof {
        let m = seq![60u8, 60u8, 60u8, 60u8, 60u8, 60u8, 60u8, 32u8];
        let sub = contents@.subrange(i as int, i + 8);
        if r {
            assert(sub =~= m);
        }
        if sub == m {
            assert(sub[0] == m[0] && sub[1] == m[1] && sub[2] == m[2] && sub[3] == m[3]);
            assert(sub[4] == m[4] && sub[5] == m[5] && sub[6] == m[6] && sub[7] == m[7]);
        }
    }
    r
}

/// Whether a resolved file still holds a conflict marker line.
pub fn contains_conflict_marker(contents: &[u8]) -> (r: bool)
    ensures
        r == has_conflict_marker(contents@),
{
    let n = contents.len();
    let mut i: usize = 0;
    while i < n
        invariant
            n == contents@.len(),
            i <= n,
            forall|k: int|
                0 <= k < i && k + 8 <= n && (k == 0 || contents@[k - 1] == 10u8) ==> #[trigger] contents@.subrange(k, k + 8) != seq![
                    60u8,
                    60u8,
                    60u8,
                    60u8,
                    60u8,
                    60u8,
                    60u8,
                    32u8,
                ],
        decreases n - i,
    {
        if (i == 0 || contents[i - 1] == 10) && n - i >= 8 && marker_at(contents, i) {
            return true;
        }
        i = i + 1;
    }
    false
}

/// An entry of a rebase todo list.
#[derive(Debug, Clone)]
pub struct TodoEntry {
    pub action: String,
    pub commit: String,
    pub message: String,
}

/// A todo line split as `splitn(3, ' ')` splits it: the action, the commit
/// and the rest, each empty when missing.
pub open spec fn spec_todo_fields(line: Seq<char>) -> (Seq<char>, Seq<char>, Seq<char>) {
    match crate::text::first_index_of(line, ' ', 0) {
        None => (line, Seq::empty(), Seq::empty()),
        Some(i) => match crate::text::first_index_of(line, ' ', i + 1) {
            None => (line.subrange(0, i), line.subrange(i + 1, line.len() as int), Seq::empty()),
            Some(j) => (line.subrange(0, i), line.subrange(i + 1, j), line.subrange(j + 1, line.len() as int)),
        },
    }
}

pub open spec fn todo_view(e: TodoEntry) -> (Seq<char>, Seq<char>, Seq<char>) {
    (e.action@, e.commit@, e.message@)
}

fn todo_fields(line: &Vec<char>) -> (r: TodoEntry)
    ensures
        todo_view(r) == spec_todo_fields(line@),
{
    let n = line.len();
    match crate::text::find_char_from(line, ' ', 0) {
        None => {
            assert(line@.subrange(0, n as int) == line@);
            TodoEntry {
                action: string_from_chars(crate::text::char_range(line, 0, n).as_slice()),
                commit: String::new(),
                message: String::new(),
            }
        },
        Some(i) => {
            proof {
                crate::text::lemma_first_index_after(line@, ' ', 0);
            }
            let action = string_from_chars(crate::text::char_range(line, 0, i).as_slice());
            match crate::text::find_char_from(line, ' ', i + 1) {
                None => TodoEntry {
                    action,
                    commit: string_from_chars(crate::text::char_range(line, i + 1, n).as_slice()),
                    message: String::new(),
                },
                Some(j) => {
                    proof {
                        crate::text::lemma_first_index_after(line@, ' ', i + 1);
                    }
                    TodoEntry {
                        action,
                        commit: string_from_chars(crate::text::char_range(line, i + 1, j).as_slice()),
                        message: string_from_chars(crate::text::char_range(line, j + 1, n).as_slice()),
                    }
                },
            }
        },
    }
}

/// The entries of a todo list, one per line.
pub fn parse_todo(contents: &str) -> (r: Vec<TodoEntry>)
    ensures
        r@.map_values(|e: TodoEntry| todo_view(e)) == crate::text::str_lines(contents@).map_values(
            |l: Seq<char>| spec_todo_fields(l),
        ),
{
    let lines = crate::text::lines_of(contents);
    let ghost lv = lines@.map_values(|l: Vec<char>| l@);
    let mut r: Vec<TodoEntry> = Vec::new();
    let mut i: usize = 0;
    while i < lines.len()
        invariant
            i <= lines@.len(),
            lv == lines@.map_values(|l: Vec<char>| l@),
            lv == crate::text::str_lines(contents@),
            r@.map_values(|e: TodoEntry| todo_view(e)) == lv.subrange(0, i as int).map_values(|l: Seq<char>| spec_todo_fields(l)),
        decreases lines@.len() - i,
    {
        assert(lv[i as int] == lines@[i as int]@);
        let ghost before = r@.map_values(|e: TodoEntry| todo_view(e));
        r.push(todo_fields(&lines[i]));
        assert(r@.map_values(|e: TodoEntry| todo_view(e)) == before.push(spec_todo_fields(lv[i as int])));
        assert(lv.subrange(0, i + 1) == lv.subrange(0, i as int).push(lv[i as int]));
        i = i + 1;
    }
    assert(lv.subrange(0, lv.len() as int) == lv);
    r
}

/// How a merge of a target commit proceeds.
#[derive(Debug, Clone, Copy, PartialEq, Eq, Structural)]
pub enum MergePlan {
    /// The target is already in the current history.
    UpToDate,
    /// Run the one-step plan with this action.
    Run(MergeAction),
}

#[derive(Debug, Clone, Copy, PartialEq, Eq, Structural)]
pub enum MergeAction {
    SquashMerge,
    FastForward,
    Merge,
}

/// The action name a merge plan records.
pub fn merge_action_name(a: MergeAction) -> (s: &'static str)
    ensures
        s@ == match a {
            MergeAction::SquashMerge => "squash-merge"@,
            MergeAction::FastForward => "fast-forward"@,
            MergeAction::Merge => "merge"@,
        },
{
    match a {
        MergeAction::SquashMerge => "squash-merge",
        MergeAction::FastForward => "fast-forward",
        MergeAction::Merge => "merge",
    }
}

/// A merge is refused while a native operation is active; otherwise there is
/// nothing to do when HEAD is the target or descends from it, and else a
/// squash merge if asked, a fast-forward when possible and allowed, or a
/// merge commit.
pub fn plan_merge(
    native_active: bool,
    head_is_target: bool,
    head_descends_from_target: bool,
    target_descends_from_head: bool,
    no_ff: bool,
    squash: bool,
) -> (r: Result<MergePlan, GitError>)
    ensures
        native_active ==> (r matches Err(GitError::RecoveryRequired { reason })
            && reason@ == "finish or abort the active slio operation before starting another operation"@),
        !native_active && (head_is_target || head_descends_from_target) ==> r == Ok::<MergePlan, GitError>(MergePlan::UpToDate),
        !native_active && !(head_is_target || head_descends_from_target) ==> r == Ok::<MergePlan, GitError>(MergePlan::Run(
            if squash {
                MergeAction::SquashMerge
            } else if target_descends_from_head && !no_ff {
                MergeAction::FastForward
            } else {
                MergeAction::Merge
            },
        )),
{
    if native_active {
        return Err(GitError::RecoveryRequired { reason: String::from_str("finish or abort the active slio operation before starting another operation") });
    }
    if head_is_target || head_descends_from_target {
        return Ok(MergePlan::UpToDate);
    }
    Ok(MergePlan::Run(
        if squash {
            MergeAction::SquashMerge
        } else if target_descends_from_head && !no_ff {
            MergeAction::FastForward
        } else {
            MergeAction::Merge
        },
    ))
}

/// A merge that stopped short is a conflict, unless it was a squash merge
/// waiting for its message.
pub fn merge_result(done: bool, squash: bool) -> (r: Result<(), GitError>)
    ensures
        (!done && !squash) ==> r matches Err(GitError::MergeConflict),
        (done || squash) ==> r is Ok,
{
    if !done && !squash {
        return Err(GitError::MergeConflict);
    }
    Ok(())
}

/// A cherry-pick or revert that stopped short waits for its conflicts to
/// be resolved.
pub fn pick_result(kind: Kind, complete: bool) -> (r: Result<(), GitError>)
    ensures
        complete ==> r is Ok,
        !complete ==> (r matches Err(GitError::OperationFailed { operation, details }) && operation@ == (if kind == Kind::CherryPick {
            "cherry-pick"@
        } else {
            "revert"@
        }) && details@ == "存在冲突，请解决后继续，或中止当前操作"@),
{
    if complete {
        return Ok(());
    }
    let operation = if kind == Kind::CherryPick {
        String::from_str("cherry-pick")
    } else {
        String::from_str("revert")
    };
    Err(GitError::OperationFailed { operation, details: String::from_str("存在冲突，请解决后继续，或中止当前操作") })
}

/// No other operation may start while a native one is active, nor (in
/// the store build) while another Git operation is under way.
pub fn check_no_active_operation(native_active: bool, foreign_operation: bool) -> (r: Result<(), GitError>)
    ensures
        native_active ==> (r matches Err(GitError::RecoveryRequired { reason })
            && reason@ == "finish or abort the active slio operation before starting another operation"@),
        !native_active && foreign_operation ==> (r matches Err(GitError::RecoveryRequired { reason })
            && reason@ == "请回到发起该流程的工具继续或中止；商店版保留当前现场"@),
        !native_active && !foreign_operation ==> r is Ok,
{
    if native_active {
        return Err(GitError::RecoveryRequired { reason: String::from_str("finish or abort the active slio operation before starting another operation") });
    }
    if foreign_operation {
        return Err(GitError::RecoveryRequired { reason: String::from_str("请回到发起该流程的工具继续或中止；商店版保留当前现场") });
    }
    Ok(())
}

/// A recovery control only applies to an active native operation of its
/// own kind.
pub fn check_active_kind(active: Option<Kind>, kind: Kind) -> (r: Result<(), GitError>)
    ensures
        active is None ==> (r matches Err(GitError::RecoveryRequired { reason }) && reason@ == "no native operation"@),
        active matches Some(k) && k != kind ==> (r matches Err(GitError::RecoveryRequired { reason })
            && reason@ == "use the recovery controls for the active operation"@),
        active == Some(kind) ==> r is Ok,
{
    match active {
        None => Err(GitError::RecoveryRequired { reason: String::from_str("no native operation") }),
        Some(k) => if k != kind {
            Err(GitError::RecoveryRequired { reason: String::from_str("use the recovery controls for the active operation") })
        } else {
            Ok(())
        },
    }
}

/// Files may be edited only while a native operation waits for the user
/// (a conflict, an edit, a merge message), and (in the store build) not
/// during another tool's operation.
pub fn check_edit_allowed(active_phase: Option<&str>, foreign_operation: bool) -> (r: Result<(), GitError>)
    ensures
        (active_phase matches Some(p) && !(p@ == "conflict"@ || p@ == "edit"@ || p@ == "merge-ready"@)) ==> (r matches Err(
            GitError::RecoveryRequired { reason },
        ) && reason@ == "请先继续或中止恢复，再修改文件"@),
        (active_phase matches Some(p) && (p@ == "conflict"@ || p@ == "edit"@ || p@ == "merge-ready"@)) ==> r is Ok,
        (active_phase is None && foreign_operation) ==> (r matches Err(GitError::RecoveryRequired { reason })
            && reason@ == "请回到发起该流程的工具解决冲突并继续或中止"@),
        (active_phase is None && !foreign_operation) ==> r is Ok,
{
    match active_phase {
        Some(p) => {
            if !(same_str(p, "conflict") || same_str(p, "edit") || same_str(p, "merge-ready")) {
                return Err(GitError::RecoveryRequired { reason: String::from_str("请先继续或中止恢复，再修改文件") });
            }
            Ok(())
        },
        None => {
            if foreign_operation {
                return Err(GitError::RecoveryRequired { reason: String::from_str("请回到发起该流程的工具解决冲突并继续或中止") });
            }
            Ok(())
        },
    }
}

} // verus!

//! The staging area: file changes, hunks, and the patches that stage or
//! unstage a whole hunk or selected lines of one.
use crate::git::error::GitError;
use crate::text::{char_range, chars_of, decimal, is_white_space, push_char, split_chars, split_on, u64_to_decimal, white_space};
use vstd::prelude::*;

verus! {

/// Status of a changed file.
#[derive(Debug, Clone, Copy, PartialEq, Eq, Structural)]
pub enum ChangeStatus {
    Modified,
    Added,
    Deleted,
    Renamed,
    Untracked,
    Ignored,
    Conflict,
}

/// A changed file.
#[derive(Debug, Clone)]
pub struct Change {
    pub path: String,
    pub status: ChangeStatus,
    pub staged: bool,
    pub unstaged: bool,
    pub old_oid: Option<String>,
    pub new_oid: Option<String>,
    /// Whether the change is a submodule entry.
    pub is_submodule: bool,
    /// Commit range summary of a submodule change (`abc1234..def5678`).
    pub submodule_summary: Option<String>,
}

/// An entry of the index.
#[derive(Debug, Clone)]
pub struct IndexEntry {
    pub path: String,
    pub oid: String,
    pub mode: u32,
    pub stage: u32,
}

/// A hunk of a file's diff.
#[derive(Debug, Clone)]
pub struct Hunk {
    pub old_start: u32,
    pub old_lines: u32,
    pub new_start: u32,
    pub new_lines: u32,
    pub header: String,
    pub lines: Vec<HunkLine>,
}

/// A line of a hunk: its origin (`' '`, `'+'`, `'-'` or another marker) and
/// its text.
#[derive(Debug, Clone)]
pub struct HunkLine {
    pub origin: char,
    pub content: String,
}

/// Which side of the diff a line selection refers to.
#[derive(Debug, Clone, Copy, PartialEq, Eq, Structural)]
pub enum LineSide {
    /// The old side: deleted lines (`-`).
    Old,
    /// The new side: added lines (`+`).
    New,
}

/// The flags of a file's status, as the repository reports them.
#[derive(Debug, Clone, Copy, PartialEq, Eq, Structural)]
pub struct StatusFlags {
    pub index_new: bool,
    pub index_modified: bool,
    pub index_deleted: bool,
    pub index_renamed: bool,
    pub index_typechange: bool,
    pub wt_new: bool,
    pub wt_modified: bool,
    pub wt_deleted: bool,
    pub wt_typechange: bool,
    pub wt_renamed: bool,
    pub ignored: bool,
    pub conflicted: bool,
}

/// The status shown for a file: staged changes first (added, modified,
/// deleted, renamed), then working-tree ones (untracked, modified, deleted),
/// then conflicts and ignored files; anything else counts as modified.
pub open spec fn spec_convert_status(f: StatusFlags) -> ChangeStatus {
    if f.index_new {
        ChangeStatus::Added
    } else if f.index_modified {
        ChangeStatus::Modified
    } else if f.index_deleted {
        ChangeStatus::Deleted
    } else if f.index_renamed {
        ChangeStatus::Renamed
    } else if f.wt_new {
        ChangeStatus::Untracked
    } else if f.wt_modified {
        ChangeStatus::Modified
    } else if f.wt_deleted {
        ChangeStatus::Deleted
    } else if f.conflicted {
        ChangeStatus::Conflict
    } else if f.ignored {
        ChangeStatus::Ignored
    } else {
        ChangeStatus::Modified
    }
}

/// The status shown for a file with these flags.
pub fn convert_status(f: StatusFlags) -> (c: ChangeStatus)
    ensures
        c == spec_convert_status(f),
{
    if f.index_new {
        ChangeStatus::Added
    } else if f.index_modified {
        ChangeStatus::Modified
    } else if f.index_deleted {
        ChangeStatus::Deleted
    } else if f.index_renamed {
        ChangeStatus::Renamed
    } else if f.wt_new {
        ChangeStatus::Untracked
    } else if f.wt_modified {
        ChangeStatus::Modified
    } else if f.wt_deleted {
        ChangeStatus::Deleted
    } else if f.conflicted {
        ChangeStatus::Conflict
    } else if f.ignored {
        ChangeStatus::Ignored
    } else {
        ChangeStatus::Modified
    }
}

/// Whether the file has staged changes.
pub fn has_staged_status(f: StatusFlags) -> (b: bool)
    ensures
        b == (f.index_new || f.index_modified || f.index_deleted || f.index_renamed || f.index_typechange),
{
    f.index_new || f.index_modified || f.index_deleted || f.index_renamed || f.index_typechange
}

/// Whether the file has unstaged changes.
pub fn has_unstaged_status(f: StatusFlags) -> (b: bool)
    ensures
        b == (f.wt_modified || f.wt_deleted || f.wt_renamed || f.wt_typechange || f.wt_new),
{
    f.wt_modified || f.wt_deleted || f.wt_renamed || f.wt_typechange || f.wt_new
}

/// The change listed for a status entry; ignored files are not listed. A
/// type change in the working tree marks a submodule, as does what the
/// repository says about the path.
pub fn change_from_status(path: String, f: StatusFlags, known_submodule: bool, submodule_summary: Option<String>) -> (r: Option<Change>)
    ensures
        f.ignored ==> r is None,
        !f.ignored ==> (r matches Some(c) && {
            &&& c.path == path
            &&& c.status == spec_convert_status(f)
            &&& c.staged == (f.index_new || f.index_modified || f.index_deleted || f.index_renamed || f.index_typechange)
            &&& c.unstaged == (f.wt_modified || f.wt_deleted || f.wt_renamed || f.wt_typechange || f.wt_new)
            &&& c.old_oid is None
            &&& c.new_oid is None
            &&& c.is_submodule == (f.wt_typechange || known_submodule)
            &&& c.submodule_summary == if f.wt_typechange || known_submodule {
                submodule_summary
            } else {
                None
            }
        }),
{
    if f.ignored {
        return None;
    }
    let is_submodule = f.wt_typechange || known_submodule;
    Some(Change {
        path,
        status: convert_status(f),
        staged: has_staged_status(f),
        unstaged: has_unstaged_status(f),
        old_oid: None,
        new_oid: None,
        is_submodule,
        submodule_summary: if is_submodule {
            submodule_summary
        } else {
            None
        },
    })
}

/// Names of the conflicted files among `changes`, in order.
pub open spec fn conflicted_paths(changes: Seq<Change>) -> Seq<Seq<char>>
    decreases changes.len(),
{
    if changes.len() == 0 {
        Seq::empty()
    } else if changes.last().status == ChangeStatus::Conflict {
        conflicted_paths(changes.drop_last()).push(changes.last().path@)
    } else {
        conflicted_paths(changes.drop_last())
    }
}

/// Whether any of the changes is a conflict.
pub fn has_conflicts(changes: &Vec<Change>) -> (r: bool)
    ensures
        r == exists|i: int| 0 <= i < changes@.len() && #[trigger] changes@[i].status == ChangeStatus::Conflict,
{
    let mut i: usize = 0;
    while i < changes.len()
        invariant
            i <= changes@.len(),
            forall|k: int| 0 <= k < i ==> #[trigger] changes@[k].status != ChangeStatus::Conflict,
        decreases changes@.len() - i,
    {
        if changes[i].status == ChangeStatus::Conflict {
            return true;
        }
        i = i + 1;
    }
    false
}

/// The paths of the conflicted files among `changes`.
pub fn get_conflicted_files(changes: &Vec<Change>) -> (paths: Vec<String>)
    ensures
        paths@.map_values(|p: String| p@) == conflicted_paths(changes@),
{
    let mut paths: Vec<String> = Vec::new();
    let mut i: usize = 0;
    while i < changes.len()
        invariant
            i <= changes@.len(),
            paths@.map_values(|p: String| p@) == conflicted_paths(changes@.subrange(0, i as int)),
        decreases changes@.len() - i,
    {
        assert(changes@.subrange(0, i + 1).drop_last() == changes@.subrange(0, i as int));
        if changes[i].status == ChangeStatus::Conflict {
            let ghost before = paths@.map_values(|p: String| p@);
            paths.push(changes[i].path.clone());
            assert(paths@.map_values(|p: String| p@) == before.push(changes@[i as int].path@));
        }
        i = i + 1;
    }
    assert(changes@.subrange(0, changes@.len() as int) == changes@);
    paths
}

/// A hunk line as plain values.
pub type LineView = (char, Seq<char>);

pub open spec fn line_views(lines: Seq<HunkLine>) -> Seq<LineView> {
    lines.map_values(|l: HunkLine| (l.origin, l.content@))
}

/// The text of one patch line: the origin, the content, and a newline when
/// the content lacks one.
pub open spec fn patch_line(origin: char, content: Seq<char>) -> Seq<char> {
    let body = seq![origin] + content;
    if content.len() > 0 && content.last() == '\n' {
        body
    } else {
        body.push('\n')
    }
}

/// The patch lines of `lines`, one after the other.
pub open spec fn patch_body(lines: Seq<LineView>) -> Seq<char>
    decreases lines.len(),
{
    if lines.len() == 0 {
        Seq::empty()
    } else {
        patch_body(lines.drop_last()) + patch_line(lines.last().0, lines.last().1)
    }
}

/// The `diff --git`, `---` and `+++` lines of a patch for `path`.
pub open spec fn patch_file_header(path: Seq<char>) -> Seq<char> {
    "diff --git a/"@ + path + " b/"@ + path + "\n--- a/"@ + path + "\n+++ b/"@ + path + "\n"@
}

/// Appends one patch line.
fn push_patch_line(patch: &mut String, origin: char, content: &String)
    ensures
        final(patch)@ == old(patch)@ + patch_line(origin, content@),
{
    push_char(patch, origin);
    patch.append(content.as_str());
    let v = chars_of(content.as_str());
    let n = v.len();
    if !(n > 0 && v[n - 1] == '\n') {
        push_char(patch, '\n');
    }
}

fn file_header(path: &str) -> (s: String)
    ensures
        s@ == patch_file_header(path@),
{
    let mut s = String::from_str("diff --git a/");
    s.append(path);
    s.append(" b/");
    s.append(path);
    s.append("\n--- a/");
    s.append(path);
    s.append("\n+++ b/");
    s.append(path);
    s.append("\n");
    s
}

/// The patch that applies one hunk: the file header, the hunk header
/// (newline-terminated) and the hunk's lines.
pub open spec fn spec_hunk_patch(path: Seq<char>, header: Seq<char>, lines: Seq<LineView>) -> Seq<char> {
    let h = if header.len() > 0 && header.last() == '\n' {
        header
    } else {
        header.push('\n')
    };
    patch_file_header(path) + h + patch_body(lines)
}

/// The patch that stages one hunk of `file_path`.
pub fn generate_hunk_patch(file_path: &str, hunk: &Hunk) -> (patch: String)
    ensures
        patch@ == spec_hunk_patch(file_path@, hunk.header@, line_views(hunk.lines@)),
{
    let mut patch = file_header(file_path);
    patch.append(hunk.header.as_str());
    let hv = chars_of(hunk.header.as_str());
    let hn = hv.len();
    if !(hn > 0 && hv[hn - 1] == '\n') {
        push_char(&mut patch, '\n');
    }
    let ghost prefix = patch@;
    let mut i: usize = 0;
    while i < hunk.lines.len()
        invariant
            i <= hunk.lines@.len(),
            patch@ == prefix + patch_body(line_views(hunk.lines@.subrange(0, i as int))),
        decreases hunk.lines@.len() - i,
    {
        let ghost lv = line_views(hunk.lines@.subrange(0, i + 1));
        assert(lv.drop_last() == line_views(hunk.lines@.subrange(0, i as int)));
        assert(lv.last() == (hunk.lines@[i as int].origin, hunk.lines@[i as int].content@));
        push_patch_line(&mut patch, hunk.lines[i].origin, &hunk.lines[i].content);
        i = i + 1;
    }
    assert(hunk.lines@.subrange(0, hunk.lines@.len() as int) == hunk.lines@);
    patch
}

/// The origin a line takes in a reverse patch: additions and deletions swap.
pub open spec fn reversed_origin(c: char) -> char {
    if c == '+' {
        '-'
    } else if c == '-' {
        '+'
    } else {
        c
    }
}

/// The patch that takes one hunk back out: the hunk header is followed by a
/// newline and every addition becomes a deletion and the reverse.
pub open spec fn spec_reverse_hunk_patch(path: Seq<char>, header: Seq<char>, lines: Seq<LineView>) -> Seq<char> {
    patch_file_header(path) + header.push('\n') + patch_body(lines.map_values(|l: LineView| (reversed_origin(l.0), l.1)))
}

/// The reverse patch of one hunk of `file_path`.
pub fn generate_reverse_hunk_patch(file_path: &str, hunk: &Hunk) -> (patch: String)
    ensures
        patch@ == spec_reverse_hunk_patch(file_path@, hunk.header@, line_views(hunk.lines@)),
{
    let mut patch = file_header(file_path);
    patch.append(hunk.header.as_str());
    push_char(&mut patch, '\n');
    let ghost prefix = patch@;
    let ghost all = line_views(hunk.lines@).map_values(|l: LineView| (reversed_origin(l.0), l.1));
    let mut i: usize = 0;
    while i < hunk.lines.len()
        invariant
            i <= hunk.lines@.len(),
            all == line_views(hunk.lines@).map_values(|l: LineView| (reversed_origin(l.0), l.1)),
            patch@ == prefix + patch_body(all.subrange(0, i as int)),
        decreases hunk.lines@.len() - i,
    {
        let ghost lv = all.subrange(0, i + 1);
        assert(lv.drop_last() == all.subrange(0, i as int));
        let o = hunk.lines[i].origin;
        let r = if o == '+' {
            '-'
        } else if o == '-' {
            '+'
        } else {
            o
        };
        assert(lv.last() == (r, hunk.lines@[i as int].content@));
        push_patch_line(&mut patch, r, &hunk.lines[i].content);
        i = i + 1;
    }
    assert(all.subrange(0, hunk.lines@.len() as int) == all);
    patch
}

/// What a line becomes in a patch that stages the selected lines of a
/// working-tree hunk: its origin in the patch (none: left out) and how much
/// it adds to the old and new line counts.
pub open spec fn stage_emit(origin: char, selected: bool, side: LineSide) -> (Option<char>, nat, nat) {
    if origin == ' ' {
        (Some(' '), 1, 1)
    } else if origin == '+' {
        if side == LineSide::New && selected {
            (Some('+'), 0, 1)
        } else {
            (None, 0, 0)
        }
    } else if origin == '-' {
        if side == LineSide::Old && selected {
            (Some('-'), 1, 0)
        } else {
            (Some(' '), 1, 1)
        }
    } else {
        (Some(origin), 1, 1)
    }
}

/// What a line becomes in a patch that unstages the selected lines of a
/// staged hunk.
pub open spec fn unstage_emit(origin: char, selected: bool, side: LineSide) -> (Option<char>, nat, nat) {
    if origin == ' ' {
        (Some(' '), 1, 1)
    } else if origin == '+' {
        if side == LineSide::New && selected {
            (Some('-'), 1, 0)
        } else if side == LineSide::New {
            (Some(' '), 1, 1)
        } else {
            (None, 0, 0)
        }
    } else if origin == '-' {
        if side == LineSide::Old && selected {
            (Some('+'), 0, 1)
        } else {
            (None, 0, 0)
        }
    } else {
        (Some(origin), 1, 1)
    }
}

/// The emitted lines and the old and new counts for the first `k` lines of a
/// hunk (`staging`: stage, else unstage).
pub open spec fn line_plan(lines: Seq<LineView>, selected: Seq<usize>, side: LineSide, staging: bool, k: int) -> (Seq<LineView>, nat, nat)
    decreases k,
{
    if k <= 0 {
        (Seq::empty(), 0, 0)
    } else {
        let (out, o, n) = line_plan(lines, selected, side, staging, k - 1);
        let l = lines[k - 1];
        let sel = selected.contains((k - 1) as usize);
        let (emit, di, dn) = if staging {
            stage_emit(l.0, sel, side)
        } else {
            unstage_emit(l.0, sel, side)
        };
        match emit {
            Some(c) => (out.push((c, l.1)), o + di, n + dn),
            None => (out, o + di, n + dn),
        }
    }
}

/// The contents of the emitted lines with origin `c`, in order.
pub open spec fn lines_with_origin(out: Seq<LineView>, c: char) -> Seq<Seq<char>>
    decreases out.len(),
{
    if out.len() == 0 {
        Seq::empty()
    } else if out.last().0 == c {
        lines_with_origin(out.drop_last(), c).push(out.last().1)
    } else {
        lines_with_origin(out.drop_last(), c)
    }
}

/// The contents of the selected lines among the first `k` of a hunk whose
/// origin is `c`, in order.
pub open spec fn chosen_lines(lines: Seq<LineView>, selected: Seq<usize>, k: int, c: char) -> Seq<Seq<char>>
    decreases k,
{
    if k <= 0 {
        Seq::empty()
    } else if lines[k - 1].0 == c && selected.contains((k - 1) as usize) {
        chosen_lines(lines, selected, k - 1, c).push(lines[k - 1].1)
    } else {
        chosen_lines(lines, selected, k - 1, c)
    }
}

/// What a patch for selected lines adds and removes. Unstaging turns each
/// selected deletion of the old side back into an addition of the same line
/// (so applying the patch to the index restores it) and each selected
/// addition of the new side into a deletion; staging keeps each selected
/// addition (new side) or deletion (old side) as it is. The patch adds or
/// removes nothing else.
pub proof fn lemma_line_plan_changes_only_selected_lines(lines: Seq<LineView>, selected: Seq<usize>, k: int)
    requires
        0 <= k <= lines.len(),
    ensures
        lines_with_origin(line_plan(lines, selected, LineSide::Old, false, k).0, '+') == chosen_lines(lines, selected, k, '-'),
        lines_with_origin(line_plan(lines, selected, LineSide::Old, false, k).0, '-') == Seq::<Seq<char>>::empty(),
        lines_with_origin(line_plan(lines, selected, LineSide::New, false, k).0, '-') == chosen_lines(lines, selected, k, '+'),
        lines_with_origin(line_plan(lines, selected, LineSide::New, false, k).0, '+') == Seq::<Seq<char>>::empty(),
        lines_with_origin(line_plan(lines, selected, LineSide::Old, true, k).0, '-') == chosen_lines(lines, selected, k, '-'),
        lines_with_origin(line_plan(lines, selected, LineSide::Old, true, k).0, '+') == Seq::<Seq<char>>::empty(),
        lines_with_origin(line_plan(lines, selected, LineSide::New, true, k).0, '+') == chosen_lines(lines, selected, k, '+'),
        lines_with_origin(line_plan(lines, selected, LineSide::New, true, k).0, '-') == Seq::<Seq<char>>::empty(),
    decreases k,
{
    if k > 0 {
        lemma_line_plan_changes_only_selected_lines(lines, selected, k - 1);
        let l = lines[k - 1];
        let p_uo = line_plan(lines, selected, LineSide::Old, false, k - 1).0;
        let p_un = line_plan(lines, selected, LineSide::New, false, k - 1).0;
        let p_so = line_plan(lines, selected, LineSide::Old, true, k - 1).0;
        let p_sn = line_plan(lines, selected, LineSide::New, true, k - 1).0;
        let c_uo = line_plan(lines, selected, LineSide::Old, false, k).0;
        let c_un = line_plan(lines, selected, LineSide::New, false, k).0;
        let c_so = line_plan(lines, selected, LineSide::Old, true, k).0;
        let c_sn = line_plan(lines, selected, LineSide::New, true, k).0;
        if c_uo != p_uo {
            assert(c_uo.drop_last() == p_uo);
        }
        if c_un != p_un {
            assert(c_un.drop_last() == p_un);
        }
        if c_so != p_so {
            assert(c_so.drop_last() == p_so);
        }
        if c_sn != p_sn {
            assert(c_sn.drop_last() == p_sn);
        }
    }
}

/// How many emitted lines have an origin other than `c`.
pub open spec fn count_other_than(out: Seq<LineView>, c: char) -> nat
    decreases out.len(),
{
    if out.len() == 0 {
        0
    } else if out.last().0 == c {
        count_other_than(out.drop_last(), c)
    } else {
        count_other_than(out.drop_last(), c) + 1
    }
}

/// The counts in the header of a patch for selected lines match its lines:
/// the old count is the number of lines that are not additions, the new count
/// the number of lines that are not deletions.
pub proof fn lemma_line_plan_counts_match_lines(lines: Seq<LineView>, selected: Seq<usize>, side: LineSide, staging: bool, k: int)
    requires
        0 <= k <= lines.len(),
    ensures
        line_plan(lines, selected, side, staging, k).1 == count_other_than(line_plan(lines, selected, side, staging, k).0, '+'),
        line_plan(lines, selected, side, staging, k).2 == count_other_than(line_plan(lines, selected, side, staging, k).0, '-'),
    decreases k,
{
    if k > 0 {
        lemma_line_plan_counts_match_lines(lines, selected, side, staging, k - 1);
        let prev = line_plan(lines, selected, side, staging, k - 1).0;
        let cur = line_plan(lines, selected, side, staging, k).0;
        if cur != prev {
            assert(cur.drop_last() == prev);
        }
    }
}

/// Whether every emitted line is context.
pub open spec fn all_context(out: Seq<LineView>) -> bool {
    forall|i: int| 0 <= i < out.len() ==> #[trigger] out[i].0 == ' '
}

/// The patch for selected lines: file header, a hunk header with the hunk's
/// start lines and the counts, and the emitted lines.
pub open spec fn spec_line_patch(path: Seq<char>, old_start: u32, new_start: u32, plan: (Seq<LineView>, nat, nat)) -> Seq<char> {
    patch_file_header(path) + "@@ -"@ + decimal(old_start as nat) + seq![','] + decimal(plan.1) + " +"@ + decimal(new_start as nat)
        + seq![','] + decimal(plan.2) + " @@\n"@ + patch_body(plan.0)
}

/// Whether the selected lines change nothing (same counts, only context).
pub open spec fn plan_is_empty(plan: (Seq<LineView>, nat, nat)) -> bool {
    plan.1 == plan.2 && all_context(plan.0)
}

/// Builds a patch from emitted lines and counts.
fn build_patch_string(file_path: &str, hunk: &Hunk, out_lines: &Vec<(char, String)>, old_count: u32, new_count: u32) -> (patch: String)
    ensures
        patch@ == spec_line_patch(
            file_path@,
            hunk.old_start,
            hunk.new_start,
            (out_lines@.map_values(|l: (char, String)| (l.0, l.1@)), old_count as nat, new_count as nat),
        ),
{
    let mut patch = file_header(file_path);
    patch.append("@@ -");
    let a = u64_to_decimal(hunk.old_start as u64);
    patch.append(a.as_str());
    push_char(&mut patch, ',');
    let b = u64_to_decimal(old_count as u64);
    patch.append(b.as_str());
    patch.append(" +");
    let c = u64_to_decimal(hunk.new_start as u64);
    patch.append(c.as_str());
    push_char(&mut patch, ',');
    let d = u64_to_decimal(new_count as u64);
    patch.append(d.as_str());
    patch.append(" @@\n");
    let ghost prefix = patch@;
    let ghost all = out_lines@.map_values(|l: (char, String)| (l.0, l.1@));
    let mut i: usize = 0;
    while i < out_lines.len()
        invariant
            i <= out_lines@.len(),
            all == out_lines@.map_values(|l: (char, String)| (l.0, l.1@)),
            patch@ == prefix + patch_body(all.subrange(0, i as int)),
        decreases out_lines@.len() - i,
    {
        assert(all.subrange(0, i + 1).drop_last() == all.subrange(0, i as int));
        push_patch_line(&mut patch, out_lines[i].0, &out_lines[i].1);
        i = i + 1;
    }
    assert(all.subrange(0, out_lines@.len() as int) == all);
    patch
}

fn contains_index(selected: &[usize], idx: usize) -> (r: bool)
    ensures
        r == selected@.contains(idx),
{
    let mut i: usize = 0;
    while i < selected.len()
        invariant
            i <= selected@.len(),
            forall|k: int| 0 <= k < i ==> selected@[k] != idx,
        decreases selected@.len() - i,
    {
        if selected[i] == idx {
            return true;
        }
        i = i + 1;
    }
    false
}

proof fn lemma_plan_counts_bounded(lines: Seq<LineView>, selected: Seq<usize>, side: LineSide, staging: bool, k: int)
    requires
        0 <= k,
    ensures
        line_plan(lines, selected, side, staging, k).1 <= k,
        line_plan(lines, selected, side, staging, k).2 <= k,
    decreases k,
{
    if k > 0 {
        lemma_plan_counts_bounded(lines, selected, side, staging, k - 1);
    }
}

/// Emits the lines of a selection and counts both sides.
fn plan_lines(hunk: &Hunk, selected: &[usize], side: LineSide, staging: bool) -> (r: (Vec<(char, String)>, u32, u32))
    requires
        hunk.lines@.len() <= u32::MAX,
    ensures
        (r.0@.map_values(|l: (char, String)| (l.0, l.1@)), r.1 as nat, r.2 as nat) == line_plan(
            line_views(hunk.lines@),
            selected@,
            side,
            staging,
            hunk.lines@.len() as int,
        ),
{
    let ghost lines = line_views(hunk.lines@);
    let mut out: Vec<(char, String)> = Vec::new();
    let mut old_count: u32 = 0;
    let mut new_count: u32 = 0;
    let mut i: usize = 0;
    while i < hunk.lines.len()
        invariant
            i <= hunk.lines@.len(),
            hunk.lines@.len() <= u32::MAX,
            lines == line_views(hunk.lines@),
            (out@.map_values(|l: (char, String)| (l.0, l.1@)), old_count as nat, new_count as nat) == line_plan(lines, selected@, side, staging, i as int),
        decreases hunk.lines@.len() - i,
    {
        proof {
            lemma_plan_counts_bounded(lines, selected@, side, staging, i as int);
        }
        let line = &hunk.lines[i];
        assert(lines[i as int] == (line.origin, line.content@));
        let sel = contains_index(selected, i);
        let o = line.origin;
        let emit: Option<char>;
        if o == ' ' {
            old_count = old_count + 1;
            new_count = new_count + 1;
            emit = Some(' ');
        } else if o == '+' {
            if staging {
                if side == LineSide::New && sel {
                    new_count = new_count + 1;
                    emit = Some('+');
                } else {
                    emit = None;
                }
            } else {
                if side == LineSide::New && sel {
                    old_count = old_count + 1;
                    emit = Some('-');
                } else if side == LineSide::New {
                    old_count = old_count + 1;
                    new_count = new_count + 1;
                    emit = Some(' ');
                } else {
                    emit = None;
                }
            }
        } else if o == '-' {
            if staging {
                if side == LineSide::Old && sel {
                    old_count = old_count + 1;
                    emit = Some('-');
                } else {
                    old_count = old_count + 1;
                    new_count = new_count + 1;
                    emit = Some(' ');
                }
            } else {
                if side == LineSide::Old && sel {
                    new_count = new_count + 1;
                    emit = Some('+');
                } else {
                    emit = None;
                }
            }
        } else {
            old_count = old_count + 1;
            new_count = new_count + 1;
            emit = Some(o);
        }
        let ghost before = out@.map_values(|l: (char, String)| (l.0, l.1@));
        match emit {
            Some(c) => {
                out.push((c, line.content.clone()));
                assert(out@.map_values(|l: (char, String)| (l.0, l.1@)) == before.push((c, line.content@)));
            },
            None => {},
        }
        i = i + 1;
    }
    (out, old_count, new_count)
}

fn only_context(out: &Vec<(char, String)>) -> (r: bool)
    ensures
        r == all_context(out@.map_values(|l: (char, String)| (l.0, l.1@))),
{
    let mut i: usize = 0;
    while i < out.len()
        invariant
            i <= out@.len(),
            forall|k: int| 0 <= k < i ==> out@[k].0 == ' ',
        decreases out@.len() - i,
    {
        if out[i].0 != ' ' {
            assert(out@.map_values(|l: (char, String)| (l.0, l.1@))[i as int].0 != ' ');
            return false;
        }
        i = i + 1;
    }
    true
}

/// The plan of a selection over the whole hunk.
pub open spec fn hunk_plan(hunk: Hunk, selected: Seq<usize>, side: LineSide, staging: bool) -> (Seq<LineView>, nat, nat) {
    line_plan(line_views(hunk.lines@), selected, side, staging, hunk.lines@.len() as int)
}

/// The patch that stages the selected lines of a working-tree hunk: selected
/// changes of `side` are kept, the unselected ones become context (deletions)
/// or are left out (additions), and additions are left out when deletions
/// are staged. A selection that changes nothing is an error.
pub fn generate_line_patch(file_path: &str, hunk: &Hunk, selected: &[usize], side: LineSide) -> (r: Result<String, GitError>)
    requires
        hunk.lines@.len() <= u32::MAX,
    ensures
        plan_is_empty(hunk_plan(*hunk, selected@, side, true)) ==> (r matches Err(GitError::OperationFailed { operation, details })
            && operation@ == "generate_line_patch"@ && details@ == "Selected lines produce an empty diff"@),
        !plan_is_empty(hunk_plan(*hunk, selected@, side, true)) ==> (r matches Ok(p) && p@ == spec_line_patch(
            file_path@,
            hunk.old_start,
            hunk.new_start,
            hunk_plan(*hunk, selected@, side, true),
        )),
{
    let (out, old_count, new_count) = plan_lines(hunk, selected, side, true);
    if old_count == new_count && only_context(&out) {
        return Err(GitError::OperationFailed {
            operation: String::from_str("generate_line_patch"),
            details: String::from_str("Selected lines produce an empty diff"),
        });
    }
    Ok(build_patch_string(file_path, hunk, &out, old_count, new_count))
}

/// The patch that unstages the selected lines of a staged hunk: a selected
/// addition becomes a deletion and a selected deletion an addition;
/// unselected additions stay as context, unselected deletions and lines of
/// the other side are left out. A selection that changes nothing is an error.
pub fn generate_line_unstage_patch(file_path: &str, hunk: &Hunk, selected: &[usize], side: LineSide) -> (r: Result<String, GitError>)
    requires
        hunk.lines@.len() <= u32::MAX,
    ensures
        plan_is_empty(hunk_plan(*hunk, selected@, side, false)) ==> (r matches Err(GitError::OperationFailed { operation, details })
            && operation@ == "generate_line_unstage_patch"@ && details@ == "Selected lines produce an empty diff"@),
        !plan_is_empty(hunk_plan(*hunk, selected@, side, false)) ==> (r matches Ok(p) && p@ == spec_line_patch(
            file_path@,
            hunk.old_start,
            hunk.new_start,
            hunk_plan(*hunk, selected@, side, false),
        )),
{
    let (out, old_count, new_count) = plan_lines(hunk, selected, side, false);
    if old_count == new_count && only_context(&out) {
        return Err(GitError::OperationFailed {
            operation: String::from_str("generate_line_unstage_patch"),
            details: String::from_str("Selected lines produce an empty diff"),
        });
    }
    Ok(build_patch_string(file_path, hunk, &out, old_count, new_count))
}

/// `generate_line_patch` for a selection known to change something.
pub fn generate_line_patch_for_test(file_path: &str, hunk: &Hunk, selected: &[usize], side: LineSide) -> (p: String)
    requires
        hunk.lines@.len() <= u32::MAX,
        !plan_is_empty(hunk_plan(*hunk, selected@, side, true)),
    ensures
        p@ == spec_line_patch(file_path@, hunk.old_start, hunk.new_start, hunk_plan(*hunk, selected@, side, true)),
{
    match generate_line_patch(file_path, hunk, selected, side) {
        Ok(p) => p,
        Err(_) => String::new(),
    }
}

/// Number of emitted lines that are not additions (the old side's lines).
pub open spec fn old_side_lines(out: Seq<LineView>) -> nat
    decreases out.len(),
{
    if out.len() == 0 {
        0
    } else {
        old_side_lines(out.drop_last()) + if out.last().0 != '+' {
            1nat
        } else {
            0nat
        }
    }
}

/// Number of emitted lines that are not deletions (the new side's lines).
pub open spec fn new_side_lines(out: Seq<LineView>) -> nat
    decreases out.len(),
{
    if out.len() == 0 {
        0
    } else {
        new_side_lines(out.drop_last()) + if out.last().0 != '-' {
            1nat
        } else {
            0nat
        }
    }
}

/// The counts in the header of a line patch (staging or unstaging) are those
/// of its body: the old count is the number of lines that are not additions
/// and the new count the number that are not deletions, so that `git apply`
/// accepts the patch.
pub proof fn lemma_line_patch_counts_match_body(lines: Seq<LineView>, selected: Seq<usize>, side: LineSide, staging: bool, k: int)
    requires
        0 <= k <= lines.len(),
    ensures
        line_plan(lines, selected, side, staging, k).1 == old_side_lines(line_plan(lines, selected, side, staging, k).0),
        line_plan(lines, selected, side, staging, k).2 == new_side_lines(line_plan(lines, selected, side, staging, k).0),
    decreases k,
{
    if k > 0 {
        lemma_line_patch_counts_match_body(lines, selected, side, staging, k - 1);
        let (out, o, n) = line_plan(lines, selected, side, staging, k - 1);
        let l = lines[k - 1];
        let sel = selected.contains((k - 1) as usize);
        let (emit, di, dn) = if staging {
            stage_emit(l.0, sel, side)
        } else {
            unstage_emit(l.0, sel, side)
        };
        match emit {
            Some(c) => {
                assert(out.push((c, l.1)).drop_last() == out);
            },
            None => {},
        }
    }
}

/// The white-space separated words of `s` (`str::split_whitespace`), from
/// its first `k` characters: the finished words and the word being read.
pub open spec fn words_upto(s: Seq<char>, k: int) -> (Seq<Seq<char>>, Seq<char>)
    decreases k,
{
    if k <= 0 {
        (Seq::empty(), Seq::empty())
    } else {
        let (done, cur) = words_upto(s, k - 1);
        if is_white_space(s[k - 1]) {
            if cur.len() > 0 {
                (done.push(cur), Seq::empty())
            } else {
                (done, cur)
            }
        } else {
            (done, cur.push(s[k - 1]))
        }
    }
}

/// The words of `s`.
pub open spec fn words(s: Seq<char>) -> Seq<Seq<char>> {
    let (done, cur) = words_upto(s, s.len() as int);
    if cur.len() > 0 {
        done.push(cur)
    } else {
        done
    }
}

fn split_words(s: &str) -> (ws: Vec<Vec<char>>)
    ensures
        ws@.map_values(|w: Vec<char>| w@) == words(s@),
{
    let v = chars_of(s);
    let mut done: Vec<Vec<char>> = Vec::new();
    let mut cur: Vec<char> = Vec::new();
    let mut i: usize = 0;
    while i < v.len()
        invariant
            i <= v@.len(),
            v@ == s@,
            (done@.map_values(|w: Vec<char>| w@), cur@) == words_upto(s@, i as int),
        decreases v@.len() - i,
    {
        let c = v[i];
        if white_space(c) {
            if cur.len() > 0 {
                let ghost before = done@.map_values(|w: Vec<char>| w@);
                let w = cur;
                cur = Vec::new();
                done.push(w);
                assert(done@.map_values(|w: Vec<char>| w@) == before.push(w@));
            }
        } else {
            cur.push(c);
        }
        i = i + 1;
    }
    if cur.len() > 0 {
        let ghost before = done@.map_values(|w: Vec<char>| w@);
        done.push(cur);
        assert(done@.map_values(|w: Vec<char>| w@) == before.push(done@.last()@));
    }
    done
}

/// `s` without its leading `c` characters.
pub open spec fn strip_leading(s: Seq<char>, c: char) -> Seq<char>
    decreases s.len(),
{
    if s.len() > 0 && s[0] == c {
        strip_leading(s.drop_first(), c)
    } else {
        s
    }
}

fn strip_leading_exec(v: &Vec<char>, c: char) -> (out: Vec<char>)
    ensures
        out@ == strip_leading(v@, c),
{
    let n = v.len();
    let mut i: usize = 0;
    assert(v@.subrange(0, n as int) == v@);
    while i < n && v[i] == c
        invariant
            n == v@.len(),
            i <= n,
            strip_leading(v@, c) == strip_leading(v@.subrange(i as int, n as int), c),
        decreases n - i,
    {
        assert(v@.subrange(i as int, n as int).drop_first() == v@.subrange(i + 1, n as int));
        i = i + 1;
    }
    char_range(v, i, n)
}

pub open spec fn is_digit(c: char) -> bool {
    '0' <= c && c <= '9'
}

/// Whether every character of `d` is a decimal digit.
pub open spec fn all_digits(d: Seq<char>) -> bool {
    forall|i: int| 0 <= i < d.len() ==> #[trigger] is_digit(d[i])
}

/// `s` without one leading `+`.
pub open spec fn plus_stripped(s: Seq<char>) -> Seq<char> {
    if s.len() > 0 && s[0] == '+' {
        s.drop_first()
    } else {
        s
    }
}

/// The number the decimal digits `d` spell.
pub open spec fn digits_value(d: Seq<char>) -> nat
    decreases d.len(),
{
    if d.len() == 0 {
        0
    } else {
        digits_value(d.drop_last()) * 10 + ((d.last() as nat) - 48) as nat
    }
}

/// What `u32::from_str` gives: an optional `+`, then at least one decimal
/// digit and nothing else, with a value that fits in 32 bits.
pub open spec fn parse_u32(s: Seq<char>) -> Option<u32> {
    let d = plus_stripped(s);
    if d.len() > 0 && all_digits(d) && digits_value(d) <= u32::MAX {
        Some(digits_value(d) as u32)
    } else {
        None
    }
}

proof fn lemma_digits_grow(d: Seq<char>, i: int)
    requires
        0 <= i <= d.len(),
        forall|k: int| 0 <= k < d.len() ==> #[trigger] is_digit(d[k]),
    ensures
        digits_value(d.subrange(0, i)) <= digits_value(d),
    decreases d.len() - i,
{
    if i < d.len() {
        lemma_digits_grow(d, i + 1);
        assert(d.subrange(0, i + 1).drop_last() == d.subrange(0, i));
        assert(is_digit(d[i]));
    } else {
        assert(d.subrange(0, i) == d);
    }
}

fn parse_u32_exec(s: &Vec<char>) -> (r: Option<u32>)
    ensures
        r == parse_u32(s@),
{
    let d: Vec<char> = if s.len() > 0 && s[0] == '+' {
        char_range(s, 1, s.len())
    } else {
        char_range(s, 0, s.len())
    };
    assert(s@.subrange(0, s@.len() as int) == s@);
    assert(s@.len() > 0 ==> s@.subrange(1, s@.len() as int) == s@.drop_first());
    if d.len() == 0 {
        return None;
    }
    let mut acc: u64 = 0;
    let mut i: usize = 0;
    while i < d.len()
        invariant
            i <= d@.len(),
            acc == digits_value(d@.subrange(0, i as int)),
            acc <= u32::MAX,
            d@.len() > 0,
            d@ == plus_stripped(s@),
            forall|k: int| 0 <= k < i ==> #[trigger] is_digit(d@[k]),
        decreases d@.len() - i,
    {
        let c = d[i];
        if !('0' <= c && c <= '9') {
            assert(!is_digit(d@[i as int]));
            assert(!all_digits(d@));
            return None;
        }
        assert(d@.subrange(0, i + 1).drop_last() == d@.subrange(0, i as int));
        let next: u64 = acc * 10 + ((c as u32) - 48) as u64;
        if next > 0xffff_ffff {
            proof {
                assert(forall|k: int| 0 <= k < i + 1 ==> #[trigger] is_digit(d@[k]));
                if all_digits(d@) {
                    lemma_digits_grow(d@, i + 1);
                    assert(digits_value(d@.subrange(0, i + 1)) == next);
                    assert(digits_value(d@) > u32::MAX);
                }
            }
            return None;
        }
        acc = next;
        i = i + 1;
    }
    assert(d@.subrange(0, d@.len() as int) == d@);
    Some(acc as u32)
}

/// Start and length of a range like `-12,3` (length 1 when omitted, 0 for
/// what does not parse).
pub open spec fn spec_parse_range_part(part: Seq<char>) -> (u32, u32) {
    let s = strip_leading(strip_leading(part, '-'), '+');
    let nums = split_on(s, ',');
    let start = match parse_u32(nums[0]) {
        Some(v) => v,
        None => 0,
    };
    let lines = if nums.len() > 1 {
        match parse_u32(nums[1]) {
            Some(v) => v,
            None => 1,
        }
    } else {
        1
    };
    (start, lines)
}

/// Parses a hunk range part.
pub fn parse_range_part(part: &Vec<char>) -> (r: (u32, u32))
    ensures
        r == spec_parse_range_part(part@),
{
    let a = strip_leading_exec(part, '-');
    let b = strip_leading_exec(&a, '+');
    let nums = split_chars(&b, ',');
    proof {
        crate::text::lemma_split_nonempty(b@, ',');
    }
    assert(nums@.map_values(|p: Vec<char>| p@)[0] == nums@[0]@);
    let start = match parse_u32_exec(&nums[0]) {
        Some(v) => v,
        None => 0,
    };
    let lines = if nums.len() > 1 {
        assert(nums@.map_values(|p: Vec<char>| p@)[1] == nums@[1]@);
        match parse_u32_exec(&nums[1]) {
            Some(v) => v,
            None => 1,
        }
    } else {
        1
    };
    (start, lines)
}

/// Old start, old count, new start and new count of a hunk header
/// `@@ -a,b +c,d @@` (all zero when it has fewer than two words).
pub open spec fn spec_parse_hunk_header(header: Seq<char>) -> (u32, u32, u32, u32) {
    let parts = words(header);
    if parts.len() < 2 {
        (0, 0, 0, 0)
    } else {
        let old = spec_parse_range_part(parts[1]);
        let new = spec_parse_range_part(
            if parts.len() > 2 {
                parts[2]
            } else {
                Seq::empty()
            },
        );
        (old.0, old.1, new.0, new.1)
    }
}

/// Parses a hunk header.
pub fn parse_hunk_header(header: &str) -> (r: (u32, u32, u32, u32))
    ensures
        r == spec_parse_hunk_header(header@),
{
    let parts = split_words(header);
    if parts.len() < 2 {
        return (0, 0, 0, 0);
    }
    assert(parts@.map_values(|w: Vec<char>| w@)[1] == parts@[1]@);
    let (old_start, old_lines) = parse_range_part(&parts[1]);
    let (new_start, new_lines) = if parts.len() > 2 {
        assert(parts@.map_values(|w: Vec<char>| w@)[2] == parts@[2]@);
        parse_range_part(&parts[2])
    } else {
        let empty: Vec<char> = Vec::new();
        assert(empty@ == Seq::<char>::empty());
        parse_range_part(&empty)
    };
    (old_start, old_lines, new_start, new_lines)
}

/// The hunk a staging operation asks for by position; a position past the
/// last hunk is refused with `Hunk <n> not found`, followed by where the hunks
/// were looked for (`place`, empty for the working tree).
pub fn select_hunk<'a>(hunks: &'a Vec<Hunk>, hunk_index: usize, operation: &str, place: &str) -> (r: Result<&'a Hunk, GitError>)
    ensures
        hunk_index < hunks@.len() ==> (r matches Ok(h) && *h == hunks@[hunk_index as int]),
        hunk_index >= hunks@.len() ==> (r matches Err(GitError::OperationFailed { operation: op, details })
            && op@ == operation@ && details@ == "Hunk "@ + decimal(hunk_index as nat) + " not found"@ + place@),
{
    if hunk_index < hunks.len() {
        return Ok(&hunks[hunk_index]);
    }
    let mut details = String::from_str("Hunk ");
    let n = u64_to_decimal(hunk_index as u64);
    crate::text::push_all(&mut details, n.as_str());
    crate::text::push_all(&mut details, " not found");
    crate::text::push_all(&mut details, place);
    proof {
        reveal_strlit("Hunk ");
    }
    Err(GitError::OperationFailed { operation: String::from_str(operation), details })
}

} // verus!

//! Meld-style three-column merge editor model: left (ours) | center (result)
//! | right (theirs), with per-chunk resolutions, link maps and conflict
//! navigation.
use vstd::prelude::*;
use core::ops::Range;
use crate::git::diff::{MergeChunk, MergeChunkType, MergeEditorModel};
use crate::text::{line_count, spec_line_count, join_lines, join_with_newlines, lemma_string_views_prefix, lemma_string_views_push, push_char, string_views};

verus! {

/// One of the three panes.
#[derive(Debug, Clone, Copy, PartialEq, Eq, Structural)]
pub enum MergePane {
    Left,
    Center,
    Right,
}

/// How a chunk was resolved.
#[derive(Debug, Clone, Copy, PartialEq, Eq, Structural)]
pub enum ChunkResolution {
    Ours,
    Theirs,
    Base,
}

/// Where one chunk lies in each pane.
#[derive(Debug)]
pub struct ChunkLayout {
    pub chunk_id: usize,
    pub chunk_type: MergeChunkType,
    pub resolved: bool,
    pub left_range: Range<usize>,
    pub center_range: Range<usize>,
    pub right_range: Range<usize>,
}

/// `r` is the exec rendering of the spec index `s`.
pub open spec fn same_index(r: Option<usize>, s: Option<int>) -> bool {
    match (r, s) {
        (Some(a), Some(b)) => a as int == b,
        (None, None) => true,
        _ => false,
    }
}

/// A range holds no line.
pub open spec fn spec_range_empty(r: Range<usize>) -> bool {
    !(r.start < r.end)
}

/// Whether `r` holds no line (`Range::is_empty`).
pub fn range_is_empty(r: &Range<usize>) -> (b: bool)
    ensures
        b == spec_range_empty(*r),
{
    !(r.start < r.end)
}

/// A copy of `r`.
pub fn copy_range(r: &Range<usize>) -> (out: Range<usize>)
    ensures
        out == *r,
{
    r.start..r.end
}

/// The range a chunk occupies in `pane`, falling back to the nearest
/// non-empty neighbour pane when the chunk is absent from it.
pub open spec fn spec_chunk_range_for_pane(layout: ChunkLayout, pane: MergePane) -> Range<usize> {
    match pane {
        MergePane::Left => if !spec_range_empty(layout.left_range) {
            layout.left_range
        } else if !spec_range_empty(layout.center_range) {
            layout.center_range
        } else {
            layout.right_range
        },
        MergePane::Center => if !spec_range_empty(layout.center_range) {
            layout.center_range
        } else if !spec_range_empty(layout.left_range) {
            layout.left_range
        } else if !spec_range_empty(layout.right_range) {
            layout.right_range
        } else {
            layout.center_range
        },
        MergePane::Right => if !spec_range_empty(layout.right_range) {
            layout.right_range
        } else if !spec_range_empty(layout.center_range) {
            layout.center_range
        } else {
            layout.left_range
        },
    }
}

/// The range a chunk occupies in `pane`.
pub fn chunk_range_for_pane(layout: &ChunkLayout, pane: MergePane) -> (r: Range<usize>)
    ensures
        r == spec_chunk_range_for_pane(*layout, pane),
{
    match pane {
        MergePane::Left => if !range_is_empty(&layout.left_range) {
            copy_range(&layout.left_range)
        } else if !range_is_empty(&layout.center_range) {
            copy_range(&layout.center_range)
        } else {
            copy_range(&layout.right_range)
        },
        MergePane::Center => if !range_is_empty(&layout.center_range) {
            copy_range(&layout.center_range)
        } else if !range_is_empty(&layout.left_range) {
            copy_range(&layout.left_range)
        } else if !range_is_empty(&layout.right_range) {
            copy_range(&layout.right_range)
        } else {
            copy_range(&layout.center_range)
        },
        MergePane::Right => if !range_is_empty(&layout.right_range) {
            copy_range(&layout.right_range)
        } else if !range_is_empty(&layout.center_range) {
            copy_range(&layout.center_range)
        } else {
            copy_range(&layout.left_range)
        },
    }
}

/// Index of a pane, left to right.
pub fn pane_index(pane: MergePane) -> (i: usize)
    ensures
        i == (match pane {
            MergePane::Left => 0usize,
            MergePane::Center => 1usize,
            MergePane::Right => 2usize,
        }),
{
    match pane {
        MergePane::Left => 0,
        MergePane::Center => 1,
        MergePane::Right => 2,
    }
}

/// The first layout, from `k` on, that holds chunk `chunk_id`.
pub open spec fn spec_chunk_index_from(layouts: Seq<ChunkLayout>, chunk_id: usize, k: int) -> Option<int>
    decreases layouts.len() - k,
{
    if k < 0 || k >= layouts.len() {
        None
    } else if layouts[k].chunk_id == chunk_id {
        Some(k)
    } else {
        spec_chunk_index_from(layouts, chunk_id, k + 1)
    }
}

fn chunk_index_from(layouts: &[ChunkLayout], chunk_id: usize, k: usize) -> (r: Option<usize>)
    ensures
        same_index(r, spec_chunk_index_from(layouts@, chunk_id, k as int)),
        r is Some ==> r->0 < layouts@.len(),
    decreases layouts@.len() - k,
{
    if k >= layouts.len() {
        None
    } else if layouts[k].chunk_id == chunk_id {
        Some(k)
    } else {
        chunk_index_from(layouts, chunk_id, k + 1)
    }
}

/// Position of the first layout that holds chunk `chunk_id`.
pub fn chunk_index(layouts: &[ChunkLayout], chunk_id: usize) -> (r: Option<usize>)
    ensures
        same_index(r, spec_chunk_index_from(layouts@, chunk_id, 0)),
        r is Some ==> r->0 < layouts@.len() && layouts@[r->0 as int].chunk_id == chunk_id,
        r is None ==> forall|k: int| 0 <= k < layouts@.len() ==> layouts@[k].chunk_id != chunk_id,
{
    let r = chunk_index_from(layouts, chunk_id, 0);
    proof {
        lemma_chunk_index_from(layouts@, chunk_id, 0);
    }
    r
}

proof fn lemma_chunk_index_from(layouts: Seq<ChunkLayout>, chunk_id: usize, k: int)
    requires
        0 <= k,
    ensures
        spec_chunk_index_from(layouts, chunk_id, k) matches Some(i) ==> k <= i < layouts.len()
            && layouts[i].chunk_id == chunk_id,
        spec_chunk_index_from(layouts, chunk_id, k) is None ==> forall|j: int|
            k <= j < layouts.len() ==> layouts[j].chunk_id != chunk_id,
    decreases layouts.len() - k,
{
    if k < layouts.len() && layouts[k].chunk_id != chunk_id {
        lemma_chunk_index_from(layouts, chunk_id, k + 1);
    }
}

/// Whether layout `k` is a conflict chunk.
pub open spec fn is_conflict_at(layouts: Seq<ChunkLayout>, k: int) -> bool {
    0 <= k < layouts.len() && layouts[k].chunk_type == MergeChunkType::Conflict
}

/// The first conflict layout at or after `k`.
pub open spec fn first_conflict_from(layouts: Seq<ChunkLayout>, k: int) -> Option<int>
    decreases layouts.len() - k,
{
    if k < 0 || k >= layouts.len() {
        None
    } else if is_conflict_at(layouts, k) {
        Some(k)
    } else {
        first_conflict_from(layouts, k + 1)
    }
}

/// The last conflict layout strictly before `k`.
pub open spec fn last_conflict_before(layouts: Seq<ChunkLayout>, k: int) -> Option<int>
    decreases k,
{
    if k <= 0 || k > layouts.len() {
        None
    } else if is_conflict_at(layouts, k - 1) {
        Some(k - 1)
    } else {
        last_conflict_before(layouts, k - 1)
    }
}

/// Number of conflict layouts strictly before `k`.
pub open spec fn conflicts_before(layouts: Seq<ChunkLayout>, k: int) -> nat
    decreases k,
{
    if k <= 0 || k > layouts.len() {
        0
    } else {
        conflicts_before(layouts, k - 1) + if is_conflict_at(layouts, k - 1) {
            1nat
        } else {
            0nat
        }
    }
}

/// The first conflict layout holding chunk `chunk_id`, from `k` on.
pub open spec fn first_conflict_with_id(layouts: Seq<ChunkLayout>, chunk_id: usize, k: int) -> Option<int>
    decreases layouts.len() - k,
{
    if k < 0 || k >= layouts.len() {
        None
    } else if is_conflict_at(layouts, k) && layouts[k].chunk_id == chunk_id {
        Some(k)
    } else {
        first_conflict_with_id(layouts, chunk_id, k + 1)
    }
}

fn is_conflict(layout: &ChunkLayout) -> (b: bool)
    ensures
        b == (layout.chunk_type == MergeChunkType::Conflict),
{
    match layout.chunk_type {
        MergeChunkType::Conflict => true,
        _ => false,
    }
}

fn first_conflict_from_exec(layouts: &[ChunkLayout], k: usize) -> (r: Option<usize>)
    ensures
        same_index(r, first_conflict_from(layouts@, k as int)),
    decreases layouts@.len() - k,
{
    if k >= layouts.len() {
        None
    } else if is_conflict(&layouts[k]) {
        Some(k)
    } else {
        first_conflict_from_exec(layouts, k + 1)
    }
}

fn last_conflict_before_exec(layouts: &[ChunkLayout], k: usize) -> (r: Option<usize>)
    requires
        k <= layouts@.len(),
    ensures
        same_index(r, last_conflict_before(layouts@, k as int)),
    decreases k,
{
    if k == 0 {
        None
    } else if is_conflict(&layouts[k - 1]) {
        Some(k - 1)
    } else {
        last_conflict_before_exec(layouts, k - 1)
    }
}

fn first_conflict_with_id_exec(layouts: &[ChunkLayout], chunk_id: usize, k: usize) -> (r: Option<usize>)
    ensures
        same_index(r, first_conflict_with_id(layouts@, chunk_id, k as int)),
    decreases layouts@.len() - k,
{
    if k >= layouts.len() {
        None
    } else if is_conflict(&layouts[k]) && layouts[k].chunk_id == chunk_id {
        Some(k)
    } else {
        first_conflict_with_id_exec(layouts, chunk_id, k + 1)
    }
}

fn conflicts_before_exec(layouts: &[ChunkLayout], k: usize) -> (n: usize)
    requires
        k <= layouts@.len(),
    ensures
        n == conflicts_before(layouts@, k as int),
{
    let mut n: usize = 0;
    let mut i: usize = 0;
    while i < k
        invariant
            i <= k <= layouts@.len(),
            n == conflicts_before(layouts@, i as int),
            n <= i,
        decreases k - i,
    {
        if is_conflict(&layouts[i]) {
            n = n + 1;
        }
        i = i + 1;
    }
    n
}

proof fn lemma_first_conflict_from(layouts: Seq<ChunkLayout>, k: int)
    ensures
        first_conflict_from(layouts, k) matches Some(i) ==> k <= i && is_conflict_at(layouts, i),
    decreases layouts.len() - k,
{
    if 0 <= k < layouts.len() && !is_conflict_at(layouts, k) {
        lemma_first_conflict_from(layouts, k + 1);
    }
}

proof fn lemma_last_conflict_before(layouts: Seq<ChunkLayout>, k: int)
    ensures
        last_conflict_before(layouts, k) matches Some(i) ==> i < k && is_conflict_at(layouts, i),
    decreases k,
{
    if 0 < k <= layouts.len() && !is_conflict_at(layouts, k - 1) {
        lemma_last_conflict_before(layouts, k - 1);
    }
}

/// The layout that conflict navigation lands on from layout `current`:
/// forward, the next conflict after it (else itself when it is a conflict,
/// else the last conflict); backward, the previous conflict before it (else
/// itself, else the first conflict); without a current layout, the first
/// (forward) or last (backward) conflict.
pub open spec fn spec_navigate_conflict_index(
    layouts: Seq<ChunkLayout>,
    current: Option<int>,
    forward: bool,
) -> Option<int> {
    match current {
        Some(index) => if forward {
            match first_conflict_from(layouts, index + 1) {
                Some(k) => Some(k),
                None => if is_conflict_at(layouts, index) {
                    Some(index)
                } else {
                    last_conflict_before(layouts, layouts.len() as int)
                },
            }
        } else {
            match last_conflict_before(layouts, index) {
                Some(k) => Some(k),
                None => if is_conflict_at(layouts, index) {
                    Some(index)
                } else {
                    first_conflict_from(layouts, 0)
                },
            }
        },
        None => if forward {
            first_conflict_from(layouts, 0)
        } else {
            last_conflict_before(layouts, layouts.len() as int)
        },
    }
}

/// The chunk id that "next/previous conflict" moves to from `current_chunk`.
pub open spec fn spec_navigate_conflict_target(
    layouts: Seq<ChunkLayout>,
    current_chunk: Option<usize>,
    forward: bool,
) -> Option<usize> {
    let current = match current_chunk {
        Some(id) => spec_chunk_index_from(layouts, id, 0),
        None => None,
    };
    match spec_navigate_conflict_index(layouts, current, forward) {
        Some(k) => Some(layouts[k].chunk_id),
        None => None,
    }
}

/// Next (`forward`) or previous conflict chunk id from `current_chunk`.
pub fn navigate_conflict_target(
    layouts: &[ChunkLayout],
    current_chunk: Option<usize>,
    forward: bool,
) -> (r: Option<usize>)
    ensures
        r == spec_navigate_conflict_target(layouts@, current_chunk, forward),
        r is Some <==> exists|k: int| #[trigger] is_conflict_at(layouts@, k),
{
    let n = layouts.len();
    let current_index = match current_chunk {
        Some(id) => chunk_index(layouts, id),
        None => None,
    };
    let selected = match current_index {
        Some(index) => if forward {
            match first_conflict_from_exec(layouts, index + 1) {
                Some(k) => Some(k),
                None => if is_conflict(&layouts[index]) {
                    Some(index)
                } else {
                    last_conflict_before_exec(layouts, n)
                },
            }
        } else {
            match last_conflict_before_exec(layouts, index) {
                Some(k) => Some(k),
                None => if is_conflict(&layouts[index]) {
                    Some(index)
                } else {
                    first_conflict_from_exec(layouts, 0)
                },
            }
        },
        None => if forward {
            first_conflict_from_exec(layouts, 0)
        } else {
            last_conflict_before_exec(layouts, n)
        },
    };
    proof {
        lemma_first_conflict_from(layouts@, 0);
        lemma_last_conflict_before(layouts@, n as int);
        lemma_no_conflict_searches(layouts@);
        if let Some(index) = current_index {
            lemma_first_conflict_from(layouts@, index + 1);
            lemma_last_conflict_before(layouts@, index as int);
        }
        let ghost cur = match current_index {
            Some(i) => Some(i as int),
            None => None::<int>,
        };
        assert(cur == match current_chunk {
            Some(id) => spec_chunk_index_from(layouts@, id, 0),
            None => None,
        });
    }
    match selected {
        Some(k) => Some(layouts[k].chunk_id),
        None => None,
    }
}

proof fn lemma_no_conflict_searches(layouts: Seq<ChunkLayout>)
    ensures
        (exists|k: int| #[trigger] is_conflict_at(layouts, k)) ==> first_conflict_from(layouts, 0) is Some
            && last_conflict_before(layouts, layouts.len() as int) is Some,
{
    if exists|k: int| #[trigger] is_conflict_at(layouts, k) {
        let k = choose|k: int| #[trigger] is_conflict_at(layouts, k);
        lemma_first_conflict_reaches(layouts, 0, k);
        lemma_last_conflict_reaches(layouts, layouts.len() as int, k);
    }
}

proof fn lemma_first_conflict_reaches(layouts: Seq<ChunkLayout>, i: int, k: int)
    requires
        0 <= i <= k,
        is_conflict_at(layouts, k),
    ensures
        first_conflict_from(layouts, i) is Some,
    decreases k - i,
{
    if i < k && !is_conflict_at(layouts, i) {
        lemma_first_conflict_reaches(layouts, i + 1, k);
    }
}

proof fn lemma_last_conflict_reaches(layouts: Seq<ChunkLayout>, i: int, k: int)
    requires
        k < i <= layouts.len(),
        is_conflict_at(layouts, k),
    ensures
        last_conflict_before(layouts, i) is Some,
    decreases i,
{
    if k < i - 1 && !is_conflict_at(layouts, i - 1) {
        lemma_last_conflict_reaches(layouts, i - 1, k);
    }
}

/// Position, among the conflict chunks, of the conflict to show for chunk
/// `chunk_id`: the conflict holding that chunk, else the first conflict at or
/// after the chunk's layout, else the last conflict.
pub open spec fn spec_conflict_position_for_chunk(layouts: Seq<ChunkLayout>, chunk_id: usize) -> Option<
    nat,
> {
    let total = conflicts_before(layouts, layouts.len() as int);
    if total == 0 {
        None
    } else {
        match spec_chunk_index_from(layouts, chunk_id, 0) {
            None => None,
            Some(current) => match first_conflict_with_id(layouts, chunk_id, 0) {
                Some(k) => Some(conflicts_before(layouts, k)),
                None => match first_conflict_from(layouts, current) {
                    Some(k) => Some(conflicts_before(layouts, k)),
                    None => Some((total - 1) as nat),
                },
            },
        }
    }
}

proof fn lemma_conflicts_before_mono(layouts: Seq<ChunkLayout>, a: int, b: int)
    requires
        0 <= a <= b <= layouts.len(),
    ensures
        conflicts_before(layouts, a) <= conflicts_before(layouts, b),
    decreases b - a,
{
    if a < b {
        lemma_conflicts_before_mono(layouts, a, b - 1);
    }
}

/// Position of the conflict to show for chunk `chunk_id` among all conflicts.
pub fn conflict_position_for_chunk(layouts: &[ChunkLayout], chunk_id: usize) -> (r: Option<usize>)
    ensures
        same_index(r, match spec_conflict_position_for_chunk(layouts@, chunk_id) { Some(p) => Some(p as int), None => None }),
{
    let n = layouts.len();
    let total = conflicts_before_exec(layouts, n);
    if total == 0 {
        return None;
    }
    let current_index = match chunk_index(layouts, chunk_id) {
        Some(i) => i,
        None => return None,
    };
    proof {
        lemma_first_conflict_from(layouts@, current_index as int);
    }
    match first_conflict_with_id_exec(layouts, chunk_id, 0) {
        Some(k) => {
            proof {
                lemma_first_conflict_with_id(layouts@, chunk_id, 0);
            }
            Some(conflicts_before_exec(layouts, k))
        },
        None => match first_conflict_from_exec(layouts, current_index) {
            Some(k) => Some(conflicts_before_exec(layouts, k)),
            None => Some(total - 1),
        },
    }
}

proof fn lemma_first_conflict_with_id(layouts: Seq<ChunkLayout>, chunk_id: usize, k: int)
    requires
        0 <= k,
    ensures
        first_conflict_with_id(layouts, chunk_id, k) matches Some(i) ==> k <= i < layouts.len(),
    decreases layouts.len() - k,
{
    if k < layouts.len() && !(is_conflict_at(layouts, k) && layouts[k].chunk_id == chunk_id) {
        lemma_first_conflict_with_id(layouts, chunk_id, k + 1);
    }
}


/// The resolution recorded for chunk `i` (none past the end of the list).
pub open spec fn resolution_at(resolutions: Seq<Option<ChunkResolution>>, i: int) -> Option<
    ChunkResolution,
> {
    if 0 <= i < resolutions.len() {
        resolutions[i]
    } else {
        None
    }
}

/// The lines a chunk contributes to the center pane: the chosen side, or,
/// while unresolved, both sides between conflict markers.
pub open spec fn spec_resolved_lines(chunk: MergeChunk, res: Option<ChunkResolution>) -> Seq<Seq<char>> {
    match res {
        Some(ChunkResolution::Ours) => string_views(chunk.lines_ours@),
        Some(ChunkResolution::Theirs) => string_views(chunk.lines_theirs@),
        Some(ChunkResolution::Base) => string_views(chunk.lines_base@),
        None => seq!["<<<<<<< ours"@] + string_views(chunk.lines_ours@) + seq!["======="@]
            + string_views(chunk.lines_theirs@) + seq![">>>>>>> theirs"@],
    }
}

/// The center lines contributed by the first `n` chunks.
pub open spec fn center_lines(
    chunks: Seq<MergeChunk>,
    resolutions: Seq<Option<ChunkResolution>>,
    n: int,
) -> Seq<Seq<char>>
    decreases n,
{
    if n <= 0 || n > chunks.len() {
        Seq::empty()
    } else {
        center_lines(chunks, resolutions, n - 1) + spec_resolved_lines(
            chunks[n - 1],
            resolution_at(resolutions, n - 1),
        )
    }
}

/// A chunk resolved to one side contributes exactly that side's lines to the
/// merged text: ours for `Ours`, theirs for `Theirs`, the base for `Base`.
pub proof fn lemma_resolved_chunk_contributes_its_side(chunk: MergeChunk)
    ensures
        spec_resolved_lines(chunk, Some(ChunkResolution::Ours)) == string_views(chunk.lines_ours@),
        spec_resolved_lines(chunk, Some(ChunkResolution::Theirs)) == string_views(chunk.lines_theirs@),
        spec_resolved_lines(chunk, Some(ChunkResolution::Base)) == string_views(chunk.lines_base@),
{
}

/// When every one of the first `n` chunks is resolved as theirs, the merged
/// lines are their lines, chunk after chunk; likewise for ours.
pub proof fn lemma_center_lines_of_one_side(chunks: Seq<MergeChunk>, resolutions: Seq<Option<ChunkResolution>>, n: int)
    requires
        0 <= n <= chunks.len(),
        n <= resolutions.len(),
    ensures
        (forall|i: int| 0 <= i < n ==> #[trigger] resolutions[i] == Some(ChunkResolution::Theirs)) ==> center_lines(
            chunks,
            resolutions,
            n,
        ) == chunks.take(n).map_values(|c: MergeChunk| string_views(c.lines_theirs@)).flatten_alt(),
        (forall|i: int| 0 <= i < n ==> #[trigger] resolutions[i] == Some(ChunkResolution::Ours)) ==> center_lines(
            chunks,
            resolutions,
            n,
        ) == chunks.take(n).map_values(|c: MergeChunk| string_views(c.lines_ours@)).flatten_alt(),
    decreases n,
{
    if n > 0 {
        lemma_center_lines_of_one_side(chunks, resolutions, n - 1);
        let t = chunks.take(n).map_values(|c: MergeChunk| string_views(c.lines_theirs@));
        let o = chunks.take(n).map_values(|c: MergeChunk| string_views(c.lines_ours@));
        assert(t.drop_last() =~= chunks.take(n - 1).map_values(|c: MergeChunk| string_views(c.lines_theirs@)));
        assert(o.drop_last() =~= chunks.take(n - 1).map_values(|c: MergeChunk| string_views(c.lines_ours@)));
        assert(t.last() == string_views(chunks[n - 1].lines_theirs@));
        assert(o.last() == string_views(chunks[n - 1].lines_ours@));
    } else {
        assert(chunks.take(0).map_values(|c: MergeChunk| string_views(c.lines_theirs@)).len() == 0);
        assert(chunks.take(0).map_values(|c: MergeChunk| string_views(c.lines_ours@)).len() == 0);
    }
}

/// Whether some text ends with a newline.
pub open spec fn any_ends_with_newline(texts: Seq<Seq<char>>) -> bool {
    exists|i: int| 0 <= i < texts.len() && texts[i].len() > 0 && #[trigger] texts[i].last() == '\n'
}

/// Lines joined with newlines; a final newline follows when there is at
/// least one line and one of the source texts ends with a newline.
pub open spec fn spec_join_preserving_newline(lines: Seq<Seq<char>>, sources: Seq<Seq<char>>) -> Seq<char> {
    if lines.len() > 0 && any_ends_with_newline(sources) {
        join_lines(lines) + seq!['\n']
    } else {
        join_lines(lines)
    }
}

fn ends_with_newline(s: &String) -> (b: bool)
    ensures
        b == (s@.len() > 0 && s@.last() == '\n'),
{
    let n = s.as_str().unicode_len();
    n > 0 && s.as_str().get_char(n - 1) == '\n'
}

/// Joins `lines` with newlines, ending with a newline when one of the
/// `sources` texts does.
pub fn join_lines_preserving_trailing_newline(lines: &Vec<String>, sources: &[&String]) -> (out: String)
    ensures
        out@ == spec_join_preserving_newline(
            string_views(lines@),
            sources@.map_values(|t: &String| t@),
        ),
{
    let mut out = join_with_newlines(lines);
    let ghost views = sources@.map_values(|t: &String| t@);
    let mut trailing = false;
    let mut i: usize = 0;
    while i < sources.len()
        invariant
            i <= sources@.len(),
            views == sources@.map_values(|t: &String| t@),
            trailing == exists|j: int|
                0 <= j < i && views[j].len() > 0 && #[trigger] views[j].last() == '\n',
        decreases sources@.len() - i,
    {
        assert(views[i as int] == sources@[i as int]@);
        if ends_with_newline(sources[i]) {
            trailing = true;
        }
        i = i + 1;
    }
    if lines.len() > 0 && trailing {
        push_char(&mut out, '\n');
    }
    out
}

/// Copies a list of lines.
fn copy_lines(v: &Vec<String>) -> (out: Vec<String>)
    ensures
        string_views(out@) == string_views(v@),
{
    let mut out: Vec<String> = Vec::new();
    let mut i: usize = 0;
    while i < v.len()
        invariant
            i <= v@.len(),
            string_views(out@) == string_views(v@.subrange(0, i as int)),
        decreases v@.len() - i,
    {
        let c = v[i].clone();
        assert(c@ == v@[i as int]@);
        let ghost prev = out@;
        out.push(c);
        proof {
            lemma_string_views_push(prev, c);
            lemma_string_views_prefix(v@, i as int);
        }
        i = i + 1;
    }
    assert(v@.subrange(0, v@.len() as int) == v@);
    out
}

fn append_lines(dst: &mut Vec<String>, v: &Vec<String>)
    ensures
        string_views(final(dst)@) == string_views(old(dst)@) + string_views(v@),
{
    let mut i: usize = 0;
    while i < v.len()
        invariant
            i <= v@.len(),
            string_views(dst@) == string_views(old(dst)@) + string_views(v@.subrange(0, i as int)),
        decreases v@.len() - i,
    {
        let c = v[i].clone();
        assert(c@ == v@[i as int]@);
        let ghost prev = dst@;
        dst.push(c);
        proof {
            lemma_string_views_push(prev, c);
            lemma_string_views_prefix(v@, i as int);
            assert(string_views(dst@) =~= string_views(old(dst)@) + string_views(v@.subrange(0, i + 1)));
        }
        i = i + 1;
    }
    assert(v@.subrange(0, v@.len() as int) == v@);
}

fn literal_line(s: &str) -> (out: String)
    ensures
        out@ == s@,
{
    String::from_str(s)
}

/// The lines a chunk contributes to the center pane.
fn resolved_lines(chunk: &MergeChunk, res: Option<ChunkResolution>) -> (out: Vec<String>)
    ensures
        string_views(out@) == spec_resolved_lines(*chunk, res),
{
    match res {
        Some(ChunkResolution::Ours) => copy_lines(&chunk.lines_ours),
        Some(ChunkResolution::Theirs) => copy_lines(&chunk.lines_theirs),
        Some(ChunkResolution::Base) => copy_lines(&chunk.lines_base),
        None => {
            let mut out: Vec<String> = Vec::new();
            let open_marker = literal_line("<<<<<<< ours");
            let middle_marker = literal_line("=======");
            let close_marker = literal_line(">>>>>>> theirs");
            out.push(open_marker);
            assert(string_views(out@) =~= seq!["<<<<<<< ours"@]);
            append_lines(&mut out, &chunk.lines_ours);
            let ghost a = string_views(out@);
            out.push(middle_marker);
            assert(string_views(out@) =~= a + seq!["======="@]);
            append_lines(&mut out, &chunk.lines_theirs);
            let ghost b = string_views(out@);
            out.push(close_marker);
            assert(string_views(out@) =~= b + seq![">>>>>>> theirs"@]);
            proof {
                let o = string_views(chunk.lines_ours@);
                let t = string_views(chunk.lines_theirs@);
                assert(string_views(out@) =~= seq!["<<<<<<< ours"@] + o + seq!["======="@] + t + seq![
                    ">>>>>>> theirs"@,
                ]);
            }
            out
        },
    }
}

/// `layouts` and `text` are the center pane that `resolutions` produce for `model`.
pub open spec fn layouts_follow(
    model: MergeEditorModel,
    resolutions: Seq<Option<ChunkResolution>>,
    layouts: Seq<ChunkLayout>,
) -> bool {
    let chunks = model.chunks@;
    &&& layouts.len() == chunks.len()
    &&& forall|i: int|
        0 <= i < layouts.len() ==> {
            let l = #[trigger] layouts[i];
            &&& l.chunk_id == chunks[i].id
            &&& l.chunk_type == chunks[i].chunk_type
            &&& l.resolved == (resolution_at(resolutions, i) is Some)
            &&& l.left_range == chunks[i].ours_range
            &&& l.right_range == chunks[i].theirs_range
            &&& l.center_range.start == center_lines(chunks, resolutions, i).len()
            &&& l.center_range.end == center_lines(chunks, resolutions, i + 1).len()
        }
}

/// The center text `resolutions` produce for `model`.
pub open spec fn spec_center_text(model: MergeEditorModel, resolutions: Seq<Option<ChunkResolution>>) -> Seq<
    char,
> {
    spec_join_preserving_newline(
        center_lines(model.chunks@, resolutions, model.chunks@.len() as int),
        seq![model.base_text@, model.ours_text@, model.theirs_text@],
    )
}

/// The center text and the layout of every chunk for the given resolutions.
pub fn build_chunk_layouts(model: &MergeEditorModel, resolutions: &[Option<ChunkResolution>]) -> (r: (
    String,
    Vec<ChunkLayout>,
))
    ensures
        r.0@ == spec_center_text(*model, resolutions@),
        layouts_follow(*model, resolutions@, r.1@),
{
    let mut lines: Vec<String> = Vec::new();
    let mut layouts: Vec<ChunkLayout> = Vec::new();
    let ghost chunks = model.chunks@;
    let mut i: usize = 0;
    while i < model.chunks.len()
        invariant
            i <= chunks.len(),
            chunks == model.chunks@,
            string_views(lines@) == center_lines(chunks, resolutions@, i as int),
            layouts@.len() == i,
            forall|k: int|
                0 <= k < i ==> {
                    let l = #[trigger] layouts@[k];
                    &&& l.chunk_id == chunks[k].id
                    &&& l.chunk_type == chunks[k].chunk_type
                    &&& l.resolved == (resolution_at(resolutions@, k) is Some)
                    &&& l.left_range == chunks[k].ours_range
                    &&& l.right_range == chunks[k].theirs_range
                    &&& l.center_range.start == center_lines(chunks, resolutions@, k).len()
                    &&& l.center_range.end == center_lines(chunks, resolutions@, k + 1).len()
                },
        decreases chunks.len() - i,
    {
        let chunk = &model.chunks[i];
        let resolution = if i < resolutions.len() {
            resolutions[i]
        } else {
            None
        };
        let resolved = resolved_lines(chunk, resolution);
        let start = lines.len();
        append_lines(&mut lines, &resolved);
        let end = lines.len();
        layouts.push(
            ChunkLayout {
                chunk_id: chunk.id,
                chunk_type: chunk.chunk_type,
                resolved: resolution.is_some(),
                left_range: copy_range(&chunk.ours_range),
                center_range: start..end,
                right_range: copy_range(&chunk.theirs_range),
            },
        );
        i = i + 1;
    }
    let sources: [&String; 3] = [&model.base_text, &model.ours_text, &model.theirs_text];
    let text = join_lines_preserving_trailing_newline(&lines, &sources);
    proof {
        assert(sources@.map_values(|t: &String| t@) =~= seq![
            model.base_text@,
            model.ours_text@,
            model.theirs_text@,
        ]);
    }
    (text, layouts)
}

/// The center text for the given resolutions.
pub fn assemble_center_text(model: &MergeEditorModel, resolutions: &[Option<ChunkResolution>]) -> (s:
    String)
    ensures
        s@ == spec_center_text(*model, resolutions@),
{
    build_chunk_layouts(model, resolutions).0
}


/// The decoration of one line: the kind of chunk covering it.
#[derive(Debug, Clone, Copy, PartialEq, Eq, Structural)]
pub struct MergeDecoratedLine {
    pub chunk_type: MergeChunkType,
    pub resolved: bool,
}

/// Per-line decorations of one pane.
#[derive(Debug)]
pub struct PaneDecorations {
    pub lines: Vec<Option<MergeDecoratedLine>>,
}

/// The raw range of a layout in a pane.
pub open spec fn pane_range(layout: ChunkLayout, pane: MergePane) -> Range<usize> {
    match pane {
        MergePane::Left => layout.left_range,
        MergePane::Center => layout.center_range,
        MergePane::Right => layout.right_range,
    }
}

/// The decoration of line `p` of `pane` after the first `n` layouts: the last
/// changed (non-`Equal`) layout whose range covers the line.
pub open spec fn deco_at(layouts: Seq<ChunkLayout>, n: int, pane: MergePane, p: int) -> Option<
    MergeDecoratedLine,
>
    decreases n,
{
    if n <= 0 || n > layouts.len() {
        None
    } else {
        let l = layouts[n - 1];
        if l.chunk_type != MergeChunkType::Equal && pane_range(l, pane).start <= p && p < pane_range(
            l,
            pane,
        ).end {
            Some(MergeDecoratedLine { chunk_type: l.chunk_type, resolved: l.resolved })
        } else {
            deco_at(layouts, n - 1, pane, p)
        }
    }
}

fn raw_range(layout: &ChunkLayout, pane: MergePane) -> (r: Range<usize>)
    ensures
        r == pane_range(*layout, pane),
{
    match pane {
        MergePane::Left => copy_range(&layout.left_range),
        MergePane::Center => copy_range(&layout.center_range),
        MergePane::Right => copy_range(&layout.right_range),
    }
}

/// Decorations of `pane` for a pane of `count` lines.
fn pane_decorations(layouts: &[ChunkLayout], pane: MergePane, count: usize) -> (d: PaneDecorations)
    ensures
        d.lines@.len() == count,
        forall|p: int| 0 <= p < count ==> #[trigger] d.lines@[p] == deco_at(layouts@, layouts@.len() as int, pane, p),
{
    let mut lines: Vec<Option<MergeDecoratedLine>> = Vec::new();
    let mut k: usize = 0;
    while k < count
        invariant
            k <= count,
            lines@.len() == k,
            forall|p: int| 0 <= p < k ==> #[trigger] lines@[p] == None::<MergeDecoratedLine>,
        decreases count - k,
    {
        lines.push(None);
        k = k + 1;
    }
    let mut i: usize = 0;
    while i < layouts.len()
        invariant
            i <= layouts@.len(),
            lines@.len() == count,
            forall|p: int| 0 <= p < count ==> #[trigger] lines@[p] == deco_at(layouts@, i as int, pane, p),
        decreases layouts@.len() - i,
    {
        let layout = &layouts[i];
        let changed = match layout.chunk_type {
            MergeChunkType::Equal => false,
            _ => true,
        };
        if changed {
            let range = raw_range(layout, pane);
            let d = MergeDecoratedLine { chunk_type: layout.chunk_type, resolved: layout.resolved };
            let mut j: usize = range.start;
            while j < range.end
                invariant
                    i < layouts@.len(),
                    layout == layouts@[i as int],
                    layout.chunk_type != MergeChunkType::Equal,
                    range == pane_range(*layout, pane),
                    d == (MergeDecoratedLine { chunk_type: layout.chunk_type, resolved: layout.resolved }),
                    range.start <= j,
                    j == range.start || j <= range.end,
                    lines@.len() == count,
                    forall|p: int|
                        0 <= p < count ==> #[trigger] lines@[p] == if range.start <= p < j {
                            Some(d)
                        } else {
                            deco_at(layouts@, i as int, pane, p)
                        },
                decreases range.end - j,
            {
                if j < lines.len() {
                    lines.set(j, Some(d));
                }
                j = j + 1;
            }
            assert forall|p: int| 0 <= p < count implies #[trigger] lines@[p] == deco_at(
                layouts@,
                i + 1,
                pane,
                p,
            ) by {
                assert(range.start <= p < j <==> range.start <= p < range.end);
            }
        } else {
            assert forall|p: int| 0 <= p < count implies #[trigger] lines@[p] == deco_at(
                layouts@,
                i + 1,
                pane,
                p,
            ) by {
                assert(deco_at(layouts@, i + 1, pane, p) == deco_at(layouts@, i as int, pane, p));
            }
        }
        i = i + 1;
    }
    PaneDecorations { lines }
}

/// Decorations of the left (ours), center and right (theirs) panes.
pub fn build_all_decorations(
    model: &MergeEditorModel,
    layouts: &[ChunkLayout],
    center_line_count: usize,
) -> (r: (PaneDecorations, PaneDecorations, PaneDecorations))
    ensures
        r.0.lines@.len() == spec_line_count(model.ours_text@),
        r.1.lines@.len() == center_line_count,
        r.2.lines@.len() == spec_line_count(model.theirs_text@),
        forall|p: int|
            0 <= p < r.0.lines@.len() ==> #[trigger] r.0.lines@[p] == deco_at(
                layouts@,
                layouts@.len() as int,
                MergePane::Left,
                p,
            ),
        forall|p: int|
            0 <= p < r.1.lines@.len() ==> #[trigger] r.1.lines@[p] == deco_at(
                layouts@,
                layouts@.len() as int,
                MergePane::Center,
                p,
            ),
        forall|p: int|
            0 <= p < r.2.lines@.len() ==> #[trigger] r.2.lines@[p] == deco_at(
                layouts@,
                layouts@.len() as int,
                MergePane::Right,
                p,
            ),
{
    let ours_lines = line_count(model.ours_text.as_str());
    let theirs_lines = line_count(model.theirs_text.as_str());
    let left = pane_decorations(layouts, MergePane::Left, ours_lines);
    let center = pane_decorations(layouts, MergePane::Center, center_line_count);
    let right = pane_decorations(layouts, MergePane::Right, theirs_lines);
    (left, center, right)
}

/// A link between two neighbouring panes for one changed chunk.
#[derive(Debug)]
pub struct LinkMapBlock {
    pub chunk_id: usize,
    pub chunk_type: MergeChunkType,
    pub resolved: bool,
    pub left_range: Range<usize>,
    pub right_range: Range<usize>,
}

/// A changed chunk's place in the overview strip.
#[derive(Debug)]
pub struct OverviewBlock {
    pub chunk_id: usize,
    pub chunk_type: MergeChunkType,
    pub resolved: bool,
    pub range: Range<usize>,
}

/// The changed (non-`Equal`) layouts among the first `n`, in order.
pub open spec fn changed_layouts(layouts: Seq<ChunkLayout>, n: int) -> Seq<ChunkLayout>
    decreases n,
{
    if n <= 0 || n > layouts.len() {
        Seq::empty()
    } else if layouts[n - 1].chunk_type != MergeChunkType::Equal {
        changed_layouts(layouts, n - 1).push(layouts[n - 1])
    } else {
        changed_layouts(layouts, n - 1)
    }
}

/// `b` links the two given ranges of layout `l`.
pub open spec fn link_follows(b: LinkMapBlock, l: ChunkLayout, left: Range<usize>, right: Range<usize>) -> bool {
    &&& b.chunk_id == l.chunk_id
    &&& b.chunk_type == l.chunk_type
    &&& b.resolved == l.resolved
    &&& b.left_range == left
    &&& b.right_range == right
}

/// Links ours→center (first) and center→theirs (second) for each changed chunk.
pub fn build_all_link_blocks(layouts: &[ChunkLayout]) -> (r: (Vec<LinkMapBlock>, Vec<LinkMapBlock>))
    ensures
        r.0@.len() == changed_layouts(layouts@, layouts@.len() as int).len(),
        r.1@.len() == changed_layouts(layouts@, layouts@.len() as int).len(),
        forall|k: int|
            0 <= k < r.0@.len() ==> {
                let l = changed_layouts(layouts@, layouts@.len() as int)[k];
                &&& link_follows(#[trigger] r.0@[k], l, l.left_range, l.center_range)
                &&& link_follows(r.1@[k], l, l.center_range, l.right_range)
            },
{
    let mut left_blocks: Vec<LinkMapBlock> = Vec::new();
    let mut right_blocks: Vec<LinkMapBlock> = Vec::new();
    let mut i: usize = 0;
    while i < layouts.len()
        invariant
            i <= layouts@.len(),
            left_blocks@.len() == changed_layouts(layouts@, i as int).len(),
            right_blocks@.len() == changed_layouts(layouts@, i as int).len(),
            forall|k: int|
                0 <= k < left_blocks@.len() ==> {
                    let l = changed_layouts(layouts@, i as int)[k];
                    &&& link_follows(#[trigger] left_blocks@[k], l, l.left_range, l.center_range)
                    &&& link_follows(right_blocks@[k], l, l.center_range, l.right_range)
                },
        decreases layouts@.len() - i,
    {
        let layout = &layouts[i];
        let changed = match layout.chunk_type {
            MergeChunkType::Equal => false,
            _ => true,
        };
        let ghost prev_left = left_blocks@;
        let ghost prev_right = right_blocks@;
        if changed {
            left_blocks.push(
                LinkMapBlock {
                    chunk_id: layout.chunk_id,
                    chunk_type: layout.chunk_type,
                    resolved: layout.resolved,
                    left_range: copy_range(&layout.left_range),
                    right_range: copy_range(&layout.center_range),
                },
            );
            right_blocks.push(
                LinkMapBlock {
                    chunk_id: layout.chunk_id,
                    chunk_type: layout.chunk_type,
                    resolved: layout.resolved,
                    left_range: copy_range(&layout.center_range),
                    right_range: copy_range(&layout.right_range),
                },
            );
            assert(changed_layouts(layouts@, i + 1) == changed_layouts(layouts@, i as int).push(*layout));
            assert forall|k: int| 0 <= k < left_blocks@.len() implies {
                let l = changed_layouts(layouts@, i + 1)[k];
                &&& link_follows(#[trigger] left_blocks@[k], l, l.left_range, l.center_range)
                &&& link_follows(right_blocks@[k], l, l.center_range, l.right_range)
            } by {
                if k < prev_left.len() {
                    assert(left_blocks@[k] == prev_left[k]);
                    assert(right_blocks@[k] == prev_right[k]);
                }
            }
        } else {
            assert(changed_layouts(layouts@, i + 1) == changed_layouts(layouts@, i as int));
        }
        i = i + 1;
    }
    (left_blocks, right_blocks)
}

/// Overview blocks: the center range of each changed chunk.
pub fn build_overview(layouts: &[ChunkLayout]) -> (r: Vec<OverviewBlock>)
    ensures
        r@.len() == changed_layouts(layouts@, layouts@.len() as int).len(),
        forall|k: int|
            0 <= k < r@.len() ==> {
                let l = changed_layouts(layouts@, layouts@.len() as int)[k];
                &&& (#[trigger] r@[k]).chunk_id == l.chunk_id
                &&& r@[k].chunk_type == l.chunk_type
                &&& r@[k].resolved == l.resolved
                &&& r@[k].range == l.center_range
            },
{
    let mut out: Vec<OverviewBlock> = Vec::new();
    let mut i: usize = 0;
    while i < layouts.len()
        invariant
            i <= layouts@.len(),
            out@.len() == changed_layouts(layouts@, i as int).len(),
            forall|k: int|
                0 <= k < out@.len() ==> {
                    let l = changed_layouts(layouts@, i as int)[k];
                    &&& (#[trigger] out@[k]).chunk_id == l.chunk_id
                    &&& out@[k].chunk_type == l.chunk_type
                    &&& out@[k].resolved == l.resolved
                    &&& out@[k].range == l.center_range
                },
        decreases layouts@.len() - i,
    {
        let layout = &layouts[i];
        let changed = match layout.chunk_type {
            MergeChunkType::Equal => false,
            _ => true,
        };
        if changed {
            out.push(
                OverviewBlock {
                    chunk_id: layout.chunk_id,
                    chunk_type: layout.chunk_type,
                    resolved: layout.resolved,
                    range: copy_range(&layout.center_range),
                },
            );
        }
        i = i + 1;
    }
    out
}

/// A link map between two panes.
#[derive(Debug, Clone, Copy, PartialEq, Eq, Structural)]
pub enum LinkMapSide {
    Left,
    Right,
}

/// The kind of a gutter action.
#[derive(Debug, Clone, Copy, PartialEq, Eq, Structural)]
pub enum GutterButtonKind {
    Base,
    Ours,
    Theirs,
}

/// Label of a gutter action.
pub fn gutter_button_label(kind: GutterButtonKind) -> (s: &'static str)
    ensures
        s@ == (match kind {
            GutterButtonKind::Base => "x"@,
            GutterButtonKind::Ours => ">>"@,
            GutterButtonKind::Theirs => "<<"@,
        }),
{
    match kind {
        GutterButtonKind::Base => "x",
        GutterButtonKind::Ours => ">>",
        GutterButtonKind::Theirs => "<<",
    }
}

/// The range that anchors a link's gutter row: the center side when it is
/// not empty, else the outer side.
pub open spec fn spec_gutter_anchor_range(side: LinkMapSide, block: LinkMapBlock) -> Range<usize> {
    match side {
        LinkMapSide::Left => if !spec_range_empty(block.right_range) {
            block.right_range
        } else {
            block.left_range
        },
        LinkMapSide::Right => if !spec_range_empty(block.left_range) {
            block.left_range
        } else {
            block.right_range
        },
    }
}

/// The range that anchors a link's gutter row.
pub fn gutter_anchor_range(side: LinkMapSide, block: &LinkMapBlock) -> (r: &Range<usize>)
    ensures
        *r == spec_gutter_anchor_range(side, *block),
{
    match side {
        LinkMapSide::Left => if !range_is_empty(&block.right_range) {
            &block.right_range
        } else {
            &block.left_range
        },
        LinkMapSide::Right => if !range_is_empty(&block.left_range) {
            &block.left_range
        } else {
            &block.right_range
        },
    }
}

/// What a gutter button does when pressed.
#[derive(Debug, Clone, Copy, PartialEq, Eq, Structural)]
pub enum GutterAction {
    AcceptOurs(usize),
    AcceptTheirs(usize),
    AcceptBase(usize),
}

/// A button in the action gutter.
#[derive(Debug, Clone, Copy, PartialEq, Eq, Structural)]
pub struct GutterActionButton {
    pub kind: GutterButtonKind,
    pub event: GutterAction,
    pub active: bool,
}

/// The buttons beside a link: base and ours on the left gutter for chunks
/// ours changed, theirs and base on the right gutter for chunks theirs
/// changed; a button is active when it is the chunk's current resolution.
pub open spec fn spec_gutter_buttons(
    side: LinkMapSide,
    block: LinkMapBlock,
    resolutions: Seq<Option<ChunkResolution>>,
) -> Seq<GutterActionButton> {
    let res = resolution_at(resolutions, block.chunk_id as int);
    let base = GutterActionButton {
        kind: GutterButtonKind::Base,
        event: GutterAction::AcceptBase(block.chunk_id),
        active: res == Some(ChunkResolution::Base),
    };
    let ours = GutterActionButton {
        kind: GutterButtonKind::Ours,
        event: GutterAction::AcceptOurs(block.chunk_id),
        active: res == Some(ChunkResolution::Ours),
    };
    let theirs = GutterActionButton {
        kind: GutterButtonKind::Theirs,
        event: GutterAction::AcceptTheirs(block.chunk_id),
        active: res == Some(ChunkResolution::Theirs),
    };
    match (side, block.chunk_type) {
        (_, MergeChunkType::Equal) => Seq::empty(),
        (LinkMapSide::Left, MergeChunkType::OursOnly) => seq![base, ours],
        (LinkMapSide::Left, MergeChunkType::Conflict) => seq![base, ours],
        (LinkMapSide::Left, MergeChunkType::BothChanged) => seq![base, ours],
        (LinkMapSide::Right, MergeChunkType::TheirsOnly) => seq![theirs, base],
        (LinkMapSide::Right, MergeChunkType::Conflict) => seq![theirs, base],
        _ => Seq::empty(),
    }
}

/// The action buttons shown beside a link.
pub fn gutter_buttons_for_block(
    side: LinkMapSide,
    block: &LinkMapBlock,
    resolutions: &[Option<ChunkResolution>],
) -> (r: Vec<GutterActionButton>)
    ensures
        r@ == spec_gutter_buttons(side, *block, resolutions@),
{
    let resolution = if block.chunk_id < resolutions.len() {
        resolutions[block.chunk_id]
    } else {
        None
    };
    let base_button = GutterActionButton {
        kind: GutterButtonKind::Base,
        event: GutterAction::AcceptBase(block.chunk_id),
        active: resolution == Some(ChunkResolution::Base),
    };
    let ours_button = GutterActionButton {
        kind: GutterButtonKind::Ours,
        event: GutterAction::AcceptOurs(block.chunk_id),
        active: resolution == Some(ChunkResolution::Ours),
    };
    let theirs_button = GutterActionButton {
        kind: GutterButtonKind::Theirs,
        event: GutterAction::AcceptTheirs(block.chunk_id),
        active: resolution == Some(ChunkResolution::Theirs),
    };
    let mut out: Vec<GutterActionButton> = Vec::new();
    match (side, block.chunk_type) {
        (_, MergeChunkType::Equal) => {},
        (LinkMapSide::Left, MergeChunkType::OursOnly)
        | (LinkMapSide::Left, MergeChunkType::Conflict)
        | (LinkMapSide::Left, MergeChunkType::BothChanged) => {
            out.push(base_button);
            out.push(ours_button);
        },
        (LinkMapSide::Right, MergeChunkType::TheirsOnly)
        | (LinkMapSide::Right, MergeChunkType::Conflict) => {
            out.push(theirs_button);
            out.push(base_button);
        },
        _ => {},
    }
    proof {
        assert(out@ =~= spec_gutter_buttons(side, *block, resolutions@));
    }
    out
}


/// The resolution a chunk gets without user input: unchanged chunks keep the
/// base, one-sided changes take that side, changes on both sides take ours,
/// and conflicts stay unresolved.
pub open spec fn spec_auto_resolution(t: MergeChunkType) -> Option<ChunkResolution> {
    match t {
        MergeChunkType::Equal => Some(ChunkResolution::Base),
        MergeChunkType::BothChanged => Some(ChunkResolution::Ours),
        MergeChunkType::OursOnly => Some(ChunkResolution::Ours),
        MergeChunkType::TheirsOnly => Some(ChunkResolution::Theirs),
        MergeChunkType::Conflict => None,
    }
}

fn auto_resolution(t: MergeChunkType) -> (r: Option<ChunkResolution>)
    ensures
        r == spec_auto_resolution(t),
{
    match t {
        MergeChunkType::Equal => Some(ChunkResolution::Base),
        MergeChunkType::BothChanged => Some(ChunkResolution::Ours),
        MergeChunkType::OursOnly => Some(ChunkResolution::Ours),
        MergeChunkType::TheirsOnly => Some(ChunkResolution::Theirs),
        MergeChunkType::Conflict => None,
    }
}

/// Number of unresolved entries among the first `n`.
pub open spec fn count_unresolved(res: Seq<Option<ChunkResolution>>, n: int) -> nat
    decreases n,
{
    if n <= 0 || n > res.len() {
        0
    } else {
        count_unresolved(res, n - 1) + if res[n - 1] is None {
            1nat
        } else {
            0nat
        }
    }
}

/// Number of conflict chunks among the first `n`.
pub open spec fn count_conflict_chunks(chunks: Seq<MergeChunk>, n: int) -> nat
    decreases n,
{
    if n <= 0 || n > chunks.len() {
        0
    } else {
        count_conflict_chunks(chunks, n - 1) + if chunks[n - 1].chunk_type == MergeChunkType::Conflict {
            1nat
        } else {
            0nat
        }
    }
}

/// The first chunk position, from `k` on, holding a conflict.
pub open spec fn first_conflict_chunk(chunks: Seq<MergeChunk>, k: int) -> Option<int>
    decreases chunks.len() - k,
{
    if k < 0 || k >= chunks.len() {
        None
    } else if chunks[k].chunk_type == MergeChunkType::Conflict {
        Some(k)
    } else {
        first_conflict_chunk(chunks, k + 1)
    }
}

/// The resolution state of a three-way merge: the chunks and, per chunk,
/// the side chosen so far (none while unresolved).
#[derive(Debug)]
pub struct MergeEditorState {
    pub model: MergeEditorModel,
    pub resolutions: Vec<Option<ChunkResolution>>,
    pub current_chunk: Option<usize>,
}

impl MergeEditorState {
    /// There is exactly one resolution slot per chunk.
    pub open spec fn wf(&self) -> bool {
        self.resolutions@.len() == self.model.chunks@.len()
    }

    fn first_conflict_position(chunks: &Vec<MergeChunk>, k: usize) -> (r: Option<usize>)
        ensures
            same_index(r, first_conflict_chunk(chunks@, k as int)),
        decreases chunks@.len() - k,
    {
        if k >= chunks.len() {
            None
        } else if chunks[k].chunk_type == MergeChunkType::Conflict {
            Some(k)
        } else {
            Self::first_conflict_position(chunks, k + 1)
        }
    }

    /// Opens a merge with every non-conflicting chunk resolved automatically,
    /// positioned on the first conflict (or the first chunk).
    pub fn new(model: MergeEditorModel) -> (st: Self)
        ensures
            st.wf(),
            st.model == model,
            forall|i: int|
                0 <= i < st.resolutions@.len() ==> #[trigger] st.resolutions@[i] == spec_auto_resolution(
                    model.chunks@[i].chunk_type,
                ),
            st.current_chunk == (match first_conflict_chunk(model.chunks@, 0) {
                Some(k) => Some(k as usize),
                None => Some(0usize),
            }),
    {
        let mut resolutions: Vec<Option<ChunkResolution>> = Vec::new();
        let mut i: usize = 0;
        while i < model.chunks.len()
            invariant
                i <= model.chunks@.len(),
                resolutions@.len() == i,
                forall|k: int|
                    0 <= k < i ==> #[trigger] resolutions@[k] == spec_auto_resolution(
                        model.chunks@[k].chunk_type,
                    ),
            decreases model.chunks@.len() - i,
        {
            resolutions.push(auto_resolution(model.chunks[i].chunk_type));
            i = i + 1;
        }
        let first = Self::first_conflict_position(&model.chunks, 0);
        let current_chunk = match first {
            Some(k) => Some(k),
            None => Some(0),
        };
        MergeEditorState { model, resolutions, current_chunk }
    }

    /// The merged text for the current resolutions.
    pub fn resolved_text(&self) -> (s: String)
        ensures
            s@ == spec_center_text(self.model, self.resolutions@),
    {
        build_chunk_layouts(&self.model, self.resolutions.as_slice()).0
    }

    /// Whether every chunk has a resolution.
    pub fn all_resolved(&self) -> (b: bool)
        ensures
            b == forall|i: int| 0 <= i < self.resolutions@.len() ==> #[trigger] self.resolutions@[i] is Some,
    {
        let mut i: usize = 0;
        while i < self.resolutions.len()
            invariant
                i <= self.resolutions@.len(),
                forall|k: int| 0 <= k < i ==> #[trigger] self.resolutions@[k] is Some,
            decreases self.resolutions@.len() - i,
        {
            if self.resolutions[i].is_none() {
                return false;
            }
            i = i + 1;
        }
        true
    }

    /// Number of chunks still unresolved.
    pub fn unresolved_count(&self) -> (n: usize)
        ensures
            n == count_unresolved(self.resolutions@, self.resolutions@.len() as int),
    {
        let mut n: usize = 0;
        let mut i: usize = 0;
        while i < self.resolutions.len()
            invariant
                i <= self.resolutions@.len(),
                n == count_unresolved(self.resolutions@, i as int),
                n <= i,
            decreases self.resolutions@.len() - i,
        {
            if self.resolutions[i].is_none() {
                n = n + 1;
            }
            i = i + 1;
        }
        n
    }

    /// Number of chunks.
    pub fn total_chunks(&self) -> (n: usize)
        ensures
            n == self.model.chunks@.len(),
    {
        self.model.chunks.len()
    }

    /// Number of conflict chunks.
    pub fn conflict_count(&self) -> (n: usize)
        ensures
            n == count_conflict_chunks(self.model.chunks@, self.model.chunks@.len() as int),
    {
        let mut n: usize = 0;
        let mut i: usize = 0;
        while i < self.model.chunks.len()
            invariant
                i <= self.model.chunks@.len(),
                n == count_conflict_chunks(self.model.chunks@, i as int),
                n <= i,
            decreases self.model.chunks@.len() - i,
        {
            if self.model.chunks[i].chunk_type == MergeChunkType::Conflict {
                n = n + 1;
            }
            i = i + 1;
        }
        n
    }

    /// Resolves chunk `id` (ignored when there is no such chunk) and makes it current.
    pub fn accept_chunk(&mut self, id: usize, resolution: ChunkResolution)
        ensures
            final(self).model == old(self).model,
            id < old(self).resolutions@.len() ==> final(self).resolutions@ == old(
                self,
            ).resolutions@.update(id as int, Some(resolution)) && final(self).current_chunk == Some(id),
            id >= old(self).resolutions@.len() ==> *final(self) == *old(self),
    {
        if id < self.resolutions.len() {
            self.resolutions.set(id, Some(resolution));
            self.current_chunk = Some(id);
        }
    }

    /// Resolves every chunk to the same side.
    pub fn accept_all(&mut self, resolution: ChunkResolution)
        ensures
            final(self).model == old(self).model,
            final(self).current_chunk == old(self).current_chunk,
            final(self).resolutions@.len() == old(self).resolutions@.len(),
            forall|i: int|
                0 <= i < final(self).resolutions@.len() ==> #[trigger] final(self).resolutions@[i] == Some(
                    resolution,
                ),
    {
        let mut i: usize = 0;
        while i < self.resolutions.len()
            invariant
                i <= self.resolutions@.len(),
                self.model == old(self).model,
                self.current_chunk == old(self).current_chunk,
                self.resolutions@.len() == old(self).resolutions@.len(),
                forall|k: int| 0 <= k < i ==> #[trigger] self.resolutions@[k] == Some(resolution),
            decreases self.resolutions@.len() - i,
        {
            self.resolutions.set(i, Some(resolution));
            i = i + 1;
        }
    }

    /// The first conflict chunk, from position `k` on, whose id names an
    /// unresolved slot.
    pub open spec fn first_open_conflict(
        chunks: Seq<MergeChunk>,
        res: Seq<Option<ChunkResolution>>,
        k: int,
    ) -> Option<usize>
        decreases chunks.len() - k,
    {
        if k < 0 || k >= chunks.len() {
            None
        } else {
            let c = chunks[k];
            if c.chunk_type == MergeChunkType::Conflict && c.id < res.len() && res[c.id as int] is None {
                Some(c.id)
            } else {
                Self::first_open_conflict(chunks, res, k + 1)
            }
        }
    }

    fn first_open_conflict_exec(&self, k: usize) -> (r: Option<usize>)
        ensures
            r == Self::first_open_conflict(self.model.chunks@, self.resolutions@, k as int),
        decreases self.model.chunks@.len() - k,
    {
        if k >= self.model.chunks.len() {
            None
        } else {
            let c = &self.model.chunks[k];
            if c.chunk_type == MergeChunkType::Conflict && c.id < self.resolutions.len()
                && self.resolutions[c.id].is_none() {
                Some(c.id)
            } else {
                self.first_open_conflict_exec(k + 1)
            }
        }
    }

    /// Resolves every unresolved non-conflicting chunk automatically and moves
    /// to the first conflict still open.
    pub fn auto_merge(&mut self)
        requires
            old(self).wf(),
        ensures
            final(self).wf(),
            final(self).model == old(self).model,
            forall|i: int|
                0 <= i < final(self).resolutions@.len() ==> #[trigger] final(self).resolutions@[i] == (
                if old(self).resolutions@[i] is Some {
                    old(self).resolutions@[i]
                } else {
                    spec_auto_resolution(old(self).model.chunks@[i].chunk_type)
                }),
            final(self).current_chunk == (match Self::first_open_conflict(
                final(self).model.chunks@,
                final(self).resolutions@,
                0,
            ) {
                Some(id) => Some(id),
                None => old(self).current_chunk,
            }),
    {
        let mut i: usize = 0;
        while i < self.resolutions.len()
            invariant
                i <= self.resolutions@.len(),
                self.wf(),
                self.model == old(self).model,
                self.current_chunk == old(self).current_chunk,
                self.resolutions@.len() == old(self).resolutions@.len(),
                forall|k: int|
                    0 <= k < self.resolutions@.len() ==> #[trigger] self.resolutions@[k] == if k < i {
                        if old(self).resolutions@[k] is Some {
                            old(self).resolutions@[k]
                        } else {
                            spec_auto_resolution(old(self).model.chunks@[k].chunk_type)
                        }
                    } else {
                        old(self).resolutions@[k]
                    },
            decreases self.resolutions@.len() - i,
        {
            if self.resolutions[i].is_none() {
                let r = auto_resolution(self.model.chunks[i].chunk_type);
                self.resolutions.set(i, r);
            }
            i = i + 1;
        }
        let next = self.first_open_conflict_exec(0);
        if next.is_some() {
            self.current_chunk = next;
        }
    }

    /// Makes chunk `id` current.
    pub fn jump_to_chunk(&mut self, id: usize)
        ensures
            final(self).model == old(self).model,
            final(self).resolutions@ == old(self).resolutions@,
            final(self).current_chunk == Some(id),
    {
        self.current_chunk = Some(id);
    }
}


/// Conflict navigation only ever lands on a conflict chunk.
pub proof fn lemma_navigation_lands_on_conflict(
    layouts: Seq<ChunkLayout>,
    current: Option<int>,
    forward: bool,
)
    requires
        current matches Some(i) ==> 0 <= i < layouts.len(),
    ensures
        spec_navigate_conflict_index(layouts, current, forward) matches Some(k) ==> is_conflict_at(
            layouts,
            k,
        ),
{
    lemma_first_conflict_from(layouts, 0);
    lemma_last_conflict_before(layouts, layouts.len() as int);
    if let Some(i) = current {
        lemma_first_conflict_from(layouts, i + 1);
        lemma_last_conflict_before(layouts, i);
    }
}

/// The chunks tile the center pane: the first starts at line 0 and each
/// starts where the previous one ends.
pub proof fn lemma_center_ranges_tile(
    model: MergeEditorModel,
    resolutions: Seq<Option<ChunkResolution>>,
    layouts: Seq<ChunkLayout>,
)
    requires
        layouts_follow(model, resolutions, layouts),
    ensures
        layouts.len() > 0 ==> layouts[0].center_range.start == 0,
        forall|i: int|
            0 <= i < layouts.len() - 1 ==> #[trigger] layouts[i].center_range.end == layouts[i
                + 1].center_range.start,
        forall|i: int|
            0 <= i < layouts.len() ==> #[trigger] layouts[i].center_range.start <= layouts[i].center_range.end,
{
    if layouts.len() > 0 {
        assert(layouts[0].center_range.start == center_lines(model.chunks@, resolutions, 0).len());
    }
    assert forall|i: int| 0 <= i < layouts.len() - 1 implies #[trigger] layouts[i].center_range.end
        == layouts[i + 1].center_range.start by {
        assert(layouts[i + 1].center_range.start == center_lines(model.chunks@, resolutions, i + 1).len());
    }
    assert forall|i: int| 0 <= i < layouts.len() implies #[trigger] layouts[i].center_range.start
        <= layouts[i].center_range.end by {
        assert(center_lines(model.chunks@, resolutions, i + 1) == center_lines(model.chunks@, resolutions, i)
            + spec_resolved_lines(model.chunks@[i], resolution_at(resolutions, i)));
    }
}

proof fn lemma_auto_unresolved_counts(chunks: Seq<MergeChunk>, res: Seq<Option<ChunkResolution>>, n: int)
    requires
        0 <= n <= chunks.len(),
        res.len() == chunks.len(),
        forall|i: int| 0 <= i < res.len() ==> #[trigger] res[i] == spec_auto_resolution(chunks[i].chunk_type),
    ensures
        count_unresolved(res, n) == count_conflict_chunks(chunks, n),
    decreases n,
{
    if n > 0 {
        lemma_auto_unresolved_counts(chunks, res, n - 1);
        assert(res[n - 1] == spec_auto_resolution(chunks[n - 1].chunk_type));
    }
}

/// A freshly opened merge leaves exactly its conflict chunks unresolved.
pub proof fn lemma_new_merge_leaves_conflicts_open(st: MergeEditorState, model: MergeEditorModel)
    requires
        st.wf(),
        st.model == model,
        forall|i: int|
            0 <= i < st.resolutions@.len() ==> #[trigger] st.resolutions@[i] == spec_auto_resolution(
                model.chunks@[i].chunk_type,
            ),
    ensures
        count_unresolved(st.resolutions@, st.resolutions@.len() as int) == count_conflict_chunks(
            model.chunks@,
            model.chunks@.len() as int,
        ),
{
    lemma_auto_unresolved_counts(model.chunks@, st.resolutions@, model.chunks@.len() as int);
}

/// Accepting one side for every chunk leaves nothing unresolved.
pub proof fn lemma_accept_all_resolves_everything(res: Seq<Option<ChunkResolution>>, r: ChunkResolution)
    requires
        forall|i: int| 0 <= i < res.len() ==> #[trigger] res[i] == Some(r),
    ensures
        count_unresolved(res, res.len() as int) == 0,
{
    lemma_count_unresolved_all_some(res, res.len() as int);
}

proof fn lemma_count_unresolved_all_some(res: Seq<Option<ChunkResolution>>, n: int)
    requires
        0 <= n <= res.len(),
        forall|i: int| 0 <= i < res.len() ==> #[trigger] res[i] is Some,
    ensures
        count_unresolved(res, n) == 0,
    decreases n,
{
    if n > 0 {
        lemma_count_unresolved_all_some(res, n - 1);
        assert(res[n - 1] is Some);
    }
}

} // verus!

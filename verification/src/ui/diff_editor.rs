//! Model side of the split and unified diff editors: per-line decorations,
//! link-map blocks between the panes, the overview strip and the unified
//! document.
use vstd::prelude::*;
use core::ops::Range;
use crate::git::diff::{
    Diff, EditorDiffBlock, EditorDiffBlockKind, EditorDiffHunk, EditorDiffLine, EditorDiffModel,
    InlineChangeSpan, DiffLineOrigin,
};
use crate::ui::diff_core::{copy_spans, ChunkTag};
use crate::ui::merge_editor::{copy_range, range_is_empty, spec_range_empty};
use crate::text::{char_range, chars_of, line_count, spec_line_count, push_char, string_from_chars};
use crate::git::diff::{DiffHunk, DiffLine, FileDiff};

verus! {

/// One pane of the split editor.
#[derive(Debug, Clone, Copy, PartialEq, Eq, Structural)]
pub enum DiffEditorPane {
    Left,
    Right,
}

/// Index of a pane, left to right.
pub fn pane_index(pane: DiffEditorPane) -> (i: usize)
    ensures
        i == (match pane {
            DiffEditorPane::Left => 0usize,
            DiffEditorPane::Right => 1usize,
        }),
{
    match pane {
        DiffEditorPane::Left => 0,
        DiffEditorPane::Right => 1,
    }
}

/// The other pane.
pub open spec fn spec_opposite_pane(pane: DiffEditorPane) -> DiffEditorPane {
    match pane {
        DiffEditorPane::Left => DiffEditorPane::Right,
        DiffEditorPane::Right => DiffEditorPane::Left,
    }
}

/// The other pane.
pub fn opposite_pane(pane: DiffEditorPane) -> (p: DiffEditorPane)
    ensures
        p == spec_opposite_pane(pane),
        p != pane,
{
    match pane {
        DiffEditorPane::Left => DiffEditorPane::Right,
        DiffEditorPane::Right => DiffEditorPane::Left,
    }
}

/// Going to the other pane twice comes back.
pub proof fn lemma_opposite_pane_involutive(pane: DiffEditorPane)
    ensures
        spec_opposite_pane(spec_opposite_pane(pane)) == pane,
{
}

/// The range of `old`/`new` that belongs to `pane`, falling back to the
/// other side when it is empty there.
pub open spec fn spec_range_for_pane(old: Range<usize>, new: Range<usize>, pane: DiffEditorPane) -> Range<
    usize,
> {
    match pane {
        DiffEditorPane::Left => if !spec_range_empty(old) {
            old
        } else {
            new
        },
        DiffEditorPane::Right => if !spec_range_empty(new) {
            new
        } else {
            old
        },
    }
}

/// The lines a hunk occupies in `pane`.
pub fn hunk_range_for_pane(hunk: &EditorDiffHunk, pane: DiffEditorPane) -> (r: Range<usize>)
    ensures
        r == spec_range_for_pane(hunk.old_range, hunk.new_range, pane),
{
    match pane {
        DiffEditorPane::Left => if !range_is_empty(&hunk.old_range) {
            copy_range(&hunk.old_range)
        } else {
            copy_range(&hunk.new_range)
        },
        DiffEditorPane::Right => if !range_is_empty(&hunk.new_range) {
            copy_range(&hunk.new_range)
        } else {
            copy_range(&hunk.old_range)
        },
    }
}

/// The lines a block occupies in `pane`.
pub fn block_range_for_pane(block: &EditorDiffBlock, pane: DiffEditorPane) -> (r: Range<usize>)
    ensures
        r == spec_range_for_pane(block.old_range, block.new_range, pane),
{
    match pane {
        DiffEditorPane::Left => if !range_is_empty(&block.old_range) {
            copy_range(&block.old_range)
        } else {
            copy_range(&block.new_range)
        },
        DiffEditorPane::Right => if !range_is_empty(&block.new_range) {
            copy_range(&block.new_range)
        } else {
            copy_range(&block.old_range)
        },
    }
}

/// The smallest range covering both, never empty.
pub open spec fn spec_merged_range(left: Range<usize>, right: Range<usize>) -> Range<usize> {
    let start = if left.start <= right.start {
        left.start
    } else {
        right.start
    };
    let end0 = if left.end >= right.end {
        left.end
    } else {
        right.end
    };
    let end = if end0 >= start + 1 {
        end0
    } else {
        (start + 1) as usize
    };
    start..end
}

/// The smallest non-empty range covering both ranges.
pub fn merged_range(left: &Range<usize>, right: &Range<usize>) -> (r: Range<usize>)
    requires
        left.start < usize::MAX,
        right.start < usize::MAX,
    ensures
        r == spec_merged_range(*left, *right),
        r.start < r.end,
        r.start <= left.start && r.start <= right.start,
        r.end >= left.end && r.end >= right.end,
{
    let start = if left.start <= right.start {
        left.start
    } else {
        right.start
    };
    let end0 = if left.end >= right.end {
        left.end
    } else {
        right.end
    };
    let end = if end0 >= start + 1 {
        end0
    } else {
        start + 1
    };
    start..end
}

/// The Meld chunk tag of a block kind.
pub fn block_kind_to_chunk(kind: EditorDiffBlockKind) -> (t: ChunkTag)
    ensures
        t == (match kind {
            EditorDiffBlockKind::Equal => ChunkTag::Equal,
            EditorDiffBlockKind::Insert => ChunkTag::Insert,
            EditorDiffBlockKind::Delete => ChunkTag::Delete,
            EditorDiffBlockKind::Replace => ChunkTag::Replace,
        }),
{
    match kind {
        EditorDiffBlockKind::Equal => ChunkTag::Equal,
        EditorDiffBlockKind::Insert => ChunkTag::Insert,
        EditorDiffBlockKind::Delete => ChunkTag::Delete,
        EditorDiffBlockKind::Replace => ChunkTag::Replace,
    }
}

/// Number of lines the editor shows for `text` (at least one).
pub fn logical_line_count(text: &str) -> (n: usize)
    ensures
        n == spec_line_count(text@),
{
    line_count(text)
}

/// How a line of a pane is drawn: its block kind, text and inline changes.
#[derive(Debug)]
pub struct DecoratedLine {
    pub kind: EditorDiffBlockKind,
    pub content: String,
    pub inline_changes: Vec<InlineChangeSpan>,
}

/// The decoration of every line of a pane (none: drawn plain).
#[derive(Debug)]
pub struct PaneDecorations {
    pub lines: Vec<Option<DecoratedLine>>,
}

/// A line decoration as plain values.
pub type DecoView = Option<(EditorDiffBlockKind, Seq<char>, Seq<InlineChangeSpan>)>;

pub open spec fn deco_view(d: Option<DecoratedLine>) -> DecoView {
    match d {
        Some(x) => Some((x.kind, x.content@, x.inline_changes@)),
        None => None,
    }
}

impl PaneDecorations {
    pub open spec fn view_lines(&self) -> Seq<DecoView> {
        self.lines@.map_values(|d: Option<DecoratedLine>| deco_view(d))
    }
}

/// A write of one line's decoration: line index, kind, text, inline changes.
pub type DecoWrite = (usize, EditorDiffBlockKind, Seq<char>, Seq<InlineChangeSpan>);

/// The writes for the lines of one block.
pub open spec fn line_writes(lines: Seq<EditorDiffLine>, kind: EditorDiffBlockKind) -> Seq<DecoWrite> {
    lines.map_values(|l: EditorDiffLine| (l.index, kind, l.content@, l.inline_changes@))
}

/// The writes for the old (left) or new (right) lines of blocks, in order.
pub open spec fn block_writes(blocks: Seq<EditorDiffBlock>, left: bool) -> Seq<DecoWrite>
    decreases blocks.len(),
{
    if blocks.len() == 0 {
        Seq::empty()
    } else {
        block_writes(blocks.drop_last(), left) + line_writes(
            if left {
                blocks.last().old_lines@
            } else {
                blocks.last().new_lines@
            },
            blocks.last().kind,
        )
    }
}

/// The writes of all hunks for one pane, in order.
pub open spec fn pane_writes(hunks: Seq<EditorDiffHunk>, left: bool) -> Seq<DecoWrite>
    decreases hunks.len(),
{
    if hunks.len() == 0 {
        Seq::empty()
    } else {
        pane_writes(hunks.drop_last(), left) + block_writes(hunks.last().blocks@, left)
    }
}

/// The decoration write of one diff line, with the kind of its block.
pub open spec fn line_decoration(l: EditorDiffLine, kind: EditorDiffBlockKind) -> DecoWrite {
    (l.index, kind, l.content@, l.inline_changes@)
}

/// The left pane is decorated from the old lines of the blocks and the right
/// pane from their new lines: every old (new) line of every block is written,
/// with its block's kind, into the left (right) pane, and nothing else is.
pub proof fn lemma_block_writes_come_from_their_side(blocks: Seq<EditorDiffBlock>)
    ensures
        forall|b: int, j: int|
            0 <= b < blocks.len() && 0 <= j < blocks[b].old_lines@.len() ==> block_writes(blocks, true).contains(
                line_decoration(#[trigger] blocks[b].old_lines@[j], blocks[b].kind),
            ),
        forall|b: int, j: int|
            0 <= b < blocks.len() && 0 <= j < blocks[b].new_lines@.len() ==> block_writes(blocks, false).contains(
                line_decoration(#[trigger] blocks[b].new_lines@[j], blocks[b].kind),
            ),
        forall|w: DecoWrite|
            #[trigger] block_writes(blocks, true).contains(w) ==> exists|b: int, j: int|
                0 <= b < blocks.len() && 0 <= j < blocks[b].old_lines@.len() && w == line_decoration(
                    blocks[b].old_lines@[j],
                    blocks[b].kind,
                ),
        forall|w: DecoWrite|
            #[trigger] block_writes(blocks, false).contains(w) ==> exists|b: int, j: int|
                0 <= b < blocks.len() && 0 <= j < blocks[b].new_lines@.len() && w == line_decoration(
                    blocks[b].new_lines@[j],
                    blocks[b].kind,
                ),
    decreases blocks.len(),
{
    if blocks.len() > 0 {
        let init = blocks.drop_last();
        let last = blocks.last();
        let n = blocks.len() - 1;
        lemma_block_writes_come_from_their_side(init);
        let pl = block_writes(init, true);
        let pr = block_writes(init, false);
        let ll = line_writes(last.old_lines@, last.kind);
        let lr = line_writes(last.new_lines@, last.kind);
        assert(block_writes(blocks, true) == pl + ll);
        assert(block_writes(blocks, false) == pr + lr);
        assert forall|b: int, j: int|
            0 <= b < blocks.len() && 0 <= j < blocks[b].old_lines@.len() implies block_writes(blocks, true).contains(
                line_decoration(#[trigger] blocks[b].old_lines@[j], blocks[b].kind),
            ) by {
            let w = line_decoration(blocks[b].old_lines@[j], blocks[b].kind);
            if b < n {
                assert(init[b] == blocks[b]);
                let k = choose|k: int| 0 <= k < pl.len() && pl[k] == w;
                assert((pl + ll)[k] == w);
            } else {
                assert(ll[j] == w);
                assert((pl + ll)[pl.len() + j] == w);
            }
        }
        assert forall|b: int, j: int|
            0 <= b < blocks.len() && 0 <= j < blocks[b].new_lines@.len() implies block_writes(blocks, false).contains(
                line_decoration(#[trigger] blocks[b].new_lines@[j], blocks[b].kind),
            ) by {
            let w = line_decoration(blocks[b].new_lines@[j], blocks[b].kind);
            if b < n {
                assert(init[b] == blocks[b]);
                let k = choose|k: int| 0 <= k < pr.len() && pr[k] == w;
                assert((pr + lr)[k] == w);
            } else {
                assert(lr[j] == w);
                assert((pr + lr)[pr.len() + j] == w);
            }
        }
        assert forall|w: DecoWrite| #[trigger] block_writes(blocks, true).contains(w) implies exists|b: int, j: int|
            0 <= b < blocks.len() && 0 <= j < blocks[b].old_lines@.len() && w == line_decoration(
                blocks[b].old_lines@[j],
                blocks[b].kind,
            ) by {
            let k = choose|k: int| 0 <= k < (pl + ll).len() && (pl + ll)[k] == w;
            if k < pl.len() {
                assert(pl[k] == w);
                assert(pl.contains(w));
                let (b, j) = choose|b: int, j: int|
                    0 <= b < init.len() && 0 <= j < init[b].old_lines@.len() && w == line_decoration(
                        init[b].old_lines@[j],
                        init[b].kind,
                    );
                assert(init[b] == blocks[b]);
            } else {
                assert(ll[k - pl.len()] == w);
                assert(w == line_decoration(blocks[n].old_lines@[k - pl.len()], blocks[n].kind));
            }
        }
        assert forall|w: DecoWrite| #[trigger] block_writes(blocks, false).contains(w) implies exists|b: int, j: int|
            0 <= b < blocks.len() && 0 <= j < blocks[b].new_lines@.len() && w == line_decoration(
                blocks[b].new_lines@[j],
                blocks[b].kind,
            ) by {
            let k = choose|k: int| 0 <= k < (pr + lr).len() && (pr + lr)[k] == w;
            if k < pr.len() {
                assert(pr[k] == w);
                assert(pr.contains(w));
                let (b, j) = choose|b: int, j: int|
                    0 <= b < init.len() && 0 <= j < init[b].new_lines@.len() && w == line_decoration(
                        init[b].new_lines@[j],
                        init[b].kind,
                    );
                assert(init[b] == blocks[b]);
            } else {
                assert(lr[k - pr.len()] == w);
                assert(w == line_decoration(blocks[n].new_lines@[k - pr.len()], blocks[n].kind));
            }
        }
    }
}

/// The decorations after the writes, in order; a write for a line past the
/// end of the pane is ignored and a later write wins.
pub open spec fn apply_writes(init: Seq<DecoView>, writes: Seq<DecoWrite>) -> Seq<DecoView>
    decreases writes.len(),
{
    if writes.len() == 0 {
        init
    } else {
        let d = apply_writes(init, writes.drop_last());
        let w = writes.last();
        if (w.0 as int) < d.len() {
            d.update(w.0 as int, Some((w.1, w.2, w.3)))
        } else {
            d
        }
    }
}

proof fn lemma_apply_len(init: Seq<DecoView>, writes: Seq<DecoWrite>)
    ensures
        apply_writes(init, writes).len() == init.len(),
    decreases writes.len(),
{
    if writes.len() > 0 {
        lemma_apply_len(init, writes.drop_last());
    }
}

/// Decorates one line of a pane.
pub fn set_decoration(decorations: &mut PaneDecorations, line: &EditorDiffLine, kind: EditorDiffBlockKind)
    ensures
        final(decorations).view_lines() == if line.index < old(decorations).lines@.len() {
            old(decorations).view_lines().update(line.index as int, Some((kind, line.content@, line.inline_changes@)))
        } else {
            old(decorations).view_lines()
        },
{
    if line.index < decorations.lines.len() {
        let deco = DecoratedLine { kind, content: line.content.clone(), inline_changes: copy_spans(&line.inline_changes) };
        let ghost before = decorations.view_lines();
        decorations.lines.set(line.index, Some(deco));
        assert(decorations.view_lines() == before.update(line.index as int, Some((kind, line.content@, line.inline_changes@))));
    }
}

/// Undecorated lines for a text of `n` lines.
pub open spec fn blank_decorations(n: nat) -> Seq<DecoView> {
    Seq::new(n, |_i: int| None)
}

fn blank_pane(n: usize) -> (p: PaneDecorations)
    ensures
        p.view_lines() == blank_decorations(n as nat),
{
    let mut lines: Vec<Option<DecoratedLine>> = Vec::new();
    let mut i: usize = 0;
    while i < n
        invariant
            i <= n,
            lines@.len() == i,
            forall|k: int| 0 <= k < i ==> (#[trigger] lines@[k]) is None,
        decreases n - i,
    {
        lines.push(None);
        i = i + 1;
    }
    let p = PaneDecorations { lines };
    assert(p.view_lines() == blank_decorations(n as nat));
    p
}

/// Applies the writes of one block's lines.
fn decorate_lines(p: &mut PaneDecorations, lines: &Vec<EditorDiffLine>, kind: EditorDiffBlockKind, Ghost(init): Ghost<Seq<DecoView>>, Ghost(before): Ghost<Seq<DecoWrite>>)
    requires
        old(p).view_lines() == apply_writes(init, before),
    ensures
        final(p).view_lines() == apply_writes(init, before + line_writes(lines@, kind)),
{
    let mut l: usize = 0;
    assert(before + line_writes(lines@.subrange(0, 0), kind) == before);
    while l < lines.len()
        invariant
            l <= lines@.len(),
            p.view_lines() == apply_writes(init, before + line_writes(lines@.subrange(0, l as int), kind)),
        decreases lines@.len() - l,
    {
        proof {
            lemma_apply_len(init, before + line_writes(lines@.subrange(0, l as int), kind));
            let ws = before + line_writes(lines@.subrange(0, l + 1), kind);
            assert(ws.drop_last() == before + line_writes(lines@.subrange(0, l as int), kind));
            assert(ws.last() == (lines@[l as int].index, kind, lines@[l as int].content@, lines@[l as int].inline_changes@));
        }
        set_decoration(p, &lines[l], kind);
        l = l + 1;
    }
    assert(lines@.subrange(0, lines@.len() as int) == lines@);
}

/// The decorations of both panes: every line of every block is decorated
/// with the block's kind on its side (old lines left, new lines right).
pub fn build_pane_decorations(model: &EditorDiffModel) -> (r: (PaneDecorations, PaneDecorations))
    ensures
        r.0.view_lines() == apply_writes(blank_decorations(spec_line_count(model.left_text@)), pane_writes(model.hunks@, true)),
        r.1.view_lines() == apply_writes(blank_decorations(spec_line_count(model.right_text@)), pane_writes(model.hunks@, false)),
{
    let mut left = blank_pane(logical_line_count(model.left_text.as_str()));
    let mut right = blank_pane(logical_line_count(model.right_text.as_str()));
    let ghost li = blank_decorations(spec_line_count(model.left_text@));
    let ghost ri = blank_decorations(spec_line_count(model.right_text@));
    let mut h: usize = 0;
    while h < model.hunks.len()
        invariant
            h <= model.hunks@.len(),
            li == blank_decorations(spec_line_count(model.left_text@)),
            ri == blank_decorations(spec_line_count(model.right_text@)),
            left.view_lines() == apply_writes(li, pane_writes(model.hunks@.subrange(0, h as int), true)),
            right.view_lines() == apply_writes(ri, pane_writes(model.hunks@.subrange(0, h as int), false)),
        decreases model.hunks@.len() - h,
    {
        let hunk = &model.hunks[h];
        let ghost lw = pane_writes(model.hunks@.subrange(0, h as int), true);
        let ghost rw = pane_writes(model.hunks@.subrange(0, h as int), false);
        let mut b: usize = 0;
        assert(lw + block_writes(hunk.blocks@.subrange(0, 0), true) == lw);
        assert(rw + block_writes(hunk.blocks@.subrange(0, 0), false) == rw);
        while b < hunk.blocks.len()
            invariant
                b <= hunk.blocks@.len(),
                left.view_lines() == apply_writes(li, lw + block_writes(hunk.blocks@.subrange(0, b as int), true)),
                right.view_lines() == apply_writes(ri, rw + block_writes(hunk.blocks@.subrange(0, b as int), false)),
            decreases hunk.blocks@.len() - b,
        {
            let block = &hunk.blocks[b];
            let ghost lprev = lw + block_writes(hunk.blocks@.subrange(0, b as int), true);
            let ghost rprev = rw + block_writes(hunk.blocks@.subrange(0, b as int), false);
            decorate_lines(&mut left, &block.old_lines, block.kind, Ghost(li), Ghost(lprev));
            decorate_lines(&mut right, &block.new_lines, block.kind, Ghost(ri), Ghost(rprev));
            proof {
                let bs = hunk.blocks@.subrange(0, b + 1);
                assert(bs.drop_last() == hunk.blocks@.subrange(0, b as int));
                assert(bs.last() == *block);
                assert(lw + block_writes(bs, true) == lprev + line_writes(block.old_lines@, block.kind));
                assert(rw + block_writes(bs, false) == rprev + line_writes(block.new_lines@, block.kind));
            }
            b = b + 1;
        }
        proof {
            let hs = model.hunks@.subrange(0, h + 1);
            assert(hs.drop_last() == model.hunks@.subrange(0, h as int));
            assert(hs.last() == *hunk);
            assert(hunk.blocks@.subrange(0, hunk.blocks@.len() as int) == hunk.blocks@);
        }
        h = h + 1;
    }
    assert(model.hunks@.subrange(0, model.hunks@.len() as int) == model.hunks@);
    (left, right)
}

/// A changed block linking a range of the left pane to one of the right.
#[derive(Debug)]
pub struct LinkMapBlock {
    pub hunk_id: usize,
    pub kind: EditorDiffBlockKind,
    pub left_range: Range<usize>,
    pub right_range: Range<usize>,
}

/// A link block as plain values.
pub type LinkView = (usize, EditorDiffBlockKind, Range<usize>, Range<usize>);

pub open spec fn link_view(b: LinkMapBlock) -> LinkView {
    (b.hunk_id, b.kind, b.left_range, b.right_range)
}

/// The links of a hunk's changed blocks, in order.
pub open spec fn hunk_links(id: usize, blocks: Seq<EditorDiffBlock>) -> Seq<LinkView>
    decreases blocks.len(),
{
    if blocks.len() == 0 {
        Seq::empty()
    } else {
        let prev = hunk_links(id, blocks.drop_last());
        let b = blocks.last();
        if b.kind != EditorDiffBlockKind::Equal {
            prev.push((id, b.kind, b.old_range, b.new_range))
        } else {
            prev
        }
    }
}

/// The links of all changed blocks of all hunks, in order.
pub open spec fn spec_link_blocks(hunks: Seq<EditorDiffHunk>) -> Seq<LinkView>
    decreases hunks.len(),
{
    if hunks.len() == 0 {
        Seq::empty()
    } else {
        spec_link_blocks(hunks.drop_last()) + hunk_links(hunks.last().id, hunks.last().blocks@)
    }
}

/// The link-map blocks of the model: one per block that is not equal.
pub fn build_link_blocks(model: &EditorDiffModel) -> (r: Vec<LinkMapBlock>)
    ensures
        r@.map_values(|b: LinkMapBlock| link_view(b)) == spec_link_blocks(model.hunks@),
{
    let mut out: Vec<LinkMapBlock> = Vec::new();
    let mut h: usize = 0;
    while h < model.hunks.len()
        invariant
            h <= model.hunks@.len(),
            out@.map_values(|b: LinkMapBlock| link_view(b)) == spec_link_blocks(model.hunks@.subrange(0, h as int)),
        decreases model.hunks@.len() - h,
    {
        let hunk = &model.hunks[h];
        let ghost prev = spec_link_blocks(model.hunks@.subrange(0, h as int));
        let mut b: usize = 0;
        assert(prev + hunk_links(hunk.id, hunk.blocks@.subrange(0, 0)) == prev);
        while b < hunk.blocks.len()
            invariant
                b <= hunk.blocks@.len(),
                out@.map_values(|x: LinkMapBlock| link_view(x)) == prev + hunk_links(hunk.id, hunk.blocks@.subrange(0, b as int)),
            decreases hunk.blocks@.len() - b,
        {
            let block = &hunk.blocks[b];
            let ghost bs = hunk.blocks@.subrange(0, b + 1);
            assert(bs.drop_last() == hunk.blocks@.subrange(0, b as int));
            assert(bs.last() == *block);
            if block.kind != EditorDiffBlockKind::Equal {
                let ghost before = out@.map_values(|x: LinkMapBlock| link_view(x));
                out.push(LinkMapBlock {
                    hunk_id: hunk.id,
                    kind: block.kind,
                    left_range: copy_range(&block.old_range),
                    right_range: copy_range(&block.new_range),
                });
                assert(out@.map_values(|x: LinkMapBlock| link_view(x)) == before.push((hunk.id, block.kind, block.old_range, block.new_range)));
            }
            b = b + 1;
        }
        proof {
            let hs = model.hunks@.subrange(0, h + 1);
            assert(hs.drop_last() == model.hunks@.subrange(0, h as int));
            assert(hs.last() == *hunk);
            assert(hunk.blocks@.subrange(0, hunk.blocks@.len() as int) == hunk.blocks@);
        }
        h = h + 1;
    }
    assert(model.hunks@.subrange(0, model.hunks@.len() as int) == model.hunks@);
    out
}

/// A block's place in the overview strip.
#[derive(Debug)]
pub struct OverviewBlock {
    pub kind: EditorDiffBlockKind,
    pub range: Range<usize>,
}

/// A hunk's place in the overview strip.
#[derive(Debug)]
pub struct OverviewHunk {
    pub id: usize,
    pub range: Range<usize>,
}

/// The overview strip's blocks: each link block over the lines it covers on
/// either side.
pub fn build_overview_blocks(blocks: &[LinkMapBlock]) -> (r: Vec<OverviewBlock>)
    requires
        forall|i: int| 0 <= i < blocks@.len() ==> (#[trigger] blocks@[i]).left_range.start < usize::MAX && blocks@[i].right_range.start
            < usize::MAX,
    ensures
        r@.len() == blocks@.len(),
        forall|i: int|
            0 <= i < r@.len() ==> (#[trigger] r@[i]).kind == blocks@[i].kind && r@[i].range == spec_merged_range(
                blocks@[i].left_range,
                blocks@[i].right_range,
            ),
{
    let mut out: Vec<OverviewBlock> = Vec::new();
    let mut i: usize = 0;
    while i < blocks.len()
        invariant
            i <= blocks@.len(),
            out@.len() == i,
            forall|k: int| 0 <= k < blocks@.len() ==> (#[trigger] blocks@[k]).left_range.start < usize::MAX && blocks@[k].right_range.start
                < usize::MAX,
            forall|k: int|
                0 <= k < i ==> (#[trigger] out@[k]).kind == blocks@[k].kind && out@[k].range == spec_merged_range(
                    blocks@[k].left_range,
                    blocks@[k].right_range,
                ),
        decreases blocks@.len() - i,
    {
        let b = &blocks[i];
        out.push(OverviewBlock { kind: b.kind, range: merged_range(&b.left_range, &b.right_range) });
        i = i + 1;
    }
    out
}

/// The overview strip's hunks: each hunk over the lines it covers on either
/// side.
pub fn build_overview_hunks(model: &EditorDiffModel) -> (r: Vec<OverviewHunk>)
    requires
        forall|i: int| 0 <= i < model.hunks@.len() ==> (#[trigger] model.hunks@[i]).old_range.start < usize::MAX
            && model.hunks@[i].new_range.start < usize::MAX,
    ensures
        r@.len() == model.hunks@.len(),
        forall|i: int|
            0 <= i < r@.len() ==> (#[trigger] r@[i]).id == model.hunks@[i].id && r@[i].range == spec_merged_range(
                model.hunks@[i].old_range,
                model.hunks@[i].new_range,
            ),
{
    let mut out: Vec<OverviewHunk> = Vec::new();
    let mut i: usize = 0;
    while i < model.hunks.len()
        invariant
            i <= model.hunks@.len(),
            out@.len() == i,
            forall|k: int| 0 <= k < model.hunks@.len() ==> (#[trigger] model.hunks@[k]).old_range.start < usize::MAX
                && model.hunks@[k].new_range.start < usize::MAX,
            forall|k: int|
                0 <= k < i ==> (#[trigger] out@[k]).id == model.hunks@[k].id && out@[k].range == spec_merged_range(
                    model.hunks@[k].old_range,
                    model.hunks@[k].new_range,
                ),
        decreases model.hunks@.len() - i,
    {
        let h = &model.hunks[i];
        out.push(OverviewHunk { id: h.id, range: merged_range(&h.old_range, &h.new_range) });
        i = i + 1;
    }
    out
}

/// Line decoration kind of the unified view.
#[derive(Debug, Clone, Copy, PartialEq, Eq, Structural)]
pub enum UnifiedLineKind {
    Context,
    Addition,
    Deletion,
    HunkHeader,
}

/// The block kind a unified line is drawn with (none for context).
pub open spec fn unified_block_kind(k: UnifiedLineKind) -> Option<EditorDiffBlockKind> {
    match k {
        UnifiedLineKind::Addition => Some(EditorDiffBlockKind::Insert),
        UnifiedLineKind::Deletion => Some(EditorDiffBlockKind::Delete),
        UnifiedLineKind::HunkHeader => Some(EditorDiffBlockKind::Replace),
        UnifiedLineKind::Context => None,
    }
}

/// The decorations of a unified document of `total_lines` lines whose lines
/// have the given kinds: additions, deletions and hunk headers are
/// decorated, context lines and lines without a kind are not.
pub fn build_unified_decorations(line_kinds: &[UnifiedLineKind], total_lines: usize) -> (p: PaneDecorations)
    ensures
        p.view_lines().len() == total_lines,
        forall|i: int|
            0 <= i < total_lines ==> #[trigger] p.view_lines()[i] == if i < line_kinds@.len() {
                match unified_block_kind(line_kinds@[i]) {
                    Some(k) => Some((k, Seq::<char>::empty(), Seq::<InlineChangeSpan>::empty())),
                    None => None,
                }
            } else {
                None
            },
{
    let mut p = blank_pane(total_lines);
    let mut i: usize = 0;
    while i < line_kinds.len() && i < total_lines
        invariant
            i <= line_kinds@.len(),
            i <= total_lines,
            p.view_lines().len() == total_lines,
            forall|k: int|
                0 <= k < total_lines ==> #[trigger] p.view_lines()[k] == if k < i {
                    match unified_block_kind(line_kinds@[k]) {
                        Some(kd) => Some((kd, Seq::<char>::empty(), Seq::<InlineChangeSpan>::empty())),
                        None => None,
                    }
                } else {
                    None
                },
        decreases total_lines - i,
    {
        let kind = match line_kinds[i] {
            UnifiedLineKind::Addition => Some(EditorDiffBlockKind::Insert),
            UnifiedLineKind::Deletion => Some(EditorDiffBlockKind::Delete),
            UnifiedLineKind::HunkHeader => Some(EditorDiffBlockKind::Replace),
            UnifiedLineKind::Context => None,
        };
        match kind {
            Some(k) => {
                let ghost before = p.view_lines();
                p.lines.set(i, Some(DecoratedLine { kind: k, content: String::new(), inline_changes: Vec::new() }));
                assert(p.view_lines() == before.update(i as int, Some((k, Seq::<char>::empty(), Seq::<InlineChangeSpan>::empty()))));
            },
            None => {},
        }
        i = i + 1;
    }
    p
}

/// The text of a unified view, the kind of each of its lines and the line on
/// which each hunk starts.
#[derive(Debug)]
pub struct UnifiedDocument {
    pub text: String,
    pub line_kinds: Vec<UnifiedLineKind>,
    pub hunk_start_lines: Vec<usize>,
}

/// A unified document as plain values.
pub type DocView = (Seq<char>, Seq<UnifiedLineKind>, Seq<usize>);

/// Index of the first ` @@` in `h` at or after `i`.
pub open spec fn find_header_end(h: Seq<char>, i: int) -> Option<int>
    decreases h.len() - i,
{
    if i < 0 || i + 3 > h.len() {
        None
    } else if h.subrange(i, i + 3) == seq![' ', '@', '@'] {
        Some(i)
    } else {
        find_header_end(h, i + 1)
    }
}

/// The shown part of a hunk header: up to and including the first ` @@`
/// (what follows it is context), or the whole header.
pub open spec fn header_display(h: Seq<char>) -> Seq<char> {
    match find_header_end(h, 0) {
        Some(p) => h.subrange(0, p + 3),
        None => h,
    }
}

/// The unified-diff prefix of a line.
pub open spec fn origin_prefix(o: DiffLineOrigin) -> char {
    match o {
        DiffLineOrigin::Addition => '+',
        DiffLineOrigin::Deletion => '-',
        _ => ' ',
    }
}

pub open spec fn origin_kind(o: DiffLineOrigin) -> UnifiedLineKind {
    match o {
        DiffLineOrigin::Addition => UnifiedLineKind::Addition,
        DiffLineOrigin::Deletion => UnifiedLineKind::Deletion,
        _ => UnifiedLineKind::Context,
    }
}

/// A line's text in the document: its prefix, its content, and a newline
/// when the content lacks one.
pub open spec fn unified_line_text(l: DiffLine) -> Seq<char> {
    let body = seq![origin_prefix(l.origin)] + l.content@;
    if l.content@.len() > 0 && l.content@.last() == '\n' {
        body
    } else {
        body.push('\n')
    }
}

/// The document after appending `lines`.
pub open spec fn append_lines(doc: DocView, lines: Seq<DiffLine>) -> DocView
    decreases lines.len(),
{
    if lines.len() == 0 {
        doc
    } else {
        let d = append_lines(doc, lines.drop_last());
        (d.0 + unified_line_text(lines.last()), d.1.push(origin_kind(lines.last().origin)), d.2)
    }
}

/// The document after appending a hunk: its header line, then its lines.
pub open spec fn append_hunk(doc: DocView, hunk: DiffHunk) -> DocView {
    let started = (
        doc.0 + header_display(hunk.header@).push('\n'),
        doc.1.push(UnifiedLineKind::HunkHeader),
        doc.2.push(doc.1.len() as usize),
    );
    append_lines(started, hunk.lines@)
}

/// The document after appending hunks in order.
pub open spec fn append_hunks(doc: DocView, hunks: Seq<DiffHunk>) -> DocView
    decreases hunks.len(),
{
    if hunks.len() == 0 {
        doc
    } else {
        append_hunk(append_hunks(doc, hunks.drop_last()), hunks.last())
    }
}

/// The document of files in order.
pub open spec fn append_files(doc: DocView, files: Seq<FileDiff>) -> DocView
    decreases files.len(),
{
    if files.len() == 0 {
        doc
    } else {
        append_hunks(append_files(doc, files.drop_last()), files.last().hunks@)
    }
}

/// The unified document of a diff.
pub open spec fn spec_unified_document(diff: Diff) -> DocView {
    append_files((Seq::empty(), Seq::empty(), Seq::empty()), diff.files@)
}

fn header_display_exec(header: &String) -> (out: String)
    ensures
        out@ == header_display(header@),
{
    let v = chars_of(header.as_str());
    let n = v.len();
    let mut i: usize = 0;
    while n >= 3 && i <= n - 3
        invariant
            n == v@.len(),
            v@ == header@,
            find_header_end(v@, 0) == find_header_end(v@, i as int),
        decreases n - i,
    {
        if v[i] == ' ' && v[i + 1] == '@' && v[i + 2] == '@' {
            assert(v@.subrange(i as int, i + 3) == seq![' ', '@', '@']);
            let head = char_range(&v, 0, i + 3);
            return string_from_chars(head.as_slice());
        }
        assert(v@.subrange(i as int, i + 3) != seq![' ', '@', '@']) by {
            if v@.subrange(i as int, i + 3) == seq![' ', '@', '@'] {
                assert(v@.subrange(i as int, i + 3)[0] == v@[i as int]);
                assert(v@.subrange(i as int, i + 3)[1] == v@[i + 1]);
                assert(v@.subrange(i as int, i + 3)[2] == v@[i + 2]);
            }
        }
        i = i + 1;
    }
    header.clone()
}

/// Builds the unified view of a diff: for each hunk of each file, its header
/// (up to the closing ` @@`), then its lines with `+`, `-` or ` ` in front.
pub fn unified_document(diff: &Diff) -> (doc: UnifiedDocument)
    ensures
        (doc.text@, doc.line_kinds@, doc.hunk_start_lines@) == spec_unified_document(*diff),
{
    let mut text = String::new();
    let mut kinds: Vec<UnifiedLineKind> = Vec::new();
    let mut starts: Vec<usize> = Vec::new();
    let ghost empty: DocView = (Seq::empty(), Seq::empty(), Seq::empty());
    let mut f: usize = 0;
    while f < diff.files.len()
        invariant
            f <= diff.files@.len(),
            empty == (Seq::<char>::empty(), Seq::<UnifiedLineKind>::empty(), Seq::<usize>::empty()),
            (text@, kinds@, starts@) == append_files(empty, diff.files@.subrange(0, f as int)),
        decreases diff.files@.len() - f,
    {
        let file = &diff.files[f];
        let ghost before = (text@, kinds@, starts@);
        let mut h: usize = 0;
        assert(file.hunks@.subrange(0, 0).len() == 0);
        while h < file.hunks.len()
            invariant
                h <= file.hunks@.len(),
                (text@, kinds@, starts@) == append_hunks(before, file.hunks@.subrange(0, h as int)),
            decreases file.hunks@.len() - h,
        {
            let hunk = &file.hunks[h];
            let ghost at = (text@, kinds@, starts@);
            let kl = kinds.len();
            starts.push(kl);
            let shown = header_display_exec(&hunk.header);
            text.append(shown.as_str());
            push_char(&mut text, '\n');
            kinds.push(UnifiedLineKind::HunkHeader);
            let ghost started = (text@, kinds@, starts@);
            assert(started == (at.0 + header_display(hunk.header@).push('\n'), at.1.push(UnifiedLineKind::HunkHeader), at.2.push(at.1.len() as usize)));
            let mut l: usize = 0;
            assert(hunk.lines@.subrange(0, 0).len() == 0);
            while l < hunk.lines.len()
                invariant
                    l <= hunk.lines@.len(),
                    (text@, kinds@, starts@) == append_lines(started, hunk.lines@.subrange(0, l as int)),
                decreases hunk.lines@.len() - l,
            {
                let line = &hunk.lines[l];
                let ghost ls = hunk.lines@.subrange(0, l + 1);
                assert(ls.drop_last() == hunk.lines@.subrange(0, l as int));
                assert(ls.last() == *line);
                let ghost t0 = text@;
                match line.origin {
                    DiffLineOrigin::Addition => push_char(&mut text, '+'),
                    DiffLineOrigin::Deletion => push_char(&mut text, '-'),
                    _ => push_char(&mut text, ' '),
                }
                text.append(line.content.as_str());
                let cv = chars_of(line.content.as_str());
                let cn = cv.len();
                if !(cn > 0 && cv[cn - 1] == '\n') {
                    push_char(&mut text, '\n');
                }
                assert(text@ == t0 + unified_line_text(*line));
                let kind = match line.origin {
                    DiffLineOrigin::Addition => UnifiedLineKind::Addition,
                    DiffLineOrigin::Deletion => UnifiedLineKind::Deletion,
                    _ => UnifiedLineKind::Context,
                };
                kinds.push(kind);
                l = l + 1;
            }
            proof {
                assert(hunk.lines@.subrange(0, hunk.lines@.len() as int) == hunk.lines@);
                let hs = file.hunks@.subrange(0, h + 1);
                assert(hs.drop_last() == file.hunks@.subrange(0, h as int));
                assert(hs.last() == *hunk);
            }
            h = h + 1;
        }
        proof {
            assert(file.hunks@.subrange(0, file.hunks@.len() as int) == file.hunks@);
            let fs = diff.files@.subrange(0, f + 1);
            assert(fs.drop_last() == diff.files@.subrange(0, f as int));
            assert(fs.last() == *file);
        }
        f = f + 1;
    }
    assert(diff.files@.subrange(0, diff.files@.len() as int) == diff.files@);
    UnifiedDocument { text, line_kinds: kinds, hunk_start_lines: starts }
}

} // verus!

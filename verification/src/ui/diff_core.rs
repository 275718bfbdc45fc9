//! Meld-style line alignment shared by the unified and split diff viewers.
//!
//! A hunk's lines are paired into rows using Meld's chunk model (Equal,
//! Insert, Delete, Replace): deletions wait in a queue, each addition takes
//! the oldest waiting deletion as its left side, and any other line first
//! flushes the waiting deletions as pure deletions.
use vstd::prelude::*;
use crate::git::diff::{DiffHunk, DiffLine, DiffLineOrigin, InlineChangeSpan};
use crate::text::{decimal, pad_left, pad_left_exec, u64_to_decimal};

verus! {

/// Chunk tag following Meld's terminology.
#[derive(Debug, Clone, Copy, PartialEq, Eq, Structural)]
pub enum ChunkTag {
    Equal,
    Insert,
    Delete,
    Replace,
}

/// One side of an aligned diff row.
#[derive(Debug)]
pub struct SideLine {
    pub line_number: Option<u32>,
    pub content: String,
    pub origin: DiffLineOrigin,
    pub inline_changes: Vec<InlineChangeSpan>,
}

/// A paired row: left (old) and right (new) sides aligned together.
#[derive(Debug)]
pub struct AlignedRow {
    pub tag: ChunkTag,
    pub left: Option<SideLine>,
    pub right: Option<SideLine>,
}

/// The shape of one row: its tag and the indices of the hunk lines that
/// provide its left and right sides.
pub type RowPlan = (ChunkTag, Option<int>, Option<int>);

/// Rows emitted for deletions still waiting for a partner: one `Delete` row each.
pub open spec fn flush_plan(pending: Seq<int>) -> Seq<RowPlan>
    decreases pending.len(),
{
    if pending.len() == 0 {
        Seq::empty()
    } else {
        seq![(ChunkTag::Delete, Some(pending[0]), None::<int>)] + flush_plan(pending.drop_first())
    }
}

/// Rows produced from line `i` on, with the deletions `pending` still waiting.
pub open spec fn plan_from(lines: Seq<DiffLine>, i: int, pending: Seq<int>) -> Seq<RowPlan>
    decreases lines.len() - i,
{
    if i >= lines.len() || i < 0 {
        flush_plan(pending)
    } else {
        match lines[i].origin {
            DiffLineOrigin::Deletion => plan_from(lines, i + 1, pending.push(i)),
            DiffLineOrigin::Addition => if pending.len() > 0 {
                seq![(ChunkTag::Replace, Some(pending[0]), Some(i))] + plan_from(
                    lines,
                    i + 1,
                    pending.drop_first(),
                )
            } else {
                seq![(ChunkTag::Insert, None::<int>, Some(i))] + plan_from(lines, i + 1, pending)
            },
            _ => flush_plan(pending) + seq![(ChunkTag::Equal, Some(i), Some(i))] + plan_from(
                lines,
                i + 1,
                Seq::empty(),
            ),
        }
    }
}

/// The rows of a whole hunk.
pub open spec fn aligned_plan(lines: Seq<DiffLine>) -> Seq<RowPlan> {
    plan_from(lines, 0, Seq::empty())
}

/// `s` is the side taken from a changed line: its own number on its side,
/// its content, origin and inline spans.
pub open spec fn is_side_of(s: SideLine, line: DiffLine) -> bool {
    &&& s.line_number == (match line.origin {
        DiffLineOrigin::Addition => line.new_lineno,
        _ => line.old_lineno,
    })
    &&& s.content@ == line.content@
    &&& s.origin == line.origin
    &&& s.inline_changes@ == line.inline_changes@
}

/// `s` is one side of an `Equal` row built from `line`: the old number on the
/// left, the new number on the right, and no inline spans.
pub open spec fn is_equal_side_of(s: SideLine, line: DiffLine, left: bool) -> bool {
    &&& s.line_number == (if left {
        line.old_lineno
    } else {
        line.new_lineno
    })
    &&& s.content@ == line.content@
    &&& s.origin == line.origin
    &&& s.inline_changes@.len() == 0
}

/// `row` is the row that `plan` describes over `lines`.
pub open spec fn row_follows(row: AlignedRow, plan: RowPlan, lines: Seq<DiffLine>) -> bool {
    &&& row.tag == plan.0
    &&& (row.left is Some <==> plan.1 is Some)
    &&& (row.right is Some <==> plan.2 is Some)
    &&& plan.1 is Some ==> 0 <= plan.1->0 < lines.len()
    &&& plan.2 is Some ==> 0 <= plan.2->0 < lines.len()
    &&& if plan.0 == ChunkTag::Equal {
        &&& plan.1 is Some && plan.2 is Some
        &&& is_equal_side_of(row.left->0, lines[plan.1->0], true)
        &&& is_equal_side_of(row.right->0, lines[plan.2->0], false)
    } else {
        &&& plan.1 is Some ==> is_side_of(row.left->0, lines[plan.1->0])
        &&& plan.2 is Some ==> is_side_of(row.right->0, lines[plan.2->0])
    }
}

/// `rows` are exactly the rows `plan` describes over `lines`.
pub open spec fn rows_follow(rows: Seq<AlignedRow>, plan: Seq<RowPlan>, lines: Seq<DiffLine>) -> bool {
    &&& rows.len() == plan.len()
    &&& forall|k: int| 0 <= k < rows.len() ==> #[trigger] row_follows(rows[k], plan[k], lines)
}

/// The line indices providing the left sides of `plan`, in row order.
pub open spec fn left_sources(plan: Seq<RowPlan>) -> Seq<int>
    decreases plan.len(),
{
    if plan.len() == 0 {
        Seq::empty()
    } else {
        (match plan[0].1 {
            Some(j) => seq![j],
            None => Seq::empty(),
        }) + left_sources(plan.drop_first())
    }
}

/// The line indices providing the right sides of `plan`, in row order.
pub open spec fn right_sources(plan: Seq<RowPlan>) -> Seq<int>
    decreases plan.len(),
{
    if plan.len() == 0 {
        Seq::empty()
    } else {
        (match plan[0].2 {
            Some(j) => seq![j],
            None => Seq::empty(),
        }) + right_sources(plan.drop_first())
    }
}

/// Indices, from `i` on, of the lines that are not of origin `skip`.
pub open spec fn indices_except(lines: Seq<DiffLine>, i: int, skip: DiffLineOrigin) -> Seq<int>
    decreases lines.len() - i,
{
    if i >= lines.len() || i < 0 {
        Seq::empty()
    } else {
        (if lines[i].origin != skip {
            seq![i]
        } else {
            Seq::empty()
        }) + indices_except(lines, i + 1, skip)
    }
}

proof fn lemma_sources_concat(a: Seq<RowPlan>, b: Seq<RowPlan>)
    ensures
        left_sources(a + b) == left_sources(a) + left_sources(b),
        right_sources(a + b) == right_sources(a) + right_sources(b),
    decreases a.len(),
{
    if a.len() == 0 {
        assert(a + b == b);
    } else {
        assert((a + b).drop_first() == a.drop_first() + b);
        lemma_sources_concat(a.drop_first(), b);
    }
}

proof fn lemma_sources_single(r: RowPlan)
    ensures
        left_sources(seq![r]) == (match r.1 {
            Some(j) => seq![j],
            None => Seq::<int>::empty(),
        }),
        right_sources(seq![r]) == (match r.2 {
            Some(j) => seq![j],
            None => Seq::<int>::empty(),
        }),
{
    assert(seq![r].drop_first() == Seq::<RowPlan>::empty());
    assert(left_sources(Seq::<RowPlan>::empty()) == Seq::<int>::empty());
    assert(right_sources(Seq::<RowPlan>::empty()) == Seq::<int>::empty());
    match r.1 {
        Some(j) => assert(seq![j] + Seq::<int>::empty() == seq![j]),
        None => assert(Seq::<int>::empty() + Seq::<int>::empty() == Seq::<int>::empty()),
    }
    match r.2 {
        Some(j) => assert(seq![j] + Seq::<int>::empty() == seq![j]),
        None => assert(Seq::<int>::empty() + Seq::<int>::empty() == Seq::<int>::empty()),
    }
}

proof fn lemma_flush_sources(pending: Seq<int>)
    ensures
        left_sources(flush_plan(pending)) == pending,
        right_sources(flush_plan(pending)) == Seq::<int>::empty(),
    decreases pending.len(),
{
    if pending.len() > 0 {
        let head = seq![(ChunkTag::Delete, Some(pending[0]), None::<int>)];
        lemma_sources_single((ChunkTag::Delete, Some(pending[0]), None::<int>));
        lemma_sources_concat(head, flush_plan(pending.drop_first()));
        lemma_flush_sources(pending.drop_first());
        assert(left_sources(head) == seq![pending[0]]);
        assert(right_sources(head) == Seq::<int>::empty());
        assert(seq![pending[0]] + pending.drop_first() == pending);
    }
}

proof fn lemma_plan_from_sources(lines: Seq<DiffLine>, i: int, pending: Seq<int>)
    requires
        0 <= i,
    ensures
        left_sources(plan_from(lines, i, pending)) == pending + indices_except(
            lines,
            i,
            DiffLineOrigin::Addition,
        ),
        right_sources(plan_from(lines, i, pending)) == indices_except(lines, i, DiffLineOrigin::Deletion),
    decreases lines.len() - i,
{
    if i >= lines.len() {
        lemma_flush_sources(pending);
        assert(pending + Seq::<int>::empty() == pending);
    } else {
        lemma_plan_from_sources(lines, i + 1, pending.push(i));
        lemma_plan_from_sources(lines, i + 1, Seq::empty());
        if pending.len() > 0 {
            lemma_plan_from_sources(lines, i + 1, pending.drop_first());
        } else {
            lemma_plan_from_sources(lines, i + 1, pending);
        }
        match lines[i].origin {
            DiffLineOrigin::Deletion => {
                assert(pending.push(i) + indices_except(lines, i + 1, DiffLineOrigin::Addition) == pending
                    + indices_except(lines, i, DiffLineOrigin::Addition));
            },
            DiffLineOrigin::Addition => {
                if pending.len() > 0 {
                    let head = seq![(ChunkTag::Replace, Some(pending[0]), Some(i))];
                    lemma_sources_single((ChunkTag::Replace, Some(pending[0]), Some(i)));
                    lemma_sources_concat(head, plan_from(lines, i + 1, pending.drop_first()));
                    assert(left_sources(head) == seq![pending[0]]);
                    assert(right_sources(head) == seq![i]);
                    assert(seq![pending[0]] + (pending.drop_first() + indices_except(
                        lines,
                        i + 1,
                        DiffLineOrigin::Addition,
                    )) == pending + indices_except(lines, i, DiffLineOrigin::Addition));
                } else {
                    let head = seq![(ChunkTag::Insert, None::<int>, Some(i))];
                    lemma_sources_single((ChunkTag::Insert, None::<int>, Some(i)));
                    lemma_sources_concat(head, plan_from(lines, i + 1, pending));
                    assert(left_sources(head) == Seq::<int>::empty());
                    assert(right_sources(head) == seq![i]);
                    assert(Seq::<int>::empty() + (pending + indices_except(
                        lines,
                        i + 1,
                        DiffLineOrigin::Addition,
                    )) == pending + indices_except(lines, i, DiffLineOrigin::Addition));
                }
            },
            _ => {
                let eq = seq![(ChunkTag::Equal, Some(i), Some(i))];
                lemma_sources_single((ChunkTag::Equal, Some(i), Some(i)));
                lemma_sources_concat(flush_plan(pending), eq);
                lemma_sources_concat(flush_plan(pending) + eq, plan_from(lines, i + 1, Seq::empty()));
                lemma_flush_sources(pending);
                assert(left_sources(eq) == seq![i]);
                assert(right_sources(eq) == seq![i]);
                assert(pending + seq![i] + (Seq::<int>::empty() + indices_except(
                    lines,
                    i + 1,
                    DiffLineOrigin::Addition,
                )) == pending + indices_except(lines, i, DiffLineOrigin::Addition));
                assert(Seq::<int>::empty() + seq![i] + indices_except(lines, i + 1, DiffLineOrigin::Deletion)
                    == indices_except(lines, i, DiffLineOrigin::Deletion));
            },
        }
    }
}

/// Every line of a hunk appears once in the aligned rows and in its order:
/// the left sides are the hunk's non-added lines and the right sides its
/// non-deleted lines, each in their original order.
pub proof fn lemma_aligned_rows_keep_line_order(lines: Seq<DiffLine>)
    ensures
        left_sources(aligned_plan(lines)) == indices_except(lines, 0, DiffLineOrigin::Addition),
        right_sources(aligned_plan(lines)) == indices_except(lines, 0, DiffLineOrigin::Deletion),
{
    lemma_plan_from_sources(lines, 0, Seq::empty());
    assert(Seq::<int>::empty() + indices_except(lines, 0, DiffLineOrigin::Addition) == indices_except(
        lines,
        0,
        DiffLineOrigin::Addition,
    ));
}

pub fn copy_spans(spans: &Vec<InlineChangeSpan>) -> (out: Vec<InlineChangeSpan>)
    ensures
        out@ == spans@,
{
    let mut out: Vec<InlineChangeSpan> = Vec::new();
    let mut i: usize = 0;
    while i < spans.len()
        invariant
            i <= spans@.len(),
            out@ == spans@.subrange(0, i as int),
        decreases spans@.len() - i,
    {
        out.push(spans[i]);
        i = i + 1;
        assert(out@ == spans@.subrange(0, i as int));
    }
    assert(spans@.subrange(0, spans@.len() as int) == spans@);
    out
}

/// The side of a row taken from a changed line.
fn side_from_line(line: &DiffLine) -> (s: SideLine)
    ensures
        is_side_of(s, *line),
{
    SideLine {
        line_number: match line.origin {
            DiffLineOrigin::Addition => line.new_lineno,
            _ => line.old_lineno,
        },
        content: line.content.clone(),
        origin: line.origin,
        inline_changes: copy_spans(&line.inline_changes),
    }
}

proof fn lemma_flush_plan_push(pending: Seq<int>, j: int)
    ensures
        flush_plan(pending.push(j)) == flush_plan(pending) + seq![(ChunkTag::Delete, Some(j), None::<int>)],
    decreases pending.len(),
{
    if pending.len() == 0 {
        assert(pending.push(j).drop_first() == Seq::<int>::empty());
        assert(flush_plan(Seq::<int>::empty()) == Seq::<RowPlan>::empty());
    } else {
        assert(pending.push(j).drop_first() == pending.drop_first().push(j));
        lemma_flush_plan_push(pending.drop_first(), j);
    }
}

/// Emits one `Delete` row per waiting deletion and empties the queue.
fn flush_deletions(
    rows: &mut Vec<AlignedRow>,
    deletions: &mut Vec<usize>,
    lines: &Vec<DiffLine>,
    Ghost(plan): Ghost<Seq<RowPlan>>,
)
    requires
        rows_follow(old(rows)@, plan, lines@),
        forall|k: int| 0 <= k < old(deletions)@.len() ==> #[trigger] old(deletions)@[k] < lines@.len(),
        forall|k: int|
            0 <= k < old(deletions)@.len() ==> lines@[#[trigger] old(deletions)@[k] as int].origin
                == DiffLineOrigin::Deletion,
    ensures
        final(deletions)@.len() == 0,
        rows_follow(
            final(rows)@,
            plan + flush_plan(old(deletions)@.map_values(|d: usize| d as int)),
            lines@,
        ),
{
    let ghost pend = old(deletions)@.map_values(|d: usize| d as int);
    let mut i: usize = 0;
    let ghost mut done = plan;
    while i < deletions.len()
        invariant
            i <= deletions@.len(),
            deletions@ == old(deletions)@,
            pend == old(deletions)@.map_values(|d: usize| d as int),
            forall|k: int| 0 <= k < deletions@.len() ==> #[trigger] deletions@[k] < lines@.len(),
            forall|k: int|
                0 <= k < deletions@.len() ==> lines@[#[trigger] deletions@[k] as int].origin
                    == DiffLineOrigin::Deletion,
            rows_follow(rows@, done, lines@),
            done == plan + flush_plan(pend.subrange(0, i as int)),
        decreases deletions@.len() - i,
    {
        let d = deletions[i];
        rows.push(AlignedRow { tag: ChunkTag::Delete, left: Some(side_from_line(&lines[d])), right: None });
        proof {
            lemma_flush_plan_push(pend.subrange(0, i as int), d as int);
            assert(pend.subrange(0, i as int).push(d as int) == pend.subrange(0, i + 1));
            done = done + seq![(ChunkTag::Delete, Some(d as int), None::<int>)];
        }
        i = i + 1;
    }
    assert(pend.subrange(0, deletions@.len() as int) == pend);
    deletions.clear();
}


/// Build aligned rows from a hunk, pairing deletions with additions as Replace.
pub fn build_aligned_rows(hunk: &DiffHunk) -> (rows: Vec<AlignedRow>)
    ensures
        rows_follow(rows@, aligned_plan(hunk.lines@), hunk.lines@),
{
    let lines = &hunk.lines;
    let mut rows: Vec<AlignedRow> = Vec::new();
    let mut pending: Vec<usize> = Vec::new();
    let ghost mut done: Seq<RowPlan> = Seq::empty();
    let mut i: usize = 0;
    assert(pending@.map_values(|d: usize| d as int) =~= Seq::<int>::empty());
    assert(done + aligned_plan(lines@) =~= aligned_plan(lines@));
    while i < lines.len()
        invariant
            i <= lines@.len(),
            rows_follow(rows@, done, lines@),
            forall|k: int| 0 <= k < pending@.len() ==> #[trigger] pending@[k] < lines@.len(),
            forall|k: int|
                0 <= k < pending@.len() ==> lines@[#[trigger] pending@[k] as int].origin
                    == DiffLineOrigin::Deletion,
            done + plan_from(lines@, i as int, pending@.map_values(|d: usize| d as int))
                == aligned_plan(lines@),
        decreases lines@.len() - i,
    {
        let line = &lines[i];
        let ghost pend = pending@.map_values(|d: usize| d as int);
        match line.origin {
            DiffLineOrigin::Deletion => {
                pending.push(i);
                assert(pending@.map_values(|d: usize| d as int) == pend.push(i as int));
            },
            DiffLineOrigin::Addition => {
                if pending.len() > 0 {
                    let d = pending[0];
                    rows.push(
                        AlignedRow {
                            tag: ChunkTag::Replace,
                            left: Some(side_from_line(&lines[d])),
                            right: Some(side_from_line(line)),
                        },
                    );
                    pending.remove(0);
                    proof {
                        assert(pending@.map_values(|d: usize| d as int) == pend.drop_first());
                        let step = seq![(ChunkTag::Replace, Some(d as int), Some(i as int))];
                        assert(done + plan_from(lines@, i as int, pend) == (done + step) + plan_from(
                            lines@,
                            i + 1,
                            pend.drop_first(),
                        ));
                        done = done + step;
                    }
                } else {
                    rows.push(
                        AlignedRow { tag: ChunkTag::Insert, left: None, right: Some(side_from_line(line)) },
                    );
                    proof {
                        let step = seq![(ChunkTag::Insert, None::<int>, Some(i as int))];
                        assert(done + plan_from(lines@, i as int, pend) == (done + step) + plan_from(
                            lines@,
                            i + 1,
                            pend,
                        ));
                        done = done + step;
                    }
                }
            },
            _ => {
                flush_deletions(&mut rows, &mut pending, lines, Ghost(done));
                rows.push(
                    AlignedRow {
                        tag: ChunkTag::Equal,
                        left: Some(
                            SideLine {
                                line_number: line.old_lineno,
                                content: line.content.clone(),
                                origin: line.origin,
                                inline_changes: Vec::new(),
                            },
                        ),
                        right: Some(
                            SideLine {
                                line_number: line.new_lineno,
                                content: line.content.clone(),
                                origin: line.origin,
                                inline_changes: Vec::new(),
                            },
                        ),
                    },
                );
                proof {
                    let step = flush_plan(pend) + seq![(ChunkTag::Equal, Some(i as int), Some(i as int))];
                    assert(pending@.map_values(|d: usize| d as int) == Seq::<int>::empty());
                    assert(done + plan_from(lines@, i as int, pend) == (done + step) + plan_from(
                        lines@,
                        i + 1,
                        Seq::empty(),
                    ));
                    assert(done + flush_plan(pend) + seq![(ChunkTag::Equal, Some(i as int), Some(i as int))]
                        == done + step);
                    done = done + step;
                }
            },
        }
        i = i + 1;
    }
    let ghost pend = pending@.map_values(|d: usize| d as int);
    flush_deletions(&mut rows, &mut pending, lines, Ghost(done));
    proof {
        assert(plan_from(lines@, lines@.len() as int, pend) == flush_plan(pend));
    }
    rows
}


/// The prefix shown before a line of the given tag ("-" on the old side of a
/// replacement, "+" on its new side).
pub open spec fn spec_prefix_char(tag: ChunkTag, is_left: bool) -> Seq<char> {
    match tag {
        ChunkTag::Equal => seq![' '],
        ChunkTag::Insert => seq!['+'],
        ChunkTag::Delete => seq!['-'],
        ChunkTag::Replace => if is_left {
            seq!['-']
        } else {
            seq!['+']
        },
    }
}

/// Prefix character.
pub fn prefix_char(tag: ChunkTag, is_left: bool) -> (s: &'static str)
    ensures
        s@ == spec_prefix_char(tag, is_left),
{
    proof {
        reveal_strlit(" ");
        reveal_strlit("+");
        reveal_strlit("-");
    }
    match tag {
        ChunkTag::Equal => " ",
        ChunkTag::Insert => "+",
        ChunkTag::Delete => "-",
        ChunkTag::Replace => {
            if is_left {
                "-"
            } else {
                "+"
            }
        },
    }
}

/// A gutter line number: right-aligned in four columns, or four spaces.
pub open spec fn spec_format_line_number(value: Option<u32>) -> Seq<char> {
    match value {
        Some(n) => pad_left(decimal(n as nat), 4),
        None => seq![' ', ' ', ' ', ' '],
    }
}

/// Formats a gutter line number.
pub fn format_line_number(value: Option<u32>) -> (s: String)
    ensures
        s@ == spec_format_line_number(value),
{
    match value {
        Some(n) => {
            let digits = u64_to_decimal(n as u64);
            pad_left_exec(digits.as_str(), 4)
        },
        None => {
            let blank = "    ";
            proof {
                reveal_strlit("    ");
            }
            let s = String::from_str(blank);
            s
        },
    }
}

} // verus!

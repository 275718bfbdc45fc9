//! Diff and merge models shared between the repository layer and the views.
use vstd::prelude::*;
use core::ops::Range;

verus! {

/// Where a diff line comes from.
#[derive(Debug, Clone, Copy, PartialEq, Eq, Structural)]
pub enum DiffLineOrigin {
    Context,
    Addition,
    Deletion,
    Header,
    HunkHeader,
}

/// A character span inside a line; `changed` marks spans that differ.
#[derive(Debug, Clone, Copy, PartialEq, Eq, Structural)]
pub struct InlineChangeSpan {
    pub start: usize,
    pub len: usize,
    pub changed: bool,
}

/// One line of a textual diff hunk.
#[derive(Debug)]
pub struct DiffLine {
    pub origin: DiffLineOrigin,
    pub content: String,
    pub old_lineno: Option<u32>,
    pub new_lineno: Option<u32>,
    pub inline_changes: Vec<InlineChangeSpan>,
}

/// One hunk of a textual diff.
#[derive(Debug)]
pub struct DiffHunk {
    pub header: String,
    pub old_start: u32,
    pub old_lines: u32,
    pub new_start: u32,
    pub new_lines: u32,
    pub lines: Vec<DiffLine>,
}

/// The diff of one file.
#[derive(Debug)]
pub struct FileDiff {
    pub old_path: Option<String>,
    pub new_path: Option<String>,
    pub hunks: Vec<DiffHunk>,
    pub additions: u32,
    pub deletions: u32,
}

/// A diff over several files.
#[derive(Debug)]
pub struct Diff {
    pub files: Vec<FileDiff>,
}

/// Kind of a block inside an editor hunk.
#[derive(Debug, Clone, Copy, PartialEq, Eq, Structural)]
pub enum EditorDiffBlockKind {
    Equal,
    Insert,
    Delete,
    Replace,
}

/// A line of an editor block, with its 0-based index in its pane.
#[derive(Debug)]
pub struct EditorDiffLine {
    pub index: usize,
    pub line_number: u32,
    pub content: String,
    pub inline_changes: Vec<InlineChangeSpan>,
}

/// A block of an editor hunk: line ranges on both panes and their lines.
#[derive(Debug)]
pub struct EditorDiffBlock {
    pub kind: EditorDiffBlockKind,
    pub old_range: Range<usize>,
    pub new_range: Range<usize>,
    pub old_lines: Vec<EditorDiffLine>,
    pub new_lines: Vec<EditorDiffLine>,
}

/// A hunk of the side-by-side editor model.
#[derive(Debug)]
pub struct EditorDiffHunk {
    pub id: usize,
    pub header: String,
    pub old_range: Range<usize>,
    pub new_range: Range<usize>,
    pub blocks: Vec<EditorDiffBlock>,
}

/// Correspondence of one row between the two panes.
#[derive(Debug, Clone, Copy)]
pub struct EditorLineMapEntry {
    pub old_index: Option<usize>,
    pub new_index: Option<usize>,
}

/// Model of a side-by-side diff editor.
#[derive(Debug)]
pub struct EditorDiffModel {
    pub left_text: String,
    pub right_text: String,
    pub hunks: Vec<EditorDiffHunk>,
    pub line_map: Vec<EditorLineMapEntry>,
    pub old_path: Option<String>,
    pub new_path: Option<String>,
}

/// How a chunk of a three-way merge differs between the sides.
#[derive(Debug, Clone, Copy, PartialEq, Eq, Structural)]
pub enum MergeChunkType {
    Equal,
    OursOnly,
    TheirsOnly,
    BothChanged,
    Conflict,
}

/// One chunk of a three-way merge.
#[derive(Debug)]
pub struct MergeChunk {
    pub id: usize,
    pub chunk_type: MergeChunkType,
    pub lines_base: Vec<String>,
    pub lines_ours: Vec<String>,
    pub lines_theirs: Vec<String>,
    pub base_range: Range<usize>,
    pub ours_range: Range<usize>,
    pub theirs_range: Range<usize>,
}

/// Model of the three-way merge editor.
#[derive(Debug)]
pub struct MergeEditorModel {
    pub path: String,
    pub base_text: String,
    pub ours_text: String,
    pub theirs_text: String,
    pub chunks: Vec<MergeChunk>,
}

} // verus!

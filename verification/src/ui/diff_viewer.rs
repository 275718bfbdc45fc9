//! The unified diff viewer: the diff it shows and the handlers its hunk
//! buttons call.
use crate::git::diff::Diff;
use core::marker::PhantomData;
use vstd::prelude::*;

verus! {

/// A viewer of a diff with optional stage and unstage handlers, each turning
/// a file's path and a hunk's index into a `Message`. A viewer starts
/// without handlers (`()`); setting one changes its type to the handler's.
pub struct DiffViewer<'a, Message, S, U> {
    pub diff: &'a Diff,
    pub on_stage_hunk: Option<S>,
    pub on_unstage_hunk: Option<U>,
    pub message: PhantomData<Message>,
}

impl<'a, Message> DiffViewer<'a, Message, (), ()> {
    /// A viewer of `diff` without hunk buttons.
    pub fn new(diff: &'a Diff) -> (v: Self)
        ensures
            v.diff == diff,
            v.on_stage_hunk is None,
            v.on_unstage_hunk is None,
    {
        DiffViewer { diff, on_stage_hunk: None, on_unstage_hunk: None, message: PhantomData }
    }
}

impl<'a, Message, S, U> DiffViewer<'a, Message, S, U> {
    /// The viewer with stage buttons calling `handler`.
    pub fn with_stage_hunk_handler<H>(self, handler: H) -> (v: DiffViewer<'a, Message, H, U>)
        ensures
            v.diff == self.diff,
            v.on_stage_hunk == Some(handler),
            v.on_unstage_hunk == self.on_unstage_hunk,
    {
        DiffViewer { diff: self.diff, on_stage_hunk: Some(handler), on_unstage_hunk: self.on_unstage_hunk, message: PhantomData }
    }

    /// The viewer with unstage buttons calling `handler`.
    pub fn with_unstage_hunk_handler<H>(self, handler: H) -> (v: DiffViewer<'a, Message, S, H>)
        ensures
            v.diff == self.diff,
            v.on_unstage_hunk == Some(handler),
            v.on_stage_hunk == self.on_stage_hunk,
    {
        DiffViewer { diff: self.diff, on_stage_hunk: self.on_stage_hunk, on_unstage_hunk: Some(handler), message: PhantomData }
    }

    /// Whether there is a diff to show (else the empty state is shown).
    pub fn has_content(&self) -> (b: bool)
        ensures
            b == (self.diff.files@.len() > 0),
    {
        self.diff.files.len() > 0
    }

    /// Whether each file gets its own header (several files are shown).
    pub fn shows_file_headers(&self) -> (b: bool)
        ensures
            b == (self.diff.files@.len() > 1),
    {
        self.diff.files.len() > 1
    }
}

} // verus!

//! Requests and results of background blame computations.
use crate::git::blame::BlameInfo;
use vstd::prelude::*;

verus! {

/// A blame request: the file and the revision to blame it at.
#[derive(Debug, Clone)]
pub struct BlameRequest {
    pub path: String,
    pub rev: String,
}

/// The outcome of a blame request.
#[derive(Debug)]
pub struct BlameResult {
    pub path: String,
    pub rev: String,
    pub result: Result<Vec<BlameInfo>, String>,
}

} // verus!

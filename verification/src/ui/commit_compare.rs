//! State of the commit comparison view.
use crate::git::diff::Diff;
use crate::git::history::HistoryEntry;
use vstd::prelude::*;

verus! {

/// Messages of the comparison view.
#[derive(Debug, Clone)]
pub enum CommitCompareMessage {
    SetLeftCommit(String),
    SetRightCommit(String),
    SwapCommits,
    Compare,
    Refresh,
}

/// State of the comparison view.
#[derive(Debug)]
pub struct CommitCompareState {
    pub entries: Vec<HistoryEntry>,
    pub left_commit: Option<String>,
    pub right_commit: Option<String>,
    pub diff: Option<Diff>,
    pub is_loading: bool,
    pub error: Option<String>,
}

pub open spec fn opt_view(o: Option<String>) -> Option<Seq<char>> {
    match o {
        Some(s) => Some(s@),
        None => None,
    }
}

impl CommitCompareState {
    /// Nothing loaded, nothing selected.
    pub fn new() -> (s: Self)
        ensures
            s.entries@.len() == 0,
            s.left_commit is None,
            s.right_commit is None,
            s.diff is None,
            !s.is_loading,
            s.error is None,
    {
        CommitCompareState {
            entries: Vec::new(),
            left_commit: None,
            right_commit: None,
            diff: None,
            is_loading: false,
            error: None,
        }
    }

    /// Takes the result of loading the recent history: on success the list is
    /// shown and, when it has two commits or more, the newest is selected on
    /// the right and the one before on the left; on failure the error is shown.
    pub fn load_entries(&mut self, history: Result<Vec<HistoryEntry>, String>)
        ensures
            !final(self).is_loading,
            final(self).diff == old(self).diff,
            match history {
                Ok(entries) => {
                    &&& final(self).entries == entries
                    &&& final(self).error == old(self).error
                    &&& if entries@.len() >= 2 {
                        &&& opt_view(final(self).right_commit) == Some(entries@[0].id@)
                        &&& opt_view(final(self).left_commit) == Some(entries@[1].id@)
                    } else {
                        &&& final(self).right_commit == old(self).right_commit
                        &&& final(self).left_commit == old(self).left_commit
                    }
                },
                Err(e) => {
                    &&& final(self).entries == old(self).entries
                    &&& final(self).right_commit == old(self).right_commit
                    &&& final(self).left_commit == old(self).left_commit
                    &&& opt_view(final(self).error) == Some("Failed to load commit history: "@ + e@)
                },
            },
    {
        self.is_loading = true;
        match history {
            Ok(entries) => {
                if entries.len() >= 2 {
                    self.right_commit = Some(entries[0].id.clone());
                    self.left_commit = Some(entries[1].id.clone());
                }
                self.entries = entries;
                self.is_loading = false;
            },
            Err(error) => {
                let mut text = String::from_str("Failed to load commit history: ");
                text.append(error.as_str());
                self.error = Some(text);
                self.is_loading = false;
            },
        }
    }

    /// Selects the left commit and drops the shown comparison.
    pub fn set_left_commit(&mut self, commit_id: String)
        ensures
            final(self).left_commit == Some(commit_id),
            final(self).diff is None,
            final(self).right_commit == old(self).right_commit,
            final(self).entries == old(self).entries,
            final(self).is_loading == old(self).is_loading,
            final(self).error == old(self).error,
    {
        self.left_commit = Some(commit_id);
        self.diff = None;
    }

    /// Selects the right commit and drops the shown comparison.
    pub fn set_right_commit(&mut self, commit_id: String)
        ensures
            final(self).right_commit == Some(commit_id),
            final(self).diff is None,
            final(self).left_commit == old(self).left_commit,
            final(self).entries == old(self).entries,
            final(self).is_loading == old(self).is_loading,
            final(self).error == old(self).error,
    {
        self.right_commit = Some(commit_id);
        self.diff = None;
    }

    /// Exchanges the two selected commits and drops the shown comparison.
    pub fn swap_commits(&mut self)
        ensures
            final(self).left_commit == old(self).right_commit,
            final(self).right_commit == old(self).left_commit,
            final(self).diff is None,
            final(self).entries == old(self).entries,
            final(self).is_loading == old(self).is_loading,
            final(self).error == old(self).error,
    {
        let left = self.left_commit.take();
        let right = self.right_commit.take();
        self.left_commit = right;
        self.right_commit = left;
        self.diff = None;
    }

    /// Starts a comparison: with both commits selected it clears the error,
    /// marks the view as loading and returns the (left, right) pair to diff;
    /// otherwise it shows which selection is missing and returns nothing.
    pub fn compare(&mut self) -> (r: Option<(String, String)>)
        ensures
            final(self).entries == old(self).entries,
            final(self).left_commit == old(self).left_commit,
            final(self).right_commit == old(self).right_commit,
            final(self).diff == old(self).diff,
            match (old(self).left_commit, old(self).right_commit) {
                (Some(l), Some(rc)) => {
                    &&& match r {
                        Some(pair) => pair.0@ == l@ && pair.1@ == rc@,
                        None => false,
                    }
                    &&& final(self).is_loading
                    &&& final(self).error is None
                },
                (None, _) => {
                    &&& r is None
                    &&& opt_view(final(self).error) == Some("Please select a left commit"@)
                    &&& final(self).is_loading == old(self).is_loading
                },
                (Some(_), None) => {
                    &&& r is None
                    &&& opt_view(final(self).error) == Some("Please select a right commit"@)
                    &&& final(self).is_loading == old(self).is_loading
                },
            },
    {
        let left = match &self.left_commit {
            Some(id) => id.clone(),
            None => {
                self.error = Some(String::from_str("Please select a left commit"));
                return None;
            },
        };
        let right = match &self.right_commit {
            Some(id) => id.clone(),
            None => {
                self.error = Some(String::from_str("Please select a right commit"));
                return None;
            },
        };
        self.is_loading = true;
        self.error = None;
        Some((left, right))
    }

    /// Takes the result of diffing the two commits.
    pub fn finish_compare(&mut self, result: Result<Diff, String>)
        ensures
            !final(self).is_loading,
            final(self).entries == old(self).entries,
            final(self).left_commit == old(self).left_commit,
            final(self).right_commit == old(self).right_commit,
            match result {
                Ok(d) => final(self).diff == Some(d) && final(self).error == old(self).error,
                Err(e) => final(self).diff == old(self).diff && opt_view(final(self).error) == Some(
                    "Comparison failed: "@ + e@,
                ),
            },
    {
        match result {
            Ok(diff) => {
                self.diff = Some(diff);
                self.is_loading = false;
            },
            Err(error) => {
                let mut text = String::from_str("Comparison failed: ");
                text.append(error.as_str());
                self.error = Some(text);
                self.is_loading = false;
            },
        }
    }
}

} // verus!

//! Header metadata shown above a file's diff: name, directory, rename hint and
//! change status.
use crate::git::diff::FileDiff;
use crate::path::{display_file_name, display_parent, file_name_or_whole, non_empty_parent};
use crate::text::{push_char, u64_to_decimal, decimal};
use vstd::prelude::*;

verus! {

/// Colour family of a status badge.
#[derive(Debug, Clone, Copy, PartialEq, Eq, Structural)]
pub enum BadgeTone {
    Neutral,
    Accent,
    Success,
    Warning,
    Danger,
    Muted,
}

/// What the header of one file's diff shows.
#[derive(Debug, Clone)]
pub struct DiffFileHeaderMeta {
    pub file_name: String,
    pub parent_path: Option<String>,
    pub rename_hint: Option<String>,
    pub status_label: &'static str,
    pub status_tone: BadgeTone,
}

/// The header metadata together with the `+added / -deleted` summary.
#[derive(Debug, Clone)]
pub struct DiffFileToolbarSummary {
    pub meta: DiffFileHeaderMeta,
    pub change_summary: String,
}

/// The path the header is about: the new path, else the old one, else `Unnamed`.
pub open spec fn header_label(old_path: Option<Seq<char>>, new_path: Option<Seq<char>>) -> Seq<char> {
    match new_path {
        Some(n) => n,
        None => match old_path {
            Some(o) => o,
            None => "Unnamed"@,
        },
    }
}

/// `old -> new` for a rename.
pub open spec fn rename_hint_text(old: Seq<char>, new: Seq<char>) -> Seq<char> {
    old + " -> "@ + new
}

/// The status label and tone for a pair of paths.
pub open spec fn header_status(old_path: Option<Seq<char>>, new_path: Option<Seq<char>>) -> (Seq<char>, BadgeTone) {
    match (old_path, new_path) {
        (None, Some(_)) => ("New File"@, BadgeTone::Success),
        (Some(_), None) => ("Deleted"@, BadgeTone::Danger),
        (Some(o), Some(n)) => if o != n {
            ("Renamed"@, BadgeTone::Accent)
        } else {
            ("Modified"@, BadgeTone::Accent)
        },
        (None, None) => ("Modified"@, BadgeTone::Accent),
    }
}

pub open spec fn opt_view(o: Option<&str>) -> Option<Seq<char>> {
    match o {
        Some(s) => Some(s@),
        None => None,
    }
}

pub open spec fn opt_string_view(o: Option<String>) -> Option<Seq<char>> {
    match o {
        Some(s) => Some(s@),
        None => None,
    }
}

/// `+additions / -deletions`.
pub open spec fn change_summary_text(additions: nat, deletions: nat) -> Seq<char> {
    seq!['+'] + decimal(additions) + " / -"@ + decimal(deletions)
}

impl DiffFileHeaderMeta {
    /// Whether this metadata is what `describe` gives for the two paths.
    pub open spec fn describes(self, old_path: Option<Seq<char>>, new_path: Option<Seq<char>>) -> bool {
        let label = header_label(old_path, new_path);
        &&& self.file_name@ == display_file_name(label)
        &&& opt_string_view(self.parent_path) == display_parent(label)
        &&& opt_string_view(self.rename_hint) == match (old_path, new_path) {
            (Some(o), Some(n)) => if o != n {
                Some(rename_hint_text(o, n))
            } else {
                None
            },
            _ => None,
        }
        &&& self.status_label@ == header_status(old_path, new_path).0
        &&& self.status_tone == header_status(old_path, new_path).1
    }

    /// Header metadata for a change from `old_path` to `new_path`.
    pub fn describe(old_path: Option<&str>, new_path: Option<&str>) -> (meta: Self)
        ensures
            meta.describes(opt_view(old_path), opt_view(new_path)),
    {
        proof {
            reveal_strlit("Unnamed");
            reveal_strlit(" -> ");
        }
        let full_label: &str = match new_path {
            Some(n) => n,
            None => match old_path {
                Some(o) => o,
                None => "Unnamed",
            },
        };
        let file_name = file_name_or_whole(full_label);
        let parent_path = non_empty_parent(full_label);
        let mut rename_hint: Option<String> = None;
        let mut status_label: &'static str = "Modified";
        let mut status_tone = BadgeTone::Accent;
        match (old_path, new_path) {
            (None, Some(_)) => {
                status_label = "New File";
                status_tone = BadgeTone::Success;
            },
            (Some(_), None) => {
                status_label = "Deleted";
                status_tone = BadgeTone::Danger;
            },
            (Some(old), Some(new)) => {
                let differ = !same_str(old, new);
                if differ {
                    let mut hint = String::from_str(old);
                    hint.append(" -> ");
                    hint.append(new);
                    rename_hint = Some(hint);
                    status_label = "Renamed";
                }
            },
            (None, None) => {},
        }
        DiffFileHeaderMeta { file_name, parent_path, rename_hint, status_label, status_tone }
    }

    /// Header metadata for a file's diff.
    pub fn from_file_diff(file_diff: &FileDiff) -> (meta: Self)
        ensures
            meta.describes(opt_string_view(file_diff.old_path), opt_string_view(file_diff.new_path)),
    {
        let old = match &file_diff.old_path {
            Some(p) => Some(p.as_str()),
            None => None,
        };
        let new = match &file_diff.new_path {
            Some(p) => Some(p.as_str()),
            None => None,
        };
        Self::describe(old, new)
    }
}

impl DiffFileToolbarSummary {
    /// Toolbar summary of a file's diff.
    pub fn from_file_diff(file_diff: &FileDiff) -> (s: Self)
        ensures
            s.meta.describes(opt_string_view(file_diff.old_path), opt_string_view(file_diff.new_path)),
            s.change_summary@ == change_summary_text(file_diff.additions as nat, file_diff.deletions as nat),
    {
        let meta = DiffFileHeaderMeta::from_file_diff(file_diff);
        let mut summary = String::new();
        push_char(&mut summary, '+');
        let a = u64_to_decimal(file_diff.additions as u64);
        summary.append(a.as_str());
        proof {
            reveal_strlit(" / -");
        }
        summary.append(" / -");
        let d = u64_to_decimal(file_diff.deletions as u64);
        summary.append(d.as_str());
        DiffFileToolbarSummary { meta, change_summary: summary }
    }
}

/// Whether two strings hold the same characters.
pub fn same_str(a: &str, b: &str) -> (r: bool)
    ensures
        r == (a@ == b@),
{
    let av = crate::text::chars_of(a);
    let bv = crate::text::chars_of(b);
    crate::text::same_chars(&av, &bv)
}

} // verus!

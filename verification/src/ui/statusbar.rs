//! The status bar: repository path, selected file, activity and detail texts.
use crate::text::{char_range, chars_of, push_char, string_from_chars};
use crate::ui::diff_file_header::BadgeTone;
use vstd::prelude::*;

verus! {

/// Number of characters kept before the ellipsis.
pub open spec fn head_len(max: nat) -> nat {
    if max == 0 {
        0
    } else {
        ((max - 1) as nat) / 2
    }
}

/// Number of characters kept after the ellipsis (before separators are cut).
pub open spec fn tail_len(max: nat) -> nat {
    if head_len(max) + 1 >= max {
        0
    } else {
        (max - head_len(max) - 1) as nat
    }
}

/// `s` without its leading `/` and `\` characters.
pub open spec fn trim_leading_separators(s: Seq<char>) -> Seq<char>
    decreases s.len(),
{
    if s.len() > 0 && (s[0] == '/' || s[0] == '\\') {
        trim_leading_separators(s.drop_first())
    } else {
        s
    }
}

/// `value` shortened to `max` characters by replacing its middle with `…`;
/// the kept tail loses any leading path separators.
pub open spec fn spec_truncate_middle(value: Seq<char>, max: nat) -> Seq<char> {
    if value.len() <= max {
        value
    } else {
        value.subrange(0, head_len(max) as int) + seq!['…'] + trim_leading_separators(
            value.subrange(value.len() - tail_len(max), value.len() as int),
        )
    }
}

proof fn lemma_trim_separators_len(s: Seq<char>)
    ensures
        trim_leading_separators(s).len() <= s.len(),
    decreases s.len(),
{
    if s.len() > 0 && (s[0] == '/' || s[0] == '\\') {
        lemma_trim_separators_len(s.drop_first());
    }
}

/// A shortened text never exceeds the limit, for any limit of at least one
/// character.
pub proof fn lemma_truncate_middle_fits(value: Seq<char>, max: nat)
    requires
        max >= 1,
    ensures
        spec_truncate_middle(value, max).len() <= max,
{
    if value.len() > max {
        let t = value.subrange(value.len() - tail_len(max), value.len() as int);
        lemma_trim_separators_len(t);
    }
}

/// Shortens `value` to `max_chars` characters, keeping both ends.
pub fn truncate_middle(value: &str, max_chars: usize) -> (out: String)
    ensures
        out@ == spec_truncate_middle(value@, max_chars as nat),
{
    let v = chars_of(value);
    let n = v.len();
    if n <= max_chars {
        return String::from_str(value);
    }
    let head: usize = if max_chars == 0 {
        0
    } else {
        (max_chars - 1) / 2
    };
    let tail: usize = if head + 1 >= max_chars {
        0
    } else {
        max_chars - (head + 1)
    };
    let prefix = char_range(&v, 0, head);
    let mut start: usize = n - tail;
    assert(v@.subrange(start as int, n as int) == v@.subrange(n - tail_len(max_chars as nat), n as int));
    while start < n && (v[start] == '/' || v[start] == '\\')
        invariant
            n == v@.len(),
            n - tail <= start <= n,
            trim_leading_separators(v@.subrange(n - tail, n as int)) == trim_leading_separators(
                v@.subrange(start as int, n as int),
            ),
        decreases n - start,
    {
        assert(v@.subrange(start as int, n as int).drop_first() == v@.subrange(start + 1, n as int));
        start = start + 1;
    }
    assert(trim_leading_separators(v@.subrange(start as int, n as int)) == v@.subrange(start as int, n as int));
    let suffix = char_range(&v, start, n);
    let mut out = string_from_chars(prefix.as_slice());
    push_char(&mut out, '…');
    let rest = string_from_chars(suffix.as_slice());
    out.append(rest.as_str());
    out
}

/// What the status bar shows.
pub struct StatusBar {
    /// Text shown when no repository is open.
    pub no_repository_label: String,
    /// Caption in front of the selected path.
    pub selected_file_label: String,
    pub repo_path: Option<String>,
    pub workspace_summary: String,
    pub selected_path: Option<String>,
    pub activity_label: String,
    pub activity_tone: BadgeTone,
    pub detail: Option<String>,
}

impl StatusBar {
    /// The repository text: the path (or the no-repository label) shortened
    /// to 32 characters.
    pub fn repo_text(&self) -> (out: String)
        ensures
            out@ == spec_truncate_middle(
                match self.repo_path {
                    Some(p) => p@,
                    None => self.no_repository_label@,
                },
                32,
            ),
    {
        match &self.repo_path {
            Some(p) => truncate_middle(p.as_str(), 32),
            None => truncate_middle(self.no_repository_label.as_str(), 32),
        }
    }

    /// The selected-file text: `label: path` (or `label: -`) shortened to 28
    /// characters.
    pub fn selected_text(&self) -> (out: String)
        ensures
            out@ == spec_truncate_middle(
                self.selected_file_label@ + ": "@ + match self.selected_path {
                    Some(p) => p@,
                    None => "-"@,
                },
                28,
            ),
    {
        let mut text = self.selected_file_label.clone();
        proof {
            reveal_strlit(": ");
            reveal_strlit("-");
        }
        text.append(": ");
        match &self.selected_path {
            Some(p) => text.append(p.as_str()),
            None => text.append("-"),
        }
        truncate_middle(text.as_str(), 28)
    }

    /// The detail text, shortened to 28 characters.
    pub fn detail_text(&self) -> (out: Option<String>)
        ensures
            match self.detail {
                Some(d) => out is Some && out->0@ == spec_truncate_middle(d@, 28),
                None => out is None,
            },
    {
        match &self.detail {
            Some(d) => Some(truncate_middle(d.as_str(), 28)),
            None => None,
        }
    }
}

} // verus!

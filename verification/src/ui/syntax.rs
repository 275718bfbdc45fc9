//! Text preparation for syntax-highlighted diff lines.
use crate::path::{extension_of, path_extension};
use crate::text::{chars_of, push_char};
use vstd::prelude::*;

verus! {

/// `s` with every tab replaced by four spaces.
pub open spec fn expand_tabs(s: Seq<char>) -> Seq<char>
    decreases s.len(),
{
    if s.len() == 0 {
        Seq::empty()
    } else {
        expand_tabs(s.drop_last()) + if s.last() == '\t' {
            seq![' ', ' ', ' ', ' ']
        } else {
            seq![s.last()]
        }
    }
}

/// A line as the highlighter renders it: tabs become four spaces, and an empty
/// line becomes a single space so that it keeps its height.
pub open spec fn spec_sanitize_content(content: Seq<char>) -> Seq<char> {
    if content.len() == 0 {
        seq![' ']
    } else {
        expand_tabs(content)
    }
}

/// Prepares a line for rendering.
pub fn sanitize_content(content: &str) -> (out: String)
    ensures
        out@ == spec_sanitize_content(content@),
{
    let v = chars_of(content);
    let mut out = String::new();
    if v.len() == 0 {
        push_char(&mut out, ' ');
        return out;
    }
    let mut i: usize = 0;
    while i < v.len()
        invariant
            i <= v@.len(),
            v@ == content@,
            out@ == expand_tabs(v@.subrange(0, i as int)),
        decreases v@.len() - i,
    {
        assert(v@.subrange(0, i + 1).drop_last() == v@.subrange(0, i as int));
        if v[i] == '\t' {
            push_char(&mut out, ' ');
            push_char(&mut out, ' ');
            push_char(&mut out, ' ');
            push_char(&mut out, ' ');
        } else {
            push_char(&mut out, v[i]);
        }
        i = i + 1;
    }
    assert(v@.subrange(0, v@.len() as int) == v@);
    out
}

/// ASCII lower case of one character (`char::to_ascii_lowercase`).
pub open spec fn ascii_lower(c: char) -> char {
    if 'A' <= c && c <= 'Z' {
        ((c as u32) + 32) as char
    } else {
        c
    }
}

/// ASCII lower case of a text (`str::to_ascii_lowercase`).
pub open spec fn ascii_lowercase(s: Seq<char>) -> Seq<char> {
    s.map_values(|c: char| ascii_lower(c))
}

/// Lower-cases the ASCII letters of `s`.
pub fn to_ascii_lower(s: &str) -> (out: String)
    ensures
        out@ == ascii_lowercase(s@),
{
    let v = chars_of(s);
    let mut out = String::new();
    let mut i: usize = 0;
    while i < v.len()
        invariant
            i <= v@.len(),
            v@ == s@,
            out@ == ascii_lowercase(v@.subrange(0, i as int)),
        decreases v@.len() - i,
    {
        let c = v[i];
        let l = if 'A' <= c && c <= 'Z' {
            ((c as u32) + 32) as u8 as char
        } else {
            c
        };
        assert(l == ascii_lower(c));
        push_char(&mut out, l);
        i = i + 1;
        assert(out@ == ascii_lowercase(v@.subrange(0, i as int)));
    }
    assert(v@.subrange(0, v@.len() as int) == v@);
    out
}

/// The syntax name used for a file: its extension in lower case, or `txt`.
pub open spec fn spec_syntax_for_path(path_hint: Option<Seq<char>>) -> Seq<char> {
    match path_hint {
        Some(p) => match path_extension(p) {
            Some(e) => ascii_lowercase(e),
            None => "txt"@,
        },
        None => "txt"@,
    }
}

/// Chooses the syntax for a file from its path.
pub fn syntax_for_path(path_hint: Option<&str>) -> (out: String)
    ensures
        out@ == spec_syntax_for_path(
            match path_hint {
                Some(p) => Some(p@),
                None => None,
            },
        ),
{
    match path_hint {
        Some(p) => match extension_of(p) {
            Some(e) => to_ascii_lower(e.as_str()),
            None => String::from_str("txt"),
        },
        None => String::from_str("txt"),
    }
}

} // verus!

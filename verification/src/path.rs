//! File-name and parent-directory splitting of slash-separated paths, as
//! `std::path::Path` performs it.
use vstd::prelude::*;

verus! {

/// What `Path::file_name` gives for `path`, as text (`None` for a path that
/// ends in `..` or is a root or empty).
pub uninterp spec fn path_file_name(path: Seq<char>) -> Option<Seq<char>>;

/// What `Path::parent` gives for `path`, as text (`None` for a root or an
/// empty path).
pub uninterp spec fn path_parent(path: Seq<char>) -> Option<Seq<char>>;

/// `Path::new(path).file_name()`: the last component of `path`, if it is a
/// normal one. The contract claims only that the result is the one
/// `path_file_name` names for `path`; what that is on a given path is left to
/// the standard library.
#[verifier::external_body]
pub(crate) fn file_name_of(path: &str) -> (r: Option<String>)
    ensures
        match r {
            Some(f) => path_file_name(path@) == Some(f@),
            None => path_file_name(path@) is None,
        },
{
    std::path::Path::new(path).file_name().and_then(|v| v.to_str()).map(|v| v.to_string())
}

/// `Path::new(path).parent()`: `path` without its last component. The
/// contract claims only that the result is the one `path_parent` names for
/// `path`.
#[verifier::external_body]
pub(crate) fn parent_of(path: &str) -> (r: Option<String>)
    ensures
        match r {
            Some(p) => path_parent(path@) == Some(p@),
            None => path_parent(path@) is None,
        },
{
    std::path::Path::new(path).parent().and_then(|v| v.to_str()).map(|v| v.to_string())
}

/// What `Path::extension` gives for `path`, as text.
pub uninterp spec fn path_extension(path: Seq<char>) -> Option<Seq<char>>;

/// `Path::new(path).extension()`: the part of the file name after its last
/// `.`, when there is one. The contract claims only that the result is the
/// one `path_extension` names for `path`.
#[verifier::external_body]
pub(crate) fn extension_of(path: &str) -> (r: Option<String>)
    ensures
        match r {
            Some(e) => path_extension(path@) == Some(e@),
            None => path_extension(path@) is None,
        },
{
    std::path::Path::new(path).extension().and_then(|v| v.to_str()).map(|v| v.to_string())
}

/// What `Path::iter` gives for `path`: the text of each of its components,
/// in order. Two paths are equal as `Path`s when these are equal.
pub uninterp spec fn path_component_texts(path: Seq<char>) -> Seq<Seq<char>>;

/// `Path::new(path).iter()`: the components of `path` (`src//a.rs` and
/// `src/a.rs` both give `src`, `a.rs`), each as text. The contract claims only
/// that the result is the one `path_component_texts` names for `path`.
#[verifier::external_body]
pub(crate) fn components_of(path: &str) -> (r: Vec<String>)
    ensures
        r@.map_values(|c: String| c@) == path_component_texts(path@),
{
    std::path::Path::new(path).iter().map(|c| c.to_string_lossy().into_owned()).collect()
}

/// The file name shown for `path`: its last component, or the whole path when
/// it has none.
pub open spec fn display_file_name(path: Seq<char>) -> Seq<char> {
    match path_file_name(path) {
        Some(f) => f,
        None => path,
    }
}

/// The parent directory shown for `path`, when there is a non-empty one.
pub open spec fn display_parent(path: Seq<char>) -> Option<Seq<char>> {
    match path_parent(path) {
        Some(p) => if p.len() > 0 {
            Some(p)
        } else {
            None
        },
        None => None,
    }
}

/// The file name shown for `path`, given what `Path::file_name` gave for it:
/// that name, or the whole path when there is none.
pub fn file_name_or_path(path: &str, file_name: Option<String>) -> (r: String)
    ensures
        r@ == match file_name {
            Some(f) => f@,
            None => path@,
        },
{
    match file_name {
        Some(f) => f,
        None => String::from_str(path),
    }
}

/// The file name of `path`, falling back to `path` itself.
pub fn file_name_or_whole(path: &str) -> (r: String)
    ensures
        r@ == display_file_name(path@),
{
    file_name_or_path(path, file_name_of(path))
}

/// The parent directory shown, given what `Path::parent` gave: kept when it
/// is not empty.
pub fn parent_if_non_empty(parent: Option<String>) -> (r: Option<String>)
    ensures
        match parent {
            Some(p) => if p@.len() > 0 {
                r == Some(p)
            } else {
                r is None
            },
            None => r is None,
        },
{
    match parent {
        Some(p) => {
            if p.as_str().unicode_len() > 0 {
                Some(p)
            } else {
                None
            }
        },
        None => None,
    }
}

/// The non-empty parent directory of `path`.
pub fn non_empty_parent(path: &str) -> (r: Option<String>)
    ensures
        match r {
            Some(p) => display_parent(path@) == Some(p@),
            None => display_parent(path@) is None,
        },
{
    parent_if_non_empty(parent_of(path))
}

} // verus!

//! File-name parts, as `std::path::Path` splits them, and extension tests.
use crate::text::{chars_of, eq_ignore_ascii_case, eq_ignore_case};
use std::path::Path;
use vstd::prelude::*;

verus! {

/// `Path::new(p).extension()`, as text.
pub uninterp spec fn std_path_extension(p: Seq<char>) -> Option<Seq<char>>;

/// `Path::new(p).file_stem()`, as text.
pub uninterp spec fn std_path_file_stem(p: Seq<char>) -> Option<Seq<char>>;

/// `Path::new(p).parent()`, as text.
pub uninterp spec fn std_path_parent(p: Seq<char>) -> Option<Seq<char>>;

/// `Path::new(p).file_name()`, as text.
pub uninterp spec fn std_path_file_name(p: Seq<char>) -> Option<Seq<char>>;

/// `Path::new(dir).join(name)`, as text.
pub uninterp spec fn std_path_join(dir: Seq<char>, name: Seq<char>) -> Seq<char>;

pub open spec fn opt_view(o: Option<String>) -> Option<Seq<char>> {
    match o {
        Some(s) => Some(s@),
        None => None,
    }
}

/// Calls `Path::extension` on `Path::new(p)` (the text after the final `.` of
/// the file name, if any). Claimed: the result is `std_path_extension(p)`.
#[verifier::external_body]
pub(crate) fn path_extension(p: &str) -> (r: Option<String>)
    ensures
        opt_view(r) == std_path_extension(p@),
{
    Path::new(p).extension().and_then(|e| e.to_str()).map(|e| e.to_string())
}

/// Calls `Path::file_stem` on `Path::new(p)`. Claimed: the result is
/// `std_path_file_stem(p)`, and, as the documentation of `file_stem` states
/// (the stem is the part of the file name before its final `.`), when the path
/// has an extension the stem exists and is shorter than the path.
#[verifier::external_body]
pub(crate) fn path_file_stem(p: &str) -> (r: Option<String>)
    ensures
        opt_view(r) == std_path_file_stem(p@),
        std_path_extension(p@) is Some ==> r is Some && r.unwrap()@.len() < p@.len(),
{
    Path::new(p).file_stem().and_then(|e| e.to_str()).map(|e| e.to_string())
}

/// Calls `Path::parent` on `Path::new(p)` (the path without its final
/// component, if it has one). Claimed: the result is `std_path_parent(p)`.
#[verifier::external_body]
pub(crate) fn path_parent(p: &str) -> (r: Option<String>)
    ensures
        opt_view(r) == std_path_parent(p@),
{
    Path::new(p).parent().and_then(|d| d.to_str()).map(|d| d.to_string())
}

/// Calls `Path::file_name` on `Path::new(p)` (the final component, unless
/// it is `..`). Claimed: the result is `std_path_file_name(p)`.
#[verifier::external_body]
pub(crate) fn path_file_name(p: &str) -> (r: Option<String>)
    ensures
        opt_view(r) == std_path_file_name(p@),
{
    Path::new(p).file_name().and_then(|n| n.to_str()).map(|n| n.to_string())
}

/// A single ordinary path component on every platform: not empty, not `.`
/// or `..`, and holding no `/`, `\\` or `:` (so no separator, root or drive
/// prefix).
pub open spec fn is_plain_component(s: Seq<char>) -> bool {
    &&& s.len() > 0
    &&& s != seq!['.']
    &&& s != seq!['.', '.']
    &&& forall|i: int| 0 <= i < s.len() ==> s[i] != '/' && s[i] != '\\' && s[i] != ':'
}

/// A Windows verbatim path (`\\?\...`), which `PathBuf::push` rebuilds from
/// its components.
pub open spec fn is_verbatim_path(p: Seq<char>) -> bool {
    p.len() >= 4 && p.subrange(0, 4) == seq!['\\', '\\', '?', '\\']
}

/// Calls `Path::join` on `Path::new(dir)` with `name` (`name` appended as a
/// further component; an absolute `name` replaces `dir`). Claimed: the text of
/// the result is `std_path_join(dir, name)`; both arguments are text, so the
/// joined path is text too. For a `name` that is one plain component and a
/// `dir` that is not a verbatim path, `PathBuf::push` keeps `dir` as it is and
/// appends `name`, after one separator (`/`, or `\\` on Windows) unless `dir`
/// is empty or already ends with a separator, or is a bare drive (`C:`).
#[verifier::external_body]
pub(crate) fn path_join(dir: &str, name: &str) -> (r: String)
    ensures
        r@ == std_path_join(dir@, name@),
        is_plain_component(name@) && !is_verbatim_path(dir@) ==> {
            ||| r@ == dir@ + name@
            ||| r@ == dir@ + seq!['/'] + name@
            ||| r@ == dir@ + seq!['\\'] + name@
        },
{
    Path::new(dir).join(name).to_string_lossy().into_owned()
}

/// `std::path::is_separator(c)`: whether `c` separates path components on
/// this platform.
pub uninterp spec fn std_is_separator(c: char) -> bool;

/// Calls `std::path::is_separator`. Claimed: the result is
/// `std_is_separator(c)`; `/` is a separator on every platform (the
/// documentation's example), and the only separators are `/` and `\\`.
#[verifier::external_body]
pub(crate) fn is_separator_char(c: char) -> (b: bool)
    ensures
        b == std_is_separator(c),
        c == '/' ==> b,
        b ==> c == '/' || c == '\\',
{
    std::path::is_separator(c)
}

/// The extension of `p` equals `w` up to ASCII case.
pub open spec fn has_extension(p: Seq<char>, w: Seq<char>) -> bool {
    match std_path_extension(p) {
        Some(e) => eq_ignore_ascii_case(e, w),
        None => false,
    }
}

/// Characters of the extension of `p`.
pub fn extension_chars(p: &str) -> (r: Option<Vec<char>>)
    ensures
        match r {
            Some(e) => std_path_extension(p@) == Some(e@),
            None => std_path_extension(p@) is None,
        },
{
    match path_extension(p) {
        Some(e) => Some(chars_of(e.as_str())),
        None => None,
    }
}

pub fn ext_is(ext: &Option<Vec<char>>, w: &[char]) -> (b: bool)
    ensures
        b == match ext {
            Some(e) => eq_ignore_ascii_case(e@, w@),
            None => false,
        },
{
    match ext {
        Some(e) => eq_ignore_case(e.as_slice(), w),
        None => false,
    }
}

} // verus!

//! Path components, as the target platform's `std::path::Path` reads them.
//!
//! Paths are carried as text throughout the library. The questions the
//! library asks of a path (its final component, that component without its
//! extension, its extension, whether it lies under another path, what is left
//! of it there, and how two paths are ordered) are answered by
//! `std::path::Path`. How a path splits into components is named below and
//! depends on the path text alone (for a given build target); stem and
//! extension are stated over the final component, as `Path` documents them.

use vstd::prelude::*;

use crate::text::opt_view;

verus! {

/// `Path::file_name` of `p`, as text.
pub uninterp spec fn path_file_name(p: Seq<char>) -> Option<Seq<char>>;

/// Index of the last `.` in `s` before `k`, if any.
pub open spec fn last_dot_before(s: Seq<char>, k: int) -> Option<int>
    decreases k,
{
    if k <= 0 || k > s.len() {
        None
    } else if s[k - 1] == '.' {
        Some(k - 1)
    } else {
        last_dot_before(s, k - 1)
    }
}

/// Index of the last `.` in `name`, if any.
pub open spec fn last_dot(name: Seq<char>) -> Option<int> {
    last_dot_before(name, name.len() as int)
}

/// `Path::file_stem` of `p`, as its documentation states it: none when there
/// is no file name; the whole file name when it holds no `.`, or only a
/// leading one; otherwise the part before the final `.`.
pub open spec fn path_file_stem(p: Seq<char>) -> Option<Seq<char>> {
    match path_file_name(p) {
        None => None,
        Some(n) => match last_dot(n) {
            Some(k) => if k > 0 {
                Some(n.subrange(0, k))
            } else {
                Some(n)
            },
            None => Some(n),
        },
    }
}

/// `Path::extension` of `p`, as its documentation states it: none when there
/// is no file name, when it holds no `.`, or only a leading one; otherwise
/// the part after the final `.`.
pub open spec fn path_extension(p: Seq<char>) -> Option<Seq<char>> {
    match path_file_name(p) {
        None => None,
        Some(n) => match last_dot(n) {
            Some(k) => if k > 0 {
                Some(n.subrange(k + 1, n.len() as int))
            } else {
                None
            },
            None => None,
        },
    }
}

/// `Path::starts_with` of `p` and `base`: whether `base` is a leading run of
/// whole components of `p`.
pub uninterp spec fn path_starts_with(p: Seq<char>, base: Seq<char>) -> bool;

/// `Path::strip_prefix` of `p` by `base`, as text: what follows `base` in
/// `p`, or `None` when `base` is not a prefix of `p`.
pub uninterp spec fn path_strip_prefix(p: Seq<char>, base: Seq<char>) -> Option<Seq<char>>;

/// Whether `a` comes before `b` in `Path`'s order (`<` on `Path`), which
/// compares the paths component by component.
pub uninterp spec fn path_less(a: Seq<char>, b: Seq<char>) -> bool;

/// The final component of `p` (`Path::file_name` followed by `OsStr::to_str`).
/// The contract claims only that the result is the named value for `p`.
#[verifier::external_body]
pub(crate) fn file_name(p: &str) -> (r: Option<String>)
    ensures
        opt_view(r) == path_file_name(p@),
{
    std::path::Path::new(p).file_name().and_then(|s| s.to_str()).map(|s| s.to_string())
}

/// The final component of `p` without its extension (`Path::file_stem`
/// followed by `OsStr::to_str`). The contract claims what the documentation
/// of `file_stem` states, over the named file name of `p`.
#[verifier::external_body]
pub(crate) fn file_stem(p: &str) -> (r: Option<String>)
    ensures
        opt_view(r) == path_file_stem(p@),
{
    std::path::Path::new(p).file_stem().and_then(|s| s.to_str()).map(|s| s.to_string())
}

/// The extension of `p` (`Path::extension` followed by `OsStr::to_str`). The
/// contract claims what the documentation of `extension` states, over the
/// named file name of `p`.
#[verifier::external_body]
pub(crate) fn extension(p: &str) -> (r: Option<String>)
    ensures
        opt_view(r) == path_extension(p@),
{
    std::path::Path::new(p).extension().and_then(|s| s.to_str()).map(|s| s.to_string())
}

/// Whether `base` is a leading run of whole components of `p`
/// (`Path::starts_with`). The contract claims only that the result is the
/// named value for `p` and `base`.
#[verifier::external_body]
pub(crate) fn starts_with(p: &str, base: &str) -> (r: bool)
    ensures
        r == path_starts_with(p@, base@),
{
    std::path::Path::new(p).starts_with(base)
}

/// What follows `base` in `p` (`Path::strip_prefix` followed by
/// `Path::to_str`); `None` when `base` is not a prefix of `p`. The contract
/// claims only that the result is the named value for `p` and `base`.
#[verifier::external_body]
pub(crate) fn strip_prefix(p: &str, base: &str) -> (r: Option<String>)
    ensures
        opt_view(r) == path_strip_prefix(p@, base@),
{
    std::path::Path::new(p).strip_prefix(base).ok().and_then(|s| s.to_str()).map(|s| s.to_string())
}

/// Whether `a` comes before `b` in `Path`'s order (`<` on two `Path`s). The
/// contract claims only that the result is the named value for `a` and `b`.
#[verifier::external_body]
pub(crate) fn precedes(a: &str, b: &str) -> (r: bool)
    ensures
        r == path_less(a@, b@),
{
    std::path::Path::new(a) < std::path::Path::new(b)
}

} // verus!

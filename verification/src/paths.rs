//! The parts of a file path the library looks at, as `std::path::Path`
//! computes them: the file name is named, and the extension and stem are
//! stated over it as the documentation gives them.

use vstd::prelude::*;

verus! {

/// The final component of `path`, as `Path::file_name` returns it.
pub uninterp spec fn path_file_name(path: Seq<char>) -> Option<Seq<char>>;

/// The position of the last `.` in `name`, or -1 where it has none.
pub open spec fn last_dot(name: Seq<char>) -> int
    decreases name.len(),
{
    if name.len() == 0 {
        -1
    } else if name.last() == '.' {
        name.len() - 1
    } else {
        last_dot(name.drop_last())
    }
}

/// Whether a file name has an extension: it has a `.` that is not its
/// first character.
pub open spec fn has_dotted_extension(name: Seq<char>) -> bool {
    last_dot(name) > 0
}

/// The extension of a file name, as the documentation of
/// `Path::extension` gives it: none where the name has no `.`, or where it
/// begins with `.` and has no other; otherwise what follows the last `.`.
pub open spec fn name_extension(name: Seq<char>) -> Option<Seq<char>> {
    if has_dotted_extension(name) {
        Some(name.skip(last_dot(name) + 1))
    } else {
        None
    }
}

/// The stem of a file name, as the documentation of `Path::file_stem`
/// gives it: the whole name where it has no `.`, or where it begins with
/// `.` and has no other; otherwise what comes before the last `.`.
pub open spec fn name_stem(name: Seq<char>) -> Seq<char> {
    if has_dotted_extension(name) {
        name.take(last_dot(name))
    } else {
        name
    }
}

/// The extension of `path`: that of its file name, none where it has no
/// file name.
pub open spec fn path_extension(path: Seq<char>) -> Option<Seq<char>> {
    match path_file_name(path) {
        Some(name) => name_extension(name),
        None => None,
    }
}

/// The stem of `path`: that of its file name, none where it has no file
/// name.
pub open spec fn path_file_stem(path: Seq<char>) -> Option<Seq<char>> {
    match path_file_name(path) {
        Some(name) => Some(name_stem(name)),
        None => None,
    }
}

/// Calls `std::path::Path::file_name`. Its result is named, not described;
/// the path comes from a `&str`, so the name converts to a `String` without
/// loss.
#[verifier::external_body]
pub(crate) fn file_name(path: &str) -> (res: Option<String>)
    ensures
        match res {
            Some(s) => path_file_name(path@) == Some(s@),
            None => path_file_name(path@) is None,
        },
{
    match std::path::Path::new(path).file_name() {
        Some(name) => Some(name.to_string_lossy().into_owned()),
        None => None,
    }
}

/// Calls `std::path::Path::extension`, whose documentation states the
/// result in terms of the file name (see `path_extension`).
#[verifier::external_body]
pub(crate) fn extension(path: &str) -> (res: Option<String>)
    ensures
        match res {
            Some(s) => path_extension(path@) == Some(s@),
            None => path_extension(path@) is None,
        },
{
    match std::path::Path::new(path).extension() {
        Some(ext) => Some(ext.to_string_lossy().into_owned()),
        None => None,
    }
}

/// Calls `std::path::Path::file_stem`, whose documentation states the
/// result in terms of the file name (see `path_file_stem`).
#[verifier::external_body]
pub(crate) fn file_stem(path: &str) -> (res: Option<String>)
    ensures
        match res {
            Some(s) => path_file_stem(path@) == Some(s@),
            None => path_file_stem(path@) is None,
        },
{
    match std::path::Path::new(path).file_stem() {
        Some(stem) => Some(stem.to_string_lossy().into_owned()),
        None => None,
    }
}

} // verus!

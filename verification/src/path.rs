//! What the scanner reads of a `std::path::Path`: its text and its last
//! component. The three calls into `Path` stand here behind trusted wrappers.
use std::path::Path;
use vstd::prelude::*;

verus! {

#[verifier::external_type_specification]
#[verifier::external_body]
pub struct ExPath(Path);

/// What `Path::to_string_lossy` gives for `path`.
pub uninterp spec fn path_lossy_text(path: &Path) -> Seq<char>;

/// What `Path::file_name` gives for `path`.
pub uninterp spec fn path_file_name(path: &Path) -> Option<&Path>;

/// What `Path::to_str` gives for `path`.
pub uninterp spec fn path_text(path: &Path) -> Option<Seq<char>>;


/// Calls `Path::to_string_lossy`: the path as text, with invalid Unicode
/// replaced. Its result is named, not stated.
#[verifier::external_body]
pub(crate) fn lossy_text(path: &Path) -> (text: String)
    ensures
        text@ == path_lossy_text(path),
{
    path.to_string_lossy().into_owned()
}

/// Calls `Path::file_name`: the last normal component of the path, if any.
/// Its result is named, not stated.
#[verifier::external_body]
pub(crate) fn file_name(path: &Path) -> (name: Option<&Path>)
    ensures
        name == path_file_name(path),
{
    path.file_name().map(Path::new)
}

/// Calls `Path::to_str`: the path as text if it is valid Unicode. Its result
/// is named, not stated.
#[verifier::external_body]
pub(crate) fn to_text(path: &Path) -> (text: Option<&str>)
    ensures
        match path_text(path) {
            Some(t) => text matches Some(s) && s@ == t,
            None => text is None,
        },
{
    path.to_str()
}

} // verus!

//! File system paths, as far as the proxy puts them together.
use std::path::PathBuf;
use vstd::prelude::*;

verus! {

/// A path as std holds it.
#[verifier::external_type_specification]
#[verifier::external_body]
pub struct ExPathBuf(PathBuf);

/// The components of a path, from its start to its end.
pub uninterp spec fn path_components(path: PathBuf) -> Seq<Seq<char>>;

/// A path as it was written.
pub uninterp spec fn path_text(path: PathBuf) -> Seq<char>;

/// Whether a text is the name of an entry of a directory: one component that
/// goes neither up nor elsewhere.
pub open spec fn entry_name(name: Seq<char>) -> bool {
    &&& name.len() > 0
    &&& !name.contains('/')
    &&& !name.contains('\\')
    &&& !name.contains(':')
    &&& name != seq!['.']
    &&& name != seq!['.', '.']
}

/// `Path::join` with the name of an entry: the entry's path is the directory's
/// with one more component.
#[verifier::external_body]
pub(crate) fn join_path(dir: &PathBuf, name: &str) -> (r: PathBuf)
    requires
        entry_name(name@),
    ensures
        path_components(r) == path_components(*dir).push(name@),
{
    dir.join(name)
}

/// `PathBuf::from` of a text: the path that is written so.
#[verifier::external_body]
pub(crate) fn path_from(text: &str) -> (r: PathBuf)
    ensures
        path_text(r) == text@,
{
    PathBuf::from(text)
}

/// How a path is shown in messages.
pub uninterp spec fn shown_path(path: PathBuf) -> Seq<char>;

/// The `Debug` form of a path: the text is named after the path.
#[verifier::external_body]
pub(crate) fn show_path(path: &PathBuf) -> (r: String)
    ensures
        r@ == shown_path(*path),
{
    format!("{:?}", path)
}

/// `PathBuf::clone`: the same path.
pub assume_specification[ <PathBuf as Clone>::clone ](path: &PathBuf) -> (r: PathBuf)
    ensures
        r == *path,
;

} // verus!

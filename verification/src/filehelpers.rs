//! Functions that help in iterating files and folders, in their plain form:
//! one listing of files and one of folders, each with a switch for going
//! into subfolders, and a test for ancestors over whole paths.

use crate::sync::{is_fresh, needs_creation};
use crate::util::{iteritems, FtIterItemState, PathKind, Walker};
use crate::{chars_of, contains_text, matches_at, occurs_at};
use vstd::prelude::*;

verus! {

/// `directory` is `path` itself or one of the directories above it. Both are
/// whole paths in their resolved form: from the root, without `.`, `..`,
/// doubled separators or a separator at the end. Then `directory` is above
/// `path` where `path` begins with it and goes on, if it goes on, with a new
/// component.
pub open spec fn is_ancestor(path: Seq<char>, directory: Seq<char>) -> bool {
    &&& directory.len() > 0
    &&& occurs_at(path, directory, 0)
    &&& (directory.len() == path.len() || path[directory.len() as int] == '/' || directory.last()
        == '/')
}

/// Decides on a request for a single directory at a path where `found` was
/// found: it has to be made only where nothing is there.
pub fn ensure_dir(found: PathKind) -> (create: bool)
    ensures
        create == needs_creation(found),
{
    found == PathKind::Missing
}

/// Determines if `path` lies in `directory` or is `directory` itself.
///
/// Both are taken in their resolved form, as whole paths from the root. This
/// is a test for ancestors, unlike the test for a component of
/// [`crate::is_subdir`].
pub fn is_subdir(path: &str, directory: &str) -> (inside: bool)
    ensures
        inside == is_ancestor(path@, directory@),
{
    let text = chars_of(path);
    let above = chars_of(directory);
    if above.len() == 0 || above.len() > text.len() {
        return false;
    }
    if !matches_at(&text, &above, 0) {
        return false;
    }
    above.len() == text.len() || text[above.len()] == '/' || above[above.len() - 1] == '/'
}

/// Determines if a path contains a search string.
pub fn path_contains(path: &str, search_str: &str) -> (found: bool)
    ensures
        found == contains_text(path@, search_str@),
{
    crate::path_contains(path, search_str)
}

/// Lists all files in a directory. If `recursive` is set, the files of all
/// subfolders are listed too, each subfolder's files in the place of the
/// subfolder.
pub fn list_files(recursive: bool) -> (walker: Walker)
    ensures
        is_fresh(
            walker,
            if recursive {
                FtIterItemState::FileRec
            } else {
                FtIterItemState::FileNoRec
            },
            None,
        ),
{
    if recursive {
        iteritems(FtIterItemState::FileRec, None)
    } else {
        iteritems(FtIterItemState::FileNoRec, None)
    }
}

/// Lists all folders in a directory. If `recursive` is set, the folders of
/// all subfolders are listed too, each right after the folder they lie in.
pub fn list_folders(recursive: bool) -> (walker: Walker)
    ensures
        is_fresh(
            walker,
            if recursive {
                FtIterItemState::DirRec
            } else {
                FtIterItemState::DirNoRec
            },
            None,
        ),
{
    if recursive {
        iteritems(FtIterItemState::DirRec, None)
    } else {
        iteritems(FtIterItemState::DirNoRec, None)
    }
}

} // verus!

//! The operations of the crate, each as the decision it makes.
//!
//! A creation answers with the directories that it asks for, in the order in
//! which they are to be made. A listing looks at what was found at its root
//! and, if that is a directory, answers with the [`Walker`] that collects
//! its entries.
//!
//! [`Walker`]: crate::util::Walker

use crate::naming::{generate_n_digit_name, zero_padded};
use crate::util::{iteritems, texts, EntryView, FtIterItemState, PathKind, Walker};
use crate::{join_path, joined, FtFilter};
use vstd::prelude::*;

verus! {

/// Why a listing did not start.
#[derive(Debug, Clone, Copy, PartialEq, Eq, Structural)]
pub enum FtError {
    /// Nothing was found at the root.
    PathMissing,
    /// What was found at the root is no directory.
    NotADirectory,
}

impl FtError {
    /// The error in words.
    pub fn message(&self) -> (text: String)
        ensures
            text@ == match *self {
                FtError::PathMissing => "path does not exist"@,
                FtError::NotADirectory => "path should be a directory, not a file"@,
            },
    {
        match self {
            FtError::PathMissing => String::from_str("path does not exist"),
            FtError::NotADirectory => String::from_str("path should be a directory, not a file"),
        }
    }
}

/// Whether a directory has to be made where `found` was found: only where
/// nothing is there. The test is one of existence, not of kind.
pub open spec fn needs_creation(found: PathKind) -> bool {
    found == PathKind::Missing
}

/// What is found at a path once a request for a directory there has been
/// carried out: the new directory where there was nothing, else what was
/// there before.
pub open spec fn after_ensure(found: PathKind) -> PathKind {
    if needs_creation(found) {
        PathKind::Directory
    } else {
        found
    }
}

/// What stands in the way of a listing at a root where `root` was found.
pub open spec fn root_error(root: PathKind) -> Option<FtError> {
    match root {
        PathKind::Missing => Some(FtError::PathMissing),
        PathKind::Directory => None,
        _ => Some(FtError::NotADirectory),
    }
}

/// `walker` is a listing in `mode` with `filter` that has not been handed
/// anything yet.
pub open spec fn is_fresh(walker: Walker, mode: FtIterItemState, filter: Option<FtFilter>) -> bool {
    &&& walker.mode() == mode
    &&& walker.filter() == filter
    &&& walker.queue() == Seq::<EntryView>::empty()
    &&& walker.found() == Seq::<Seq<char>>::empty()
}

/// `started` is the answer of a listing in `mode` with `filter` to what was
/// found at its root: a fresh walk over a directory, the error for anything
/// else.
pub open spec fn starts(
    started: Result<Walker, FtError>,
    root: PathKind,
    mode: FtIterItemState,
    filter: Option<FtFilter>,
) -> bool {
    match started {
        Ok(walker) => root_error(root) is None && is_fresh(walker, mode, filter),
        Err(error) => root_error(root) == Some(error),
    }
}

/// The directories that a request for the numbers from `start` up to, and
/// without, `end` asks for under `root`.
pub open spec fn numeric_directories(root: Seq<char>, start: nat, end: nat, fill: nat) -> Seq<
    Seq<char>,
> {
    Seq::new(
        if end >= start {
            (end - start) as nat
        } else {
            0
        },
        |k: int| joined(root, zero_padded((start + k) as nat, fill)),
    )
}

/// Decides on a request for a directory at a path where `found` was found.
///
/// The answer is whether the directory, and every ancestor of it that is
/// missing, has to be made. If anything is at the path already, nothing is
/// done, whatever it is.
pub fn ensure_directory(found: PathKind) -> (create: bool)
    ensures
        create == needs_creation(found),
{
    found == PathKind::Missing
}

/// The directories to make for a range of numeric folders in `path`: one
/// for each number from `start` up to, and without, `end`, named by the
/// number filled with zeros up to `fill` digits, in rising order.
///
/// They are made one after the other. Where one cannot be made, the ones
/// after it are not tried and the ones before it stay.
pub fn create_numeric_directories(path: &str, start: usize, end: usize, fill: usize) -> (targets:
    Vec<String>)
    ensures
        texts(targets@) == numeric_directories(
            path@,
            start as nat,
            end as nat,
            fill as nat,
        ),
{
    let mut targets: Vec<String> = Vec::new();
    let mut number: usize = start;
    while number < end
        invariant
            start <= number,
            start <= end ==> number <= end,
            start > end ==> number == start,
            texts(targets@) == numeric_directories(
                path@,
                start as nat,
                number as nat,
                fill as nat,
            ),
        decreases end - number,
    {
        let ghost before = targets@;
        let name = generate_n_digit_name(number, fill, "");
        proof {
            reveal_strlit("");
            assert(name@ =~= zero_padded(number as nat, fill as nat));
        }
        let target = join_path(path, name.as_str());
        targets.push(target);
        proof {
            let old_plan = numeric_directories(path@, start as nat, number as nat, fill as nat);
            let new_plan = numeric_directories(
                path@,
                start as nat,
                (number + 1) as nat,
                fill as nat,
            );
            assert(texts(targets@) =~= texts(before).push(target@));
            assert(new_plan =~= old_plan.push(target@));
        }
        number += 1;
    }
    proof {
        assert(texts(targets@) =~= numeric_directories(
            path@,
            start as nat,
            end as nat,
            fill as nat,
        ));
    }
    targets
}

/// The directories to make inside `path`: one for each of `directories`, in
/// their order.
///
/// They are made one after the other. Where one cannot be made, the ones
/// after it are not tried and the ones before it stay.
pub fn create_multiple_directories(path: &str, directories: &Vec<String>) -> (targets: Vec<String>)
    ensures
        targets@.len() == directories@.len(),
        forall|i: int|
            0 <= i < directories@.len() ==> (#[trigger] targets@[i])@ == joined(
                path@,
                directories@[i]@,
            ),
{
    let mut targets: Vec<String> = Vec::new();
    let mut at: usize = 0;
    while at < directories.len()
        invariant
            at <= directories@.len(),
            targets@.len() == at,
            forall|i: int|
                0 <= i < at ==> (#[trigger] targets@[i])@ == joined(path@, directories@[i]@),
        decreases directories.len() - at,
    {
        targets.push(join_path(path, directories[at].as_str()));
        at += 1;
    }
    targets
}

/// Looks at the root of a listing and starts the walk over a directory.
fn start_listing(root: PathKind, mode: FtIterItemState, filter: Option<FtFilter>) -> (started:
    Result<Walker, FtError>)
    ensures
        starts(started, root, mode, filter),
{
    match root {
        PathKind::Missing => Err(FtError::PathMissing),
        PathKind::Directory => Ok(iteritems(mode, filter)),
        _ => Err(FtError::NotADirectory),
    }
}

/// Lists all files in a directory, not including subdirectories.
///
/// # Errors
///
/// * `PathMissing` if nothing was found at the root
/// * `NotADirectory` if the root is a file or anything else but a directory
pub fn list_files(root: PathKind) -> (started: Result<Walker, FtError>)
    ensures
        starts(started, root, FtIterItemState::FileNoRec, None),
{
    start_listing(root, FtIterItemState::FileNoRec, None)
}

/// Lists all files in a directory including all subdirectories.
///
/// # Errors
///
/// * `PathMissing` if nothing was found at the root
/// * `NotADirectory` if the root is a file or anything else but a directory
pub fn list_nested_files(root: PathKind) -> (started: Result<Walker, FtError>)
    ensures
        starts(started, root, FtIterItemState::FileRec, None),
{
    start_listing(root, FtIterItemState::FileRec, None)
}

/// Lists the files in a directory, not including subdirectories, that a
/// filter keeps.
///
/// # Errors
///
/// * `PathMissing` if nothing was found at the root
/// * `NotADirectory` if the root is a file or anything else but a directory
pub fn list_files_with_filter(root: PathKind, filter: FtFilter) -> (started: Result<
    Walker,
    FtError,
>)
    ensures
        starts(started, root, FtIterItemState::FileNoRec, Some(filter)),
{
    start_listing(root, FtIterItemState::FileNoRec, Some(filter))
}

/// Lists the files in a directory and in all its subdirectories that a
/// filter keeps.
///
/// # Errors
///
/// * `PathMissing` if nothing was found at the root
/// * `NotADirectory` if the root is a file or anything else but a directory
pub fn list_nested_files_with_filter(root: PathKind, filter: FtFilter) -> (started: Result<
    Walker,
    FtError,
>)
    ensures
        starts(started, root, FtIterItemState::FileRec, Some(filter)),
{
    start_listing(root, FtIterItemState::FileRec, Some(filter))
}

/// Lists all directories in a directory, not including subdirectories.
///
/// # Errors
///
/// * `PathMissing` if nothing was found at the root
/// * `NotADirectory` if the root is a file or anything else but a directory
pub fn list_directories(root: PathKind) -> (started: Result<Walker, FtError>)
    ensures
        starts(started, root, FtIterItemState::DirNoRec, None),
{
    start_listing(root, FtIterItemState::DirNoRec, None)
}

/// Lists all directories in a directory including all subdirectories.
///
/// The root has to be a directory here as for every other listing.
///
/// # Errors
///
/// * `PathMissing` if nothing was found at the root
/// * `NotADirectory` if the root is a file or anything else but a directory
pub fn list_nested_directories(root: PathKind) -> (started: Result<Walker, FtError>)
    ensures
        starts(started, root, FtIterItemState::DirRec, None),
{
    start_listing(root, FtIterItemState::DirRec, None)
}

/// Lists the directories in a directory, not including subdirectories, that
/// a filter keeps.
///
/// # Errors
///
/// * `PathMissing` if nothing was found at the root
/// * `NotADirectory` if the root is a file or anything else but a directory
pub fn list_directories_with_filter(root: PathKind, filter: FtFilter) -> (started: Result<
    Walker,
    FtError,
>)
    ensures
        starts(started, root, FtIterItemState::DirNoRec, Some(filter)),
{
    start_listing(root, FtIterItemState::DirNoRec, Some(filter))
}

/// Lists the directories in a directory and in all its subdirectories that
/// a filter keeps. A directory that the filter drops is read all the same:
/// the filter narrows the list, not the walk.
///
/// # Errors
///
/// * `PathMissing` if nothing was found at the root
/// * `NotADirectory` if the root is a file or anything else but a directory
pub fn list_nested_directories_with_filter(root: PathKind, filter: FtFilter) -> (started: Result<
    Walker,
    FtError,
>)
    ensures
        starts(started, root, FtIterItemState::DirRec, Some(filter)),
{
    start_listing(root, FtIterItemState::DirRec, Some(filter))
}

/// A request for a directory that has been carried out asks for nothing when
/// it is made again: the directory is there, and a second request neither
/// makes anything nor can fail in making it.
pub proof fn lemma_ensure_directory_idempotent(found: PathKind)
    ensures
        after_ensure(found) != PathKind::Missing,
        !needs_creation(after_ensure(found)),
        after_ensure(after_ensure(found)) == after_ensure(found),
{
}

/// No listing starts at a root where nothing was found: whatever its mode
/// and its filter, its answer is the error `PathMissing`.
pub proof fn lemma_missing_root_fails(
    started: Result<Walker, FtError>,
    mode: FtIterItemState,
    filter: Option<FtFilter>,
)
    requires
        starts(started, PathKind::Missing, mode, filter),
    ensures
        started matches Err(error) && error == FtError::PathMissing,
{
}

} // verus!

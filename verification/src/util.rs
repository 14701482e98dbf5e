//! The walk over directories that the listing functions share.
//!
//! A [`Walker`] decides; its caller reads. The caller reads the directory it
//! was asked for and feeds the entries to the walker, which collects the ones
//! that its mode and filter keep and answers with the next directory to
//! read, until none is left:
//!
//! ```ignore
//! let mut walker = list_nested_files(look(&root))?;
//! let mut next = Some(root);
//! while let Some(dir) = next {
//!     next = walker.feed(read(&dir)?);
//! }
//! let files = walker.into_items();
//! ```
//!
//! A read that fails ends the walk: the caller drops the walker, and what it
//! had collected with it.

use crate::filehelpers::{is_ancestor, is_subdir};
use crate::sync::create_multiple_directories;
use crate::{contains_text, join_path, joined, path_contains, regex_matches, FtFilter};
use vstd::prelude::*;

verus! {

/// What a listing collects, and whether it goes into subdirectories.
#[derive(Debug, Clone, Copy, PartialEq, Eq, Structural)]
pub enum FtIterItemState {
    /// Files of one directory.
    FileNoRec,
    /// Files of a directory and of every directory below it.
    FileRec,
    /// Directories of one directory.
    DirNoRec,
    /// Directories of a directory and of every directory below it.
    DirRec,
}

/// What was found at a path.
#[derive(Debug, Clone, Copy, PartialEq, Eq, Structural)]
pub enum PathKind {
    /// Nothing is there.
    Missing,
    /// A file.
    File,
    /// A directory.
    Directory,
    /// Something that is neither a file nor a directory.
    Other,
}

/// One child of a directory, as a single read of that directory reports it.
#[derive(Debug)]
pub struct Entry {
    /// The path of the entry, the directory's own path included.
    pub path: String,
    /// What a look at the path found.
    pub kind: PathKind,
    /// Whether `path` is the path to the letter. A path that cannot be
    /// written as text is handed over in a form that stands for it; there is
    /// no text to hold against a filter then, and the entry passes none.
    pub is_text: bool,
}

/// An [`Entry`] as contracts speak of it.
pub struct EntryView {
    pub path: Seq<char>,
    pub kind: PathKind,
    pub is_text: bool,
}

impl View for Entry {
    type V = EntryView;

    open spec fn view(&self) -> EntryView {
        EntryView { path: self.path@, kind: self.kind, is_text: self.is_text }
    }
}

/// The entries of a listing as contracts speak of them.
pub open spec fn views(entries: Seq<Entry>) -> Seq<EntryView> {
    entries.map_values(|e: Entry| e@)
}

/// The texts of a list of paths.
pub open spec fn texts(paths: Seq<String>) -> Seq<Seq<char>> {
    paths.map_values(|p: String| p@)
}

/// The text of a path that may be absent.
pub open spec fn text_of(path: Option<String>) -> Option<Seq<char>> {
    match path {
        Some(p) => Some(p@),
        None => None,
    }
}

/// Whether `filter` keeps `path`: the two text filters ask for their text
/// as a part of the path, the third asks the expression.
pub open spec fn filter_matches(path: Seq<char>, filter: FtFilter) -> bool {
    match filter {
        FtFilter::Raw(raw) => contains_text(path, raw@),
        FtFilter::Path(piece) => contains_text(path, piece@),
        FtFilter::Regex(re) => regex_matches(re, path),
    }
}

/// Whether `entry` passes a filter that may be absent. Without one every
/// entry passes; with one, those whose path is text that the filter keeps.
pub open spec fn passes(entry: EntryView, filter: Option<FtFilter>) -> bool {
    match filter {
        Some(f) => entry.is_text && filter_matches(entry.path, f),
        None => true,
    }
}

/// Whether a listing in `mode` collects an entry of this kind at all.
pub open spec fn wanted(mode: FtIterItemState, kind: PathKind) -> bool {
    match mode {
        FtIterItemState::FileNoRec | FtIterItemState::FileRec => kind == PathKind::File,
        FtIterItemState::DirNoRec | FtIterItemState::DirRec => kind == PathKind::Directory,
    }
}

/// Whether a listing in `mode` with `filter` collects `entry`.
pub open spec fn collects(mode: FtIterItemState, filter: Option<FtFilter>, entry: EntryView) -> bool {
    wanted(mode, entry.kind) && passes(entry, filter)
}

/// Whether a listing in `mode` goes into subdirectories.
pub open spec fn recursive(mode: FtIterItemState) -> bool {
    mode == FtIterItemState::FileRec || mode == FtIterItemState::DirRec
}

/// Whether a listing in `mode` reads the directory behind `entry`. The filter
/// has no say in it: it narrows what is collected, never where the walk goes.
pub open spec fn descends(mode: FtIterItemState, entry: EntryView) -> bool {
    recursive(mode) && entry.kind == PathKind::Directory
}

/// The paths of the entries of `entries` that a listing collects, in order.
pub open spec fn collected(
    mode: FtIterItemState,
    filter: Option<FtFilter>,
    entries: Seq<EntryView>,
) -> Seq<Seq<char>> {
    entries.filter(|e: EntryView| collects(mode, filter, e)).map_values(|e: EntryView| e.path)
}

/// The position in `queue` of the first entry that the walk descends into,
/// or the length of `queue` where there is none.
pub open spec fn first_descent(mode: FtIterItemState, queue: Seq<EntryView>) -> int
    decreases queue.len(),
{
    if queue.len() == 0 {
        0
    } else if descends(mode, queue[0]) {
        0
    } else {
        1 + first_descent(mode, queue.skip(1))
    }
}

/// Helper function to determine if a path is kept by the supplied filter.
pub fn matches_filter(item: &str, filter: &FtFilter) -> (pass: bool)
    ensures
        pass == filter_matches(item@, *filter),
{
    match filter {
        FtFilter::Raw(raw) => path_contains(item, raw.as_str()),
        FtFilter::Path(piece) => path_contains(item, piece.as_str()),
        FtFilter::Regex(re) => re.is_match(item),
    }
}

/// Where a walk stands after one step.
pub struct WalkState {
    /// The entries that are still to be visited, the next one first.
    pub queue: Seq<EntryView>,
    /// The paths collected so far, in the order in which they were met.
    pub found: Seq<Seq<char>>,
    /// The directory whose entries the walk asks for, if it asks for one.
    pub next: Option<Seq<char>>,
}

/// One step of a walk: the entries of `queue` are visited in order, up to and
/// with the first one that the walk descends into. The visited entries that
/// the listing keeps join `found`; the walk asks for the directory it
/// descends into, or for nothing when the queue ran out.
pub open spec fn advance(
    mode: FtIterItemState,
    filter: Option<FtFilter>,
    queue: Seq<EntryView>,
    found: Seq<Seq<char>>,
) -> WalkState {
    let k = first_descent(mode, queue);
    if k < queue.len() {
        WalkState {
            queue: queue.skip(k + 1),
            found: found + collected(mode, filter, queue.take(k + 1)),
            next: Some(queue[k].path),
        }
    } else {
        WalkState { queue: Seq::empty(), found: found + collected(mode, filter, queue), next: None }
    }
}

/// `first_descent` is the one position before which the walk descends into no
/// entry and at which, unless it is the end of the queue, it does.
pub proof fn lemma_first_descent(mode: FtIterItemState, queue: Seq<EntryView>, k: int)
    requires
        0 <= k <= queue.len(),
        forall|i: int| 0 <= i < k ==> !descends(mode, #[trigger] queue[i]),
        k < queue.len() ==> descends(mode, queue[k]),
    ensures
        first_descent(mode, queue) == k,
    decreases queue.len(),
{
    if queue.len() > 0 && k > 0 {
        assert(!descends(mode, queue[0]));
        let rest = queue.skip(1);
        assert forall|i: int| 0 <= i < k - 1 implies !descends(mode, #[trigger] rest[i]) by {
            assert(rest[i] == queue[i + 1]);
        }
        lemma_first_descent(mode, rest, k - 1);
    }
}

/// What one more entry adds to the collected paths.
pub proof fn lemma_collected_push(
    mode: FtIterItemState,
    filter: Option<FtFilter>,
    entries: Seq<EntryView>,
    entry: EntryView,
)
    ensures
        collected(mode, filter, entries.push(entry)) == if collects(mode, filter, entry) {
            collected(mode, filter, entries).push(entry.path)
        } else {
            collected(mode, filter, entries)
        },
{
    let pred = |e: EntryView| collects(mode, filter, e);
    let path = |e: EntryView| e.path;
    entries.lemma_filter_push(entry, pred);
    if collects(mode, filter, entry) {
        assert(entries.filter(pred).push(entry).map_values(path) =~= entries.filter(
            pred,
        ).map_values(path).push(entry.path));
    }
}

/// A listing in progress: the mode and filter it was started with, the
/// entries it has been given and not yet visited, and the paths it has
/// collected.
#[derive(Debug)]
pub struct Walker {
    mode: FtIterItemState,
    filter: Option<FtFilter>,
    pending: Vec<Entry>,
    items: Vec<String>,
}

impl Walker {
    /// The mode the walk was started with.
    pub closed spec fn mode(&self) -> FtIterItemState {
        self.mode
    }

    /// The filter the walk was started with.
    pub closed spec fn filter(&self) -> Option<FtFilter> {
        self.filter
    }

    /// The entries that are still to be visited, the next one first.
    pub closed spec fn queue(&self) -> Seq<EntryView> {
        Seq::new(self.pending@.len(), |i: int| self.pending@[self.pending@.len() - 1 - i]@)
    }

    /// The paths collected so far.
    pub closed spec fn found(&self) -> Seq<Seq<char>> {
        texts(self.items@)
    }

    /// Hands the walk the entries of the directory it asked for, in the
    /// order in which they were read; the first call hands it those of the
    /// root. They are visited before anything that was still waiting. The
    /// answer is the next directory to read, or `None` when the walk is over.
    pub fn feed(&mut self, entries: Vec<Entry>) -> (next: Option<String>)
        ensures
            final(self).mode() == old(self).mode(),
            final(self).filter() == old(self).filter(),
            (WalkState {
                queue: final(self).queue(),
                found: final(self).found(),
                next: text_of(next),
            }) == advance(
                old(self).mode(),
                old(self).filter(),
                views(entries@) + old(self).queue(),
                old(self).found(),
            ),
    {
        let mut entries = entries;
        let ghost listing = views(entries@);
        let ghost waiting = self.queue();
        while entries.len() > 0
            invariant
                self.mode == old(self).mode,
                self.filter == old(self).filter,
                self.items == old(self).items,
                entries@.len() <= listing.len(),
                views(entries@) == listing.take(entries@.len() as int),
                self.queue() == listing.skip(entries@.len() as int) + waiting,
            decreases entries.len(),
        {
            let ghost before = self.queue();
            let ghost shorter = entries@.len() - 1;
            let ghost longer = views(entries@);
            let entry = entries.pop().unwrap();
            self.pending.push(entry);
            proof {
                assert(entry@ == longer[shorter]);
                assert(longer[shorter] == listing[shorter]);
                assert(views(entries@) =~= listing.take(shorter));
                assert(self.queue() =~= seq![entry@] + before);
                assert(self.queue() =~= listing.skip(shorter) + waiting);
            }
        }
        assert(self.queue() =~= listing + waiting);
        self.visit()
    }

    /// Visits the waiting entries until one asks for a directory to be read.
    fn visit(&mut self) -> (next: Option<String>)
        ensures
            final(self).mode() == old(self).mode(),
            final(self).filter() == old(self).filter(),
            (WalkState {
                queue: final(self).queue(),
                found: final(self).found(),
                next: text_of(next),
            }) == advance(old(self).mode(), old(self).filter(), old(self).queue(), old(self).found()),
    {
        let ghost queue = self.queue();
        let ghost found = self.found();
        let ghost mode = self.mode;
        let ghost filter = self.filter;
        let ghost mut done: int = 0;
        proof {
            assert(queue.take(0) =~= Seq::<EntryView>::empty());
            assert(found + collected(mode, filter, queue.take(0)) =~= found);
            assert(queue.skip(0) =~= queue);
        }
        while self.pending.len() > 0
            invariant
                self.mode == mode,
                self.filter == filter,
                mode == old(self).mode(),
                filter == old(self).filter(),
                queue == old(self).queue(),
                found == old(self).found(),
                0 <= done <= queue.len(),
                self.queue() == queue.skip(done),
                self.found() == found + collected(mode, filter, queue.take(done)),
                forall|i: int| 0 <= i < done ==> !descends(mode, #[trigger] queue[i]),
            decreases self.pending.len(),
        {
            let ghost before = self.queue();
            let entry = self.pending.pop().unwrap();
            proof {
                assert(before.len() > 0);
                assert(entry@ == before[0]);
                assert(entry@ == queue[done]);
                assert(self.queue() =~= before.skip(1));
                assert(self.queue() =~= queue.skip(done + 1));
                assert(queue.take(done + 1) =~= queue.take(done).push(entry@));
                lemma_collected_push(mode, filter, queue.take(done), entry@);
            }
            let pass = match &self.filter {
                Some(f) => entry.is_text && matches_filter(entry.path.as_str(), f),
                None => true,
            };
            let recursive = match self.mode {
                FtIterItemState::FileRec | FtIterItemState::DirRec => true,
                _ => false,
            };
            let keep = pass && match self.mode {
                FtIterItemState::FileNoRec | FtIterItemState::FileRec => entry.kind
                    == PathKind::File,
                FtIterItemState::DirNoRec | FtIterItemState::DirRec => entry.kind
                    == PathKind::Directory,
            };
            let descend = recursive && entry.kind == PathKind::Directory;
            assert(keep == collects(mode, filter, entry@));
            assert(descend == descends(mode, entry@));
            if keep {
                let ghost items = self.items@;
                self.items.push(entry.path.clone());
                assert(texts(self.items@) =~= texts(items).push(entry.path@));
            }
            if descend {
                proof {
                    lemma_first_descent(mode, queue, done);
                }
                return Some(entry.path);
            }
            proof {
                done = done + 1;
            }
        }
        proof {
            assert(self.queue().len() == 0);
            assert(done == queue.len());
            lemma_first_descent(mode, queue, done);
            assert(queue.take(done) =~= queue);
            assert(self.queue() =~= Seq::<EntryView>::empty());
        }
        None
    }

    /// The number of entries that are still to be visited.
    pub fn waiting(&self) -> (count: usize)
        ensures
            count == self.queue().len(),
    {
        self.pending.len()
    }

    /// Ends the walk and hands out the paths it collected, in the order in
    /// which they were met.
    pub fn into_items(self) -> (items: Vec<String>)
        ensures
            texts(items@) == self.found(),
    {
        self.items
    }
}

/// Starts a listing in the given mode, with or without a filter. Nothing has
/// been read yet: the walk waits for the entries of its root.
pub fn iteritems(iterstate: FtIterItemState, filter: Option<FtFilter>) -> (walker: Walker)
    ensures
        walker.mode() == iterstate,
        walker.filter() == filter,
        walker.queue() == Seq::<EntryView>::empty(),
        walker.found() == Seq::<Seq<char>>::empty(),
{
    let walker = Walker { mode: iterstate, filter, pending: Vec::new(), items: Vec::new() };
    assert(walker.queue() =~= Seq::<EntryView>::empty());
    assert(walker.found() =~= Seq::<Seq<char>>::empty());
    walker
}

/// The path at the end of a chain of folders, each inside the one before
/// it, the first inside `base`.
pub open spec fn nested(base: Seq<char>, chain: Seq<Seq<char>>) -> Seq<char>
    decreases chain.len(),
{
    if chain.len() == 0 {
        base
    } else {
        joined(nested(base, chain.drop_last()), chain.last())
    }
}

/// A path for files and folders that live for a short time only. The path
/// lies in the directory that a system keeps for such files; whoever holds
/// the `TempPath` makes what it names and clears it away.
#[derive(Debug)]
pub struct TempPath {
    pub path: String,
}

impl TempPath {
    /// The temporary path for `p`, where `root` is the directory for
    /// temporary files: `p` itself where it lies in `root` already, else `p`
    /// inside `root`.
    pub fn new(root: &str, p: &str) -> (temp: TempPath)
        ensures
            temp.path@ == if is_ancestor(p@, root@) {
                p@
            } else {
                joined(root@, p@)
            },
    {
        if is_subdir(p, root) {
            TempPath { path: String::from_str(p) }
        } else {
            TempPath { path: join_path(root, p) }
        }
    }

    /// The temporary path of a file `name` inside this one.
    pub fn new_file(&self, name: &str) -> (file: TempPath)
        ensures
            file.path@ == joined(self.path@, name@),
    {
        TempPath { path: join_path(self.path.as_str(), name) }
    }

    /// The paths of the files `names` inside this path, in their order.
    pub fn multi_file(&self, names: &Vec<String>) -> (files: Vec<String>)
        ensures
            files@.len() == names@.len(),
            forall|i: int|
                0 <= i < names@.len() ==> (#[trigger] files@[i])@ == joined(
                    self.path@,
                    names@[i]@,
                ),
    {
        create_multiple_directories(self.path.as_str(), names)
    }

    /// The temporary path of a folder `name` inside this one.
    pub fn new_folder(&self, name: &str) -> (folder: TempPath)
        ensures
            folder.path@ == joined(self.path@, name@),
    {
        TempPath { path: join_path(self.path.as_str(), name) }
    }

    /// The paths of the folders `names` inside this path, in their order.
    pub fn multi_folder(&self, names: &Vec<String>) -> (folders: Vec<String>)
        ensures
            folders@.len() == names@.len(),
            forall|i: int|
                0 <= i < names@.len() ==> (#[trigger] folders@[i])@ == joined(
                    self.path@,
                    names@[i]@,
                ),
    {
        create_multiple_directories(self.path.as_str(), names)
    }

    /// The temporary path at the end of a chain of folders, each inside the
    /// one before it, the first inside this path.
    pub fn nest_folders(&self, subfolder_chain: &Vec<String>) -> (last: TempPath)
        ensures
            last.path@ == nested(self.path@, texts(subfolder_chain@)),
    {
        let mut dst_path = self.path.clone();
        let mut at: usize = 0;
        proof {
            assert(texts(subfolder_chain@).take(0) =~= Seq::<Seq<char>>::empty());
        }
        while at < subfolder_chain.len()
            invariant
                at <= subfolder_chain@.len(),
                dst_path@ == nested(self.path@, texts(subfolder_chain@).take(at as int)),
            decreases subfolder_chain.len() - at,
        {
            dst_path = join_path(dst_path.as_str(), subfolder_chain[at].as_str());
            proof {
                let chain = texts(subfolder_chain@);
                assert(chain.take(at + 1).drop_last() =~= chain.take(at as int));
                assert(chain.take(at + 1).last() == subfolder_chain@[at as int]@);
            }
            at += 1;
        }
        proof {
            let chain = texts(subfolder_chain@);
            assert(chain.take(chain.len() as int) =~= chain);
        }
        TempPath { path: dst_path }
    }

    /// The path of `path` inside this one.
    pub fn join(&self, path: &str) -> (full: String)
        ensures
            full@ == joined(self.path@, path@),
    {
        join_path(self.path.as_str(), path)
    }
}

} // verus!

//! What a walk finds in a directory tree.
//!
//! The tree stands for what lies on a disk below the root of a listing. The
//! walk over it is the one that a caller of [`Walker::feed`] runs: it hands
//! over the entries of the root, and then, each time the walker asks for a
//! directory, the entries of that directory. The laws of this module say
//! what such a walk has collected when it ends, and [`list_tree`] runs it
//! over a tree that is held in memory.
//!
//! [`Walker::feed`]: crate::util::Walker::feed

use crate::util::{
    advance, collected, collects, descends, first_descent, iteritems, recursive, texts, views,
    wanted, Entry, EntryView, FtIterItemState, PathKind, WalkState,
};
use crate::FtFilter;
use vstd::prelude::*;

verus! {

/// An entry of a directory together with what lies below it. Only what lies
/// below a directory is on a disk: the children of any other entry count for
/// nothing.
pub struct Node {
    pub entry: EntryView,
    pub children: Seq<Node>,
}

/// What a read of a directory with these children reports.
pub open spec fn listing(nodes: Seq<Node>) -> Seq<EntryView> {
    nodes.map_values(|n: Node| n.entry)
}

/// A node's entry, followed by the entries below it where it is a directory
/// and the walk is `deep`.
pub open spec fn visited_under(deep: bool, node: Node) -> Seq<EntryView>
    decreases node, 0nat, 0nat,
{
    if deep && node.entry.kind == PathKind::Directory {
        seq![node.entry] + visited_in_first(deep, node.children, node.children.len())
    } else {
        seq![node.entry]
    }
}

/// The entries met under the first `count` of `nodes`.
pub open spec fn visited_in_first(deep: bool, nodes: Seq<Node>, count: nat) -> Seq<EntryView>
    decreases nodes, 1nat, count,
{
    if count == 0 || count > nodes.len() {
        Seq::empty()
    } else {
        visited_in_first(deep, nodes, (count - 1) as nat) + visited_under(deep, nodes[count - 1])
    }
}

/// The entries that a walk meets in `nodes`, in the order in which it meets
/// them: each node's own entry, and right after the entry of a directory,
/// where the walk is `deep`, all that is met in that directory. A deep walk
/// meets every entry at every depth; one that is not meets the entries of
/// `nodes` alone.
pub open spec fn visited(deep: bool, nodes: Seq<Node>) -> Seq<EntryView> {
    visited_in_first(deep, nodes, nodes.len())
}

/// What the first `count` nodes hold depends on these nodes alone.
proof fn lemma_visited_prefix(deep: bool, a: Seq<Node>, b: Seq<Node>, count: nat)
    requires
        count <= a.len(),
        count <= b.len(),
        forall|i: int| 0 <= i < count ==> a[i] == b[i],
    ensures
        visited_in_first(deep, a, count) == visited_in_first(deep, b, count),
    decreases count,
{
    if count > 0 {
        lemma_visited_prefix(deep, a, b, (count - 1) as nat);
    }
}

/// What is met in two runs of nodes, one after the other, is what is met in
/// the first followed by what is met in the second.
pub proof fn lemma_visited_concat(deep: bool, a: Seq<Node>, b: Seq<Node>)
    ensures
        visited(deep, a + b) == visited(deep, a) + visited(deep, b),
    decreases b.len(),
{
    if b.len() == 0 {
        assert(a + b =~= a);
        assert(visited(deep, a) + visited(deep, b) =~= visited(deep, a));
    } else {
        let front = b.drop_last();
        let last = b.last();
        lemma_visited_concat(deep, a, front);
        lemma_visited_prefix(deep, a + b, a + front, (a.len() + front.len()) as nat);
        lemma_visited_prefix(deep, b, front, front.len());
        assert((a + b)[a.len() + b.len() - 1] == last);
        assert(visited(deep, a + b) == visited(deep, a + front) + visited_under(deep, last));
        assert(visited(deep, b) == visited(deep, front) + visited_under(deep, last));
        assert(visited(deep, a) + visited(deep, front) + visited_under(deep, last) =~= visited(
            deep,
            a,
        ) + (visited(deep, front) + visited_under(deep, last)));
    }
}

/// What is met in a run of nodes, split at one of them.
pub proof fn lemma_visited_split(deep: bool, nodes: Seq<Node>, k: int)
    requires
        0 <= k < nodes.len(),
    ensures
        visited(deep, nodes) == visited(deep, nodes.take(k)) + visited_under(deep, nodes[k])
            + visited(deep, nodes.skip(k + 1)),
{
    let one = seq![nodes[k]];
    assert(nodes =~= nodes.take(k) + one + nodes.skip(k + 1));
    lemma_visited_concat(deep, nodes.take(k) + one, nodes.skip(k + 1));
    lemma_visited_concat(deep, nodes.take(k), one);
    assert(visited_in_first(deep, one, 0) =~= Seq::<EntryView>::empty());
    assert(visited(deep, one) =~= visited_under(deep, nodes[k]));
}

/// Where the walk goes into none of the nodes, it meets their own entries
/// and no more.
pub proof fn lemma_visited_flat(deep: bool, nodes: Seq<Node>)
    requires
        forall|i: int|
            0 <= i < nodes.len() ==> !(deep && (#[trigger] nodes[i]).entry.kind
                == PathKind::Directory),
    ensures
        visited(deep, nodes) == listing(nodes),
    decreases nodes.len(),
{
    if nodes.len() == 0 {
        assert(visited(deep, nodes) =~= listing(nodes));
    } else {
        let front = nodes.drop_last();
        lemma_visited_flat(deep, front);
        lemma_visited_prefix(deep, nodes, front, front.len());
        assert(visited_under(deep, nodes.last()) == seq![nodes.last().entry]);
        assert(visited(deep, nodes) =~= listing(nodes));
    }
}

/// What is collected of two runs of entries, one after the other.
pub proof fn lemma_collected_concat(
    mode: FtIterItemState,
    filter: Option<FtFilter>,
    a: Seq<EntryView>,
    b: Seq<EntryView>,
)
    ensures
        collected(mode, filter, a + b) == collected(mode, filter, a) + collected(mode, filter, b),
{
    let pred = |e: EntryView| collects(mode, filter, e);
    Seq::filter_distributes_over_add(a, b, pred);
    assert(collected(mode, filter, a + b) =~= collected(mode, filter, a) + collected(
        mode,
        filter,
        b,
    ));
}

/// Where `first_descent` points: the walk descends into no entry before it,
/// and into the entry at it unless it is the end of the queue.
pub proof fn lemma_first_descent_points(mode: FtIterItemState, queue: Seq<EntryView>)
    ensures
        0 <= first_descent(mode, queue) <= queue.len(),
        forall|i: int| 0 <= i < first_descent(mode, queue) ==> !descends(mode, #[trigger] queue[i]),
        first_descent(mode, queue) < queue.len() ==> descends(
            mode,
            queue[first_descent(mode, queue)],
        ),
    decreases queue.len(),
{
    if queue.len() > 0 && !descends(mode, queue[0]) {
        let rest = queue.skip(1);
        lemma_first_descent_points(mode, rest);
        assert forall|i: int| 0 <= i < first_descent(mode, queue) implies !descends(
            mode,
            #[trigger] queue[i],
        ) by {
            if i > 0 {
                assert(queue[i] == rest[i - 1]);
            }
        }
        assert(first_descent(mode, queue) < queue.len() ==> queue[first_descent(mode, queue)]
            == rest[first_descent(mode, rest)]);
    }
}

/// One step of a walk over a tree. The walker holds the entries of
/// `waiting` and is handed those of `children`. Where it asks for a
/// directory, that directory is one of the nodes and its entries are what
/// the walker is handed next, while the nodes after it are those whose
/// entries the walker still holds; where it asks for none, it holds nothing.
pub proof fn lemma_step_follows_tree(
    mode: FtIterItemState,
    filter: Option<FtFilter>,
    children: Seq<Node>,
    waiting: Seq<Node>,
    found: Seq<Seq<char>>,
)
    ensures
        ({
            let nodes = children + waiting;
            let queue = listing(children) + listing(waiting);
            let k = first_descent(mode, queue);
            let step = advance(mode, filter, queue, found);
            &&& queue == listing(nodes)
            &&& step.next is Some ==> {
                &&& 0 <= k < nodes.len()
                &&& nodes[k].entry.kind == PathKind::Directory
                &&& step.next == Some(nodes[k].entry.path)
                &&& step.queue == listing(nodes.skip(k + 1))
                &&& visited(recursive(mode), nodes[k].children + nodes.skip(k + 1)).len()
                    < visited(recursive(mode), nodes).len()
            }
            &&& step.next is None ==> step.queue.len() == 0
        }),
{
    let nodes = children + waiting;
    let queue = listing(children) + listing(waiting);
    let k = first_descent(mode, queue);
    let deep = recursive(mode);
    assert(queue =~= listing(nodes));
    lemma_first_descent_points(mode, queue);
    if k < queue.len() {
        assert(queue[k] == nodes[k].entry);
        assert(queue.skip(k + 1) =~= listing(nodes.skip(k + 1)));
        lemma_visited_split(deep, nodes, k);
        lemma_visited_concat(deep, nodes[k].children, nodes.skip(k + 1));
    }
}

/// What a walk over a tree ends with. The walker is handed the entries of
/// `children` while it still holds those of `waiting` and has collected
/// `found`; from then on, each time it asks for a directory, it is handed the
/// entries of that directory in the tree.
pub open spec fn run(
    mode: FtIterItemState,
    filter: Option<FtFilter>,
    children: Seq<Node>,
    waiting: Seq<Node>,
    found: Seq<Seq<char>>,
) -> Seq<Seq<char>>
    decreases visited(recursive(mode), children + waiting).len(),
{
    let nodes = children + waiting;
    let queue = listing(children) + listing(waiting);
    let step = advance(mode, filter, queue, found);
    if step.next is Some {
        proof {
            lemma_step_follows_tree(mode, filter, children, waiting, found);
        }
        let k = first_descent(mode, queue);
        run(mode, filter, nodes[k].children, nodes.skip(k + 1), step.found)
    } else {
        step.found
    }
}

/// A walk that goes on over a tree adds to what it has collected the paths
/// that the listing keeps of all the entries it still meets.
pub proof fn lemma_run_collects(
    mode: FtIterItemState,
    filter: Option<FtFilter>,
    children: Seq<Node>,
    waiting: Seq<Node>,
    found: Seq<Seq<char>>,
)
    ensures
        run(mode, filter, children, waiting, found) == found + collected(
            mode,
            filter,
            visited(recursive(mode), children + waiting),
        ),
    decreases visited(recursive(mode), children + waiting).len(),
{
    let deep = recursive(mode);
    let nodes = children + waiting;
    let queue = listing(children) + listing(waiting);
    let k = first_descent(mode, queue);
    let step = advance(mode, filter, queue, found);
    lemma_step_follows_tree(mode, filter, children, waiting, found);
    lemma_first_descent_points(mode, queue);
    if step.next is Some {
        let below = nodes[k].children + nodes.skip(k + 1);
        lemma_run_collects(mode, filter, nodes[k].children, nodes.skip(k + 1), step.found);
        lemma_visited_split(deep, nodes, k);
        lemma_visited_concat(deep, nodes[k].children, nodes.skip(k + 1));
        assert forall|i: int| 0 <= i < k implies !(deep && (#[trigger] nodes.take(k)[i]).entry.kind
            == PathKind::Directory) by {
            assert(queue[i] == nodes.take(k)[i].entry);
        }
        lemma_visited_flat(deep, nodes.take(k));
        assert(visited_under(deep, nodes[k]) == seq![nodes[k].entry] + visited(
            deep,
            nodes[k].children,
        ));
        assert(listing(nodes.take(k)) + seq![nodes[k].entry] =~= queue.take(k + 1));
        assert(visited(deep, nodes) =~= queue.take(k + 1) + visited(deep, below));
        lemma_collected_concat(mode, filter, queue.take(k + 1), visited(deep, below));
        assert(step.found + collected(mode, filter, visited(deep, below)) =~= found + collected(
            mode,
            filter,
            visited(deep, nodes),
        ));
    } else {
        assert forall|i: int| 0 <= i < nodes.len() implies !(deep && (#[trigger] nodes[i]).entry.kind
            == PathKind::Directory) by {
            assert(queue[i] == nodes[i].entry);
        }
        lemma_visited_flat(deep, nodes);
    }
}

/// A listing of a tree collects, of the entries that its walk meets, the
/// paths of those that it keeps, in the order in which they are met. The
/// walk of a recursive listing meets every entry at every depth below the
/// root, so a recursive listing of files holds every file below the root
/// that passes the filter, and one of directories every such directory; the
/// walk of the two other listings meets the entries of the root alone.
pub proof fn lemma_listing_of_tree(
    mode: FtIterItemState,
    filter: Option<FtFilter>,
    root: Seq<Node>,
)
    ensures
        run(mode, filter, root, Seq::empty(), Seq::empty()) == collected(
            mode,
            filter,
            visited(recursive(mode), root),
        ),
        !recursive(mode) ==> visited(recursive(mode), root) == listing(root),
{
    lemma_run_collects(mode, filter, root, Seq::empty(), Seq::empty());
    assert(root + Seq::<Node>::empty() =~= root);
    assert(Seq::<Seq<char>>::empty() + collected(mode, filter, visited(recursive(mode), root))
        =~= collected(mode, filter, visited(recursive(mode), root)));
    if !recursive(mode) {
        lemma_visited_flat(false, root);
    }
}

/// A listing that does not go into subdirectories is over after its first
/// step: it has visited every entry of the root, asks for nothing more, and
/// has collected the paths of the entries that it keeps.
pub proof fn lemma_flat_listing(
    mode: FtIterItemState,
    filter: Option<FtFilter>,
    entries: Seq<EntryView>,
)
    requires
        !recursive(mode),
    ensures
        advance(mode, filter, entries, Seq::empty()) == (WalkState {
            queue: Seq::empty(),
            found: collected(mode, filter, entries),
            next: None,
        }),
{
    crate::util::lemma_first_descent(mode, entries, entries.len() as int);
    assert(Seq::<Seq<char>>::empty() + collected(mode, filter, entries) =~= collected(
        mode,
        filter,
        entries,
    ));
}

/// The paths of the entries of a kind, in order.
pub open spec fn paths_of_kind(entries: Seq<EntryView>, kind: PathKind) -> Seq<Seq<char>> {
    entries.filter(|e: EntryView| e.kind == kind).map_values(|e: EntryView| e.path)
}

/// Without a filter a listing collects the entries of the kind it is after,
/// all of them and no others.
pub proof fn lemma_collected_without_filter(mode: FtIterItemState, entries: Seq<EntryView>)
    ensures
        collected(mode, None, entries) == paths_of_kind(
            entries,
            if wanted(mode, PathKind::File) {
                PathKind::File
            } else {
                PathKind::Directory
            },
        ),
    decreases entries.len(),
{
    let kind = if wanted(mode, PathKind::File) {
        PathKind::File
    } else {
        PathKind::Directory
    };
    let keep = |e: EntryView| collects(mode, None, e);
    let of_kind = |e: EntryView| e.kind == kind;
    if entries.len() == 0 {
        assert(entries.filter(keep) =~= entries.filter(of_kind));
    } else {
        let front = entries.drop_last();
        let last = entries.last();
        lemma_collected_without_filter(mode, front);
        assert(entries =~= front.push(last));
        crate::util::lemma_collected_push(mode, None, front, last);
        front.lemma_filter_push(last, of_kind);
        if last.kind == kind {
            assert(front.filter(of_kind).push(last).map_values(|e: EntryView| e.path)
                =~= paths_of_kind(front, kind).push(last.path));
        }
    }
}

/// Of a directory that holds files and subdirectories alone, the listing of
/// its files and the listing of its directories share out the entries: the
/// first holds the paths of the files and the second those of the
/// subdirectories, each in the order of the directory, and the two together
/// hold every entry of the directory once.
pub proof fn lemma_files_and_directories_share_out(entries: Seq<EntryView>)
    requires
        forall|i: int|
            0 <= i < entries.len() ==> (#[trigger] entries[i]).kind == PathKind::File
                || entries[i].kind == PathKind::Directory,
    ensures
        advance(FtIterItemState::FileNoRec, None, entries, Seq::empty()).next is None,
        advance(FtIterItemState::DirNoRec, None, entries, Seq::empty()).next is None,
        advance(FtIterItemState::FileNoRec, None, entries, Seq::empty()).found == paths_of_kind(
            entries,
            PathKind::File,
        ),
        advance(FtIterItemState::DirNoRec, None, entries, Seq::empty()).found == paths_of_kind(
            entries,
            PathKind::Directory,
        ),
        paths_of_kind(entries, PathKind::File).to_multiset().add(
            paths_of_kind(entries, PathKind::Directory).to_multiset(),
        ) == entries.map_values(|e: EntryView| e.path).to_multiset(),
    decreases entries.len(),
{
    broadcast use vstd::seq_lib::group_to_multiset_ensures;

    lemma_flat_listing(FtIterItemState::FileNoRec, None, entries);
    lemma_flat_listing(FtIterItemState::DirNoRec, None, entries);
    lemma_collected_without_filter(FtIterItemState::FileNoRec, entries);
    lemma_collected_without_filter(FtIterItemState::DirNoRec, entries);
    let path = |e: EntryView| e.path;
    let files = |e: EntryView| e.kind == PathKind::File;
    let dirs = |e: EntryView| e.kind == PathKind::Directory;
    if entries.len() == 0 {
        assert(paths_of_kind(entries, PathKind::File) =~= Seq::<Seq<char>>::empty());
        assert(paths_of_kind(entries, PathKind::Directory) =~= Seq::<Seq<char>>::empty());
        assert(entries.map_values(path) =~= Seq::<Seq<char>>::empty());
        assert(paths_of_kind(entries, PathKind::File).to_multiset().add(
            paths_of_kind(entries, PathKind::Directory).to_multiset(),
        ) =~= entries.map_values(path).to_multiset());
    } else {
        let front = entries.drop_last();
        let last = entries.last();
        assert forall|i: int| 0 <= i < front.len() implies (#[trigger] front[i]).kind
            == PathKind::File || front[i].kind == PathKind::Directory by {
            assert(front[i] == entries[i]);
        }
        lemma_files_and_directories_share_out(front);
        assert(entries =~= front.push(last));
        front.lemma_filter_push(last, files);
        front.lemma_filter_push(last, dirs);
        assert(entries.map_values(path) =~= front.map_values(path).push(last.path));
        if last.kind == PathKind::File {
            assert(paths_of_kind(entries, PathKind::File) =~= paths_of_kind(
                front,
                PathKind::File,
            ).push(last.path));
            assert(paths_of_kind(entries, PathKind::Directory) =~= paths_of_kind(
                front,
                PathKind::Directory,
            ));
        } else {
            assert(paths_of_kind(entries, PathKind::Directory) =~= paths_of_kind(
                front,
                PathKind::Directory,
            ).push(last.path));
            assert(paths_of_kind(entries, PathKind::File) =~= paths_of_kind(
                front,
                PathKind::File,
            ));
        }
        assert(paths_of_kind(entries, PathKind::File).to_multiset().add(
            paths_of_kind(entries, PathKind::Directory).to_multiset(),
        ) =~= entries.map_values(path).to_multiset());
    }
}

/// A deep walk leaves nothing out: it meets each of the nodes, and with a
/// directory among them all that it meets in that directory.
pub proof fn lemma_visited_reaches_every_depth(nodes: Seq<Node>, i: int)
    requires
        0 <= i < nodes.len(),
    ensures
        visited(true, nodes).contains(nodes[i].entry),
        nodes[i].entry.kind == PathKind::Directory ==> forall|e: EntryView|
            visited(true, nodes[i].children).contains(e) ==> visited(true, nodes).contains(e),
{
    let before = visited(true, nodes.take(i));
    let under = visited_under(true, nodes[i]);
    let after = visited(true, nodes.skip(i + 1));
    let all = visited(true, nodes);
    lemma_visited_split(true, nodes, i);
    assert(all == before + under + after);
    assert(under[0] == nodes[i].entry);
    assert(all[before.len() as int] == under[0]);
    if nodes[i].entry.kind == PathKind::Directory {
        let inside = visited(true, nodes[i].children);
        assert forall|e: EntryView| inside.contains(e) implies all.contains(e) by {
            let j = choose|j: int| 0 <= j < inside.len() && inside[j] == e;
            assert(under[j + 1] == inside[j]);
            assert(all[before.len() + 1 + j] == under[j + 1]);
        }
    }
}

/// Without a filter, a recursive listing of files holds the paths of all
/// the files at every depth below its root, and a recursive listing of
/// directories those of all the directories, each in the order in which the
/// walk meets them.
pub proof fn lemma_nested_listings_hold_every_depth(root: Seq<Node>)
    ensures
        run(FtIterItemState::FileRec, None, root, Seq::empty(), Seq::empty()) == paths_of_kind(
            visited(true, root),
            PathKind::File,
        ),
        run(FtIterItemState::DirRec, None, root, Seq::empty(), Seq::empty()) == paths_of_kind(
            visited(true, root),
            PathKind::Directory,
        ),
{
    lemma_listing_of_tree(FtIterItemState::FileRec, None, root);
    lemma_listing_of_tree(FtIterItemState::DirRec, None, root);
    lemma_collected_without_filter(FtIterItemState::FileRec, visited(true, root));
    lemma_collected_without_filter(FtIterItemState::DirRec, visited(true, root));
}

/// Every path that a listing collects is the path of one of the entries.
pub proof fn lemma_collected_from_entries(
    mode: FtIterItemState,
    filter: Option<FtFilter>,
    entries: Seq<EntryView>,
    path: Seq<char>,
)
    requires
        collected(mode, filter, entries).contains(path),
    ensures
        exists|i: int|
            0 <= i < entries.len() && (#[trigger] entries[i]).path == path && collects(
                mode,
                filter,
                entries[i],
            ),
    decreases entries.len(),
{
    if entries.len() == 0 {
        assert(entries.filter(|e: EntryView| collects(mode, filter, e)).len() == 0);
        assert(collected(mode, filter, entries).len() == 0);
    } else {
        let front = entries.drop_last();
        let last = entries.last();
        assert(entries =~= front.push(last));
        crate::util::lemma_collected_push(mode, filter, front, last);
        let kept = collected(mode, filter, entries);
        let at = choose|at: int| 0 <= at < kept.len() && kept[at] == path;
        if collects(mode, filter, last) && at == kept.len() - 1 {
            assert(entries[entries.len() - 1] == last);
        } else {
            assert(collected(mode, filter, front)[at] == path);
            lemma_collected_from_entries(mode, filter, front, path);
            let i = choose|i: int|
                0 <= i < front.len() && (#[trigger] front[i]).path == path && collects(
                    mode,
                    filter,
                    front[i],
                );
            assert(entries[i] == front[i]);
        }
    }
}

/// No path comes twice in a listing of entries of which no two share a
/// path.
pub proof fn lemma_no_path_twice(
    mode: FtIterItemState,
    filter: Option<FtFilter>,
    entries: Seq<EntryView>,
)
    requires
        forall|i: int, j: int|
            0 <= i < entries.len() && 0 <= j < entries.len() && i != j ==> (
            #[trigger] entries[i]).path != (#[trigger] entries[j]).path,
    ensures
        collected(mode, filter, entries).no_duplicates(),
    decreases entries.len(),
{
    if entries.len() == 0 {
        assert(entries.filter(|e: EntryView| collects(mode, filter, e)).len() == 0);
        assert(collected(mode, filter, entries).len() == 0);
    } else {
        let front = entries.drop_last();
        let last = entries.last();
        assert(entries =~= front.push(last));
        assert forall|i: int, j: int|
            0 <= i < front.len() && 0 <= j < front.len() && i != j implies (
        #[trigger] front[i]).path != (#[trigger] front[j]).path by {
            assert(front[i] == entries[i] && front[j] == entries[j]);
        }
        lemma_no_path_twice(mode, filter, front);
        crate::util::lemma_collected_push(mode, filter, front, last);
        if collects(mode, filter, last) {
            let kept = collected(mode, filter, front);
            if kept.contains(last.path) {
                lemma_collected_from_entries(mode, filter, front, last.path);
                let i = choose|i: int|
                    0 <= i < front.len() && (#[trigger] front[i]).path == last.path && collects(
                        mode,
                        filter,
                        front[i],
                    );
                assert(entries[i] == front[i]);
                assert(entries[entries.len() - 1] == last);
                assert(false);
            }
            assert forall|i: int, j: int|
                0 <= i < kept.push(last.path).len() && 0 <= j < kept.push(last.path).len() && i
                    != j implies kept.push(last.path)[i] != kept.push(last.path)[j] by {
                if i < kept.len() {
                    assert(kept.contains(kept[i]));
                }
                if j < kept.len() {
                    assert(kept.contains(kept[j]));
                }
            }
        }
    }
}

/// The two text filters keep the same paths: a text given as a piece of a
/// path is looked for in the same way as one given as plain text.
pub proof fn lemma_text_filters_agree(path: Seq<char>, raw: String, piece: String)
    requires
        raw@ == piece@,
    ensures
        crate::util::filter_matches(path, FtFilter::Raw(raw)) == crate::util::filter_matches(
            path,
            FtFilter::Path(piece),
        ),
{
}

/// A directory tree held in memory: an entry and, below a directory, the
/// trees of its entries in the order in which a read reports them.
#[derive(Debug)]
pub struct Tree {
    pub entry: Entry,
    pub children: Vec<Tree>,
}

impl View for Tree {
    type V = Node;

    open spec fn view(&self) -> Node
        decreases self,
    {
        Node {
            entry: self.entry@,
            children: Seq::new(
                self.children@.len(),
                |i: int|
                    if 0 <= i < self.children@.len() {
                        self.children@[i]@
                    } else {
                        Node { entry: self.entry@, children: Seq::empty() }
                    },
            ),
        }
    }
}

/// The trees of a directory as the laws speak of them.
pub open spec fn nodes(trees: Seq<Tree>) -> Seq<Node> {
    trees.map_values(|t: Tree| t@)
}

/// The nodes whose entries a walk still holds, the next one first; the
/// trees are kept with the next one last.
pub open spec fn nodes_waiting(trees: Seq<&Tree>) -> Seq<Node> {
    Seq::new(trees.len(), |i: int| trees[trees.len() - 1 - i]@)
}

/// What a read of a directory with these trees reports.
fn read_tree(trees: &Vec<Tree>) -> (entries: Vec<Entry>)
    ensures
        views(entries@) == listing(nodes(trees@)),
{
    let mut entries: Vec<Entry> = Vec::new();
    let mut at: usize = 0;
    while at < trees.len()
        invariant
            at <= trees@.len(),
            views(entries@) == listing(nodes(trees@)).take(at as int),
        decreases trees.len() - at,
    {
        let tree = &trees[at];
        let ghost before = entries@;
        entries.push(
            Entry { path: tree.entry.path.clone(), kind: tree.entry.kind, is_text: tree.entry.is_text },
        );
        proof {
            assert(views(entries@) =~= views(before).push(tree.entry@));
            assert(listing(nodes(trees@)).take(at + 1) =~= listing(nodes(trees@)).take(
                at as int,
            ).push(tree.entry@));
        }
        at += 1;
    }
    assert(listing(nodes(trees@)).take(trees@.len() as int) =~= listing(nodes(trees@)));
    entries
}

/// Lists what a tree in memory holds below its root, in the given mode and
/// with or without a filter.
///
/// The listing is made as one over a disk is: a walker is handed the entries
/// of the root, and then, each time it asks for a directory, the entries of
/// that directory, until it asks for none. What it has collected then are the
/// paths of the entries that the listing keeps, of all that its walk meets.
pub fn list_tree(mode: FtIterItemState, filter: Option<FtFilter>, root: &Vec<Tree>) -> (items:
    Vec<String>)
    ensures
        texts(items@) == run(mode, filter, nodes(root@), Seq::empty(), Seq::empty()),
        texts(items@) == collected(mode, filter, visited(recursive(mode), nodes(root@))),
{
    let mut walker = iteritems(mode, filter);
    let mut waiting: Vec<&Tree> = Vec::new();
    let mut children: &Vec<Tree> = root;
    proof {
        lemma_listing_of_tree(mode, filter, nodes(root@));
        assert(nodes_waiting(waiting@) =~= Seq::<Node>::empty());
        assert(listing(Seq::<Node>::empty()) =~= Seq::<EntryView>::empty());
    }
    loop
        invariant
            walker.mode() == mode,
            walker.filter() == filter,
            walker.queue() == listing(nodes_waiting(waiting@)),
            run(mode, filter, nodes(children@), nodes_waiting(waiting@), walker.found()) == run(
                mode,
                filter,
                nodes(root@),
                Seq::empty(),
                Seq::empty(),
            ),
            run(mode, filter, nodes(root@), Seq::empty(), Seq::empty()) == collected(
                mode,
                filter,
                visited(recursive(mode), nodes(root@)),
            ),
        decreases visited(recursive(mode), nodes(children@) + nodes_waiting(waiting@)).len(),
    {
        let ghost held = nodes_waiting(waiting@);
        let ghost handed = nodes(children@);
        let ghost found = walker.found();
        let entries = read_tree(children);
        let mut at: usize = children.len();
        while at > 0
            invariant
                at <= children@.len(),
                handed == nodes(children@),
                nodes_waiting(waiting@) == handed.skip(at as int) + held,
            decreases at,
        {
            at -= 1;
            let ghost before = nodes_waiting(waiting@);
            waiting.push(&children[at]);
            proof {
                assert(nodes_waiting(waiting@) =~= seq![children@[at as int]@] + before);
                assert(nodes_waiting(waiting@) =~= handed.skip(at as int) + held);
            }
        }
        let ghost all = handed + held;
        proof {
            assert(nodes_waiting(waiting@) =~= all);
            lemma_step_follows_tree(mode, filter, handed, held, found);
        }
        match walker.feed(entries) {
            None => {
                return walker.into_items();
            },
            Some(_) => {
                let ghost k = first_descent(mode, listing(handed) + listing(held));
                let left = walker.waiting();
                assert(left == all.len() - k - 1);
                while waiting.len() > left + 1
                    invariant
                        left + 1 <= waiting@.len() <= all.len(),
                        left == all.len() - k - 1,
                        0 <= k < all.len(),
                        nodes_waiting(waiting@) == all.skip(all.len() - waiting@.len()),
                    decreases waiting.len(),
                {
                    let ghost before = nodes_waiting(waiting@);
                    waiting.pop();
                    proof {
                        assert(nodes_waiting(waiting@) =~= before.skip(1));
                        assert(nodes_waiting(waiting@) =~= all.skip(all.len() - waiting@.len()));
                    }
                }
                let ghost before = nodes_waiting(waiting@);
                let inside = waiting.pop().unwrap();
                proof {
                    assert(before == all.skip(k));
                    assert(inside@ == before[0]);
                    assert(inside@ == all[k]);
                    assert(nodes_waiting(waiting@) =~= before.skip(1));
                    assert(nodes_waiting(waiting@) =~= all.skip(k + 1));
                    assert(nodes(inside.children@) =~= inside@.children);
                }
                children = &inside.children;
            },
        }
    }
}

} // verus!

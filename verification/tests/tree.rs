use filetools::tree::{list_tree, Tree};
use filetools::util::{Entry, FtIterItemState, PathKind};
use filetools::FtFilter;
use regex::Regex;

fn file(path: &str) -> Tree {
    Tree {
        entry: Entry { path: path.to_string(), kind: PathKind::File, is_text: true },
        children: Vec::new(),
    }
}

fn dir(path: &str, children: Vec<Tree>) -> Tree {
    Tree { entry: Entry { path: path.to_string(), kind: PathKind::Directory, is_text: true }, children }
}

fn paths(items: &[&str]) -> Vec<String> {
    items.iter().map(|s| s.to_string()).collect()
}

/// A root with folders A, A/B and A/B/C and a file at every depth.
fn nested() -> Vec<Tree> {
    vec![
        file("r/top.txt"),
        dir(
            "r/A",
            vec![
                file("r/A/a.rs"),
                dir("r/A/B", vec![dir("r/A/B/C", vec![file("r/A/B/C/c.rs")]), file("r/A/B/b.txt")]),
            ],
        ),
        file("r/last.rs"),
    ]
}

#[test]
fn files_of_the_root_alone() {
    let found = list_tree(FtIterItemState::FileNoRec, None, &nested());
    assert_eq!(found, paths(&["r/top.txt", "r/last.rs"]));
}

#[test]
fn directories_of_the_root_alone() {
    let found = list_tree(FtIterItemState::DirNoRec, None, &nested());
    assert_eq!(found, paths(&["r/A"]));
}

#[test]
fn files_of_every_depth() {
    let found = list_tree(FtIterItemState::FileRec, None, &nested());
    assert_eq!(
        found,
        paths(&["r/top.txt", "r/A/a.rs", "r/A/B/C/c.rs", "r/A/B/b.txt", "r/last.rs"])
    );
}

#[test]
fn directories_of_every_depth() {
    let found = list_tree(FtIterItemState::DirRec, None, &nested());
    assert_eq!(found, paths(&["r/A", "r/A/B", "r/A/B/C"]));
}

#[test]
fn seven_directories_below_two() {
    let root = vec![
        dir(
            "folder1",
            vec![
                dir("folder1/sub1", vec![]),
                dir(
                    "folder1/sub2",
                    vec![dir("folder1/sub2/deep1", vec![]), dir("folder1/sub2/deep2", vec![])],
                ),
                dir("folder1/sub3", vec![]),
            ],
        ),
        dir("folder2", vec![]),
    ];
    assert_eq!(list_tree(FtIterItemState::DirRec, None, &root).len(), 7);
    assert_eq!(list_tree(FtIterItemState::DirNoRec, None, &root).len(), 2);
    assert!(list_tree(FtIterItemState::FileRec, None, &root).is_empty());
}

#[test]
fn a_filter_keeps_what_matches_at_every_depth() {
    let raw = FtFilter::Raw(".rs".to_string());
    assert_eq!(
        list_tree(FtIterItemState::FileRec, Some(raw), &nested()),
        paths(&["r/A/a.rs", "r/A/B/C/c.rs", "r/last.rs"])
    );
    let re = FtFilter::Regex(Regex::new(r"/[A-C]$").unwrap());
    assert_eq!(
        list_tree(FtIterItemState::DirRec, Some(re), &nested()),
        paths(&["r/A", "r/A/B", "r/A/B/C"])
    );
    let piece = FtFilter::Path("B/C".to_string());
    assert_eq!(
        list_tree(FtIterItemState::DirRec, Some(piece), &nested()),
        paths(&["r/A/B/C"])
    );
}

#[test]
fn four_files_and_two_filters() {
    let root =
        vec![file("d/first.rs"), file("d/second.rs"), file("d/third.js"), file("d/fourth.rb")];
    let raw = FtFilter::Raw("fourth".to_string());
    assert_eq!(list_tree(FtIterItemState::FileNoRec, Some(raw), &root), paths(&["d/fourth.rb"]));
    let re = FtFilter::Regex(Regex::new(r"(.*)\.rs").unwrap());
    assert_eq!(
        list_tree(FtIterItemState::FileNoRec, Some(re), &root),
        paths(&["d/first.rs", "d/second.rs"])
    );
}

#[test]
fn what_lies_below_a_file_counts_for_nothing() {
    let odd = Tree {
        entry: Entry { path: "r/f".to_string(), kind: PathKind::File, is_text: true },
        children: vec![file("r/f/ghost")],
    };
    assert_eq!(list_tree(FtIterItemState::FileRec, None, &vec![odd]), paths(&["r/f"]));
}

#[test]
fn an_empty_tree_holds_nothing() {
    assert!(list_tree(FtIterItemState::FileRec, None, &Vec::new()).is_empty());
    assert!(list_tree(FtIterItemState::DirRec, None, &vec![dir("r/e", vec![])]).len() == 1);
}

#[test]
fn a_deep_chain_is_walked_to_its_end() {
    let mut tree = dir("d/199", vec![file("d/199/leaf")]);
    for depth in (0..199).rev() {
        tree = dir(&format!("d/{}", depth), vec![tree]);
    }
    let root = vec![tree];
    assert_eq!(list_tree(FtIterItemState::DirRec, None, &root).len(), 200);
    assert_eq!(list_tree(FtIterItemState::FileRec, None, &root), paths(&["d/199/leaf"]));
    assert_eq!(list_tree(FtIterItemState::DirNoRec, None, &root), paths(&["d/0"]));
}

use filetools::filehelpers::{self, ensure_dir};
use filetools::sync::{create_multiple_directories, create_numeric_directories, ensure_directory};
use filetools::util::{PathKind, TempPath};
use std::collections::BTreeSet;

/// Carries out a request for a directory on a set of paths that stands for a
/// disk: the path and all that lies above it are there afterwards.
fn ensure(disk: &mut BTreeSet<String>, path: &str) -> bool {
    let found = if disk.contains(path) { PathKind::Directory } else { PathKind::Missing };
    let create = ensure_directory(found);
    if create {
        let mut at = 0;
        while let Some(next) = path[at..].find('/') {
            if at + next > 0 {
                disk.insert(path[..at + next].to_string());
            }
            at += next + 1;
        }
        disk.insert(path.to_string());
    }
    create
}

#[test]
fn creates_a_directory() {
    let mut disk = BTreeSet::new();
    let tmp = "/tmp";

    // Creates a single directory
    let single_path = format!("{}/create_dir", tmp);
    ensure(&mut disk, &single_path);

    assert!(disk.contains(&single_path));

    // Nested directories
    let nested_path = format!("{}/create_dir/test/this/is/nested", tmp);
    ensure(&mut disk, &nested_path);

    assert!(disk.contains(&nested_path));
}

#[test]
fn ensure_directory_asks_only_where_nothing_is_there() {
    assert!(ensure_directory(PathKind::Missing));
    assert!(!ensure_directory(PathKind::Directory));
    assert!(!ensure_directory(PathKind::File));
    assert!(!ensure_directory(PathKind::Other));
}

#[test]
fn ensure_directory_twice_makes_it_once() {
    let mut disk = BTreeSet::new();
    assert!(ensure(&mut disk, "/tmp/once/more"));
    let after_first = disk.clone();
    assert!(!ensure(&mut disk, "/tmp/once/more"));
    assert_eq!(disk, after_first);
    assert!(disk.contains("/tmp/once/more"));
}

#[test]
fn ensure_dir_asks_only_where_nothing_is_there() {
    assert!(ensure_dir(PathKind::Missing));
    assert!(!ensure_dir(PathKind::Directory));
    assert!(!ensure_dir(PathKind::File));
}

#[test]
fn numeric_directories() {
    let tmp = TempPath::new("/tmp", "numeric_directories");
    let mut folders = create_numeric_directories(&tmp.path, 0, 100, 4);
    folders.sort();
    assert_eq!(folders.len(), 100);

    for (i, folder) in folders.into_iter().enumerate() {
        let test = tmp.join(&format!("{:0fill$}", i, fill = 4));
        assert_eq!(folder, test);
    }
}

#[test]
fn numeric_directories_come_in_rising_order() {
    assert_eq!(
        create_numeric_directories("some/root/path", 8, 12, 3),
        vec![
            "some/root/path/008",
            "some/root/path/009",
            "some/root/path/010",
            "some/root/path/011"
        ]
    );
}

#[test]
fn numeric_directories_leave_the_end_out() {
    assert_eq!(create_numeric_directories("r", 0, 1, 2), vec!["r/00"]);
    assert!(create_numeric_directories("r", 5, 5, 2).is_empty());
    assert!(create_numeric_directories("r", 6, 5, 2).is_empty());
    assert_eq!(
        create_numeric_directories("r", usize::MAX - 1, usize::MAX, 0),
        vec![format!("r/{}", usize::MAX - 1)]
    );
}

#[test]
fn numeric_directories_outgrow_the_fill() {
    assert_eq!(create_numeric_directories("r/", 99, 101, 2), vec!["r/99", "r/100"]);
}

#[test]
fn multiple_directory_creation() {
    let tmp = TempPath::new("/tmp", "create_multiple_dirs");
    let dirs = ["config", "src", "tests"];
    let wanted: Vec<String> = dirs.iter().map(|s| s.to_string()).collect();

    let folders = create_multiple_directories(&tmp.path, &wanted);
    assert_eq!(folders.len(), 3);

    for check in dirs {
        let target = tmp.join(check);
        assert!(folders.contains(&target));
    }
}

#[test]
fn multiple_directories_keep_their_order() {
    let wanted = vec!["b".to_string(), "a".to_string(), "c/d".to_string()];
    assert_eq!(
        create_multiple_directories("dir/to/populate", &wanted),
        vec!["dir/to/populate/b", "dir/to/populate/a", "dir/to/populate/c/d"]
    );
    assert!(create_multiple_directories("dir", &Vec::new()).is_empty());
}

#[test]
fn temp_path_lies_in_the_directory_for_temporary_files() {
    assert_eq!(TempPath::new("/tmp", "is_subdir").path, "/tmp/is_subdir");
    assert_eq!(TempPath::new("/tmp", "/tmp/is_subdir").path, "/tmp/is_subdir");
    assert_eq!(TempPath::new("/tmp", "/tmp").path, "/tmp");
    assert_eq!(TempPath::new("/tmp", "a/b").path, "/tmp/a/b");
}

#[test]
fn temp_path_names_what_lies_in_it() {
    let root = TempPath::new("/tmp", "lfr_test");
    assert_eq!(root.new_file("initial.pdf").path, "/tmp/lfr_test/initial.pdf");
    assert_eq!(root.new_folder("ffolder").path, "/tmp/lfr_test/ffolder");
    assert_eq!(root.join("folder1"), "/tmp/lfr_test/folder1");
    let names = vec!["second.txt".to_string(), "third.php".to_string()];
    assert_eq!(
        root.multi_file(&names),
        vec!["/tmp/lfr_test/second.txt", "/tmp/lfr_test/third.php"]
    );
    assert_eq!(
        root.multi_folder(&names),
        vec!["/tmp/lfr_test/second.txt", "/tmp/lfr_test/third.php"]
    );
}

#[test]
fn temp_path_nests_folders() {
    let root = TempPath::new("/tmp", "is_subdir");
    let chain: Vec<String> =
        ["this", "is", "a", "nested", "tmp", "dir"].iter().map(|s| s.to_string()).collect();
    assert_eq!(root.nest_folders(&chain).path, "/tmp/is_subdir/this/is/a/nested/tmp/dir");
    assert_eq!(root.nest_folders(&Vec::new()).path, "/tmp/is_subdir");
}

#[test]
fn plain_listings_start_without_a_look_at_the_root() {
    let mut files = filehelpers::list_files(false);
    assert_eq!(files.feed(Vec::new()), None);
    assert!(files.into_items().is_empty());
}

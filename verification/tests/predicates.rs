use filetools::util::{matches_filter, TempPath};
use filetools::{chars_of, filehelpers, is_subdir, join_path, path_contains, FtFilter};
use regex::Regex;
use std::path::{Path, PathBuf};

#[test]
fn checks_if_a_directory_is_a_subdirectory() {
    let root = TempPath::new("/tmp", "is_subdir");
    let chain: Vec<String> =
        ["this", "is", "a", "nested", "tmp", "dir"].iter().map(|s| s.to_string()).collect();
    let nested = root.nest_folders(&chain);
    let mut result = is_subdir(&nested.path, "nested");

    assert!(result);

    result = is_subdir(&nested.path, "not_valid");

    assert!(!result);
}

#[test]
fn check_path_contains_subpath() {
    // Basic str
    let main = "I/am/a/path/hello/there";
    assert!(path_contains(main, "a/path"));
    assert!(!path_contains(main, "not"));

    // Check it works for paths
    let main = Path::new(main);
    assert!(path_contains(main.to_str().unwrap(), Path::new("a/path").to_str().unwrap()));
    assert!(!path_contains(main.to_str().unwrap(), Path::new("not").to_str().unwrap()));

    // Pathbufs?
    let main = PathBuf::from("I/am/a/path/hello/there");
    assert!(path_contains(main.to_str().unwrap(), PathBuf::from("a/path").to_str().unwrap()));
    assert!(!path_contains(main.to_str().unwrap(), PathBuf::from("not").to_str().unwrap()));

    // What about strings?
    assert!(path_contains(&String::from("I/am/a/path/hello/there"), &String::from("a/path")));
    assert!(!path_contains(&String::from("I/am/a/path/hello/there"), &String::from("not")));
}

#[test]
fn path_contains_a_part_of_a_short_path() {
    assert!(path_contains("I/am/a/path", "a/path"));
    assert!(!path_contains("I/am/a/path", "not"));
}

#[test]
fn path_contains_at_the_ends_and_in_the_middle() {
    assert!(path_contains("abcdef", "abc"));
    assert!(path_contains("abcdef", "def"));
    assert!(path_contains("abcdef", "cd"));
    assert!(path_contains("abcdef", "abcdef"));
    assert!(!path_contains("abcdef", "abcdefg"));
    assert!(!path_contains("abcdef", "ac"));
    assert!(!path_contains("abcdef", "fe"));
}

#[test]
fn the_empty_pattern_is_in_every_path() {
    assert!(path_contains("some/path", ""));
    assert!(path_contains("", ""));
    assert!(!path_contains("", "a"));
}

#[test]
fn path_contains_after_a_false_start() {
    assert!(path_contains("aaab", "aab"));
    assert!(path_contains("ababac", "abac"));
    assert!(!path_contains("ababab", "abac"));
}

#[test]
fn path_contains_counts_characters_not_bytes() {
    assert!(path_contains("données/été/fichier.txt", "été"));
    assert!(path_contains("données/été/fichier.txt", "/fichier"));
    assert!(!path_contains("données/été", "ete"));
}

#[test]
fn path_contains_agrees_with_the_search_of_strings() {
    let texts = ["", "a", "ab", "a/b", "a/b/c", "aa/ab/ba", "/", "//", "a//b", "log/log.log"];
    for text in texts {
        for pattern in texts {
            assert_eq!(path_contains(text, pattern), text.contains(pattern));
        }
    }
}

#[test]
fn is_subdir_looks_at_whole_components() {
    assert!(is_subdir("directory/to/check/for/sub/directory", "for"));
    assert!(is_subdir("directory/to/check/for/sub/directory", "directory"));
    assert!(!is_subdir("directory/to/check/for/sub/directory", "direct"));
    assert!(!is_subdir("directory/to/check/for/sub/directory", "fo"));
    assert!(!is_subdir("directory/to/check/for/sub/directory", "or"));
    assert!(!is_subdir("directory/to/check/for/sub/directory", "to/check"));
}

#[test]
fn is_subdir_finds_the_last_component_too() {
    assert!(is_subdir("var/log", "log"));
    assert!(is_subdir("var/app.log", "app.log"));
    assert!(is_subdir("log", "log"));
    assert!(is_subdir("/log", "log"));
    assert!(is_subdir("log/", "log"));
    assert!(is_subdir("a//log//b", "log"));
}

#[test]
fn is_subdir_knows_no_component_that_is_not_normal() {
    assert!(!is_subdir("a/./b", "."));
    assert!(!is_subdir("a/../b", ".."));
    assert!(!is_subdir("a//b", ""));
    assert!(!is_subdir("", ""));
    assert!(!is_subdir("/", "/"));
    assert!(!is_subdir("a/b", "a/b"));
    assert!(!is_subdir("a/b", "a/"));
    assert!(is_subdir("a/.../b", "..."));
    assert!(is_subdir("a/.b/c", ".b"));
}

#[test]
fn is_subdir_agrees_with_the_components_of_a_path() {
    let paths = ["", "a", "a/b", "/a/b/", "a//b", "./a/../b", "ab/a", "a/ab", "..", "/", "x/./y"];
    let names = ["", "a", "b", "ab", ".", "..", "/", "a/", "a/b", "x", "y"];
    for path in paths {
        for name in names {
            let expected = Path::new(path).components().any(|c| match c {
                std::path::Component::Normal(p) => p == Path::new(name).as_os_str(),
                _ => false,
            });
            assert_eq!(is_subdir(path, name), expected, "{:?} in {:?}", name, path);
        }
    }
}

#[test]
fn joins_a_name_to_a_path() {
    assert_eq!(join_path("some/root/path", "0000"), "some/root/path/0000");
    assert_eq!(join_path("some/root/path/", "0000"), "some/root/path/0000");
    assert_eq!(join_path("", "name"), "name");
    assert_eq!(join_path("/", "name"), "/name");
    assert_eq!(join_path("base", "/from/the/root"), "/from/the/root");
    assert_eq!(join_path("base", ""), "base/");
    assert_eq!(join_path("base", "a/b"), "base/a/b");
}

#[test]
fn join_agrees_with_the_join_of_paths() {
    let parts = ["", "a", "a/", "/", "/a", "a/b", "a b", "..", "."];
    for base in parts {
        for name in parts {
            let expected = Path::new(base).join(name);
            assert_eq!(join_path(base, name), expected.to_str().unwrap());
        }
    }
}

#[test]
fn chars_are_those_of_the_text() {
    assert_eq!(chars_of("a/é"), vec!['a', '/', 'é']);
    assert!(chars_of("").is_empty());
}

#[test]
fn filters_match_as_their_kind_says() {
    assert!(matches_filter("/tmp/x/fourth.rb", &FtFilter::Raw("fourth".to_string())));
    assert!(!matches_filter("/tmp/x/third.js", &FtFilter::Raw("fourth".to_string())));
    assert!(matches_filter("/tmp/x/third.js", &FtFilter::Path("x/third".to_string())));
    assert!(!matches_filter("/tmp/x/third.js", &FtFilter::Path("y/third".to_string())));
    let re = FtFilter::Regex(Regex::new(r"(.*)\.rs").unwrap());
    assert!(matches_filter("/tmp/x/first.rs", &re));
    assert!(!matches_filter("/tmp/x/third.js", &re));
}

#[test]
fn a_regex_filter_is_asked_and_not_searched_as_text() {
    let re = FtFilter::Regex(Regex::new(r"^[0-9]+$").unwrap());
    assert!(matches_filter("0042", &re));
    assert!(!matches_filter("^[0-9]+$", &re));
    assert!(!matches_filter("a0042", &re));
}

#[test]
fn the_two_text_filters_agree() {
    let paths = ["", "a", "/tmp/a/b.txt", "b.txt", "tmp"];
    let pieces = ["", "a", "tmp/a", "b.txt", "/b", "x"];
    for path in paths {
        for piece in pieces {
            assert_eq!(
                matches_filter(path, &FtFilter::Raw(piece.to_string())),
                matches_filter(path, &FtFilter::Path(piece.to_string()))
            );
        }
    }
}

#[test]
fn ancestors_of_a_resolved_path() {
    assert!(filehelpers::is_subdir("/home/user/project/src", "/home/user"));
    assert!(filehelpers::is_subdir("/home/user", "/home/user"));
    assert!(filehelpers::is_subdir("/home/user", "/"));
    assert!(!filehelpers::is_subdir("/home/username", "/home/user"));
    assert!(!filehelpers::is_subdir("/home/user", "/home/user/project"));
    assert!(!filehelpers::is_subdir("/home/user", "/var"));
    assert!(!filehelpers::is_subdir("/home/user", ""));
}

#[test]
fn ancestors_agree_with_the_ancestors_of_a_path() {
    let paths = ["/", "/a", "/a/b", "/a/b/c", "/ab", "/a/bc", "/b"];
    for path in paths {
        for directory in paths {
            let expected = Path::new(path).ancestors().any(|a| a == Path::new(directory));
            assert_eq!(filehelpers::is_subdir(path, directory), expected);
        }
    }
}

#[test]
fn plain_path_contains_is_the_same_test() {
    assert!(filehelpers::path_contains("I/am/a/path", "a/path"));
    assert!(!filehelpers::path_contains("I/am/a/path", "not"));
}

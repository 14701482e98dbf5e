//! Helpers for simple file and folder work.
//!
//! The crate holds the rules of these helpers as functions over path text:
//!
//! * which directories a creation request asks for,
//! * whether a path holds a pattern or a component,
//! * which entries a listing collects, and into which directories it descends,
//! * how names for files and directories are put together.
//!
//! Nothing here touches a disk. A caller reads directories and creates them,
//! and hands what it found to these functions as plain values; a path is a
//! `String` whose components are separated by `/`.

use vstd::prelude::*;

pub mod filehelpers;
pub mod filenaming;
pub mod naming;
pub mod sync;
pub mod tree;
pub mod util;

verus! {

/// `regex::Regex`, a compiled regular expression. Nothing of what it holds
/// is seen here: a value of it is carried to `regex::Regex::is_match`.
#[verifier::external_type_specification]
#[verifier::external_body]
pub struct ExRegex(regex::Regex);

/// What `regex::Regex::is_match` answers for a compiled expression and a
/// text: whether the expression matches anywhere in the text.
pub uninterp spec fn regex_matches(re: regex::Regex, haystack: Seq<char>) -> bool;

/// `regex::Regex::is_match` searches `haystack` for a match of the
/// expression. Its answer depends on the expression and the text alone; the
/// contract gives that answer the name `regex_matches` and claims nothing
/// of which texts match.
pub assume_specification[ regex::Regex::is_match ](re: &regex::Regex, haystack: &str) -> (found:
    bool)
    ensures
        found == regex_matches(*re, haystack@),
;

/// Filter types for listing files and directories.
#[derive(Debug)]
pub enum FtFilter {
    /// Keeps the paths that contain this text.
    Raw(String),
    /// Keeps the paths that contain this piece of a path.
    Path(String),
    /// Keeps the paths in which this expression finds a match.
    Regex(regex::Regex),
}

/// `pattern` stands in `text` at position `at`.
pub open spec fn occurs_at(text: Seq<char>, pattern: Seq<char>, at: int) -> bool {
    &&& 0 <= at
    &&& at + pattern.len() <= text.len()
    &&& text.subrange(at, at + pattern.len()) == pattern
}

/// `pattern` is a contiguous run of characters of `text`.
pub open spec fn contains_text(text: Seq<char>, pattern: Seq<char>) -> bool {
    exists|at: int| occurs_at(text, pattern, at)
}

/// `name` can be a normal component of a path: it is not empty, holds no
/// separator, and is neither `.` nor `..`.
pub open spec fn is_normal_name(name: Seq<char>) -> bool {
    &&& name.len() > 0
    &&& forall|k: int| 0 <= k < name.len() ==> name[k] != '/'
    &&& name != seq!['.']
    &&& name != seq!['.', '.']
}

/// `name` stands in `path` at position `at` as a whole component: a separator
/// or an end of the text lies on either side of it.
pub open spec fn component_at(path: Seq<char>, name: Seq<char>, at: int) -> bool {
    &&& occurs_at(path, name, at)
    &&& (at == 0 || path[at - 1] == '/')
    &&& (at + name.len() == path.len() || path[at + name.len()] == '/')
}

/// One of the normal components of `path` is `name`.
pub open spec fn has_component(path: Seq<char>, name: Seq<char>) -> bool {
    is_normal_name(name) && exists|at: int| component_at(path, name, at)
}

/// The characters of `s`, in order.
pub fn chars_of(s: &str) -> (v: Vec<char>)
    ensures
        v@ == s@,
{
    let mut v: Vec<char> = Vec::new();
    for c in it: s.chars()
        invariant
            v@ == it.seq().take(it.index()),
            it.seq() == s@,
    {
        v.push(c);
    }
    v
}

/// Whether `pattern` stands in `text` at `at`.
fn matches_at(text: &Vec<char>, pattern: &Vec<char>, at: usize) -> (found: bool)
    requires
        at + pattern.len() <= text.len(),
    ensures
        found == occurs_at(text@, pattern@, at as int),
{
    let mut k: usize = 0;
    while k < pattern.len()
        invariant
            at + pattern.len() <= text.len(),
            k <= pattern.len(),
            forall|j: int| 0 <= j < k ==> text@[at + j] == pattern@[j],
        decreases pattern.len() - k,
    {
        if text[at + k] != pattern[k] {
            assert(text@.subrange(at as int, at + pattern.len())[k as int] != pattern@[k as int]);
            return false;
        }
        k += 1;
    }
    assert(text@.subrange(at as int, at + pattern.len()) =~= pattern@);
    true
}

/// Determines if a path contains a given pattern.
///
/// Both are taken as text, and the answer is whether the pattern is a
/// contiguous part of the path. The empty pattern is part of every path.
pub fn path_contains(path: &str, pattern: &str) -> (found: bool)
    ensures
        found == contains_text(path@, pattern@),
{
    let text = chars_of(path);
    let pat = chars_of(pattern);
    if pat.len() > text.len() {
        return false;
    }
    let last: usize = text.len() - pat.len();
    let mut at: usize = 0;
    loop
        invariant
            text@ == path@,
            pat@ == pattern@,
            last + pat.len() == text.len(),
            at <= last,
            forall|a: int| 0 <= a < at ==> !occurs_at(text@, pat@, a),
        decreases last - at,
    {
        if matches_at(&text, &pat, at) {
            return true;
        }
        if at == last {
            return false;
        }
        at += 1;
    }
}

/// Checks if one of the normal components of `path` is `dir`.
///
/// A normal component is a part of the path between separators that is not
/// empty and is neither `.` nor `..`. The test compares components: it is
/// true of a component at any depth, the last one included, and says nothing
/// on what lies on a disk. A `dir` that is no single normal component, such
/// as `a/b` or the empty text, is found in no path.
pub fn is_subdir(path: &str, dir: &str) -> (found: bool)
    ensures
        found == has_component(path@, dir@),
{
    let text = chars_of(path);
    let name = chars_of(dir);
    if !normal_name(&name) || name.len() > text.len() {
        return false;
    }
    let last: usize = text.len() - name.len();
    let mut at: usize = 0;
    loop
        invariant
            text@ == path@,
            name@ == dir@,
            is_normal_name(name@),
            last + name.len() == text.len(),
            at <= last,
            forall|a: int| 0 <= a < at ==> !component_at(text@, name@, a),
        decreases last - at,
    {
        let starts = at == 0 || text[at - 1] == '/';
        let ends = at == last || text[at + name.len()] == '/';
        if starts && ends && matches_at(&text, &name, at) {
            assert(component_at(text@, name@, at as int));
            return true;
        }
        if at == last {
            return false;
        }
        at += 1;
    }
}

/// Whether `name` can be a normal component of a path.
fn normal_name(name: &Vec<char>) -> (normal: bool)
    ensures
        normal == is_normal_name(name@),
{
    if name.len() == 0 {
        return false;
    }
    if name.len() == 1 && name[0] == '.' {
        assert(name@ =~= seq!['.']);
        return false;
    }
    if name.len() == 2 && name[0] == '.' && name[1] == '.' {
        assert(name@ =~= seq!['.', '.']);
        return false;
    }
    assert(name@ != seq!['.']) by {
        if name@ == seq!['.'] {
            assert(seq!['.'].len() == 1);
            assert(seq!['.'][0] == '.');
        }
    }
    assert(name@ != seq!['.', '.']) by {
        if name@ == seq!['.', '.'] {
            assert(seq!['.', '.'].len() == 2);
            assert(seq!['.', '.'][0] == '.');
            assert(seq!['.', '.'][1] == '.');
        }
    }
    let mut k: usize = 0;
    while k < name.len()
        invariant
            k <= name.len(),
            forall|j: int| 0 <= j < k ==> name@[j] != '/',
        decreases name.len() - k,
    {
        if name[k] == '/' {
            return false;
        }
        k += 1;
    }
    true
}

/// The path of `name` inside `base`. A `name` that starts at the root stands
/// for itself; any other follows `base`, with a separator between the two
/// unless `base` is empty or ends with one.
pub open spec fn joined(base: Seq<char>, name: Seq<char>) -> Seq<char> {
    if name.len() > 0 && name[0] == '/' {
        name
    } else if base.len() == 0 || base.last() == '/' {
        base + name
    } else {
        base + seq!['/'] + name
    }
}

/// Joins `name` to the path `base`.
pub fn join_path(base: &str, name: &str) -> (path: String)
    ensures
        path@ == joined(base@, name@),
{
    let head = chars_of(name);
    if head.len() > 0 && head[0] == '/' {
        return String::from_str(name);
    }
    let stem = chars_of(base);
    let mut path = String::from_str(base);
    if stem.len() > 0 && stem[stem.len() - 1] != '/' {
        path.push('/');
    }
    path.append(name);
    assert(path@ =~= joined(base@, name@));
    path
}

} // verus!

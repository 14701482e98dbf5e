//! Functions that generate names, for callers that hold an extension with
//! its dot.
//!
//! An extension is taken with or without a dot in front: the name gets one
//! dot either way, and none for the empty extension.

use crate::naming::{
    is_plain_format, is_uuid4_text, lemma_default_format_is_plain, random_uuid_text,
    utc_timestamp, zero_padded,
};
use vstd::prelude::*;

verus! {

/// The extension as it stands at the end of a name: the extension where it
/// is empty or starts with a dot, else a dot and the extension.
pub open spec fn dotted(ext: Seq<char>) -> Seq<char> {
    if ext.len() == 0 || ext[0] == '.' {
        ext
    } else {
        seq!['.'] + ext
    }
}

/// The name of a file stamped with a time: the stamp alone where `fname` is
/// empty, else the name, an underscore and the stamp; then the extension.
pub open spec fn stamped(fname: Seq<char>, stamp: Seq<char>, ext: Seq<char>) -> Seq<char> {
    if fname.len() == 0 {
        stamp + dotted(ext)
    } else {
        fname + seq!['_'] + stamp + dotted(ext)
    }
}

/// A whole number in decimal digits, filled with zeros up to `width`
/// characters. The sign of a negative number comes first and counts as one
/// of the characters.
pub open spec fn signed_padded(number: int, width: nat) -> Seq<char> {
    if number >= 0 {
        zero_padded(number as nat, width)
    } else {
        seq!['-'] + zero_padded(
            (-number) as nat,
            if width > 0 {
                (width - 1) as nat
            } else {
                0
            },
        )
    }
}

/// Appends an extension to a text, with one dot between the two.
fn append_dotted(text: &mut String, ext: &str)
    ensures
        final(text)@ == old(text)@ + dotted(ext@),
{
    let mut first = ext.chars();
    let ghost before = text@;
    match first.next() {
        None => {
            assert(ext@.len() == 0);
            assert(text@ =~= before + dotted(ext@));
        },
        Some(c) => {
            assert(ext@.len() > 0 && ext@[0] == c);
            if c != '.' {
                text.push('.');
            }
            text.append(ext);
            assert(text@ =~= before + dotted(ext@));
        },
    }
}

/// Generates a name from a stem and an extension.
pub fn generate_name(name: &str, ext: &str) -> (full: String)
    ensures
        full@ == name@ + dotted(ext@),
{
    let mut full = String::from_str(name);
    append_dotted(&mut full, ext);
    full
}

/// Puts a name together from a stem, a timestamp and an extension. If
/// `fname` is empty, the name is the timestamp and the extension.
pub fn stamped_name(fname: &str, stamp: &str, ext: &str) -> (name: String)
    ensures
        name@ == stamped(fname@, stamp@, ext@),
{
    let mut name = String::from_str(fname);
    if !fname.is_empty() {
        name.push('_');
    }
    name.append(stamp);
    append_dotted(&mut name, ext);
    assert(name@ =~= stamped(fname@, stamp@, ext@));
    name
}

/// Generates a name from a stem and an extension, with the time of the call
/// in UTC between them, written as day, month, year, hour, minute and second
/// (`DD_MM_YYYY_HHhMMmSSs`). If `fname` is empty, the name is the timestamp
/// and the extension.
pub fn generate_default_timestamped_name(fname: &str, ext: &str) -> (name: String)
    ensures
        exists|stamp: Seq<char>| name@ == stamped(fname@, stamp, ext@),
{
    proof {
        lemma_default_format_is_plain();
    }
    let stamp = utc_timestamp("%d_%m_%Y_%Hh%Mm%Ss").unwrap();
    stamped_name(fname, stamp.as_str(), ext)
}

/// Generates a name from a stem and an extension, with the time of the call
/// in UTC between them, written in the format `fmt`. If `fname` is empty,
/// the name is the timestamp and the extension.
///
/// There is no name where `fmt` holds a specifier that is not known. A
/// format of plain text and of the specifiers `%d`, `%m`, `%Y`, `%H`, `%M`
/// and `%S` always gives one.
pub fn generate_timestamped_name(fname: &str, ext: &str, fmt: &str) -> (name: Option<String>)
    ensures
        is_plain_format(fmt@) ==> name is Some,
        name matches Some(n) ==> exists|stamp: Seq<char>| n@ == stamped(fname@, stamp, ext@),
{
    match utc_timestamp(fmt) {
        Some(stamp) => Some(stamped_name(fname, stamp.as_str(), ext)),
        None => None,
    }
}

/// Generates a name from a random identifier of version 4 and an extension.
pub fn generate_random_name(ext: &str) -> (name: String)
    ensures
        exists|id: Seq<char>| is_uuid4_text(id) && name@ == id + dotted(ext@),
{
    let unique = random_uuid_text();
    generate_name(unique.as_str(), ext)
}

/// Generates a name from a `number` filled with zeros in front up to
/// `n_digits` characters, and an extension. A negative number keeps its
/// sign in front of the zeros.
pub fn generate_n_digit_name(number: i32, n_digits: usize, ext: &str) -> (name: String)
    ensures
        name@ == signed_padded(number as int, n_digits as nat) + dotted(ext@),
{
    let mut name = String::new();
    let digits = if number >= 0 {
        crate::naming::generate_n_digit_name(number as usize, n_digits, "")
    } else {
        name.push('-');
        let size: usize = (-(number as i64)) as usize;
        let width: usize = if n_digits > 0 {
            n_digits - 1
        } else {
            0
        };
        crate::naming::generate_n_digit_name(size, width, "")
    };
    proof {
        reveal_strlit("");
    }
    name.append(digits.as_str());
    assert(name@ =~= signed_padded(number as int, n_digits as nat));
    append_dotted(&mut name, ext);
    name
}

} // verus!

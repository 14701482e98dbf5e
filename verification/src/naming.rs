//! Functions that generate names for files and directories.
//!
//! A name is a stem followed by an extension. The stem is given, or is a
//! timestamp, a random identifier or a zero-padded number. An extension is
//! given without its dot; the empty extension adds nothing to a name.

use vstd::prelude::*;

verus! {

/// `String::push` appends one character to the end of the text.
pub assume_specification[ String::push ](text: &mut String, ch: char)
    ensures
        final(text)@ == old(text)@.push(ch),
;

/// The extension as it stands at the end of a name: a dot and the extension,
/// or nothing where the extension is empty.
pub open spec fn extension(ext: Seq<char>) -> Seq<char> {
    if ext.len() == 0 {
        Seq::empty()
    } else {
        seq!['.'] + ext
    }
}

/// The character of a decimal digit.
pub open spec fn digit_char(digit: int) -> char {
    if digit == 0 {
        '0'
    } else if digit == 1 {
        '1'
    } else if digit == 2 {
        '2'
    } else if digit == 3 {
        '3'
    } else if digit == 4 {
        '4'
    } else if digit == 5 {
        '5'
    } else if digit == 6 {
        '6'
    } else if digit == 7 {
        '7'
    } else if digit == 8 {
        '8'
    } else {
        '9'
    }
}

/// The decimal digits of `number`, the most significant first, without
/// leading zeros; zero is the single digit `0`.
pub open spec fn decimal(number: nat) -> Seq<char>
    decreases number,
{
    if number < 10 {
        seq![digit_char(number as int)]
    } else {
        decimal(number / 10).push(digit_char((number % 10) as int))
    }
}

/// `number` in decimal digits, with zeros in front up to `width` characters;
/// a number with more digits than `width` keeps them all.
pub open spec fn zero_padded(number: nat, width: nat) -> Seq<char> {
    let digits = decimal(number);
    if digits.len() >= width {
        digits
    } else {
        Seq::new((width - digits.len()) as nat, |i: int| '0') + digits
    }
}

/// The default form of a timestamp: day, month, year, hour, minute and
/// second, as `%d_%m_%Y_%Hh%Mm%Ss`.
pub open spec fn default_format() -> Seq<char> {
    "%d_%m_%Y_%Hh%Mm%Ss"@
}

/// A timestamp format made of plain text and of the six specifiers for day,
/// month, year, hour, minute and second: each `%` is followed by one of `d`,
/// `m`, `Y`, `H`, `M`, `S`.
pub open spec fn is_plain_format(format: Seq<char>) -> bool {
    forall|i: int|
        0 <= i < format.len() && #[trigger] format[i] == '%' ==> i + 1 < format.len() && (format[i
            + 1] == 'd' || format[i + 1] == 'm' || format[i + 1] == 'Y' || format[i + 1] == 'H'
            || format[i + 1] == 'M' || format[i + 1] == 'S')
}

/// The name of a file stamped with a time: the stamp alone where `fname` is
/// empty, else the name, an underscore and the stamp; then the extension.
pub open spec fn timestamped(fname: Seq<char>, stamp: Seq<char>, ext: Seq<char>) -> Seq<char> {
    if fname.len() == 0 {
        stamp + extension(ext)
    } else {
        fname + seq!['_'] + stamp + extension(ext)
    }
}

/// A digit of the lower-case hexadecimal notation.
pub open spec fn is_lower_hex(c: char) -> bool {
    ('0' <= c && c <= '9') || ('a' <= c && c <= 'f')
}

/// The text of a random identifier of version 4 in its hyphenated form:
/// groups of 8, 4, 4, 4 and 12 lower-case hexadecimal digits with a hyphen
/// between them, the third group starting with `4`, the fourth with `8`,
/// `9`, `a` or `b`.
pub open spec fn is_uuid4_text(text: Seq<char>) -> bool {
    &&& text.len() == 36
    &&& text[8] == '-' && text[13] == '-' && text[18] == '-' && text[23] == '-'
    &&& forall|i: int|
        0 <= i < 36 && i != 8 && i != 13 && i != 18 && i != 23 ==> is_lower_hex(
            #[trigger] text[i],
        )
    &&& text[14] == '4'
    &&& (text[19] == '8' || text[19] == '9' || text[19] == 'a' || text[19] == 'b')
}

/// Helper for making extensions: prepends a dot, unless there is no
/// extension.
pub fn make_extension(ext: &str) -> (dotted: String)
    ensures
        dotted@ == extension(ext@),
{
    if ext.is_empty() {
        return String::new();
    }
    let mut dotted = String::new();
    dotted.push('.');
    dotted.append(ext);
    assert(dotted@ =~= seq!['.'] + ext@);
    dotted
}

/// Generates a name from a stem and an extension.
pub fn generate_name(name: &str, ext: &str) -> (full: String)
    ensures
        full@ == name@ + extension(ext@),
{
    let mut full = String::from_str(name);
    let dotted = make_extension(ext);
    full.append(dotted.as_str());
    full
}

/// The character of a decimal digit.
fn digit_of(digit: usize) -> (c: char)
    requires
        digit < 10,
    ensures
        c == digit_char(digit as int),
{
    if digit == 0 {
        '0'
    } else if digit == 1 {
        '1'
    } else if digit == 2 {
        '2'
    } else if digit == 3 {
        '3'
    } else if digit == 4 {
        '4'
    } else if digit == 5 {
        '5'
    } else if digit == 6 {
        '6'
    } else if digit == 7 {
        '7'
    } else if digit == 8 {
        '8'
    } else {
        '9'
    }
}

/// The decimal digits of `number`, the least significant first.
fn digits_from_low(number: usize) -> (low: Vec<char>)
    ensures
        low@.reverse() == decimal(number as nat),
        low@.len() > 0,
{
    let mut low: Vec<char> = Vec::new();
    low.push(digit_of(number % 10));
    let mut rest: usize = number / 10;
    proof {
        assert(low@.reverse() =~= seq![digit_char((number % 10) as int)]);
        if number >= 10 {
            assert(decimal(number as nat) == decimal(rest as nat).push(
                digit_char((number % 10) as int),
            ));
            assert(decimal(number as nat) =~= decimal(rest as nat) + low@.reverse());
        }
    }
    while rest > 0
        invariant
            low@.len() > 0,
            rest == 0 ==> decimal(number as nat) == low@.reverse(),
            rest > 0 ==> decimal(number as nat) == decimal(rest as nat) + low@.reverse(),
        decreases rest,
    {
        let ghost before = low@;
        low.push(digit_of(rest % 10));
        proof {
            assert(low@.reverse() =~= seq![digit_char((rest % 10) as int)] + before.reverse());
            if rest < 10 {
                assert(decimal(rest as nat) =~= seq![digit_char((rest % 10) as int)]);
            } else {
                assert(decimal(rest as nat) == decimal((rest / 10) as nat).push(
                    digit_char((rest % 10) as int),
                ));
                assert(decimal(rest as nat) + before.reverse() =~= decimal((rest / 10) as nat)
                    + low@.reverse());
            }
        }
        rest = rest / 10;
    }
    low
}

/// Generates a name from a `number` filled with zeros in front up to `fill`
/// digits, and an extension.
///
/// A number of more than `fill` digits keeps all of them. If `ext` is empty,
/// the name is the filled number alone.
pub fn generate_n_digit_name(number: usize, fill: usize, ext: &str) -> (name: String)
    ensures
        name@ == zero_padded(number as nat, fill as nat) + extension(ext@),
{
    let low = digits_from_low(number);
    let ghost digits = decimal(number as nat);
    let mut name = String::new();
    let mut zeros: usize = 0;
    if fill > low.len() {
        let missing: usize = fill - low.len();
        while zeros < missing
            invariant
                zeros <= missing,
                name@ == Seq::new(zeros as nat, |i: int| '0'),
            decreases missing - zeros,
        {
            name.push('0');
            zeros += 1;
            assert(name@ =~= Seq::new(zeros as nat, |i: int| '0'));
        }
    }
    let ghost front = name@;
    let mut left: usize = low.len();
    while left > 0
        invariant
            left <= low@.len(),
            low@.reverse() == digits,
            name@ == front + digits.take(low@.len() - left),
        decreases left,
    {
        left -= 1;
        name.push(low[left]);
        proof {
            let at = low@.len() - left - 1;
            assert(digits[at] == low@[left as int]);
            assert(digits.take(at + 1) =~= digits.take(at).push(digits[at]));
            assert(name@ =~= front + digits.take(at + 1));
        }
    }
    assert(digits.take(digits.len() as int) =~= digits);
    assert(name@ =~= zero_padded(number as nat, fill as nat));
    let dotted = make_extension(ext);
    name.append(dotted.as_str());
    name
}

/// Puts a name together from a stem, a timestamp and an extension. If
/// `fname` is empty, the name is the timestamp and the extension.
pub fn timestamped_name(fname: &str, stamp: &str, ext: &str) -> (name: String)
    ensures
        name@ == timestamped(fname@, stamp@, ext@),
{
    let mut name = String::from_str(fname);
    if !fname.is_empty() {
        name.push('_');
    }
    name.append(stamp);
    let dotted = make_extension(ext);
    name.append(dotted.as_str());
    assert(name@ =~= timestamped(fname@, stamp@, ext@));
    name
}

/// Reads the clock and writes the time in UTC in the given format:
/// `chrono::Utc::now`, `chrono::DateTime::format` and
/// `chrono::format::DelayedFormat::write_to`. The answer is `None` where the
/// format holds a specifier that chrono does not know. What the text holds
/// depends on the clock, and nothing is claimed of it; the one claim is that
/// a format of plain text and the specifiers `%d`, `%m`, `%Y`, `%H`, `%M`,
/// `%S` is always written. The call panics on a clock that stands before
/// 1970.
#[verifier::external_body]
pub(crate) fn utc_timestamp(format: &str) -> (stamp: Option<String>)
    ensures
        is_plain_format(format@) ==> stamp is Some,
{
    let mut text = String::new();
    match chrono::Utc::now().format(format).write_to(&mut text) {
        Ok(()) => Some(text),
        Err(_) => None,
    }
}

/// Draws a random identifier and writes it out: `uuid::Uuid::new_v4` and the
/// `Display` of `uuid::Uuid`. Which identifier comes is left to chance; the
/// contract states the form that every one of them is written in. The call
/// panics where the system has no random numbers to give.
#[verifier::external_body]
pub(crate) fn random_uuid_text() -> (text: String)
    ensures
        is_uuid4_text(text@),
{
    uuid::Uuid::new_v4().to_string()
}

/// The default format is made of plain text and known specifiers alone.
pub proof fn lemma_default_format_is_plain()
    ensures
        is_plain_format(default_format()),
{
    reveal_strlit("%d_%m_%Y_%Hh%Mm%Ss");
    let f = default_format();
    assert(f.len() == 18);
    assert forall|i: int| 0 <= i < f.len() && #[trigger] f[i] == '%' implies i + 1 < f.len() && (
    f[i + 1] == 'd' || f[i + 1] == 'm' || f[i + 1] == 'Y' || f[i + 1] == 'H' || f[i + 1] == 'M'
        || f[i + 1] == 'S') by {
        assert(i == 0 || i == 3 || i == 6 || i == 9 || i == 12 || i == 15 || f[i] != '%');
    }
}

/// Generates a name from a stem and an extension, with the time of the call
/// in UTC between them, written as day, month, year, hour, minute and second
/// (`DD_MM_YYYY_HHhMMmSSs`). If `fname` is empty, the name is the timestamp
/// and the extension.
pub fn generate_timestamped_name(fname: &str, ext: &str) -> (name: String)
    ensures
        exists|stamp: Seq<char>| name@ == timestamped(fname@, stamp, ext@),
{
    proof {
        lemma_default_format_is_plain();
    }
    let stamp = utc_timestamp("%d_%m_%Y_%Hh%Mm%Ss").unwrap();
    timestamped_name(fname, stamp.as_str(), ext)
}

/// Generates a name from a random identifier of version 4 and an extension.
pub fn generate_uuid4_name(ext: &str) -> (name: String)
    ensures
        exists|id: Seq<char>| is_uuid4_text(id) && name@ == id + extension(ext@),
{
    let unique = random_uuid_text();
    generate_name(unique.as_str(), ext)
}

} // verus!

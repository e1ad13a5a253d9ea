//! Character-level text helpers shared by the buffer and the editor:
//! conversions between `&str`/`String` and `Vec<char>`, character
//! classification used by indentation and the highlighter, and decimal
//! rendering of counters for status messages.

use vstd::prelude::*;

verus! {

use vstd::string::StrSliceExecFns;

/// A whitespace character for the purposes of indentation and trimming:
/// a space or a tab.
pub open spec fn spec_is_white(c: char) -> bool {
    c == ' ' || c == '\t'
}

/// Executable counterpart of [`spec_is_white`].
#[verifier::when_used_as_spec(spec_is_white)]
pub fn is_white(c: char) -> (r: bool)
    ensures
        r == spec_is_white(c),
{
    c == ' ' || c == '\t'
}

/// An ASCII decimal digit.
pub open spec fn spec_is_digit(c: char) -> bool {
    48 <= c as int <= 57
}

/// Executable counterpart of [`spec_is_digit`].
#[verifier::when_used_as_spec(spec_is_digit)]
pub fn is_digit(c: char) -> (r: bool)
    ensures
        r == spec_is_digit(c),
{
    let u = c as u32;
    48 <= u && u <= 57
}

/// An identifier character: an ASCII letter, an ASCII digit or an
/// underscore. Keyword highlighting demands a non-identifier character
/// on both sides of the keyword.
pub open spec fn spec_is_ident(c: char) -> bool {
    spec_is_digit(c) || (65 <= c as int <= 90) || (97 <= c as int <= 122) || c == '_'
}

/// Executable counterpart of [`spec_is_ident`].
#[verifier::when_used_as_spec(spec_is_ident)]
pub fn is_ident(c: char) -> (r: bool)
    ensures
        r == spec_is_ident(c),
{
    let u = c as u32;
    is_digit(c) || (65 <= u && u <= 90) || (97 <= u && u <= 122) || c == '_'
}

/// The characters of a string slice, in order.
pub fn str_chars(s: &str) -> (r: Vec<char>)
    ensures
        r@ == s@,
{
    let n = s.unicode_len();
    let mut r: Vec<char> = Vec::new();
    let mut i: usize = 0;
    while i < n
        invariant
            i <= n,
            n == s@.len(),
            r@ == s@.take(i as int),
        decreases n - i,
    {
        r.push(s.get_char(i));
        i += 1;
    }
    proof {
        assert(s@.take(n as int) =~= s@);
    }
    r
}

/// Relies on `String`'s `FromIterator<char>` impl: collecting characters
/// yields the string holding exactly those characters in order.
#[verifier::external_body]
pub fn chars_to_string(cs: &Vec<char>) -> (r: String)
    ensures
        r@ == cs@,
{
    cs.iter().collect()
}

/// The character for a single decimal digit value.
pub open spec fn spec_digit_char(d: nat) -> char {
    if d == 0 {
        '0'
    } else if d == 1 {
        '1'
    } else if d == 2 {
        '2'
    } else if d == 3 {
        '3'
    } else if d == 4 {
        '4'
    } else if d == 5 {
        '5'
    } else if d == 6 {
        '6'
    } else if d == 7 {
        '7'
    } else if d == 8 {
        '8'
    } else {
        '9'
    }
}

/// The decimal digits of `n`, most significant first.
pub open spec fn spec_decimal(n: nat) -> Seq<char>
    decreases n,
{
    let last = spec_digit_char(n % 10);
    if n < 10 {
        seq![last]
    } else {
        spec_decimal(n / 10).push(last)
    }
}

/// The character for a single decimal digit value.
fn digit_char(d: u64) -> (c: char)
    requires
        d < 10,
    ensures
        c == spec_digit_char(d as nat),
{
    match d {
        0 => '0',
        1 => '1',
        2 => '2',
        3 => '3',
        4 => '4',
        5 => '5',
        6 => '6',
        7 => '7',
        8 => '8',
        _ => '9',
    }
}

/// The decimal rendering of `n`, as characters.
pub fn decimal_chars(n: u64) -> (r: Vec<char>)
    ensures
        r@ == spec_decimal(n as nat),
    decreases n,
{
    let mut r: Vec<char> = if n >= 10 {
        decimal_chars(n / 10)
    } else {
        Vec::new()
    };
    r.push(digit_char(n % 10));
    r
}

/// Append the decimal rendering of `n` to a string under construction.
pub fn push_decimal(out: &mut Vec<char>, n: u64)
    ensures
        final(out)@ == old(out)@ + spec_decimal(n as nat),
{
    let mut ds = decimal_chars(n);
    let ghost prefix = out@;
    let mut i: usize = 0;
    while i < ds.len()
        invariant
            i <= ds@.len(),
            ds@ == spec_decimal(n as nat),
            out@ == prefix + ds@.take(i as int),
        decreases ds@.len() - i,
    {
        out.push(ds[i]);
        i += 1;
    }
    proof {
        assert(ds@.take(ds@.len() as int) =~= ds@);
    }
}

/// Append every character of a string slice to a character buffer.
pub fn push_str_chars(out: &mut Vec<char>, s: &str)
    ensures
        final(out)@ == old(out)@ + s@,
{
    let cs = str_chars(s);
    let ghost prefix = out@;
    let mut i: usize = 0;
    while i < cs.len()
        invariant
            i <= cs@.len(),
            cs@ == s@,
            out@ == prefix + cs@.take(i as int),
        decreases cs@.len() - i,
    {
        out.push(cs[i]);
        i += 1;
    }
    proof {
        assert(cs@.take(cs@.len() as int) =~= cs@);
    }
}

} // verus!

//! Small text helpers shared by the request builders.

use vstd::prelude::*;
use vstd::string::StringExecFns;
use vstd::utf8::{decode_utf8, valid_utf8};

verus! {

/// `needle` occurs in `hay` as a contiguous run of characters.
pub open spec fn occurs_in(needle: Seq<char>, hay: Seq<char>) -> bool {
    exists|i: int|
        0 <= i && i + needle.len() <= hay.len() && #[trigger] hay.subrange(i, i + needle.len())
            == needle
}

/// `prefix` stands at the start of `text`.
pub open spec fn starts_with(prefix: Seq<char>, text: Seq<char>) -> bool {
    prefix.len() <= text.len() && text.subrange(0, prefix.len() as int) == prefix
}

/// The character of a decimal digit.
pub open spec fn digit_char(d: nat) -> char
    recommends
        d < 10,
{
    if d == 0 {
        '0'
    } else if d == 1 {
        '1'
    } else if d == 2 {
        '2'
    } else if d == 3 {
        '3'
    } else if d == 4 {
        '4'
    } else if d == 5 {
        '5'
    } else if d == 6 {
        '6'
    } else if d == 7 {
        '7'
    } else if d == 8 {
        '8'
    } else {
        '9'
    }
}

/// The decimal numeral of `n`, without sign or leading zeros.
pub open spec fn decimal(n: nat) -> Seq<char>
    decreases n,
{
    if n < 10 {
        seq![digit_char(n)]
    } else {
        decimal(n / 10).push(digit_char(n % 10))
    }
}

/// The decimal numeral of `n`, from `u64::to_string`.
///
/// Trusted: formatting an unsigned integer for display writes its decimal
/// digits, most significant first, and nothing else.
#[verifier::external_body]
pub(crate) fn decimal_string(n: u64) -> (s: String)
    ensures
        s@ == decimal(n as nat),
{
    n.to_string()
}

/// Whether `needle` occurs in `hay`, from `str::contains`.
///
/// Trusted: the search succeeds exactly where some sub-slice of `hay` equals
/// `needle`.
#[verifier::external_body]
pub(crate) fn contains_text(hay: &str, needle: &str) -> (found: bool)
    ensures
        found == occurs_in(needle@, hay@),
{
    hay.contains(needle)
}

/// Whether `text` begins with `prefix`, from `str::starts_with`.
///
/// Trusted: the test succeeds exactly where `prefix` is a prefix of `text`.
#[verifier::external_body]
pub(crate) fn has_prefix(text: &str, prefix: &str) -> (found: bool)
    ensures
        found == starts_with(prefix@, text@),
{
    text.starts_with(prefix)
}

/// The text of `a` followed by that of `b`.
pub fn join2(a: &str, b: &str) -> (s: String)
    ensures
        s@ == a@ + b@,
{
    let mut s = String::from_str(a);
    s.append(b);
    s
}

/// Whether `c` is white space in ASCII: a space, a tab, a line feed, a form
/// feed or a carriage return.
pub open spec fn is_ascii_space(c: char) -> bool {
    c == ' ' || c == '\t' || c == '\n' || c == '\u{c}' || c == '\r'
}

/// `text` without the ASCII white space at its two ends.
pub open spec fn ascii_trimmed(text: Seq<char>) -> Seq<char>
    decreases text.len(),
{
    if text.len() > 0 && is_ascii_space(text.first()) {
        ascii_trimmed(text.drop_first())
    } else if text.len() > 0 && is_ascii_space(text.last()) {
        ascii_trimmed(text.drop_last())
    } else {
        text
    }
}

/// The text that `bytes` encode, from `String::from_utf8`.
///
/// Trusted: bytes that are valid UTF-8 give the text they encode; any others
/// give none.
#[verifier::external_body]
pub(crate) fn text_from_utf8(bytes: Vec<u8>) -> (text: Option<String>)
    ensures
        text is Some <==> valid_utf8(bytes@),
        text matches Some(t) ==> t@ == decode_utf8(bytes@),
{
    String::from_utf8(bytes).ok()
}

/// `text` without the ASCII white space at its ends, from `str::trim_ascii`.
///
/// Trusted: what is taken away at either end is the longest run of ASCII
/// white space there.
#[verifier::external_body]
pub(crate) fn trim_ascii_text(text: &str) -> (t: &str)
    ensures
        t@ == ascii_trimmed(text@),
{
    text.trim_ascii()
}

} // verus!

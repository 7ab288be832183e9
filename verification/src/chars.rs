//! Character classes and case folding, as Rust's standard library defines
//! them from the Unicode tables. Each function here is a thin trusted wrapper
//! around one standard function; whitespace is listed in full, alphanumeric
//! characters within ASCII, and the rest of the tables is named, not restated.

use vstd::prelude::*;

verus! {

/// Whether `c` has the Unicode `White_Space` property, which
/// `char::is_whitespace` decides: the ASCII tab, line feed, vertical tab,
/// form feed, carriage return and space; next line (U+0085); the no-break
/// space (U+00A0); the Ogham space mark (U+1680); the spaces U+2000 to U+200A;
/// the line and paragraph separators (U+2028, U+2029); the narrow no-break
/// space (U+202F); the medium mathematical space (U+205F); and the
/// ideographic space (U+3000).
pub open spec fn is_whitespace_char(c: char) -> bool {
    let u = c as u32;
    ||| 0x09 <= u <= 0x0d
    ||| u == 0x20
    ||| u == 0x85
    ||| u == 0xa0
    ||| u == 0x1680
    ||| 0x2000 <= u <= 0x200a
    ||| u == 0x2028
    ||| u == 0x2029
    ||| u == 0x202f
    ||| u == 0x205f
    ||| u == 0x3000
}

/// Whether `c`, outside ASCII, is alphabetic or numeric in the Unicode sense,
/// as `char::is_alphanumeric` decides it.
pub uninterp spec fn is_unicode_alphanumeric(c: char) -> bool;

/// Whether `c` is alphabetic or numeric, as `char::is_alphanumeric` decides:
/// within ASCII exactly the digits and the Latin letters.
pub open spec fn is_alphanumeric_char(c: char) -> bool {
    if (c as u32) < 128 {
        ('0' <= c <= '9') || ('a' <= c <= 'z') || ('A' <= c <= 'Z')
    } else {
        is_unicode_alphanumeric(c)
    }
}

/// The lowercase mapping of a whole string, as `str::to_lowercase` computes it
/// (one character may map to several).
pub uninterp spec fn lowercase(s: Seq<char>) -> Seq<char>;

/// Calls `char::is_whitespace`. Claimed: the answer is whether `c` is one of
/// the code points with the Unicode `White_Space` property, listed in
/// `is_whitespace_char`.
#[verifier::external_body]
pub(crate) fn char_is_whitespace(c: char) -> (b: bool)
    ensures
        b == is_whitespace_char(c),
{
    c.is_whitespace()
}

/// Calls `char::is_alphanumeric`. Claimed: within ASCII the answer is true
/// exactly for digits and Latin letters; beyond it, it depends on `c` alone
/// and is named `is_unicode_alphanumeric(c)` (the Unicode tables are not
/// restated).
#[verifier::external_body]
pub(crate) fn char_is_alphanumeric(c: char) -> (b: bool)
    ensures
        b == is_alphanumeric_char(c),
        (c as u32) >= 128 ==> b == is_unicode_alphanumeric(c),
{
    c.is_alphanumeric()
}

/// Calls `str::to_lowercase`. Claimed: the characters of the result depend on
/// the characters of `s` alone and are named `lowercase(s@)`.
#[verifier::external_body]
pub(crate) fn str_to_lowercase(s: &str) -> (r: String)
    ensures
        r@ == lowercase(s@),
{
    s.to_lowercase()
}

/// Calls `String::push`. Claimed, as its documentation says: `c` is appended
/// to the end of the string.
#[verifier::external_body]
pub(crate) fn string_push(s: &mut String, c: char)
    ensures
        final(s)@ == old(s)@.push(c),
{
    s.push(c)
}

} // verus!

//! Unicode-aware character and string operations of std, with what their
//! documentation promises.

use vstd::prelude::*;
use crate::text;

verus! {

/// Whether `c` is alphabetic or numeric by Unicode's properties, as
/// `char::is_alphanumeric` decides.
pub uninterp spec fn unicode_alphanumeric(c: char) -> bool;

/// The full Unicode lower-case mapping of a string, as `str::to_lowercase` computes it.
pub uninterp spec fn unicode_lowercase(s: Seq<char>) -> Seq<char>;

/// The full Unicode upper-case mapping of one character, as `char::to_uppercase`
/// yields it.
pub uninterp spec fn unicode_uppercase(c: char) -> Seq<char>;

/// `char::is_alphanumeric`.  Claimed: the result is `unicode_alphanumeric(c)`, and on an
/// ASCII character it is true exactly for letters and digits.  Which other characters
/// count is left to Unicode's tables and not stated.
#[verifier::external_body]
pub(crate) fn is_alphanumeric(c: char) -> (b: bool)
    ensures
        b == unicode_alphanumeric(c),
        text::is_ascii_char(c) ==> (b == text::is_ascii_alnum(c)),
{
    c.is_alphanumeric()
}

/// `str::to_lowercase`.  Claimed: the result is `unicode_lowercase(s@)`, and a string
/// made of ASCII characters is lowered character by character as
/// `char::to_ascii_lowercase` does.  The mapping of other characters is left to
/// Unicode's tables and not stated.
#[verifier::external_body]
pub(crate) fn str_to_lowercase(s: &str) -> (r: String)
    ensures
        r@ == unicode_lowercase(s@),
        vstd::utf8::is_ascii_chars(s@) ==> r@ == s@.map_values(|c: char| text::ascii_lower(c)),
{
    s.to_lowercase()
}

/// `char::to_uppercase`, collected into characters.  Claimed: the result is
/// `unicode_uppercase(c)`, and an ASCII character maps to the single character that
/// `char::to_ascii_uppercase` gives.  Other characters follow Unicode's tables, which
/// are not stated.
#[verifier::external_body]
pub(crate) fn char_to_uppercase(c: char) -> (r: Vec<char>)
    ensures
        r@ == unicode_uppercase(c),
        text::is_ascii_char(c) ==> r@ == seq![text::ascii_upper(c)],
{
    c.to_uppercase().collect()
}


/// The text `String::from_utf8_lossy` makes of any bytes.
pub uninterp spec fn lossy_text(bytes: Seq<u8>) -> Seq<char>;

/// `std::str::from_utf8`, the text copied out.  Claimed: there is a result exactly
/// when the bytes are valid UTF-8, and it is the text they encode.
#[verifier::external_body]
pub(crate) fn utf8_text(bytes: &[u8]) -> (r: Option<String>)
    ensures
        r is Some <==> vstd::utf8::valid_utf8(bytes@),
        r matches Some(s) ==> s@ == vstd::utf8::decode_utf8(bytes@),
{
    std::str::from_utf8(bytes).ok().map(|s| s.to_string())
}

/// `String::from_utf8_lossy`.  Claimed: the result is `lossy_text(bytes@)`, which is
/// the decoded text when the bytes are valid UTF-8.  How invalid sequences are
/// replaced by U+FFFD is not stated.
#[verifier::external_body]
pub(crate) fn utf8_text_lossy(bytes: &[u8]) -> (r: String)
    ensures
        r@ == lossy_text(bytes@),
        vstd::utf8::valid_utf8(bytes@) ==> r@ == vstd::utf8::decode_utf8(bytes@),
{
    String::from_utf8_lossy(bytes).into_owned()
}

/// `String::into_bytes`.  Claimed: the result is the UTF-8 encoding of the text.
#[verifier::external_body]
pub(crate) fn text_bytes(s: String) -> (r: Vec<u8>)
    ensures
        r@ == vstd::utf8::encode_utf8(s@),
{
    s.into_bytes()
}

} // verus!

//! Conversions between `String`/`&str` and character or byte sequences.

use vstd::prelude::*;

verus! {

/// The characters of a string slice.
#[verifier::external_body]
pub(crate) fn str_chars(s: &str) -> (v: Vec<char>)
    ensures
        v@ == s@,
{
    s.chars().collect()
}

/// A string made of the given characters.
#[verifier::external_body]
pub(crate) fn chars_to_string(v: &[char]) -> (s: String)
    ensures
        s@ == v@,
{
    v.iter().collect()
}

/// What `String::from_utf8_lossy` makes of a byte sequence: invalid
/// sequences become U+FFFD.
pub uninterp spec fn utf8_lossy(bytes: Seq<u8>) -> Seq<char>;

/// `String::from_utf8_lossy`, owned. The std documentation promises that a
/// valid UTF-8 input decodes exactly; what replaces invalid sequences is
/// left to the name `utf8_lossy`.
#[verifier::external_body]
pub(crate) fn string_from_utf8_lossy(v: &[u8]) -> (s: String)
    ensures
        s@ == utf8_lossy(v@),
        crate::text::valid_utf8_bytes(v@) ==> s@ == vstd::utf8::decode_utf8(v@),
{
    String::from_utf8_lossy(v).into_owned()
}

/// Whether the bytes are well-formed UTF-8.
pub open spec fn valid_utf8_bytes(v: Seq<u8>) -> bool {
    vstd::utf8::valid_utf8(v)
}

} // verus!

//! Header values and the shape of a response head.

use vstd::prelude::*;

use crate::text::str_chars;

verus! {

/// Whether `http::HeaderValue::from_str` accepts the text: every byte of
/// its UTF-8 encoding is visible (32 and up, but not 127) or a tab. Bytes
/// of multi-byte characters are all 128 and up, so the test is per char.
pub open spec fn header_value_ok(v: Seq<char>) -> bool {
    forall|i: int|
        0 <= i < v.len() ==> ((#[trigger] v[i] as u32 >= 32 && v[i] as u32 != 127) || v[i]
            == '\t')
}

/// Whether `v` is a valid header value.
pub fn header_value_valid(v: &str) -> (r: bool)
    ensures
        r == header_value_ok(v@),
{
    let cs = str_chars(v);
    let mut i: usize = 0;
    while i < cs.len()
        invariant
            cs@ == v@,
            i <= cs@.len(),
            forall|j: int|
                0 <= j < i ==> ((#[trigger] cs@[j] as u32 >= 32 && cs@[j] as u32 != 127) || cs@[j]
                    == '\t'),
        decreases cs@.len() - i,
    {
        let c = cs[i];
        let code = c as u32;
        if !((code >= 32 && code != 127) || c == '\t') {
            return false;
        }
        i = i + 1;
    }
    true
}

/// The text of each header, name and value.
pub open spec fn header_pairs(h: Seq<(String, String)>) -> Seq<(Seq<char>, Seq<char>)> {
    Seq::new(h.len(), |i: int| (h[i].0@, h[i].1@))
}

/// Append a header whose name is a literal.
pub fn push_header(headers: &mut Vec<(String, String)>, name: &str, value: String)
    ensures
        header_pairs(final(headers)@) == header_pairs(old(headers)@).push((name@, value@)),
{
    headers.push((name.to_owned(), value));
    assert(header_pairs(headers@) =~= header_pairs(old(headers)@).push((name@, value@)));
}

} // verus!

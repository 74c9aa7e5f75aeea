//! Percent-encoding of route parameters (matchit hands them over raw).

use vstd::prelude::*;
use vstd::utf8::{decode_utf8, encode_utf8, is_ascii_chars};

use crate::text::{chars_to_string, string_from_utf8_lossy, utf8_lossy};

verus! {

broadcast use vstd::utf8::group_utf8_lib;

/// The value of one hexadecimal digit, either case.
pub open spec fn hex_digit(b: u8) -> Option<u8> {
    if 48 <= b <= 57 {
        Some((b - 48) as u8)
    } else if 97 <= b <= 102 {
        Some((b - 97 + 10) as u8)
    } else if 65 <= b <= 70 {
        Some((b - 65 + 10) as u8)
    } else {
        None
    }
}

/// Decoding of `%XX` escapes: a `%` followed by two hex digits becomes
/// one byte; every other byte (a stray `%` included) is kept.
pub open spec fn percent_decode_bytes(s: Seq<u8>) -> Seq<u8>
    decreases s.len(),
{
    if s.len() == 0 {
        Seq::empty()
    } else if s[0] == 37 && 2 < s.len() && hex_digit(s[1]) is Some && hex_digit(s[2]) is Some {
        seq![(hex_digit(s[1])->0 * 16 + hex_digit(s[2])->0) as u8] + percent_decode_bytes(
            s.subrange(3, s.len() as int),
        )
    } else {
        seq![s[0]] + percent_decode_bytes(s.drop_first())
    }
}

/// RFC 3986 unreserved bytes: `A-Z a-z 0-9 - _ . ~`.
pub open spec fn is_unreserved(b: u8) -> bool {
    (65 <= b <= 90) || (97 <= b <= 122) || (48 <= b <= 57) || b == 45 || b == 95 || b == 46
        || b == 126
}

/// The upper-case hex digit of a value below 16.
pub open spec fn hex_upper(d: u8) -> char {
    if d < 10 {
        (48 + d) as char
    } else {
        (55 + d) as char
    }
}

/// The encoding of one byte.
pub open spec fn encode_byte(b: u8) -> Seq<char> {
    if is_unreserved(b) {
        seq![b as char]
    } else {
        seq!['%', hex_upper(b / 16), hex_upper(b % 16)]
    }
}

/// Percent-encoding: unreserved bytes are kept, every other byte becomes
/// `%XX` with upper-case hex digits.
pub open spec fn percent_encode_bytes(s: Seq<u8>) -> Seq<char>
    decreases s.len(),
{
    if s.len() == 0 {
        Seq::empty()
    } else {
        encode_byte(s[0]) + percent_encode_bytes(s.drop_first())
    }
}

/// The value of a hex digit byte.
pub fn hex_val(b: u8) -> (r: Option<u8>)
    ensures
        r == hex_digit(b),
{
    if 48u8 <= b && b <= 57u8 {
        Some(b - 48u8)
    } else if 97u8 <= b && b <= 102u8 {
        Some(b - 97u8 + 10)
    } else if 65u8 <= b && b <= 70u8 {
        Some(b - 65u8 + 10)
    } else {
        None
    }
}

/// Decode `%XX` escapes in `s`, byte by byte.
pub fn percent_decode_to_bytes(s: &[u8]) -> (out: Vec<u8>)
    ensures
        out@ == percent_decode_bytes(s@),
{
    let mut out: Vec<u8> = Vec::new();
    let mut i: usize = 0;
    let n = s.len();
    assert(s@.subrange(0, n as int) =~= s@);
    assert(out@ + percent_decode_bytes(s@) =~= percent_decode_bytes(s@));
    while i < n
        invariant
            n == s@.len(),
            i <= n,
            out@ + percent_decode_bytes(s@.subrange(i as int, n as int)) == percent_decode_bytes(
                s@,
            ),
        decreases n - i,
    {
        let ghost rest = s@.subrange(i as int, n as int);
        if s[i] == 37u8 && n - i > 2 {
            match (hex_val(s[i + 1]), hex_val(s[i + 2])) {
                (Some(hi), Some(lo)) => {
                    assert(rest.subrange(3, rest.len() as int) =~= s@.subrange(
                        i + 3,
                        n as int,
                    ));
                    out.push(hi * 16 + lo);
                    i = i + 3;
                    proof {
                        assert(out@ + percent_decode_bytes(s@.subrange(i as int, n as int))
                            =~= (out@.drop_last() + (seq![out@.last()] + percent_decode_bytes(
                            s@.subrange(i as int, n as int),
                        ))));
                    }
                },
                _ => {
                    assert(rest.drop_first() =~= s@.subrange(i + 1, n as int));
                    out.push(37u8);
                    i = i + 1;
                    assert(out@ + percent_decode_bytes(s@.subrange(i as int, n as int))
                        =~= (out@.drop_last() + (seq![out@.last()] + percent_decode_bytes(
                        s@.subrange(i as int, n as int),
                    ))));
                },
            }
        } else {
            assert(rest.drop_first() =~= s@.subrange(i + 1, n as int));
            out.push(s[i]);
            i = i + 1;
            assert(out@ + percent_decode_bytes(s@.subrange(i as int, n as int)) =~= (
            out@.drop_last() + (seq![out@.last()] + percent_decode_bytes(
                s@.subrange(i as int, n as int),
            ))));
        }
    }
    assert(s@.subrange(n as int, n as int) =~= Seq::<u8>::empty());
    assert(out@ + Seq::<u8>::empty() =~= out@);
    out
}

/// Decode `%XX` escapes; the decoded bytes are read as UTF-8, invalid
/// sequences replaced.
pub fn percent_decode(s: &str) -> (r: String)
    ensures
        r@ == utf8_lossy(percent_decode_bytes(encode_utf8(s@))),
        vstd::utf8::valid_utf8(percent_decode_bytes(encode_utf8(s@))) ==> r@ == decode_utf8(
            percent_decode_bytes(encode_utf8(s@)),
        ),
{
    let bytes = percent_decode_to_bytes(s.as_bytes());
    string_from_utf8_lossy(bytes.as_slice())
}

fn hex_upper_exec(d: u8) -> (c: char)
    requires
        d < 16,
    ensures
        c == hex_upper(d),
{
    if d < 10 {
        (48u8 + d) as char
    } else {
        (65u8 - 10 + d) as char
    }
}

/// Percent-encode every byte of `s` outside the unreserved set.
pub fn percent_encode(s: &str) -> (r: String)
    ensures
        r@ == percent_encode_bytes(encode_utf8(s@)),
{
    let bytes = s.as_bytes();
    let n = bytes.len();
    let mut out: Vec<char> = Vec::new();
    let mut i: usize = 0;
    assert(bytes@.subrange(0, n as int) =~= bytes@);
    assert(out@ + percent_encode_bytes(bytes@) =~= percent_encode_bytes(bytes@));
    while i < n
        invariant
            n == bytes@.len(),
            i <= n,
            out@ + percent_encode_bytes(bytes@.subrange(i as int, n as int))
                == percent_encode_bytes(bytes@),
        decreases n - i,
    {
        let b = bytes[i];
        let ghost before = out@;
        let ghost rest = bytes@.subrange(i as int, n as int);
        assert(rest.drop_first() =~= bytes@.subrange(i + 1, n as int));
        if (65u8 <= b && b <= 90u8) || (97u8 <= b && b <= 122u8) || (48u8 <= b && b <= 57u8)
            || b == 45u8 || b == 95u8 || b == 46u8 || b == 126u8 {
            out.push(b as char);
        } else {
            out.push('%');
            out.push(hex_upper_exec(b / 16));
            out.push(hex_upper_exec(b % 16));
        }
        assert(out@ =~= before + encode_byte(b));
        i = i + 1;
    }
    assert(bytes@.subrange(n as int, n as int) =~= Seq::<u8>::empty());
    assert(out@ + Seq::<char>::empty() =~= out@);
    chars_to_string(out.as_slice())
}

/// The bytes of an ASCII character sequence.
pub open spec fn ascii_bytes(cs: Seq<char>) -> Seq<u8> {
    Seq::new(cs.len(), |i: int| cs[i] as u8)
}

proof fn lemma_encode_is_ascii(s: Seq<u8>)
    ensures
        is_ascii_chars(percent_encode_bytes(s)),
    decreases s.len(),
{
    if s.len() > 0 {
        lemma_encode_is_ascii(s.drop_first());
        let e = encode_byte(s[0]);
        let rest = percent_encode_bytes(s.drop_first());
        assert(is_ascii_chars(e));
        vstd::utf8::is_ascii_chars_concat(e + rest, e, rest);
    }
}

proof fn lemma_hex_upper_roundtrip(d: u8)
    requires
        d < 16,
    ensures
        hex_digit(hex_upper(d) as u8) == Some(d),
{
}

/// Decoding undoes encoding, at the byte level.
pub proof fn lemma_percent_bytes_roundtrip(s: Seq<u8>)
    ensures
        percent_decode_bytes(ascii_bytes(percent_encode_bytes(s))) == s,
    decreases s.len(),
{
    if s.len() > 0 {
        let b = s[0];
        let rest = s.drop_first();
        lemma_percent_bytes_roundtrip(rest);
        let e = encode_byte(b);
        let er = percent_encode_bytes(rest);
        assert(percent_encode_bytes(s) == e + er);
        let all = ascii_bytes(e + er);
        assert(all =~= ascii_bytes(e) + ascii_bytes(er));
        if is_unreserved(b) {
            assert(ascii_bytes(e) =~= seq![b]);
            assert(all[0] == b);
            assert(all.drop_first() =~= ascii_bytes(er));
        } else {
            lemma_hex_upper_roundtrip(b / 16);
            lemma_hex_upper_roundtrip(b % 16);
            assert(ascii_bytes(e) =~= seq![37u8, hex_upper(b / 16) as u8, hex_upper(b % 16) as u8]);
            assert(all.subrange(3, all.len() as int) =~= ascii_bytes(er));
            assert((b / 16) * 16 + b % 16 == b);
        }
        assert(percent_decode_bytes(all) =~= s);
    }
}

/// Percent-decoding a percent-encoded string gives the string back: the
/// decoded bytes of the encoding of `s` are the UTF-8 encoding of `s`, so
/// `percent_decode(&percent_encode(s))` is `s` (by the contract of
/// `percent_decode` on well-formed input).
pub proof fn lemma_percent_roundtrip(s: Seq<char>)
    ensures
        vstd::utf8::valid_utf8(
            percent_decode_bytes(encode_utf8(percent_encode_bytes(encode_utf8(s)))),
        ),
        decode_utf8(percent_decode_bytes(encode_utf8(percent_encode_bytes(encode_utf8(s)))))
            == s,
{
    let enc = percent_encode_bytes(encode_utf8(s));
    lemma_encode_is_ascii(encode_utf8(s));
    vstd::utf8::is_ascii_chars_encode_utf8(enc);
    assert(encode_utf8(enc) =~= ascii_bytes(enc));
    lemma_percent_bytes_roundtrip(encode_utf8(s));
    vstd::utf8::encode_utf8_valid_utf8(s);
    vstd::utf8::encode_utf8_decode_utf8(s);
}

} // verus!

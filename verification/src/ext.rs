//! The calls into outside crates, each behind a contract that states what
//! the crate's source shows (or names a result that takes pages to state).

use matchit::Router as RadixTree;
use vstd::prelude::*;

use crate::chars::{first_index, hex_char, is_ws, split_seq, trim};

verus! {

/// The MIME type `mime_guess` assigns to a path by its extension, as text
/// (`application/octet-stream` when the extension is unknown).
pub uninterp spec fn mime_for_path(path: Seq<char>) -> Seq<char>;

/// `mime_guess::MimeGuess::from_path(path).first_or_octet_stream()`,
/// rendered as text. The result depends on the path's extension only; the
/// contract names it.
#[verifier::external_body]
pub(crate) fn guess_mime(path: &str) -> (m: String)
    ensures
        m@ == mime_for_path(path@),
        crate::http::header_value_ok(m@),
{
    mime_guess::MimeGuess::from_path(path).first_or_octet_stream().as_ref().to_owned()
}

/// The IMF-fixdate (`Sun, 06 Nov 1994 08:49:37 GMT`) that
/// `httpdate::fmt_http_date` writes for a time `secs` after the epoch.
pub uninterp spec fn http_date_text(secs: u64) -> Seq<char>;

/// `httpdate::fmt_http_date` of the time `secs` seconds after the epoch.
/// httpdate panics from the year 9999 on, so such times are excluded.
#[verifier::external_body]
pub(crate) fn fmt_http_date_secs(secs: u64) -> (s: String)
    requires
        secs < 253402300800,
    ensures
        s@ == http_date_text(secs),
        crate::http::header_value_ok(s@),
{
    httpdate::fmt_http_date(std::time::UNIX_EPOCH + std::time::Duration::from_secs(secs))
}

/// The time, in seconds after the epoch, that `httpdate::parse_http_date`
/// reads from a header value (any of the three HTTP date formats), or
/// `None` when it rejects the text.
pub uninterp spec fn http_date_secs(s: Seq<char>) -> Option<u64>;

/// `httpdate::parse_http_date`, as seconds after the epoch. httpdate only
/// accepts years from 1970 on, so the conversion never falls before the
/// epoch.
#[verifier::external_body]
pub(crate) fn parse_http_date_secs(s: &str) -> (r: Option<u64>)
    ensures
        r == http_date_secs(s@),
{
    match httpdate::parse_http_date(s) {
        Ok(t) => match t.duration_since(std::time::UNIX_EPOCH) {
            Ok(d) => Some(d.as_secs()),
            Err(_) => None,
        },
        Err(_) => None,
    }
}


/// Lexicographic order of character sequences, which is the order of
/// `str`'s `Ord` (UTF-8 preserves the order of scalar values).
pub open spec fn lex_le(a: Seq<char>, b: Seq<char>) -> bool
    decreases a.len(),
{
    if a.len() == 0 {
        true
    } else if b.len() == 0 {
        false
    } else if (a[0] as u32) < (b[0] as u32) {
        true
    } else if (a[0] as u32) > (b[0] as u32) {
        false
    } else {
        lex_le(a.drop_first(), b.drop_first())
    }
}

/// The order of `(String, String)` tuples: by the first, then the second.
pub open spec fn pair_le(x: (Seq<char>, Seq<char>), y: (Seq<char>, Seq<char>)) -> bool {
    if x.0 != y.0 {
        lex_le(x.0, y.0)
    } else {
        lex_le(x.1, y.1)
    }
}

/// The text of each pair.
pub open spec fn pair_views(v: Seq<(String, String)>) -> Seq<(Seq<char>, Seq<char>)> {
    Seq::new(v.len(), |i: int| (v[i].0@, v[i].1@))
}

/// Whether the pairs are in non-decreasing order.
pub open spec fn sorted_pairs(v: Seq<(Seq<char>, Seq<char>)>) -> bool {
    forall|i: int, j: int| 0 <= i < j < v.len() ==> pair_le(#[trigger] v[i], #[trigger] v[j])
}

/// `<[(String, String)]>::sort`: the same pairs, in tuple order.
#[verifier::external_body]
pub(crate) fn sort_pairs(v: &mut Vec<(String, String)>)
    ensures
        pair_views(final(v)@).to_multiset() == pair_views(old(v)@).to_multiset(),
        sorted_pairs(pair_views(final(v)@)),
{
    v.sort();
}


/// How serde_json writes one character inside a string literal: `"` and
/// `\` behind a backslash; backspace, form feed, line feed, carriage
/// return and tab as `\b` `\f` `\n` `\r` `\t`; any other control
/// character below U+0020 as `\u00` and two lower-case hex digits; every
/// other character as itself.
pub open spec fn json_escape_char(c: char) -> Seq<char> {
    if c == '"' {
        seq!['\\', '"']
    } else if c == '\\' {
        seq!['\\', '\\']
    } else if c == '\u{8}' {
        seq!['\\', 'b']
    } else if c == '\u{c}' {
        seq!['\\', 'f']
    } else if c == '\n' {
        seq!['\\', 'n']
    } else if c == '\r' {
        seq!['\\', 'r']
    } else if c == '\t' {
        seq!['\\', 't']
    } else if (c as u32) < 32 {
        seq!['\\', 'u', '0', '0', hex_char((c as u32 / 16) as nat), hex_char((c as u32 % 16) as nat)]
    } else {
        seq![c]
    }
}

/// The characters of a text, each escaped.
pub open spec fn json_escaped(s: Seq<char>) -> Seq<char>
    decreases s.len(),
{
    if s.len() == 0 {
        Seq::empty()
    } else {
        json_escaped(s.drop_last()) + json_escape_char(s.last())
    }
}

/// The JSON string literal serde_json writes for a text: the escaped
/// characters between double quotes.
pub open spec fn json_string_text(s: Seq<char>) -> Seq<char> {
    seq!['"'] + json_escaped(s) + seq!['"']
}

/// `serde_json::to_string` of a `&str`. Serializing a string into a
/// `Vec<u8>` cannot fail (serde_json's `format_escaped_str` only writes to
/// the buffer), so the error arm is never taken.
#[verifier::external_body]
pub(crate) fn json_string(s: &str) -> (r: String)
    ensures
        r@ == json_string_text(s@),
{
    match serde_json::to_string(s) {
        Ok(text) => text,
        Err(_) => String::new(),
    }
}


#[verifier::external_type_specification]
#[verifier::external_body]
#[verifier::reject_recursive_types(T)]
pub struct ExMatchitRouter<T>(RadixTree<T>);

#[verifier::external_type_specification]
#[verifier::external_body]
pub struct ExInsertError(matchit::InsertError);

/// The routes a `RadixTree<usize>` holds: pattern to value.
pub uninterp spec fn matcher_routes(r: RadixTree<usize>) -> Map<Seq<char>, usize>;

/// Every insert tried on the tree, in order, accepted or not: the pattern
/// and the value. The tree is a function of this sequence.
pub uninterp spec fn matcher_history(r: RadixTree<usize>) -> Seq<(Seq<char>, usize)>;

/// The patterns of an insert history.
pub open spec fn patterns_of(h: Seq<(Seq<char>, usize)>) -> Seq<Seq<char>> {
    Seq::new(h.len(), |i: int| h[i].0)
}

/// Whether `matchit::Router::insert` accepts `route` into a tree built by
/// inserting `prev` in order (a conflict with an earlier route, or a
/// malformed pattern, is refused).
pub uninterp spec fn matchit_accepts(prev: Seq<Seq<char>>, route: Seq<char>) -> bool;

/// Whether every insert of a history was accepted.
pub open spec fn all_accepted(h: Seq<Seq<char>>) -> bool {
    forall|i: int| 0 <= i < h.len() ==> #[trigger] matchit_accepts(h.take(i), h[i])
}

/// The named parameters matchit normalizes in a pattern: each unescaped
/// `{` that does not open a catch-all (`{*`). A doubled `{{` or `}}` is an
/// escaped brace and counts for nothing.
pub open spec fn named_params(s: Seq<char>) -> nat
    decreases s.len(),
{
    if s.len() == 0 {
        0
    } else if s.len() >= 2 && s[0] == '{' && s[1] == '{' {
        named_params(s.subrange(2, s.len() as int))
    } else if s.len() >= 2 && s[0] == '}' && s[1] == '}' {
        named_params(s.subrange(2, s.len() as int))
    } else if s[0] == '{' && !(s.len() >= 2 && s[1] == '*') {
        1 + named_params(s.drop_first())
    } else {
        named_params(s.drop_first())
    }
}

/// The most named parameters a pattern may have: matchit names them `a`
/// to `z` and panics at the 26th.
pub open spec fn max_params() -> nat {
    25
}

/// Whether a pattern is a plain static path: no braces at all.
pub open spec fn static_pattern(s: Seq<char>) -> bool {
    forall|i: int| 0 <= i < s.len() ==> #[trigger] s[i] != '{' && s[i] != '}'
}

/// `matchit::Router::new`: no routes, nothing inserted.
#[verifier::external_body]
pub(crate) fn matcher_new() -> (router: RadixTree<usize>)
    ensures
        matcher_routes(router) =~= Map::empty(),
        matcher_history(router) =~= Seq::<(Seq<char>, usize)>::empty(),
{
    RadixTree::new()
}

/// `matchit::Router::insert`. Whether it succeeds is named by
/// `matchit_accepts` over the patterns inserted before. On success the
/// pattern holds the value and the other routes are untouched; a pattern
/// the tree already holds is refused (its node already has a value: a
/// conflict). A failed insert may leave the tree partly changed, so
/// nothing more is said of its routes. Patterns with more than 25 named
/// parameters are excluded: matchit panics at the 26th.
#[verifier::external_body]
pub(crate) fn matcher_insert(r: &mut RadixTree<usize>, route: String, value: usize) -> (res:
    Result<(), matchit::InsertError>)
    requires
        named_params(route@) <= max_params(),
    ensures
        matcher_history(*final(r)) == matcher_history(*old(r)).push((route@, value)),
        res is Ok <==> matchit_accepts(patterns_of(matcher_history(*old(r))), route@),
        res is Ok ==> matcher_routes(*final(r)) == matcher_routes(*old(r)).insert(route@, value),
        res is Ok ==> !matcher_routes(*old(r)).dom().contains(route@),
{
    r.insert(route, value)
}

/// What `matchit::Router::at` finds for a path in the tree built by an
/// insert history: the value of the best-matching pattern and the
/// captured parameters, undecoded, in pattern order.
pub uninterp spec fn matchit_at(history: Seq<(Seq<char>, usize)>, path: Seq<char>) -> Option<
    (usize, Seq<(Seq<char>, Seq<char>)>),
>;

/// `matchit::Router::at`, with the match's value and parameters copied
/// out. The result is named over the whole insert history, refused
/// inserts included: a refused insert may already have reshaped the tree.
/// Where every insert was accepted, a match's value is one of the stored
/// values, and a registered static pattern is found by its own path, with
/// no parameters (static children are searched first, and the walk
/// follows them to the pattern's node). Nothing is said of a tree after a
/// refused insert beyond the name.
#[verifier::external_body]
pub(crate) fn matcher_at(r: &RadixTree<usize>, path: &str) -> (res: Option<
    (usize, Vec<(String, String)>),
>)
    ensures
        match res {
            None => matchit_at(matcher_history(*r), path@) is None,
            Some((i, ps)) => matchit_at(matcher_history(*r), path@) == Some((i, pair_views(ps@))),
        },
        res matches Some((i, _)) ==> (all_accepted(patterns_of(matcher_history(*r))) ==> exists|
            k: Seq<char>,
        | #[trigger] matcher_routes(*r).dom().contains(k) && matcher_routes(*r)[k] == i),
        res is Some || !(all_accepted(patterns_of(matcher_history(*r))) && matcher_routes(
            *r,
        ).dom().contains(path@) && static_pattern(path@)),
        res matches Some((i, ps)) ==> (all_accepted(patterns_of(matcher_history(*r)))
            && matcher_routes(*r).dom().contains(path@) && static_pattern(path@) ==> i
            == matcher_routes(*r)[path@] && ps@.len() == 0),
{
    match r.at(path) {
        Ok(m) => Some((*m.value, m.params.iter().map(|(k, v)| (k.to_owned(), v.to_owned())).collect())),
        Err(_) => None,
    }
}


/// Whether every character of a piece is whitespace (an empty piece too).
pub open spec fn blank(p: Seq<char>) -> bool {
    forall|i: int| 0 <= i < p.len() ==> is_ws(#[trigger] p[i])
}

/// How `cookie` parses one trimmed `name=value` piece: split at the first
/// `=`, both sides trimmed; a piece without `=`, or with an empty name,
/// does not parse.
pub open spec fn parse_cookie_piece(p: Seq<char>) -> Option<(Seq<char>, Seq<char>)> {
    let t = trim(p);
    match first_index(t, '=') {
        None => None,
        Some(i) => {
            let name = trim(t.subrange(0, i));
            let value = trim(t.subrange(i + 1, t.len() as int));
            if name.len() == 0 {
                None
            } else {
                Some((name, value))
            }
        },
    }
}

/// The parse of each piece that is not blank, in order.
pub open spec fn parse_cookie_pieces(pieces: Seq<Seq<char>>) -> Seq<Option<(Seq<char>, Seq<char>)>>
    decreases pieces.len(),
{
    if pieces.len() == 0 {
        Seq::empty()
    } else if blank(pieces.last()) {
        parse_cookie_pieces(pieces.drop_last())
    } else {
        parse_cookie_pieces(pieces.drop_last()).push(parse_cookie_piece(pieces.last()))
    }
}

/// The cookies `cookie::Cookie::split_parse` reads from a `Cookie` header
/// value, in order: each piece between `;` that is not blank, as name and
/// value, or `None` where the piece does not parse.
pub open spec fn cookie_split_parse(s: Seq<char>) -> Seq<Option<(Seq<char>, Seq<char>)>> {
    parse_cookie_pieces(split_seq(s, ';'))
}

/// `cookie::Cookie::split_parse` (no percent-decoding), each result taken
/// as its name and value; a parse error is kept as `None` in its place.
#[verifier::external_body]
pub(crate) fn split_parse_cookies(s: &str) -> (r: Vec<Option<(String, String)>>)
    ensures
        crate::extract::cookie_views(r@) == cookie_split_parse(s@),
{
    cookie::Cookie::split_parse(s)
        .map(|c| match c {
            Ok(c) => Some((c.name().to_owned(), c.value().to_owned())),
            Err(_) => None,
        })
        .collect()
}

/// The `Sec-WebSocket-Accept` value `tungstenite` derives from a client's
/// `Sec-WebSocket-Key`: the base64 of the SHA-1 of the key followed by the
/// RFC 6455 GUID.
pub uninterp spec fn ws_accept_key(key: Seq<char>) -> Seq<char>;

/// `tungstenite::handshake::derive_accept_key` of the key's bytes. The
/// result is standard base64 of a 20-byte digest: 28 characters of
/// `A-Z a-z 0-9 + / =`, so a valid header value.
#[verifier::external_body]
pub(crate) fn derive_accept_key(key: &str) -> (r: String)
    ensures
        r@ == ws_accept_key(key@),
        r@.len() == 28,
        crate::http::header_value_ok(r@),
{
    tokio_tungstenite::tungstenite::handshake::derive_accept_key(key.as_bytes())
}

} // verus!

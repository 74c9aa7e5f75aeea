//! Request extraction logic: path parameters, the body size budget,
//! content-type checks, the WebSocket handshake check and cookie lookup.

use vstd::prelude::*;

use crate::chars::{join_with, push_str, str_eq, trim, trim_chars};
use crate::encoding::{percent_encode, percent_encode_bytes};
use crate::error::{missing_param, Error};
use crate::ext::{cookie_split_parse, derive_accept_key, split_parse_cookies, ws_accept_key};
use crate::http::{header_pairs, push_header};
use crate::text::{chars_to_string, str_chars};
use vstd::utf8::encode_utf8;

verus! {

// ---- path parameters ----

/// The value of the last parameter named `name` (a later capture replaces
/// an earlier one of the same name).
pub open spec fn param_value(params: Seq<(Seq<char>, Seq<char>)>, name: Seq<char>) -> Option<Seq<char>>
    decreases params.len(),
{
    if params.len() == 0 {
        None
    } else if params.last().0 == name {
        Some(params.last().1)
    } else {
        param_value(params.drop_last(), name)
    }
}

/// The text of each parameter.
pub open spec fn param_views(v: Seq<(String, String)>) -> Seq<(Seq<char>, Seq<char>)> {
    Seq::new(v.len(), |i: int| (v[i].0@, v[i].1@))
}

/// One path parameter as raw text, or the missing-parameter error.
pub fn param_raw<'a>(params: &'a Vec<(String, String)>, name: &str) -> (r: Result<&'a str, Error>)
    ensures
        match param_value(param_views(params@), name@) {
            Some(v) => r matches Ok(s) && s@ == v,
            None => r matches Err(Error::Param { name: n, expected: x, detail: d }) && n@ == name@
                && x@ == "present"@ && d@ == "missing route parameter"@,
        },
{
    let mut i: usize = params.len();
    assert(param_views(params@).subrange(0, i as int) =~= param_views(params@));
    while i > 0
        invariant
            i <= params@.len(),
            param_value(param_views(params@), name@) == param_value(
                param_views(params@).subrange(0, i as int),
                name@,
            ),
        decreases i,
    {
        let ghost pre = param_views(params@).subrange(0, i as int);
        assert(pre.drop_last() =~= param_views(params@).subrange(0, i - 1));
        if str_eq(params[i - 1].0.as_str(), name) {
            return Ok(params[i - 1].1.as_str());
        }
        i = i - 1;
    }
    assert(param_views(params@).subrange(0, 0) =~= Seq::<(Seq<char>, Seq<char>)>::empty());
    Err(missing_param(name))
}

/// One `name=value` pair of the parameter query: the value
/// percent-encoded, the name as it is.
pub open spec fn param_pair_text(p: (Seq<char>, Seq<char>)) -> Seq<char> {
    p.0 + "="@ + percent_encode_bytes(encode_utf8(p.1))
}

/// All parameters as a query string, in order, joined with `&`.
pub open spec fn params_query(params: Seq<(Seq<char>, Seq<char>)>) -> Seq<char> {
    join_with(Seq::new(params.len(), |i: int| param_pair_text(params[i])), "&"@)
}

/// The parameters as a URL-encoded query string, the shape
/// `serde_urlencoded` reads into a struct.
pub fn encode_params(params: &Vec<(String, String)>) -> (r: String)
    ensures
        r@ == params_query(param_views(params@)),
{
    let ghost all = Seq::new(
        params@.len(),
        |i: int| param_pair_text(param_views(params@)[i]),
    );
    let mut out: Vec<char> = Vec::new();
    let mut i: usize = 0;
    assert(all.subrange(0, 0) =~= Seq::<Seq<char>>::empty());
    while i < params.len()
        invariant
            all == Seq::new(params@.len(), |i: int| param_pair_text(param_views(params@)[i])),
            i <= params@.len(),
            out@ == join_with(all.subrange(0, i as int), "&"@),
        decreases params@.len() - i,
    {
        let ghost prefix = all.subrange(0, i as int);
        let ghost next = all.subrange(0, i + 1);
        assert(next.drop_last() =~= prefix);
        let ghost before = out@;
        if i > 0 {
            push_str(&mut out, "&");
        } else {
            assert(next =~= seq![all[0]]);
        }
        let ghost mid = out@;
        push_str(&mut out, params[i].0.as_str());
        push_str(&mut out, "=");
        let enc = percent_encode(params[i].1.as_str());
        push_str(&mut out, enc.as_str());
        assert(out@ =~= mid + param_pair_text(param_views(params@)[i as int]));
        i = i + 1;
    }
    assert(all.subrange(0, params@.len() as int) =~= all);
    chars_to_string(out.as_slice())
}

// ---- body size budget ----

/// The request body cap an application starts with: 2 MiB.
pub const DEFAULT_MAX_BODY_SIZE: usize = 2097152;

/// The bytes a request body may still take before it is refused.
pub struct BodyBudget {
    remaining: u64,
}

/// What is left of a budget after charging chunks of the given sizes in
/// order, or `None` once a chunk does not fit.
pub open spec fn after_chunks(remaining: nat, chunks: Seq<u64>) -> Option<nat>
    decreases chunks.len(),
{
    if chunks.len() == 0 {
        Some(remaining)
    } else if chunks[0] > remaining {
        None
    } else {
        after_chunks((remaining - chunks[0]) as nat, chunks.drop_first())
    }
}

/// The total size of the chunks.
pub open spec fn total(chunks: Seq<u64>) -> nat
    decreases chunks.len(),
{
    if chunks.len() == 0 {
        0
    } else {
        chunks[0] as nat + total(chunks.drop_first())
    }
}

impl BodyBudget {
    /// What the body may still take.
    pub closed spec fn remaining(&self) -> nat {
        self.remaining as nat
    }

    /// A budget of `limit` bytes.
    pub fn new(limit: usize) -> (b: BodyBudget)
        ensures
            b.remaining() == limit,
    {
        BodyBudget { remaining: limit as u64 }
    }

    /// Charge one data chunk of `len` bytes. A chunk that does not fit
    /// is refused (the body fails with `413`) and the budget drops to 0.
    pub fn charge(&mut self, len: u64) -> (ok: bool)
        ensures
            ok == (len <= old(self).remaining()),
            ok ==> final(self).remaining() == old(self).remaining() - len,
            !ok ==> final(self).remaining() == 0,
    {
        if len > self.remaining {
            self.remaining = 0;
            false
        } else {
            self.remaining = self.remaining - len;
            true
        }
    }
}

impl Default for BodyBudget {
    /// A budget of the default cap, 2 MiB.
    fn default() -> (b: BodyBudget)
        ensures
            b.remaining() == 2 * 1024 * 1024,
    {
        BodyBudget::new(DEFAULT_MAX_BODY_SIZE)
    }
}

/// A body is read whole exactly when its chunks add up to no more than
/// the limit, and then the budget keeps the difference.
pub proof fn lemma_budget_accepts_within_limit(limit: nat, chunks: Seq<u64>)
    ensures
        after_chunks(limit, chunks) is Some <==> total(chunks) <= limit,
        total(chunks) <= limit ==> after_chunks(limit, chunks) == Some((limit - total(chunks)) as nat),
    decreases chunks.len(),
{
    if chunks.len() > 0 {
        if chunks[0] <= limit {
            lemma_budget_accepts_within_limit((limit - chunks[0]) as nat, chunks.drop_first());
        }
    }
}

// ---- content types ----

/// Whether `needle` occurs in `s`.
pub open spec fn contains_text(s: Seq<char>, needle: Seq<char>) -> bool {
    exists|i: int| 0 <= i <= s.len() - needle.len() && #[trigger] s.subrange(i, i + needle.len()) == needle
}

fn text_contains(s: &str, needle: &str) -> (r: bool)
    ensures
        r == contains_text(s@, needle@),
{
    let h = str_chars(s);
    let n = str_chars(needle);
    if n.len() > h.len() {
        return false;
    }
    let last = h.len() - n.len();
    let mut i: usize = 0;
    while i <= last
        invariant
            h@ == s@,
            n@ == needle@,
            n@.len() <= h@.len(),
            last == h@.len() - n@.len(),
            i <= last + 1,
            forall|k: int| 0 <= k < i ==> #[trigger] h@.subrange(k, k + n@.len()) != n@,
        decreases h@.len() - i,
    {
        let mut j: usize = 0;
        let mut same = true;
        while j < n.len()
            invariant
                i + n@.len() <= h@.len(),
                h@.len() == h.len(),
                j <= n@.len(),
                same == forall|t: int| 0 <= t < j ==> h@[i + t] == n@[t],
            decreases n@.len() - j,
        {
            if h[i + j] != n[j] {
                same = false;
            }
            j = j + 1;
        }
        if same {
            assert(h@.subrange(i as int, i + n@.len()) =~= n@);
            return true;
        }
        assert(h@.subrange(i as int, i + n@.len()) != n@) by {
            let t = choose|t: int| 0 <= t < n@.len() && h@[i + t] != n@[t];
            assert(h@.subrange(i as int, i + n@.len())[t] != n@[t]);
        }
        i = i + 1;
    }
    false
}

/// The body error for a request whose declared content type is wrong.
pub open spec fn content_type_error(article_kind: Seq<char>, ct: Seq<char>) -> Seq<char> {
    "expected "@ + article_kind + " content-type, got `"@ + ct + "`"@
}

fn check_content_type(ct: Option<&str>, needle: &str, article_kind: &str) -> (r: Result<(), Error>)
    ensures
        match ct {
            None => r is Ok,
            Some(c) => if contains_text(c@, needle@) {
                r is Ok
            } else {
                r matches Err(Error::Body(m)) && m@ == content_type_error(article_kind@, c@)
            },
        },
{
    match ct {
        None => Ok(()),
        Some(c) => {
            if text_contains(c, needle) {
                Ok(())
            } else {
                let mut m = str_chars("expected ");
                push_str(&mut m, article_kind);
                push_str(&mut m, " content-type, got `");
                push_str(&mut m, c);
                push_str(&mut m, "`");
                Err(Error::Body(chars_to_string(m.as_slice())))
            }
        },
    }
}

/// A JSON body needs a content type that mentions `json`, when one is
/// declared at all.
pub fn check_json_content_type(ct: Option<&str>) -> (r: Result<(), Error>)
    ensures
        match ct {
            None => r is Ok,
            Some(c) => if contains_text(c@, "json"@) {
                r is Ok
            } else {
                r matches Err(Error::Body(m)) && m@ == content_type_error("a JSON"@, c@)
            },
        },
{
    check_content_type(ct, "json", "a JSON")
}

/// A form body needs a content type that mentions `urlencoded`, when one
/// is declared at all.
pub fn check_form_content_type(ct: Option<&str>) -> (r: Result<(), Error>)
    ensures
        match ct {
            None => r is Ok,
            Some(c) => if contains_text(c@, "urlencoded"@) {
                r is Ok
            } else {
                r matches Err(Error::Body(m)) && m@ == content_type_error("an urlencoded"@, c@)
            },
        },
{
    check_content_type(ct, "urlencoded", "an urlencoded")
}

// ---- websocket handshake ----

/// ASCII lower-casing of one character.
pub open spec fn ascii_lower(c: char) -> char {
    if 'A' <= c <= 'Z' {
        ((c as u32) + 32) as char
    } else {
        c
    }
}

/// `str::eq_ignore_ascii_case`.
pub open spec fn eq_ignore_ascii_case(a: Seq<char>, b: Seq<char>) -> bool {
    a.len() == b.len() && forall|i: int| 0 <= i < a.len() ==> ascii_lower(#[trigger] a[i]) == ascii_lower(b[i])
}

fn lower_exec(c: char) -> (r: char)
    ensures
        r == ascii_lower(c),
{
    if 'A' <= c && c <= 'Z' {
        let code = c as u32 + 32;
        assert(code == (c as u32) + 32);
        char_from(code)
    } else {
        c
    }
}

fn char_from(code: u32) -> (c: char)
    requires
        97 <= code <= 122,
    ensures
        c == code as char,
{
    let b = code as u8;
    b as char
}

fn eq_ignore_case(a: &str, b: &str) -> (r: bool)
    ensures
        r == eq_ignore_ascii_case(a@, b@),
{
    let x = str_chars(a);
    let y = str_chars(b);
    if x.len() != y.len() {
        return false;
    }
    let mut i: usize = 0;
    while i < x.len()
        invariant
            x@ == a@,
            y@ == b@,
            x@.len() == y@.len(),
            i <= x@.len(),
            forall|j: int| 0 <= j < i ==> ascii_lower(#[trigger] x@[j]) == ascii_lower(y@[j]),
        decreases x@.len() - i,
    {
        if lower_exec(x[i]) != lower_exec(y[i]) {
            return false;
        }
        i = i + 1;
    }
    true
}

/// Whether the headers make a WebSocket handshake: `Upgrade: websocket`
/// (any case), no version or version 13, and a key.
pub open spec fn websocket_handshake_ok(
    upgrade: Option<Seq<char>>,
    version: Option<Seq<char>>,
    key: Option<Seq<char>>,
) -> bool {
    &&& upgrade matches Some(u) && eq_ignore_ascii_case(u, "websocket"@)
    &&& version matches Some(v) ==> trim(v) == "13"@
    &&& key is Some
}

/// The text of an optional string slice.
pub open spec fn opt_view(o: Option<&str>) -> Option<Seq<char>> {
    match o {
        Some(s) => Some(s@),
        None => None,
    }
}

/// Check a WebSocket handshake and hand out its key. A request that is
/// not a handshake, and one on a connection that cannot be upgraded, are
/// bad requests.
pub fn websocket_key(
    upgrade: Option<&str>,
    version: Option<&str>,
    key: Option<&str>,
    can_upgrade: bool,
) -> (r: Result<String, Error>)
    ensures
        !websocket_handshake_ok(opt_view(upgrade), opt_view(version), opt_view(key)) ==> (r matches Err(
            Error::BadRequest(m),
        ) && m@ == "not a websocket handshake"@),
        websocket_handshake_ok(opt_view(upgrade), opt_view(version), opt_view(key)) && !can_upgrade
            ==> (r matches Err(Error::BadRequest(m)) && m@
            == "connection upgrade is unavailable on this route"@),
        websocket_handshake_ok(opt_view(upgrade), opt_view(version), opt_view(key)) && can_upgrade
            ==> (r matches Ok(k) && Some(k@) == opt_view(key)),
{
    let is_websocket = match upgrade {
        Some(u) => eq_ignore_case(u, "websocket"),
        None => false,
    };
    let version_ok = match version {
        Some(v) => {
            let t = trim_chars(&str_chars(v));
            let want = str_chars("13");
            crate::chars::eq_chars(&t, &want)
        },
        None => true,
    };
    match key {
        Some(k) => {
            if !is_websocket || !version_ok {
                return Err(Error::bad_request("not a websocket handshake".to_owned()));
            }
            if !can_upgrade {
                return Err(
                    Error::bad_request("connection upgrade is unavailable on this route".to_owned()),
                );
            }
            Ok(k.to_owned())
        },
        None => Err(Error::bad_request("not a websocket handshake".to_owned())),
    }
}

/// The headers of the `101 Switching Protocols` answer to a handshake with
/// this key.
pub open spec fn upgrade_headers_spec(key: Seq<char>) -> Seq<(Seq<char>, Seq<char>)> {
    seq![
        ("upgrade"@, "websocket"@),
        ("connection"@, "Upgrade"@),
        ("sec-websocket-accept"@, ws_accept_key(key)),
    ]
}

/// The headers that complete a WebSocket handshake.
pub fn upgrade_headers(key: &str) -> (h: Vec<(String, String)>)
    ensures
        header_pairs(h@) == upgrade_headers_spec(key@),
{
    let mut h: Vec<(String, String)> = Vec::new();
    push_header(&mut h, "upgrade", "websocket".to_owned());
    push_header(&mut h, "connection", "Upgrade".to_owned());
    push_header(&mut h, "sec-websocket-accept", derive_accept_key(key));
    assert(header_pairs(h@) =~= upgrade_headers_spec(key@));
    h
}

// ---- cookies ----

/// The first cookie named `name` among the parsed cookies, in order.
pub open spec fn first_named(
    cookies: Seq<Option<(Seq<char>, Seq<char>)>>,
    name: Seq<char>,
) -> Option<(Seq<char>, Seq<char>)>
    decreases cookies.len(),
{
    if cookies.len() == 0 {
        None
    } else {
        match cookies[0] {
            Some(c) => if c.0 == name {
                Some(c)
            } else {
                first_named(cookies.drop_first(), name)
            },
            None => first_named(cookies.drop_first(), name),
        }
    }
}

/// The first cookie named `name` over all `Cookie` header values in
/// order; a value that is not text (`None`) and a piece that does not
/// parse are skipped.
pub open spec fn find_cookie_spec(values: Seq<Option<Seq<char>>>, name: Seq<char>) -> Option<
    (Seq<char>, Seq<char>),
>
    decreases values.len(),
{
    if values.len() == 0 {
        None
    } else {
        let rest = find_cookie_spec(values.drop_first(), name);
        match values[0] {
            Some(v) => match first_named(cookie_split_parse(v), name) {
                Some(c) => Some(c),
                None => rest,
            },
            None => rest,
        }
    }
}

/// The text of each header value.
pub open spec fn value_views(v: Seq<Option<String>>) -> Seq<Option<Seq<char>>> {
    Seq::new(
        v.len(),
        |i: int|
            match v[i] {
                Some(s) => Some(s@),
                None => None,
            },
    )
}

/// The text of each parsed cookie.
pub open spec fn cookie_views(v: Seq<Option<(String, String)>>) -> Seq<Option<(Seq<char>, Seq<char>)>> {
    Seq::new(
        v.len(),
        |i: int|
            match v[i] {
                Some(c) => Some((c.0@, c.1@)),
                None => None,
            },
    )
}

fn first_named_exec(cookies: Vec<Option<(String, String)>>, name: &str) -> (r: Option<(String, String)>)
    ensures
        match r {
            Some(c) => first_named(cookie_views(cookies@), name@) == Some((c.0@, c.1@)),
            None => first_named(cookie_views(cookies@), name@) is None,
        },
{
    let ghost all = cookie_views(cookies@);
    let mut src = cookies;
    let n = src.len();
    let mut i: usize = 0;
    assert(all.subrange(0, n as int) =~= all);
    while src.len() > 0
        invariant
            all == cookie_views(cookies@),
            n == all.len(),
            i + src@.len() == n,
            cookie_views(src@) == all.subrange(i as int, n as int),
            first_named(all, name@) == first_named(all.subrange(i as int, n as int), name@),
        decreases src@.len(),
    {
        let ghost rest = all.subrange(i as int, n as int);
        let ghost before = src@;
        let c = src.remove(0);
        assert(before[0] == c);
        assert(cookie_views(before)[0] == rest[0]);
        assert(rest.drop_first() =~= all.subrange(i + 1, n as int));
        assert(cookie_views(src@) =~= all.subrange(i + 1, n as int)) by {
            assert forall|j: int| 0 <= j < src@.len() implies cookie_views(src@)[j] == all.subrange(i + 1, n as int)[j] by {
                assert(src@[j] == before[j + 1]);
                assert(cookie_views(before)[j + 1] == rest[j + 1]);
            }
        }
        match c {
            Some(pair) => {
                if str_eq(pair.0.as_str(), name) {
                    assert(rest[0] == Some((pair.0@, pair.1@)));
                    assert(rest.len() > 0);
                    assert(first_named(rest, name@) == Some((pair.0@, pair.1@)));
                    return Some(pair);
                }
            },
            None => {},
        }
        i = i + 1;
    }
    None
}

/// Read a request cookie: the first cookie called `name` among the
/// `Cookie` header values, each parsed as `cookie` parses a `Cookie`
/// header. Header values that are not text come as `None`.
pub fn find_cookie(values: &Vec<Option<String>>, name: &str) -> (r: Option<(String, String)>)
    ensures
        match r {
            Some(c) => find_cookie_spec(value_views(values@), name@) == Some((c.0@, c.1@)),
            None => find_cookie_spec(value_views(values@), name@) is None,
        },
{
    let ghost all = value_views(values@);
    let n = values.len();
    let mut i: usize = n;
    assert(all.subrange(n as int, n as int) =~= Seq::<Option<Seq<char>>>::empty());
    let mut found: Option<(String, String)> = None;
    while i > 0
        invariant
            all == value_views(values@),
            n == values@.len(),
            i <= n,
            match found {
                Some(c) => find_cookie_spec(all.subrange(i as int, n as int), name@) == Some((c.0@, c.1@)),
                None => find_cookie_spec(all.subrange(i as int, n as int), name@) is None,
            },
        decreases i,
    {
        let ghost tail = all.subrange(i - 1, n as int);
        assert(tail.drop_first() =~= all.subrange(i as int, n as int));
        assert(tail[0] == all[i - 1]);
        match &values[i - 1] {
            Some(v) => {
                let cookies = split_parse_cookies(v.as_str());
                match first_named_exec(cookies, name) {
                    Some(c) => {
                        found = Some(c);
                    },
                    None => {},
                }
            },
            None => {},
        }
        i = i - 1;
    }
    assert(all.subrange(0, n as int) =~= all);
    found
}

} // verus!

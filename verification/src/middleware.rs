//! The decisions of the built-in middleware: which CORS headers a response
//! gets, when a request is a CORS preflight, and when a response is worth
//! gzip-compressing. The server applies them to its requests and
//! responses.

use vstd::prelude::*;

use crate::chars::{
    decimal, join_strs, join_with, lemma_split_concat, lemma_split_nonempty, lemma_split_without_sep,
    push_decimal, split_chars, split_seq,
    str_eq, str_views, trim, trim_chars,
};
use crate::http::{header_value_ok, header_value_valid};
use crate::router::Method;
use crate::text::{chars_to_string, str_chars};

verus! {

/// Configuration for CORS.
#[derive(Debug, Clone)]
pub struct CorsConfig {
    /// Allowed origins; `"*"` allows any.
    pub origins: Vec<String>,
    /// Allowed methods for preflight.
    pub methods: Vec<&'static str>,
    /// Allowed request headers for preflight.
    pub headers: Vec<&'static str>,
    /// Whether to allow credentials.
    pub credentials: bool,
    /// Preflight cache duration in seconds.
    pub max_age_secs: u32,
}

/// The text of each origin.
pub open spec fn origin_views(v: Seq<String>) -> Seq<Seq<char>> {
    Seq::new(v.len(), |i: int| v[i]@)
}

/// Sensible defaults: any origin, common methods, any headers, no
/// credentials, an hour of preflight cache.
impl Default for CorsConfig {
    fn default() -> (c: CorsConfig)
        ensures
            origin_views(c.origins@) == seq!["*"@],
            str_views(c.methods@) == seq![
                "GET"@,
                "POST"@,
                "PUT"@,
                "PATCH"@,
                "DELETE"@,
                "HEAD"@,
                "OPTIONS"@,
            ],
            str_views(c.headers@) == seq!["*"@],
            !c.credentials,
            c.max_age_secs == 3600,
    {
        let origins = vec!["*".to_owned()];
        let methods = vec!["GET", "POST", "PUT", "PATCH", "DELETE", "HEAD", "OPTIONS"];
        let headers = vec!["*"];
        let c = CorsConfig { origins, methods, headers, credentials: false, max_age_secs: 3600 };
        assert(origin_views(c.origins@) =~= seq!["*"@]);
        assert(str_views(c.methods@) =~= seq![
            "GET"@,
            "POST"@,
            "PUT"@,
            "PATCH"@,
            "DELETE"@,
            "HEAD"@,
            "OPTIONS"@,
        ]);
        assert(str_views(c.headers@) =~= seq!["*"@]);
        c
    }
}

/// A change to a response's headers: `Insert` replaces every value of the
/// header, `Append` adds one.
pub enum HeaderOp {
    /// Set the header to this value.
    Insert(&'static str, String),
    /// Add this value to the header.
    Append(&'static str, String),
}

/// A header change, as text.
pub enum HeaderOpView {
    /// Set the header to this value.
    Insert(Seq<char>, Seq<char>),
    /// Add this value to the header.
    Append(Seq<char>, Seq<char>),
}

impl View for HeaderOp {
    type V = HeaderOpView;

    open spec fn view(&self) -> HeaderOpView {
        match self {
            HeaderOp::Insert(n, v) => HeaderOpView::Insert(n@, v@),
            HeaderOp::Append(n, v) => HeaderOpView::Append(n@, v@),
        }
    }
}

/// The text of each header change.
pub open spec fn op_views(v: Seq<HeaderOp>) -> Seq<HeaderOpView> {
    Seq::new(v.len(), |i: int| v[i]@)
}

/// The origin a response allows: the request's own origin when the
/// configuration lists it or `"*"`; without an `Origin` header (no CORS
/// request), the first configured origin.
pub open spec fn allowed_origin(origins: Seq<Seq<char>>, origin: Option<Seq<char>>) -> Option<Seq<char>> {
    match origin {
        Some(o) => if exists|i: int|
            0 <= i < origins.len() && (#[trigger] origins[i] == "*"@ || origins[i] == o) {
            Some(o)
        } else {
            None
        },
        None => if origins.len() > 0 {
            Some(origins[0])
        } else {
            None
        },
    }
}

/// Whether some configured origin is a specific one (not `"*"`), so the
/// answer depends on the request's `Origin`.
pub open spec fn varies_by_origin(origins: Seq<Seq<char>>) -> bool {
    exists|i: int| 0 <= i < origins.len() && #[trigger] origins[i] != "*"@
}

/// `seq![op]` when `keep`, else nothing.
pub open spec fn op_if(keep: bool, op: HeaderOpView) -> Seq<HeaderOpView> {
    if keep {
        seq![op]
    } else {
        Seq::empty()
    }
}

/// The CORS headers a response gets, in the order they are set. A value
/// that is not a valid header value is left out.
pub open spec fn cors_ops(
    origins: Seq<Seq<char>>,
    methods: Seq<Seq<char>>,
    headers: Seq<Seq<char>>,
    credentials: bool,
    max_age: u32,
    origin: Option<Seq<char>>,
) -> Seq<HeaderOpView> {
    match allowed_origin(origins, origin) {
        None => Seq::empty(),
        Some(a) => {
            let ms = join_with(methods, ", "@);
            let hs = join_with(headers, ", "@);
            op_if(header_value_ok(a), HeaderOpView::Insert("access-control-allow-origin"@, a))
                + op_if(
                credentials,
                HeaderOpView::Insert("access-control-allow-credentials"@, "true"@),
            ) + op_if(
                methods.len() > 0 && header_value_ok(ms),
                HeaderOpView::Insert("access-control-allow-methods"@, ms),
            ) + op_if(
                headers.len() > 0 && header_value_ok(hs),
                HeaderOpView::Insert("access-control-allow-headers"@, hs),
            ) + seq![HeaderOpView::Insert("access-control-max-age"@, decimal(max_age as nat))]
                + op_if(varies_by_origin(origins), HeaderOpView::Append("vary"@, "Origin"@))
        },
    }
}

/// Whether a request is a CORS preflight: `OPTIONS` with an
/// `Access-Control-Request-Method` header.
pub fn is_preflight(method: Option<Method>, has_request_method: bool) -> (r: bool)
    ensures
        r == (method == Some(Method::Options) && has_request_method),
{
    match method {
        Some(Method::Options) => has_request_method,
        _ => false,
    }
}

/// Whether any configured origin is `"*"` or `origin` itself.
fn origin_listed(origins: &Vec<String>, origin: &str) -> (r: bool)
    ensures
        r == exists|i: int|
            0 <= i < origins@.len() && (#[trigger] origin_views(origins@)[i] == "*"@
                || origin_views(origins@)[i] == origin@),
{
    let mut i: usize = 0;
    while i < origins.len()
        invariant
            i <= origins@.len(),
            forall|j: int|
                0 <= j < i ==> !(#[trigger] origin_views(origins@)[j] == "*"@ || origin_views(
                    origins@,
                )[j] == origin@),
        decreases origins@.len() - i,
    {
        let o = origins[i].as_str();
        if str_eq(o, "*") || str_eq(o, origin) {
            assert(origin_views(origins@)[i as int] == o@);
            return true;
        }
        i = i + 1;
    }
    false
}

/// Whether some configured origin is not `"*"`.
fn some_specific_origin(origins: &Vec<String>) -> (r: bool)
    ensures
        r == varies_by_origin(origin_views(origins@)),
{
    let mut i: usize = 0;
    while i < origins.len()
        invariant
            i <= origins@.len(),
            forall|j: int| 0 <= j < i ==> #[trigger] origin_views(origins@)[j] == "*"@,
        decreases origins@.len() - i,
    {
        if !str_eq(origins[i].as_str(), "*") {
            assert(origin_views(origins@)[i as int] != "*"@);
            return true;
        }
        i = i + 1;
    }
    false
}

/// The CORS headers for a response, given the request's `Origin` header.
pub fn apply_cors(config: &CorsConfig, origin: Option<&str>) -> (ops: Vec<HeaderOp>)
    ensures
        op_views(ops@) == cors_ops(
            origin_views(config.origins@),
            str_views(config.methods@),
            str_views(config.headers@),
            config.credentials,
            config.max_age_secs,
            match origin {
                Some(o) => Some(o@),
                None => None,
            },
        ),
{
    let ghost origins = origin_views(config.origins@);
    let allow: Option<String> = match origin {
        Some(req) => {
            if origin_listed(&config.origins, req) {
                Some(req.to_owned())
            } else {
                None
            }
        },
        None => {
            if config.origins.len() > 0 {
                Some(config.origins[0].clone())
            } else {
                None
            }
        },
    };
    let mut ops: Vec<HeaderOp> = Vec::new();
    let a = match allow {
        None => {
            assert(op_views(ops@) =~= Seq::<HeaderOpView>::empty());
            return ops;
        },
        Some(a) => a,
    };
    let ghost av = a@;
    let ghost ms = join_with(str_views(config.methods@), ", "@);
    let ghost hs = join_with(str_views(config.headers@), ", "@);
    let ghost e0 = Seq::<HeaderOpView>::empty();
    let ghost e1 = e0 + op_if(header_value_ok(av), HeaderOpView::Insert("access-control-allow-origin"@, av));
    if header_value_valid(a.as_str()) {
        ops.push(HeaderOp::Insert("access-control-allow-origin", a));
    }
    assert(op_views(ops@) =~= e1);
    let ghost e2 = e1 + op_if(
        config.credentials,
        HeaderOpView::Insert("access-control-allow-credentials"@, "true"@),
    );
    if config.credentials {
        ops.push(HeaderOp::Insert("access-control-allow-credentials", "true".to_owned()));
    }
    assert(op_views(ops@) =~= e2);
    let ghost e3 = e2 + op_if(
        str_views(config.methods@).len() > 0 && header_value_ok(ms),
        HeaderOpView::Insert("access-control-allow-methods"@, ms),
    );
    if config.methods.len() > 0 {
        let joined = join_strs(&config.methods, ", ");
        if header_value_valid(joined.as_str()) {
            ops.push(HeaderOp::Insert("access-control-allow-methods", joined));
        }
    }
    assert(op_views(ops@) =~= e3);
    let ghost e4 = e3 + op_if(
        str_views(config.headers@).len() > 0 && header_value_ok(hs),
        HeaderOpView::Insert("access-control-allow-headers"@, hs),
    );
    if config.headers.len() > 0 {
        let joined = join_strs(&config.headers, ", ");
        if header_value_valid(joined.as_str()) {
            ops.push(HeaderOp::Insert("access-control-allow-headers", joined));
        }
    }
    assert(op_views(ops@) =~= e4);
    let ghost e5 = e4 + seq![
        HeaderOpView::Insert("access-control-max-age"@, decimal(config.max_age_secs as nat)),
    ];
    let mut age: Vec<char> = Vec::new();
    push_decimal(&mut age, config.max_age_secs as u64);
    ops.push(HeaderOp::Insert("access-control-max-age", chars_to_string(age.as_slice())));
    assert(op_views(ops@) =~= e5);
    let ghost e6 = e5 + op_if(varies_by_origin(origins), HeaderOpView::Append("vary"@, "Origin"@));
    if some_specific_origin(&config.origins) {
        ops.push(HeaderOp::Append("vary", "Origin".to_owned()));
    }
    assert(op_views(ops@) =~= e6);
    ops
}

/// With `"*"` among the allowed origins, a request's own origin is echoed
/// back as the allowed origin (when it is a valid header value).
pub proof fn lemma_wildcard_echoes_origin(
    origins: Seq<Seq<char>>,
    methods: Seq<Seq<char>>,
    headers: Seq<Seq<char>>,
    credentials: bool,
    max_age: u32,
    origin: Seq<char>,
)
    requires
        origins.contains("*"@),
        header_value_ok(origin),
    ensures
        cors_ops(origins, methods, headers, credentials, max_age, Some(origin))[0]
            == HeaderOpView::Insert("access-control-allow-origin"@, origin),
{
    let i = choose|i: int| 0 <= i < origins.len() && origins[i] == "*"@;
    assert(origins[i] == "*"@);
    assert(allowed_origin(origins, Some(origin)) == Some(origin));
}

/// A request from any configured origin, wherever it stands in the list,
/// is answered with that origin as the allowed one, the max-age, and (the
/// answer depending on the origin) `Vary: Origin` last.
pub proof fn lemma_listed_origin_is_allowed(
    origins: Seq<Seq<char>>,
    methods: Seq<Seq<char>>,
    headers: Seq<Seq<char>>,
    credentials: bool,
    max_age: u32,
    origin: Seq<char>,
)
    requires
        origins.contains(origin),
        header_value_ok(origin),
    ensures
        ({
            let ops = cors_ops(origins, methods, headers, credentials, max_age, Some(origin));
            &&& ops.len() > 0
            &&& ops[0] == HeaderOpView::Insert("access-control-allow-origin"@, origin)
            &&& ops.contains(
                HeaderOpView::Insert("access-control-max-age"@, decimal(max_age as nat)),
            )
            &&& origin != "*"@ ==> ops.last() == HeaderOpView::Append("vary"@, "Origin"@)
        }),
{
    let i = choose|i: int| 0 <= i < origins.len() && origins[i] == origin;
    assert(origins[i] == origin);
    assert(allowed_origin(origins, Some(origin)) == Some(origin));
    let ms = join_with(methods, ", "@);
    let hs = join_with(headers, ", "@);
    let age = HeaderOpView::Insert("access-control-max-age"@, decimal(max_age as nat));
    let front = op_if(true, HeaderOpView::Insert("access-control-allow-origin"@, origin)) + op_if(
        credentials,
        HeaderOpView::Insert("access-control-allow-credentials"@, "true"@),
    ) + op_if(
        methods.len() > 0 && header_value_ok(ms),
        HeaderOpView::Insert("access-control-allow-methods"@, ms),
    ) + op_if(
        headers.len() > 0 && header_value_ok(hs),
        HeaderOpView::Insert("access-control-allow-headers"@, hs),
    );
    let vary = op_if(varies_by_origin(origins), HeaderOpView::Append("vary"@, "Origin"@));
    let ops = cors_ops(origins, methods, headers, credentials, max_age, Some(origin));
    assert(ops =~= front + seq![age] + vary);
    assert(ops[front.len() as int] == age);
    if origin != "*"@ {
        assert(origins[i] != "*"@);
        assert(varies_by_origin(origins));
        assert(ops.last() == HeaderOpView::Append("vary"@, "Origin"@));
    }
}

/// An origin that is not allowed gets no CORS header at all.
pub proof fn lemma_unlisted_origin_gets_nothing(
    origins: Seq<Seq<char>>,
    methods: Seq<Seq<char>>,
    headers: Seq<Seq<char>>,
    credentials: bool,
    max_age: u32,
    origin: Seq<char>,
)
    requires
        !origins.contains("*"@),
        !origins.contains(origin),
    ensures
        cors_ops(origins, methods, headers, credentials, max_age, Some(origin)).len() == 0,
{
    assert forall|i: int| 0 <= i < origins.len() implies !(#[trigger] origins[i] == "*"@ || origins[i]
        == origin) by {
        if origins[i] == "*"@ {
            assert(origins.contains("*"@));
        }
        if origins[i] == origin {
            assert(origins.contains(origin));
        }
    }
}

/// The first `;`-separated field of a list element.
pub open spec fn first_field(piece: Seq<char>) -> Seq<char> {
    split_seq(piece, ';')[0]
}

/// Whether an `Accept-Encoding` value lists `gzip`: some `,`-separated
/// element, its parameters cut off and trimmed, is exactly `gzip`.
pub open spec fn accepts_gzip_spec(v: Seq<char>) -> bool {
    exists|i: int|
        0 <= i < split_seq(v, ',').len() && trim(first_field(#[trigger] split_seq(v, ',')[i]))
            == "gzip"@
}

/// Joining two `Accept-Encoding` lists with a comma: gzip is accepted
/// exactly when either list accepts it, so its position does not matter.
pub proof fn lemma_gzip_anywhere_in_list(a: Seq<char>, b: Seq<char>)
    ensures
        accepts_gzip_spec(a + seq![','] + b) == (accepts_gzip_spec(a) || accepts_gzip_spec(b)),
{
    lemma_split_concat(a, b, ',');
    let pa = split_seq(a, ',');
    let pb = split_seq(b, ',');
    let p = split_seq(a + seq![','] + b, ',');
    assert(p == pa + pb);
    if accepts_gzip_spec(a) {
        let i = choose|i: int| 0 <= i < pa.len() && trim(first_field(#[trigger] pa[i])) == "gzip"@;
        assert(p[i] == pa[i]);
    }
    if accepts_gzip_spec(b) {
        let i = choose|i: int| 0 <= i < pb.len() && trim(first_field(#[trigger] pb[i])) == "gzip"@;
        assert(p[pa.len() + i] == pb[i]);
    }
    if accepts_gzip_spec(a + seq![','] + b) {
        let i = choose|i: int| 0 <= i < p.len() && trim(first_field(#[trigger] p[i])) == "gzip"@;
        if i < pa.len() {
            assert(p[i] == pa[i]);
        } else {
            assert(p[i] == pb[i - pa.len()]);
        }
    }
}

/// A single coding (no comma) is accepted exactly when, its parameters
/// cut off at the first `;` and trimmed, it is `gzip`.
pub proof fn lemma_gzip_single_coding(v: Seq<char>)
    requires
        !v.contains(','),
    ensures
        accepts_gzip_spec(v) == (trim(split_seq(v, ';')[0]) == "gzip"@),
{
    lemma_split_without_sep(v, ',');
    assert(split_seq(v, ',')[0] == v);
}

/// Whether the client accepts gzip.
pub fn accepts_gzip(accept_encoding: Option<&str>) -> (r: bool)
    ensures
        r == match accept_encoding {
            Some(v) => accepts_gzip_spec(v@),
            None => false,
        },
{
    match accept_encoding {
        Some(v) => lists_gzip(v),
        None => false,
    }
}

fn lists_gzip(v: &str) -> (r: bool)
    ensures
        r == accepts_gzip_spec(v@),
{
    let cs = str_chars(v);
    let parts = split_chars(&cs, ',');
    let gz = str_chars("gzip");
    let mut i: usize = 0;
    while i < parts.len()
        invariant
            cs@ == v@,
            gz@ == "gzip"@,
            parts@.len() == split_seq(cs@, ',').len(),
            forall|j: int| 0 <= j < parts@.len() ==> #[trigger] parts@[j]@ == split_seq(cs@, ',')[j],
            i <= parts@.len(),
            forall|j: int|
                0 <= j < i ==> trim(first_field(#[trigger] split_seq(cs@, ',')[j])) != "gzip"@,
        decreases parts@.len() - i,
    {
        let fields = split_chars(&parts[i], ';');
        proof {
            lemma_split_nonempty(parts@[i as int]@, ';');
        }
        let t = trim_chars(&fields[0]);
        assert(fields@[0]@ == first_field(parts@[i as int]@));
        assert(parts@[i as int]@ == split_seq(cs@, ',')[i as int]);
        if crate::chars::eq_chars(&t, &gz) {
            assert(trim(first_field(split_seq(v@, ',')[i as int])) == "gzip"@);
            assert(accepts_gzip_spec(v@));
            return true;
        }
        i = i + 1;
    }
    false
}

/// Whether a status code has no body: `204`, `304`, or informational.
pub open spec fn bodyless_status(status: u16) -> bool {
    status == 204 || status == 304 || (100 <= status <= 199)
}

/// Whether a response gets compressed: the client accepts gzip, the
/// body is not known to be smaller than `min_size` (a streamed body of
/// unknown size always qualifies), the status carries a body, and the
/// response is not already encoded.
pub open spec fn should_compress_spec(
    accepts: bool,
    status: u16,
    exact_len: Option<u64>,
    min_size: usize,
    has_content_encoding: bool,
) -> bool {
    let too_small = match exact_len {
        Some(n) => n < min_size,
        None => false,
    };
    accepts && !too_small && !bodyless_status(status) && !has_content_encoding
}

/// Whether the gzip middleware compresses a response.
pub fn should_compress(
    accepts: bool,
    status: u16,
    exact_len: Option<u64>,
    min_size: usize,
    has_content_encoding: bool,
) -> (r: bool)
    ensures
        r == should_compress_spec(accepts, status, exact_len, min_size, has_content_encoding),
{
    let too_small = match exact_len {
        Some(n) => (n as u128) < (min_size as u128),
        None => false,
    };
    let bodyless = status == 204 || status == 304 || (100 <= status && status <= 199);
    accepts && !too_small && !bodyless && !has_content_encoding
}

/// The headers of a response that gets compressed: `Content-Length` goes
/// (the encoded length is unknown until the stream ends),
/// `Content-Encoding: gzip` is set and `Vary: Accept-Encoding` added.
pub fn gzip_header_ops() -> (ops: (&'static str, Vec<HeaderOp>))
    ensures
        ops.0@ == "content-length"@,
        op_views(ops.1@) == seq![
            HeaderOpView::Insert("content-encoding"@, "gzip"@),
            HeaderOpView::Append("vary"@, "Accept-Encoding"@),
        ],
{
    let mut ops: Vec<HeaderOp> = Vec::new();
    ops.push(HeaderOp::Insert("content-encoding", "gzip".to_owned()));
    ops.push(HeaderOp::Append("vary", "Accept-Encoding".to_owned()));
    assert(op_views(ops@) =~= seq![
        HeaderOpView::Insert("content-encoding"@, "gzip"@),
        HeaderOpView::Append("vary"@, "Accept-Encoding"@),
    ]);
    ("content-length", ops)
}

} // verus!

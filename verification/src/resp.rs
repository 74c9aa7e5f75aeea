//! `Resp<T>`: the unified response envelope. Every API response shares one
//! JSON shape, `{"code": 0, "msg": "ok", "data": ...}`; business success is
//! `code == 0`, framework errors render the same shape with their code.

use vstd::prelude::*;

use crate::chars::{decimal, push_chars, push_decimal, push_str};
use crate::ext::{json_string, json_string_text};
use crate::text::{chars_to_string, str_chars};

verus! {

/// Pagination info, present only when built via [`Resp::page`].
#[derive(Debug, Clone, Copy, PartialEq, Eq, Structural)]
pub struct Page {
    /// 1-based page index.
    pub index: i64,
    /// Page size.
    pub size: i64,
    /// Total number of items across all pages.
    pub total: i64,
}

/// The unified response envelope.
pub struct Resp<T> {
    /// Business code: `0` means success, anything else is an error code
    /// defined by the application or the framework.
    pub code: i64,
    /// The message, `"ok"` on success.
    pub msg: String,
    /// The payload, absent on errors.
    pub data: Option<T>,
    /// Pagination info, present only for [`Resp::page`].
    pub page: Option<Page>,
    /// The HTTP status override (`None` renders with 200).
    pub status: Option<u16>,
}

impl<T> Resp<T> {
    /// The HTTP status the envelope renders with.
    pub open spec fn http_status(&self) -> u16 {
        match self.status {
            Some(s) => s,
            None => 200,
        }
    }

    /// A success envelope wrapping `data` (code 0, HTTP 200).
    pub fn ok(data: T) -> (r: Resp<T>)
        ensures
            r.code == 0,
            r.msg@ == "ok"@,
            r.data == Some(data),
            r.page is None,
            r.status is None,
    {
        Resp { code: 0, msg: "ok".to_owned(), data: Some(data), page: None, status: None }
    }

    /// Success with HTTP 201 Created.
    pub fn created(data: T) -> (r: Resp<T>)
        ensures
            r.code == 0,
            r.msg@ == "ok"@,
            r.data == Some(data),
            r.page is None,
            r.status == Some(201u16),
    {
        let mut resp = Resp::ok(data);
        resp.status = Some(201);
        resp
    }

    /// A paginated success envelope: `{"code":0,"data":[...],"page":{...}}`.
    pub fn page(data: Vec<T>, index: i64, size: i64, total: i64) -> (r: Resp<Vec<T>>)
        ensures
            r.code == 0,
            r.msg@ == "ok"@,
            r.data == Some(data),
            r.page == Some(Page { index, size, total }),
            r.status is None,
    {
        Resp {
            code: 0,
            msg: "ok".to_owned(),
            data: Some(data),
            page: Some(Page { index, size, total }),
            status: None,
        }
    }

    /// Override the HTTP status (business errors default to HTTP 200).
    pub fn with_status(self, status: u16) -> (r: Resp<T>)
        ensures
            r.code == self.code,
            r.msg == self.msg,
            r.data == self.data,
            r.page == self.page,
            r.status == Some(status),
    {
        Resp { status: Some(status), ..self }
    }

    /// The HTTP status this envelope renders with.
    pub fn status(&self) -> (s: u16)
        ensures
            s == self.http_status(),
    {
        match self.status {
            Some(s) => s,
            None => 200,
        }
    }
}

impl Resp<()> {
    /// A business error envelope: custom code and message, HTTP 200.
    pub fn err(code: i64, msg: String) -> (r: Resp<()>)
        ensures
            r.code == code,
            r.msg == msg,
            r.data is None,
            r.page is None,
            r.status is None,
    {
        Resp { code, msg, data: None, page: None, status: None }
    }

    /// A business error envelope with code 500.
    pub fn err_msg(msg: String) -> (r: Resp<()>)
        ensures
            r.code == 500,
            r.msg == msg,
            r.data is None,
            r.page is None,
            r.status is None,
    {
        Resp::err(500, msg)
    }

    /// The JSON body of an envelope without a payload type:
    /// `{"code":..,"msg":..}`, then `"data":null` when data is present and
    /// `"page":{..}` when paginated, as serde renders `Resp`.
    pub fn to_json(&self) -> (r: String)
        ensures
            r@ == envelope_json(self.code, self.msg@, self.data is Some, self.page),
    {
        let mut out: Vec<char> = Vec::new();
        push_str(&mut out, "{\"code\":");
        push_i64(&mut out, self.code);
        push_str(&mut out, ",\"msg\":");
        let m = json_string(self.msg.as_str());
        let mcs = str_chars(m.as_str());
        push_chars(&mut out, &mcs);
        let ghost head = out@;
        if self.data.is_some() {
            push_str(&mut out, ",\"data\":null");
        }
        let ghost mid = out@;
        match self.page {
            Some(p) => {
                push_str(&mut out, ",\"page\":{\"index\":");
                push_i64(&mut out, p.index);
                push_str(&mut out, ",\"size\":");
                push_i64(&mut out, p.size);
                push_str(&mut out, ",\"total\":");
                push_i64(&mut out, p.total);
                push_str(&mut out, "}");
                assert(out@ =~= mid + page_json(p));
            },
            None => {},
        }
        push_str(&mut out, "}");
        assert(out@ =~= envelope_json(self.code, self.msg@, self.data is Some, self.page));
        chars_to_string(out.as_slice())
    }
}

/// Decimal rendering of a signed integer.
pub open spec fn int_text(n: i64) -> Seq<char> {
    if n < 0 {
        seq!['-'] + decimal((-(n as int)) as nat)
    } else {
        decimal(n as nat)
    }
}

/// Append the decimal rendering of a signed integer.
pub fn push_i64(out: &mut Vec<char>, n: i64)
    ensures
        final(out)@ == old(out)@ + int_text(n),
{
    if n < 0 {
        out.push('-');
        let m: u64 = (0i128 - (n as i128)) as u64;
        push_decimal(out, m);
        assert(final(out)@ =~= old(out)@ + int_text(n));
    } else {
        push_decimal(out, n as u64);
    }
}

/// `"page":{"index":..,"size":..,"total":..}` with its leading comma.
pub open spec fn page_json(p: Page) -> Seq<char> {
    ",\"page\":{\"index\":"@ + int_text(p.index) + ",\"size\":"@ + int_text(p.size)
        + ",\"total\":"@ + int_text(p.total) + "}"@
}

/// The JSON text of an envelope without a payload type.
pub open spec fn envelope_json(code: i64, msg: Seq<char>, has_data: bool, page: Option<Page>) -> Seq<
    char,
> {
    "{\"code\":"@ + int_text(code) + ",\"msg\":"@ + json_string_text(msg) + (if has_data {
        ",\"data\":null"@
    } else {
        Seq::empty()
    }) + (match page {
        Some(p) => page_json(p),
        None => Seq::empty(),
    }) + "}"@
}

} // verus!

//! The framework error and its rendering into the unified envelope.

use vstd::prelude::*;

use crate::chars::{push_chars, push_str};
use crate::resp::Resp;
use crate::text::{chars_to_string, str_chars};

verus! {

/// The framework error. Every error carries enough context to render a
/// precise message; internal details never leak to the client. Errors of
/// outside crates (serde_json, serde_urlencoded, std::io) are held as
/// their rendered text.
pub enum Error {
    /// The request itself is invalid (HTTP 400).
    BadRequest(String),
    /// Authentication missing or invalid (HTTP 401).
    Unauthorized,
    /// Authenticated but not permitted (HTTP 403).
    Forbidden,
    /// No such resource (HTTP 404).
    NotFound(String),
    /// Path matched but the method did not (HTTP 405).
    MethodNotAllowed,
    /// Request body exceeded the configured limit (HTTP 413).
    PayloadTooLarge,
    /// The downstream chain exceeded its deadline (HTTP 504).
    Timeout,
    /// A path parameter failed to parse.
    Param {
        /// The parameter name from the route pattern.
        name: String,
        /// The Rust type the parameter was parsed into.
        expected: String,
        /// The parse failure, rendered.
        detail: String,
    },
    /// The JSON body failed to deserialize (HTTP 400, with serde detail).
    Json(String),
    /// The query string failed to deserialize (HTTP 400, with serde detail).
    Query(String),
    /// The raw body was unreadable or of the wrong shape (HTTP 400).
    Body(String),
    /// An application-defined business error, rendered with its own code
    /// and message at HTTP 200.
    Business {
        /// The application-defined business code.
        code: i64,
        /// The client-facing message.
        msg: String,
    },
    /// A server-side failure. The source is logged; the client sees a
    /// sanitized "internal server error" (HTTP 500).
    Internal {
        /// Details for logging only; never sent to the client.
        logged: String,
    },
    /// An I/O failure, mapped to a sanitized 500.
    Io(String),
}

/// The HTTP status of an error.
pub open spec fn status_spec(e: Error) -> u16 {
    match e {
        Error::BadRequest(_) | Error::Param { .. } | Error::Json(_) | Error::Query(_)
        | Error::Body(_) => 400,
        Error::Unauthorized => 401,
        Error::Forbidden => 403,
        Error::NotFound(_) => 404,
        Error::MethodNotAllowed => 405,
        Error::PayloadTooLarge => 413,
        Error::Timeout => 504,
        Error::Business { .. } => 200,
        Error::Internal { .. } | Error::Io(_) => 500,
    }
}

/// The message of an error (its `Display`).
pub open spec fn message_spec(e: Error) -> Seq<char> {
    match e {
        Error::BadRequest(m) => "bad request: "@ + m@,
        Error::Unauthorized => "unauthorized"@,
        Error::Forbidden => "forbidden"@,
        Error::NotFound(m) => "not found: "@ + m@,
        Error::MethodNotAllowed => "method not allowed"@,
        Error::PayloadTooLarge => "payload too large"@,
        Error::Timeout => "request timeout"@,
        Error::Param { name, expected, detail } => "invalid param `"@ + name@ + "`, expected `"@
            + expected@ + "`: "@ + detail@,
        Error::Json(d) => "invalid json body: "@ + d@,
        Error::Query(d) => "invalid query string: "@ + d@,
        Error::Body(m) => "invalid body: "@ + m@,
        Error::Business { msg, .. } => msg@,
        Error::Internal { .. } => "internal server error"@,
        Error::Io(d) => "io error: "@ + d@,
    }
}

/// The message sent to the client: internal details stripped, everything
/// else its message (a param error names the parameter, the expected type
/// and the parse failure).
pub open spec fn user_message_spec(e: Error) -> Seq<char> {
    match e {
        Error::Internal { .. } | Error::Io(_) => "internal server error"@,
        _ => message_spec(e),
    }
}

/// The business code of an error: its own for a business error, the HTTP
/// status number for every other.
pub open spec fn business_code_spec(e: Error) -> i64 {
    match e {
        Error::Business { code, .. } => code,
        _ => status_spec(e) as i64,
    }
}

fn concat2(a: &str, b: &String) -> (r: String)
    ensures
        r@ == a@ + b@,
{
    let mut out = str_chars(a);
    push_str(&mut out, b.as_str());
    chars_to_string(out.as_slice())
}

fn param_text(name: &String, expected: &String, tail: &str) -> (r: Vec<char>)
    ensures
        r@ == "invalid param `"@ + name@ + "`, expected `"@ + expected@ + tail@,
{
    let mut out = str_chars("invalid param `");
    push_str(&mut out, name.as_str());
    push_str(&mut out, "`, expected `");
    push_str(&mut out, expected.as_str());
    push_str(&mut out, tail);
    out
}

impl Error {
    /// A 400 error with a custom message.
    pub fn bad_request(msg: String) -> (e: Error)
        ensures
            e == Error::BadRequest(msg),
    {
        Error::BadRequest(msg)
    }

    /// A 401 error.
    pub fn unauthorized() -> (e: Error)
        ensures
            e == Error::Unauthorized,
    {
        Error::Unauthorized
    }

    /// A 403 error.
    pub fn forbidden() -> (e: Error)
        ensures
            e == Error::Forbidden,
    {
        Error::Forbidden
    }

    /// A 404 error with a custom message.
    pub fn not_found(msg: String) -> (e: Error)
        ensures
            e == Error::NotFound(msg),
    {
        Error::NotFound(msg)
    }

    /// A shorthand for a 400 error with a custom message.
    pub fn msg(msg: String) -> (e: Error)
        ensures
            e == Error::BadRequest(msg),
    {
        Error::BadRequest(msg)
    }

    /// A business error with a custom code. Rendered with HTTP 200; the
    /// client decides success by the envelope `code`.
    pub fn business(code: i64, msg: String) -> (e: Error)
        ensures
            e == (Error::Business { code, msg }),
    {
        Error::Business { code, msg }
    }

    /// An internal error carrying the rendered source, for logging only;
    /// the client sees a sanitized 500.
    pub fn internal(logged: String) -> (e: Error)
        ensures
            e == (Error::Internal { logged }),
    {
        Error::Internal { logged }
    }

    /// The HTTP status this error maps to.
    pub fn status(&self) -> (s: u16)
        ensures
            s == status_spec(*self),
    {
        match self {
            Error::BadRequest(_) | Error::Param { .. } | Error::Json(_) | Error::Query(_)
            | Error::Body(_) => 400,
            Error::Unauthorized => 401,
            Error::Forbidden => 403,
            Error::NotFound(_) => 404,
            Error::MethodNotAllowed => 405,
            Error::PayloadTooLarge => 413,
            Error::Timeout => 504,
            Error::Business { .. } => 200,
            Error::Internal { .. } | Error::Io(_) => 500,
        }
    }

    /// The business code for the envelope. Business errors keep their
    /// code; everything else uses its HTTP status number.
    pub fn business_code(&self) -> (c: i64)
        ensures
            c == business_code_spec(*self),
    {
        match self {
            Error::Business { code, .. } => *code,
            _ => self.status() as i64,
        }
    }

    /// The error's message (what `Display` renders).
    pub fn message(&self) -> (m: String)
        ensures
            m@ == message_spec(*self),
    {
        match self {
            Error::BadRequest(m) => concat2("bad request: ", m),
            Error::Unauthorized => "unauthorized".to_owned(),
            Error::Forbidden => "forbidden".to_owned(),
            Error::NotFound(m) => concat2("not found: ", m),
            Error::MethodNotAllowed => "method not allowed".to_owned(),
            Error::PayloadTooLarge => "payload too large".to_owned(),
            Error::Timeout => "request timeout".to_owned(),
            Error::Param { name, expected, detail } => {
                let mut out = param_text(name, expected, "`: ");
                push_str(&mut out, detail.as_str());
                chars_to_string(out.as_slice())
            },
            Error::Json(d) => concat2("invalid json body: ", d),
            Error::Query(d) => concat2("invalid query string: ", d),
            Error::Body(m) => concat2("invalid body: ", m),
            Error::Business { msg, .. } => msg.clone(),
            Error::Internal { .. } => "internal server error".to_owned(),
            Error::Io(d) => concat2("io error: ", d),
        }
    }

    /// The message rendered into the envelope. Internal details are
    /// stripped; they are for the log only.
    pub fn user_message(&self) -> (m: String)
        ensures
            m@ == user_message_spec(*self),
            (self is Internal || self is Io) ==> m@ == "internal server error"@,
    {
        match self {
            Error::Internal { .. } | Error::Io(_) => "internal server error".to_owned(),
            _ => self.message(),
        }
    }

    /// Render the error as a unified `Resp` envelope.
    pub fn to_resp(&self) -> (r: Resp<()>)
        ensures
            r.code == business_code_spec(*self),
            r.msg@ == user_message_spec(*self),
            r.data is None,
            r.page is None,
            r.status == Some(status_spec(*self)),
    {
        Resp::err(self.business_code(), self.user_message()).with_status(self.status())
    }
}

/// The error for a route parameter that failed to parse into `expected`.
pub fn param_error(name: &str, expected: String, detail: String) -> (e: Error)
    ensures
        e matches Error::Param { name: n, expected: x, detail: d } && n@ == name@ && x == expected
            && d == detail,
{
    Error::Param { name: name.to_owned(), expected, detail }
}

/// The error for a required route parameter that is absent.
pub fn missing_param(name: &str) -> (e: Error)
    ensures
        e matches Error::Param { name: n, expected: x, detail: d } && n@ == name@ && x@
            == "present"@ && d@ == "missing route parameter"@,
{
    Error::Param {
        name: name.to_owned(),
        expected: "present".to_owned(),
        detail: "missing route parameter".to_owned(),
    }
}

/// Every error renders as the envelope `{code, msg}` at its status, and a
/// server-side failure never shows its details: internal and I/O errors
/// render code 500, status 500 and the message "internal server error".
pub proof fn lemma_internal_errors_are_sanitized(e: Error)
    requires
        e is Internal || e is Io,
    ensures
        business_code_spec(e) == 500,
        status_spec(e) == 500,
        user_message_spec(e) == "internal server error"@,
{
}

/// A business error renders with HTTP 200 and keeps its own code and
/// message.
pub proof fn lemma_business_error_envelope(code: i64, msg: String)
    ensures
        status_spec(Error::Business { code, msg }) == 200,
        business_code_spec(Error::Business { code, msg }) == code,
        user_message_spec(Error::Business { code, msg }) == msg@,
{
}

} // verus!

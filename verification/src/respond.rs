//! What handlers return: response wrappers, the content types the
//! framework sets, and the checks on a handler-chosen status or redirect.

use vstd::prelude::*;

use crate::error::Error;
use crate::http::{header_value_ok, header_value_valid};

verus! {

/// A JSON response outside the envelope: `Json(user)` serializes `user`
/// directly, for APIs that do not use the `Resp` convention.
#[derive(Debug, Clone)]
pub struct Json<T>(pub T);

/// An HTML response: `Html("<h1>hi</h1>")`.
#[derive(Debug, Clone)]
pub struct Html<T>(pub T);

/// Marker for handlers that take the request context. Never named by
/// user code: inference fills it in.
pub struct WithContext;

/// Marker distinguishing a plain handler registered as a route (which
/// becomes a `GET` route).
pub struct HandlerRoute;

/// `text/plain; charset=utf-8`
pub const TEXT_PLAIN: &'static str = "text/plain; charset=utf-8";
/// `text/html; charset=utf-8`
pub const TEXT_HTML: &'static str = "text/html; charset=utf-8";
/// `application/json`
pub const APPLICATION_JSON: &'static str = "application/json";
/// `application/octet-stream`
pub const APPLICATION_OCTET_STREAM: &'static str = "application/octet-stream";

/// Whether a number is a valid HTTP status code (three digits, 100 to
/// 999), as `http::StatusCode::from_u16` accepts.
pub open spec fn valid_status(code: u16) -> bool {
    100 <= code <= 999
}

/// A handler-chosen status: the code itself when valid, otherwise the
/// internal error the framework answers with.
pub fn status_from_u16(code: u16) -> (r: Result<u16, Error>)
    ensures
        valid_status(code) ==> r == Ok::<u16, Error>(code),
        !valid_status(code) ==> (r matches Err(Error::Internal { logged }) && logged@
            == "invalid status code"@),
{
    if 100 <= code && code <= 999 {
        Ok(code)
    } else {
        Err(Error::internal("invalid status code".to_owned()))
    }
}

/// The `Location` header of a redirect, when the target is a valid header
/// value; an invalid target leaves the header out.
pub fn redirect_location(location: &str) -> (r: Option<String>)
    ensures
        header_value_ok(location@) ==> (r matches Some(v) && v@ == location@),
        !header_value_ok(location@) ==> r is None,
{
    if header_value_valid(location) {
        Some(location.to_owned())
    } else {
        None
    }
}

} // verus!

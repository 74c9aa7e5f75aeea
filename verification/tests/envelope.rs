use desire::error::{missing_param, param_error, Error};
use desire::resp::{Page, Resp};
use desire::respond::{redirect_location, status_from_u16};

#[test]
fn zero_arity_envelope_json() {
    let r = Resp::ok(());
    assert_eq!(r.to_json(), "{\"code\":0,\"msg\":\"ok\",\"data\":null}");
    assert_eq!(r.status(), 200);
}

#[test]
fn error_envelope_json() {
    let body = Resp::err(40001, "余额不足".to_owned()).to_json();
    assert_eq!(body, "{\"code\":40001,\"msg\":\"余额不足\"}");
    let quoted = Resp::err(-1, "say \"hi\"".to_owned()).to_json();
    assert_eq!(quoted, "{\"code\":-1,\"msg\":\"say \\\"hi\\\"\"}");
}

#[test]
fn page_and_created() {
    let p = Resp::page(vec![1, 2], 1, 20, 42);
    assert_eq!(p.page, Some(Page { index: 1, size: 20, total: 42 }));
    assert_eq!(p.status(), 200);
    assert_eq!(Resp::created(5).status(), 201);
    let paged: Resp<()> = Resp { code: 0, msg: "ok".to_owned(), data: None, page: p.page, status: None };
    assert_eq!(
        paged.to_json(),
        "{\"code\":0,\"msg\":\"ok\",\"page\":{\"index\":1,\"size\":20,\"total\":42}}"
    );
    assert_eq!(Resp::err_msg("x".to_owned()).code, 500);
    assert_eq!(Resp::ok(1).with_status(202).status(), 202);
}

#[test]
fn error_statuses_and_codes() {
    assert_eq!(Error::bad_request("x".to_owned()).status(), 400);
    assert_eq!(Error::unauthorized().status(), 401);
    assert_eq!(Error::forbidden().status(), 403);
    assert_eq!(Error::not_found("file".to_owned()).status(), 404);
    assert_eq!(Error::MethodNotAllowed.status(), 405);
    assert_eq!(Error::PayloadTooLarge.status(), 413);
    assert_eq!(Error::Timeout.status(), 504);
    assert_eq!(Error::Json("e".to_owned()).status(), 400);
    assert_eq!(Error::Query("e".to_owned()).status(), 400);
    assert_eq!(Error::Body("e".to_owned()).status(), 400);
    assert_eq!(Error::Io("disk".to_owned()).status(), 500);
    assert_eq!(Error::msg("m".to_owned()).status(), 400);
    let b = Error::business(40001, "余额不足".to_owned());
    assert_eq!(b.status(), 200);
    assert_eq!(b.business_code(), 40001);
    assert_eq!(b.user_message(), "余额不足");
    assert_eq!(Error::forbidden().business_code(), 403);
}

#[test]
fn internal_error_is_sanitized() {
    let e = Error::internal("db password is hunter2".to_owned());
    assert_eq!(e.status(), 500);
    assert_eq!(e.user_message(), "internal server error");
    let r = e.to_resp();
    assert_eq!(r.code, 500);
    assert_eq!(r.status(), 500);
    assert!(!r.to_json().contains("hunter2"));
}

#[test]
fn error_messages() {
    assert_eq!(Error::not_found("file".to_owned()).message(), "not found: file");
    assert_eq!(Error::MethodNotAllowed.user_message(), "method not allowed");
    let p = param_error("id", "i64".to_owned(), "invalid digit found in string".to_owned());
    assert_eq!(p.message(), "invalid param `id`, expected `i64`: invalid digit found in string");
    assert_eq!(
        p.user_message(),
        "invalid param `id`, expected `i64`: invalid digit found in string"
    );
    assert_eq!(
        missing_param("id").user_message(),
        "invalid param `id`, expected `present`: missing route parameter"
    );
    assert_eq!(Error::Json("missing field `name`".to_owned()).user_message(), "invalid json body: missing field `name`");
}

#[test]
fn handler_status_codes() {
    assert_eq!(status_from_u16(200).ok(), Some(200));
    assert_eq!(status_from_u16(999).ok(), Some(999));
    match status_from_u16(42) {
        Err(Error::Internal { logged }) => assert_eq!(logged, "invalid status code"),
        _ => panic!("expected an internal error"),
    }
    assert!(status_from_u16(1000).is_err());
}

#[test]
fn redirect_targets() {
    assert_eq!(redirect_location("/health"), Some("/health".to_owned()));
    assert_eq!(redirect_location("/bad\nline"), None);
}

#[test]
fn control_characters_are_escaped_in_envelope() {
    let body = Resp::err(1, "a\u{1}b\tc\\d".to_owned()).to_json();
    assert_eq!(body, "{\"code\":1,\"msg\":\"a\\u0001b\\tc\\\\d\"}");
}

use desire::error::Error;
use desire::extract::{
    check_form_content_type, check_json_content_type, find_cookie, param_raw, websocket_key,
    BodyBudget,
};
use desire::form::{FormData, UploadedFile};

#[test]
fn param_raw_finds_or_reports_missing() {
    let params = vec![("id".to_owned(), "42".to_owned())];
    assert_eq!(param_raw(&params, "id").ok(), Some("42"));
    match param_raw(&params, "name") {
        Err(Error::Param { name, expected, detail }) => {
            assert_eq!(name, "name");
            assert_eq!(expected, "present");
            assert_eq!(detail, "missing route parameter");
        }
        _ => panic!("expected a param error"),
    }
}

#[test]
fn later_param_of_same_name_wins() {
    let params = vec![("a".to_owned(), "1".to_owned()), ("a".to_owned(), "2".to_owned())];
    assert_eq!(param_raw(&params, "a").ok(), Some("2"));
}

#[test]
fn body_budget_refuses_oversized_bodies() {
    let mut b = BodyBudget::new(64);
    assert!(b.charge(40));
    assert!(b.charge(24));
    assert!(!b.charge(1));
    let mut b = BodyBudget::new(64);
    assert!(!b.charge(65));
    assert!(b.charge(0));
    let mut larger = BodyBudget::new(1024);
    assert!(larger.charge(65));
}

#[test]
fn content_type_checks() {
    assert!(check_json_content_type(None).is_ok());
    assert!(check_json_content_type(Some("application/json; charset=utf-8")).is_ok());
    match check_json_content_type(Some("text/plain")) {
        Err(Error::Body(m)) => assert_eq!(m, "expected a JSON content-type, got `text/plain`"),
        _ => panic!("expected a body error"),
    }
    assert!(check_form_content_type(Some("application/x-www-form-urlencoded")).is_ok());
    match check_form_content_type(Some("application/json")) {
        Err(Error::Body(m)) => {
            assert_eq!(m, "expected an urlencoded content-type, got `application/json`")
        }
        _ => panic!("expected a body error"),
    }
}

#[test]
fn websocket_handshake_checks() {
    let key = Some("dGhlIHNhbXBsZSBub25jZQ==");
    assert_eq!(websocket_key(Some("WebSocket"), Some(" 13 "), key, true).ok(), Some(key.unwrap().to_owned()));
    assert_eq!(websocket_key(Some("websocket"), None, key, true).ok(), Some(key.unwrap().to_owned()));
    match websocket_key(None, None, key, true) {
        Err(Error::BadRequest(m)) => assert_eq!(m, "not a websocket handshake"),
        _ => panic!("not a handshake"),
    }
    match websocket_key(Some("websocket"), Some("8"), key, true) {
        Err(Error::BadRequest(m)) => assert_eq!(m, "not a websocket handshake"),
        _ => panic!("bad version"),
    }
    match websocket_key(Some("websocket"), None, None, true) {
        Err(Error::BadRequest(m)) => assert_eq!(m, "not a websocket handshake"),
        _ => panic!("missing key"),
    }
    match websocket_key(Some("websocket"), None, key, false) {
        Err(Error::BadRequest(m)) => {
            assert_eq!(m, "connection upgrade is unavailable on this route")
        }
        _ => panic!("no upgrade"),
    }
}

#[test]
fn cookie_read_back() {
    let values = vec![Some("session=xyz; theme=dark".to_owned())];
    assert_eq!(find_cookie(&values, "session"), Some(("session".to_owned(), "xyz".to_owned())));
    assert_eq!(find_cookie(&values, "theme"), Some(("theme".to_owned(), "dark".to_owned())));
    assert_eq!(find_cookie(&values, "missing"), None);
}

#[test]
fn cookie_first_header_wins_and_bad_pieces_skipped() {
    let values = vec![
        None,
        Some("broken; a=1".to_owned()),
        Some("a=2".to_owned()),
    ];
    assert_eq!(find_cookie(&values, "a"), Some(("a".to_owned(), "1".to_owned())));
    assert_eq!(find_cookie(&Vec::new(), "a"), None);
}

#[test]
fn form_lookups() {
    let form = FormData::new(
        vec![("title".to_owned(), "my upload".to_owned()), ("title".to_owned(), "second".to_owned())],
        vec![UploadedFile {
            name: "attachment".to_owned(),
            filename: Some("notes.txt".to_owned()),
            content_type: Some("text/plain".to_owned()),
            bytes: b"FILE DATA".to_vec(),
        }],
    );
    assert_eq!(form.field("title"), Some("my upload"));
    assert_eq!(form.field("missing"), None);
    assert_eq!(form.fields().len(), 2);
    let file = form.file("attachment").expect("missing file");
    assert_eq!(file.filename.as_deref(), Some("notes.txt"));
    assert_eq!(file.bytes.len(), 9);
    assert!(form.file("other").is_none());
    assert_eq!(form.files().len(), 1);
    assert!(FormData::default().fields().is_empty());
}

#[test]
fn upgrade_answer_derives_accept_key() {
    let h = desire::extract::upgrade_headers("dGhlIHNhbXBsZSBub25jZQ==");
    assert_eq!(
        h,
        vec![
            ("upgrade".to_owned(), "websocket".to_owned()),
            ("connection".to_owned(), "Upgrade".to_owned()),
            ("sec-websocket-accept".to_owned(), "s3pPLMBiTxaQ9kYGzzhZRbK+xOo=".to_owned()),
        ]
    );
}

#[test]
fn cookie_pieces_are_trimmed_and_blank_ones_skipped() {
    let values = vec![Some("  a = 1 ;; =x; b=".to_owned())];
    assert_eq!(find_cookie(&values, "a"), Some(("a".to_owned(), "1".to_owned())));
    assert_eq!(find_cookie(&values, "b"), Some(("b".to_owned(), "".to_owned())));
    assert_eq!(find_cookie(&values, ""), None);
}

#[test]
fn default_body_budget_is_two_mebibytes() {
    assert_eq!(desire::extract::DEFAULT_MAX_BODY_SIZE, 2 * 1024 * 1024);
    let mut budget = desire::extract::BodyBudget::default();
    assert!(budget.charge(2 * 1024 * 1024));
    assert!(!budget.charge(1));
    let mut over = desire::extract::BodyBudget::default();
    assert!(over.charge(1024 * 1024));
    assert!(!over.charge(1024 * 1024 + 1));
}

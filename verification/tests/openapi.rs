use desire::json::JsonValue;
use desire::openapi::{envelope, strip_null, OpenApi, PathDoc};

fn get<'a>(v: &'a JsonValue, key: &str) -> &'a JsonValue {
    match v {
        JsonValue::Object(fields) => {
            &fields.iter().find(|(k, _)| k == key).unwrap_or_else(|| panic!("missing {key}")).1
        }
        _ => panic!("not an object"),
    }
}

fn has(v: &JsonValue, key: &str) -> bool {
    match v {
        JsonValue::Object(fields) => fields.iter().any(|(k, _)| k == key),
        _ => false,
    }
}

fn text(v: &JsonValue) -> &str {
    match v {
        JsonValue::Str(s) => s.as_str(),
        _ => panic!("not a string"),
    }
}

fn obj(fields: Vec<(&str, JsonValue)>) -> JsonValue {
    JsonValue::Object(fields.into_iter().map(|(k, v)| (k.to_owned(), v)).collect())
}

fn s(t: &str) -> JsonValue {
    JsonValue::Str(t.to_owned())
}

#[test]
fn document_shape() {
    let doc = OpenApi::new("Test API".to_owned(), "1.0.0".to_owned())
        .description("demo".to_owned())
        .path(
            PathDoc::get("/users/{id}".to_owned())
                .summary("get one user".to_owned())
                .tag("users".to_owned())
                .path_param("id", "numeric user id")
                .resp_schema(200, "the user", obj(vec![("type", s("object"))])),
        )
        .path(PathDoc::post("/users".to_owned()).body_schema(obj(vec![("type", s("object"))])))
        .to_json();
    assert_eq!(text(get(&doc, "openapi")), "3.0.3");
    let info = get(&doc, "info");
    assert_eq!(text(get(info, "title")), "Test API");
    assert_eq!(text(get(info, "version")), "1.0.0");
    assert_eq!(text(get(info, "description")), "demo");
    let op = get(get(get(&doc, "paths"), "/users/{id}"), "get");
    assert_eq!(text(get(op, "summary")), "get one user");
    match get(op, "tags") {
        JsonValue::Array(tags) => assert_eq!(text(&tags[0]), "users"),
        _ => panic!("tags"),
    }
    match get(op, "parameters") {
        JsonValue::Array(ps) => {
            assert_eq!(text(get(&ps[0], "name")), "id");
            assert_eq!(text(get(&ps[0], "in")), "path");
            assert!(matches!(get(&ps[0], "required"), JsonValue::Bool(true)));
            assert_eq!(text(get(get(&ps[0], "schema"), "type")), "string");
        }
        _ => panic!("parameters"),
    }
    let ok = get(get(op, "responses"), "200");
    assert_eq!(text(get(ok, "description")), "the user");
    let schema = get(get(get(ok, "content"), "application/json"), "schema");
    assert_eq!(text(get(get(get(schema, "properties"), "code"), "type")), "integer");
    assert!(has(get(schema, "properties"), "data"));
    let post = get(get(get(&doc, "paths"), "/users"), "post");
    assert!(matches!(get(get(post, "requestBody"), "required"), JsonValue::Bool(true)));
    assert!(!has(post, "summary"));
    assert!(!has(post, "parameters"));
}

#[test]
fn same_path_keeps_both_methods() {
    let doc = OpenApi::new("t".to_owned(), "1".to_owned())
        .path(PathDoc::get("/x".to_owned()).summary("read".to_owned()))
        .path(PathDoc::delete("/x".to_owned()).summary("remove".to_owned()))
        .to_json();
    let item = get(get(&doc, "paths"), "/x");
    assert_eq!(text(get(get(item, "get"), "summary")), "read");
    assert_eq!(text(get(get(item, "delete"), "summary")), "remove");
}

#[test]
fn query_params_from_schema() {
    let schema = obj(vec![
        (
            "properties",
            obj(vec![
                ("page", obj(vec![("type", s("integer"))])),
                ("q", obj(vec![("type", JsonValue::Array(vec![s("string"), s("null")]))])),
            ]),
        ),
        ("required", JsonValue::Array(vec![s("page")])),
    ]);
    let op = PathDoc::get("/search".to_owned()).query_schema(&schema).operation_json();
    match get(&op, "parameters") {
        JsonValue::Array(ps) => {
            assert_eq!(ps.len(), 2);
            assert_eq!(text(get(&ps[0], "name")), "page");
            assert_eq!(text(get(&ps[0], "in")), "query");
            assert!(matches!(get(&ps[0], "required"), JsonValue::Bool(true)));
            assert_eq!(text(get(&ps[1], "name")), "q");
            assert!(matches!(get(&ps[1], "required"), JsonValue::Bool(false)));
            assert_eq!(text(get(get(&ps[1], "schema"), "type")), "string");
        }
        _ => panic!("parameters"),
    }
}

#[test]
fn strip_null_only_collapses_single_type() {
    let nullable = obj(vec![("type", JsonValue::Array(vec![s("integer"), s("null")]))]);
    assert_eq!(text(get(&strip_null(&nullable), "type")), "integer");
    let two = obj(vec![("type", JsonValue::Array(vec![s("integer"), s("string"), s("null")]))]);
    assert!(matches!(get(&strip_null(&two), "type"), JsonValue::Array(t) if t.len() == 3));
    assert!(matches!(strip_null(&JsonValue::Null), JsonValue::Null));
}

#[test]
fn envelope_wraps_data_schema() {
    let env = envelope(s("payload"));
    assert_eq!(text(get(&env, "type")), "object");
    assert_eq!(text(get(get(&env, "properties"), "data")), "payload");
    match get(&env, "required") {
        JsonValue::Array(r) => {
            assert_eq!(text(&r[0]), "code");
            assert_eq!(text(&r[1]), "msg");
        }
        _ => panic!("required"),
    }
}

#[test]
fn later_response_for_same_status_replaces_earlier() {
    let op = PathDoc::put("/x".to_owned())
        .empty_resp(204, "first")
        .empty_resp(204, "second")
        .operation_json();
    let r = get(get(&op, "responses"), "204");
    assert_eq!(text(get(r, "description")), "second");
    assert!(!has(r, "content"));
}

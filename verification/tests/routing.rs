use desire::router::{get, post, Method, MethodRouter, Router};
use desire::table::{sent_body, RouteDecision, RouteError, RouteTable};

fn table(router: Router<&'static str, u32>) -> RouteTable<&'static str, u32> {
    match RouteTable::build(router) {
        Ok(t) => t,
        Err(RouteError::Refused { path, error }) => panic!("route conflict at `{path}`: {error}"),
        Err(RouteError::TooManyParams { path }) => panic!("too many parameters in `{path}`"),
    }
}

#[test]
fn registered_method_runs_its_handler() {
    let t = table(Router::new().route("/users".to_owned(), get("list").post("create")));
    match t.plan(Some(Method::Post), "/users") {
        RouteDecision::Handler { route, method, params, head } => {
            assert_eq!(method, Method::Post);
            assert!(params.is_empty());
            assert!(!head);
            assert_eq!(t.handler(route, method), Some(&"create"));
        }
        _ => panic!("expected a handler"),
    }
}

#[test]
fn method_not_allowed_lists_allow_header() {
    let t = table(Router::new().route("/users".to_owned(), get("list").post("create")));
    match t.plan(Some(Method::Delete), "/users") {
        RouteDecision::NotAllowed { allow, head, .. } => {
            assert_eq!(allow, "GET, HEAD, POST");
            assert!(!head);
        }
        _ => panic!("expected 405"),
    }
}

#[test]
fn unknown_method_is_not_allowed() {
    let t = table(Router::new().route("/x".to_owned(), post("p")));
    match t.plan(None, "/x") {
        RouteDecision::NotAllowed { allow, .. } => assert_eq!(allow, "POST"),
        _ => panic!("expected 405"),
    }
}

#[test]
fn head_is_served_by_get() {
    let t = table(Router::new().route("/health".to_owned(), get("health")));
    match t.plan(Some(Method::Head), "/health") {
        RouteDecision::Handler { route, method, head, .. } => {
            assert_eq!(method, Method::Get);
            assert!(head);
            assert_eq!(t.handler(route, method), Some(&"health"));
        }
        _ => panic!("expected the GET handler"),
    }
}

#[test]
fn explicit_head_handler_wins() {
    let mr: MethodRouter<&'static str, u32> = get("g").head("h");
    let t = table(Router::new().route("/r".to_owned(), mr));
    match t.plan(Some(Method::Head), "/r") {
        RouteDecision::Handler { route, method, head, .. } => {
            assert_eq!(method, Method::Head);
            assert!(head);
            assert_eq!(t.handler(route, method), Some(&"h"));
        }
        _ => panic!("expected the HEAD handler"),
    }
}

#[test]
fn path_params_are_decoded() {
    let t = table(Router::new().route("/users/{id}".to_owned(), get("user")));
    match t.plan(Some(Method::Get), "/users/a%20b") {
        RouteDecision::Handler { params, .. } => {
            assert_eq!(params, vec![("id".to_owned(), "a b".to_owned())]);
        }
        _ => panic!("expected a handler"),
    }
}

#[test]
fn unmatched_path_is_not_found() {
    let t = table(Router::new().route("/users".to_owned(), get("list")));
    assert!(matches!(t.plan(Some(Method::Get), "/nope"), RouteDecision::NotFound));
}

#[test]
fn duplicate_path_is_refused() {
    let router: Router<&'static str, u32> = Router::new()
        .route("/a".to_owned(), get("one"))
        .route("/a".to_owned(), post("two"));
    match RouteTable::build(router) {
        Err(RouteError::Refused { path, .. }) => assert_eq!(path, "/a"),
        _ => panic!("conflict expected"),
    }
}

#[test]
fn nest_prefixes_paths_and_chains_group_middleware() {
    let api: Router<&'static str, u32> = Router::new()
        .with(1)
        .route("/ping".to_owned(), get::<&'static str, u32>("pong"));
    let app = Router::new().nest("/api".to_owned(), api);
    let routes = app.into_routes();
    assert_eq!(routes.len(), 1);
    assert_eq!(routes[0].0, "/api/ping");
    assert_eq!(routes[0].1.middleware_list(), &vec![1u32]);
    let t = table(Router::new().nest(
        "/api".to_owned(),
        Router::new().with(1).route("/ping".to_owned(), get("pong")),
    ));
    match t.plan(Some(Method::Get), "/api/ping") {
        RouteDecision::Handler { route, method, .. } => {
            assert_eq!(t.handler(route, method), Some(&"pong"));
            assert_eq!(t.middleware_list(route), &vec![1u32]);
        }
        _ => panic!("expected the nested handler"),
    }
}

#[test]
fn merge_keeps_every_route() {
    let a: Router<&'static str, u32> = Router::new().route("/a".to_owned(), get("a"));
    let b: Router<&'static str, u32> = Router::new().with(9).route("/b".to_owned(), get("b"));
    let merged = a.merge(b);
    let routes = merged.into_routes();
    assert_eq!(routes.len(), 2);
    assert_eq!(routes[0].0, "/a");
    assert_eq!(routes[1].0, "/b");
    assert_eq!(routes[1].1.middleware_list(), &vec![9u32]);
}

#[test]
fn method_router_replaces_handler_for_same_method() {
    let mr: MethodRouter<&'static str, u32> = get("first").get("second");
    assert_eq!(mr.handler(Method::Get), Some(&"second"));
    assert!(mr.has(Method::Get));
    assert!(!mr.has(Method::Post));
}

#[test]
fn method_names() {
    assert_eq!(Method::Get.as_str(), "GET");
    assert_eq!(Method::Connect.as_str(), "CONNECT");
    assert_eq!(Method::Options.as_str(), "OPTIONS");
}

#[test]
fn method_not_allowed_runs_route_middleware_too() {
    let t = table(Router::new().nest(
        "/api".to_owned(),
        Router::new().with(5).route("/x".to_owned(), get("x")),
    ));
    let global = vec![1u32, 2];
    let refused = t.plan(Some(Method::Post), "/api/x");
    assert!(matches!(refused, RouteDecision::NotAllowed { .. }));
    assert_eq!(t.middleware_chain(&global, &refused), vec![1, 2, 5]);
    let served = t.plan(Some(Method::Get), "/api/x");
    assert_eq!(t.middleware_chain(&global, &served), vec![1, 2, 5]);
    let missing = t.plan(Some(Method::Get), "/nowhere");
    assert_eq!(t.middleware_chain(&global, &missing), vec![1, 2]);
}

#[test]
fn parameter_conflict_is_refused() {
    let router: Router<&'static str, u32> = Router::new()
        .route("/u/{id}".to_owned(), get("one"))
        .route("/u/{name}".to_owned(), get("two"));
    assert!(matches!(RouteTable::build(router), Err(RouteError::Refused { .. })));
}

#[test]
fn too_many_parameters_are_refused_without_panicking() {
    let mut path = String::new();
    for c in 'a'..='z' {
        path.push_str(&format!("/{{p{c}}}"));
    }
    let router: Router<&'static str, u32> = Router::new().route(path.clone(), get("many"));
    match RouteTable::build(router) {
        Err(RouteError::TooManyParams { path: p }) => assert_eq!(p, path),
        _ => panic!("expected the parameter limit"),
    }
    let mut ok = String::new();
    for c in 'a'..='y' {
        ok.push_str(&format!("/{{p{c}}}"));
    }
    assert!(RouteTable::build(Router::<&'static str, u32>::new().route(ok, get("fine"))).is_ok());
}

#[test]
fn head_answers_go_out_without_body() {
    let t = table(Router::new().route("/health".to_owned(), get("health")));
    let head = t.plan(Some(Method::Head), "/health");
    assert!(head.answers_head());
    assert_eq!(sent_body(head.answers_head(), "payload", ""), "");
    let get_req = t.plan(Some(Method::Get), "/health");
    assert!(!get_req.answers_head());
    assert_eq!(sent_body(get_req.answers_head(), "payload", ""), "payload");
    assert!(!t.plan(Some(Method::Head), "/missing").answers_head());
}

#[test]
fn catch_all_and_escaped_braces_do_not_count_toward_the_limit() {
    let mut named = String::new();
    for c in 'a'..='y' {
        named.push_str(&format!("/{{p{c}}}"));
    }
    let with_catch_all = format!("{named}/{{*rest}}");
    let router: Router<&'static str, u32> = Router::new().route(with_catch_all, get("tail"));
    assert!(RouteTable::build(router).is_ok());
    let with_escaped = format!("{named}/{{{{literal}}}}");
    let router: Router<&'static str, u32> = Router::new().route(with_escaped, get("escaped"));
    assert!(RouteTable::build(router).is_ok());
}

#[test]
fn static_segment_wins_over_parameter() {
    let t = table(Router::new().route("/{id}".to_owned(), get("param")).route("/a".to_owned(), get("static")));
    match t.plan(Some(Method::Get), "/a") {
        RouteDecision::Handler { route, method, params, .. } => {
            assert_eq!(t.handler(route, method), Some(&"static"));
            assert!(params.is_empty());
        }
        _ => panic!("expected the static route"),
    }
    match t.plan(Some(Method::Get), "/b") {
        RouteDecision::Handler { route, method, params, .. } => {
            assert_eq!(t.handler(route, method), Some(&"param"));
            assert_eq!(params, vec![("id".to_owned(), "b".to_owned())]);
        }
        _ => panic!("expected the parameter route"),
    }
}

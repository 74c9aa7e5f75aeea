use desire::middleware::{
    accepts_gzip, apply_cors, gzip_header_ops, is_preflight, should_compress, CorsConfig, HeaderOp,
};
use desire::router::Method;

fn inserted<'a>(ops: &'a [HeaderOp], name: &str) -> Option<&'a str> {
    ops.iter().find_map(|op| match op {
        HeaderOp::Insert(n, v) if *n == name => Some(v.as_str()),
        _ => None,
    })
}

fn appended<'a>(ops: &'a [HeaderOp], name: &str) -> Option<&'a str> {
    ops.iter().find_map(|op| match op {
        HeaderOp::Append(n, v) if *n == name => Some(v.as_str()),
        _ => None,
    })
}

#[test]
fn cors_default_echoes_origin() {
    let ops = apply_cors(&CorsConfig::default(), Some("https://example.com"));
    assert_eq!(inserted(&ops, "access-control-allow-origin"), Some("https://example.com"));
    assert_eq!(
        inserted(&ops, "access-control-allow-methods"),
        Some("GET, POST, PUT, PATCH, DELETE, HEAD, OPTIONS")
    );
    assert_eq!(inserted(&ops, "access-control-allow-headers"), Some("*"));
    assert_eq!(inserted(&ops, "access-control-max-age"), Some("3600"));
    assert_eq!(inserted(&ops, "access-control-allow-credentials"), None);
    assert_eq!(appended(&ops, "vary"), None);
}

#[test]
fn cors_without_origin_uses_first_configured() {
    let ops = apply_cors(&CorsConfig::default(), None);
    assert_eq!(inserted(&ops, "access-control-allow-origin"), Some("*"));
}

#[test]
fn cors_specific_origins() {
    let config = CorsConfig {
        origins: vec!["https://a.test".to_owned()],
        methods: vec![],
        headers: vec!["x-token"],
        credentials: true,
        max_age_secs: 60,
    };
    let ok = apply_cors(&config, Some("https://a.test"));
    assert_eq!(inserted(&ok, "access-control-allow-origin"), Some("https://a.test"));
    assert_eq!(inserted(&ok, "access-control-allow-credentials"), Some("true"));
    assert_eq!(inserted(&ok, "access-control-allow-methods"), None);
    assert_eq!(inserted(&ok, "access-control-allow-headers"), Some("x-token"));
    assert_eq!(inserted(&ok, "access-control-max-age"), Some("60"));
    assert_eq!(appended(&ok, "vary"), Some("Origin"));
    let refused = apply_cors(&config, Some("https://evil.test"));
    assert!(refused.is_empty());
}

#[test]
fn cors_preflight_detection() {
    assert!(is_preflight(Some(Method::Options), true));
    assert!(!is_preflight(Some(Method::Options), false));
    assert!(!is_preflight(Some(Method::Get), true));
    assert!(!is_preflight(None, true));
}

#[test]
fn gzip_acceptance() {
    assert!(accepts_gzip(Some("gzip")));
    assert!(accepts_gzip(Some("deflate, gzip;q=0.8")));
    assert!(accepts_gzip(Some(" br , gzip ")));
    assert!(!accepts_gzip(Some("x-gzip")));
    assert!(!accepts_gzip(Some("identity")));
    assert!(!accepts_gzip(None));
}

#[test]
fn gzip_compresses_only_worthwhile_bodies() {
    assert!(should_compress(true, 200, Some(3500), 1024, false));
    assert!(should_compress(true, 200, None, 1024, false));
    assert!(!should_compress(false, 200, Some(3500), 1024, false));
    assert!(!should_compress(true, 200, Some(10), 1024, false));
    assert!(should_compress(true, 200, Some(10), 0, false));
    assert!(!should_compress(true, 204, Some(3500), 1024, false));
    assert!(!should_compress(true, 304, Some(3500), 1024, false));
    assert!(!should_compress(true, 101, Some(3500), 1024, false));
    assert!(!should_compress(true, 200, Some(3500), 1024, true));
}

#[test]
fn gzip_rewrites_headers() {
    let (removed, ops) = gzip_header_ops();
    assert_eq!(removed, "content-length");
    assert_eq!(inserted(&ops, "content-encoding"), Some("gzip"));
    assert_eq!(appended(&ops, "vary"), Some("Accept-Encoding"));
}

use desire::fs::path_within_root;
use desire::fs::{
    etag, has_dotfile_segment, html_escape, if_none_match_matches, is_safe_relative_path,
    parse_range, plan_file_response, render_listing, DirAction, DirRequest, FileBody, FileMeta,
    ListingEntry, ParsedRange, ServeDir, ServeFile,
};
use std::path::PathBuf;

fn meta(len: u64) -> FileMeta {
    FileMeta { is_dir: false, len, modified_secs: 1_700_000_000, modified_nanos: 5 }
}

fn header<'a>(h: &'a [(String, String)], name: &str) -> Option<&'a str> {
    h.iter().find(|(n, _)| n == name).map(|(_, v)| v.as_str())
}

#[test]
fn range_forms() {
    assert_eq!(parse_range("bytes=0-4", 12), ParsedRange::Valid(0, 4));
    assert_eq!(parse_range("bytes=6-", 12), ParsedRange::Valid(6, 11));
    assert_eq!(parse_range("bytes=-6", 12), ParsedRange::Valid(6, 11));
    assert_eq!(parse_range("bytes=0-100", 12), ParsedRange::Valid(0, 11));
    assert_eq!(parse_range("bytes=999-", 12), ParsedRange::Unsatisfiable);
    assert_eq!(parse_range("bytes=-0", 12), ParsedRange::Unsatisfiable);
}

#[test]
fn malformed_ranges_are_ignored() {
    for garbage in ["bytes=abc", "items=0-2", "bytes=5-2", "bytes=0-1,3-4", "bytes=-", ""] {
        assert_eq!(parse_range(garbage, 12), ParsedRange::Ignore, "garbage range: {garbage}");
    }
}

#[test]
fn traversal_and_odd_paths_are_unsafe() {
    for p in ["../secret.txt", "a/../../b", "/etc/passwd", "..\\secret", "a\0b", "./a", "a//b", ""] {
        assert!(!is_safe_relative_path(p), "{p:?} must be refused");
    }
    for p in ["hello.txt", "a/b/c.txt", "sub/index.html", "C:/win.ini"] {
        assert!(is_safe_relative_path(p), "{p:?} must be accepted");
    }
}

#[test]
fn dotfile_segments_detected() {
    assert!(has_dotfile_segment(".env"));
    assert!(has_dotfile_segment(".git/config"));
    assert!(has_dotfile_segment("a/.hidden/b"));
    assert!(!has_dotfile_segment("./a"));
    assert!(!has_dotfile_segment("a/b.txt"));
}

#[test]
fn serve_dir_request_targets() {
    let dir = ServeDir::new(PathBuf::from("assets"));
    assert!(matches!(dir.request_target(None), DirRequest::Root));
    assert!(matches!(dir.request_target(Some("")), DirRequest::Root));
    assert!(matches!(dir.request_target(Some("%2e%2e/secret.txt")), DirRequest::NotFound));
    assert!(matches!(dir.request_target(Some("..%5Csecret.txt")), DirRequest::NotFound));
    assert!(matches!(dir.request_target(Some("%2eenv")), DirRequest::NotFound));
    match dir.request_target(Some("a%20b.txt")) {
        DirRequest::Relative(p) => assert_eq!(p, "a b.txt"),
        _ => panic!("expected a relative path"),
    }
    let open = ServeDir::new(PathBuf::from("assets")).allow_dotfiles();
    match open.request_target(Some(".well-known/x")) {
        DirRequest::Relative(p) => assert_eq!(p, ".well-known/x"),
        _ => panic!("dotfiles allowed"),
    }
}

#[test]
fn serve_dir_actions() {
    let plain = ServeDir::new(PathBuf::from("assets"));
    let root: &[u8] = b"/srv/assets";
    assert_eq!(plain.on_missing(), DirAction::NotFound);
    assert_eq!(plain.on_resolved(root, b"/srv/secret.txt", false, None), DirAction::NotFound);
    assert_eq!(plain.on_resolved(root, b"/srv/assets-other/a.txt", false, None), DirAction::NotFound);
    assert_eq!(
        plain.on_resolved(root, b"/srv/assets/sub", true, Some(b"/srv/assets/sub/index.html")),
        DirAction::ServeIndex
    );
    assert_eq!(plain.on_resolved(root, b"/srv/assets/sub", true, None), DirAction::NotFound);
    assert_eq!(plain.on_resolved(root, b"/srv/assets/a.txt", false, None), DirAction::ServeFile);
    assert_eq!(plain.on_resolved(root, b"/srv/assets", true, Some(b"/srv/assets/index.html")), DirAction::ServeIndex);
    // An index.html that resolves outside the root is never served.
    assert_eq!(
        plain.on_resolved(root, b"/srv/assets/sub", true, Some(b"/etc/passwd")),
        DirAction::NotFound
    );
    let spa = ServeDir::new(PathBuf::from("assets"))
        .fallback_file(PathBuf::from("index.html"))
        .files_listing()
        .cache_control("public, max-age=3600".to_owned());
    assert_eq!(spa.on_missing(), DirAction::ServeFallback);
    assert_eq!(spa.on_resolved(root, b"/srv/assets/sub", true, None), DirAction::Listing);
    assert_eq!(
        spa.on_resolved(root, b"/srv/assets/sub", true, Some(b"/tmp/index.html")),
        DirAction::Listing
    );
    assert_eq!(spa.cache_control_value(), Some("public, max-age=3600"));
    assert_eq!(spa.fallback(), Some(&PathBuf::from("index.html")));
    assert_eq!(spa.root(), &PathBuf::from("assets"));
}

#[test]
fn containment_is_by_component() {
    assert!(path_within_root(b"/srv", b"/srv"));
    assert!(path_within_root(b"/srv", b"/srv/a"));
    assert!(path_within_root(b"/", b"/etc"));
    assert!(!path_within_root(b"/srv", b"/srvx/a"));
    assert!(!path_within_root(b"/srv/a", b"/srv"));
    assert!(!path_within_root(b"", b"/srv"));
}

#[test]
fn serve_file_keeps_its_path() {
    let f = ServeFile::new(PathBuf::from("assets/favicon.ico")).cache_control("no-store".to_owned());
    assert_eq!(f.path(), &PathBuf::from("assets/favicon.ico"));
    assert_eq!(f.cache_control_value(), Some("no-store"));
}

#[test]
fn etag_is_hex_nanos_and_length() {
    let m = FileMeta { is_dir: false, len: 255, modified_secs: 1, modified_nanos: 16 };
    assert_eq!(etag(&m), "\"3b9aca10-ff\"");
}

#[test]
fn if_none_match_forms() {
    assert!(if_none_match_matches("*", "\"a\""));
    assert!(if_none_match_matches("\"a\"", "\"a\""));
    assert!(if_none_match_matches("W/\"a\"", "\"a\""));
    assert!(if_none_match_matches("\"x\", \"a\"", "\"a\""));
    assert!(!if_none_match_matches("\"b\"", "\"a\""));
}

#[test]
fn full_response_advertises_accept_ranges() {
    let m = meta(12);
    let r = plan_file_response(&m, "hello.txt", None, None, None, None).unwrap();
    assert_eq!(r.status, 200);
    assert_eq!(header(&r.headers, "accept-ranges"), Some("bytes"));
    assert_eq!(header(&r.headers, "content-type"), Some("text/plain"));
    assert_eq!(header(&r.headers, "etag"), Some(etag(&m).as_str()));
    assert_eq!(header(&r.headers, "last-modified"), Some("Tue, 14 Nov 2023 22:13:20 GMT"));
    assert_eq!(r.body, FileBody::Whole);
}

#[test]
fn range_request_returns_partial_content() {
    let m = meta(12);
    let r = plan_file_response(&m, "hello.txt", None, None, Some("bytes=0-4"), None).unwrap();
    assert_eq!(r.status, 206);
    assert_eq!(header(&r.headers, "content-range"), Some("bytes 0-4/12"));
    assert_eq!(r.body, FileBody::Slice(0, 5));
    let r = plan_file_response(&m, "hello.txt", None, None, Some("bytes=-6"), None).unwrap();
    assert_eq!(r.body, FileBody::Slice(6, 6));
}

#[test]
fn range_unsatisfiable_is_416() {
    let m = meta(12);
    let r = plan_file_response(&m, "hello.txt", None, None, Some("bytes=999-"), None).unwrap();
    assert_eq!(r.status, 416);
    assert_eq!(header(&r.headers, "content-range"), Some("bytes */12"));
    assert_eq!(r.body, FileBody::Empty);
}

#[test]
fn conditional_get_returns_304() {
    let m = meta(12);
    let tag = etag(&m);
    let r = plan_file_response(&m, "hello.txt", Some(&tag), None, Some("bytes=0-4"), Some("public"))
        .unwrap();
    assert_eq!(r.status, 304);
    assert_eq!(r.body, FileBody::Empty);
    assert_eq!(header(&r.headers, "cache-control"), Some("public"));
    let later = plan_file_response(&m, "hello.txt", None, Some("Tue, 14 Nov 2023 22:13:21 GMT"), None, None)
        .unwrap();
    assert_eq!(later.status, 304);
    // The file changed within the second the client names: not fresh.
    let same = plan_file_response(&m, "hello.txt", None, Some("Tue, 14 Nov 2023 22:13:20 GMT"), None, None)
        .unwrap();
    assert_eq!(same.status, 200);
    let garbage = plan_file_response(&m, "hello.txt", None, Some("yesterday"), None, None).unwrap();
    assert_eq!(garbage.status, 200);
}

#[test]
fn directory_has_no_file_response() {
    let m = FileMeta { is_dir: true, len: 0, modified_secs: 0, modified_nanos: 0 };
    assert!(plan_file_response(&m, "dir", None, None, None, None).is_none());
}

#[test]
fn html_escape_covers_special_characters() {
    assert_eq!(html_escape("a&b<c>.txt"), "a&amp;b&lt;c&gt;.txt");
    assert_eq!(html_escape("\"q\" 'a'"), "&quot;q&quot; &#39;a&#39;");
    assert_eq!(html_escape("plain"), "plain");
}

#[test]
fn listing_sorts_escapes_and_hides_dotfiles() {
    let entries = vec![
        ListingEntry { name: "sub".to_owned(), is_dir: true },
        ListingEntry { name: "a&b<c>.txt".to_owned(), is_dir: false },
        ListingEntry { name: ".hidden".to_owned(), is_dir: false },
    ];
    let html = render_listing("/static", &entries, false);
    assert!(html.contains("a&amp;b&lt;c&gt;.txt"), "escaped name expected: {html}");
    assert!(!html.contains(".hidden"), "dotfiles hidden from listing");
    assert!(html.contains("<tr><td>sub</td><td>dir</td></tr>"), "subdir marked as dir: {html}");
    let a = html.find("a&amp;b").unwrap();
    let s = html.find("<td>sub</td>").unwrap();
    assert!(a < s);
    let shown = render_listing("/static", &entries, true);
    assert!(shown.contains(".hidden"));
}

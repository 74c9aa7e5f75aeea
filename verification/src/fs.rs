//! Static file serving: the decisions taken around the file-system reads
//! (path guard, conditional requests, byte ranges, listings).

use vstd::prelude::*;

use crate::chars::{
    contains_char, find_first, first_index, parse_u64_chars, parse_u64_spec, starts_with,
    starts_with_chars, sub_chars, trim, trim_chars,
};
use crate::chars::{
    decimal, eq_chars, hex_lower, push_chars, push_decimal, push_hex, push_str, split_chars,
    split_seq,
};
use crate::encoding::{percent_decode, percent_decode_bytes};
use crate::ext::{
    fmt_http_date_secs, guess_mime, http_date_secs, http_date_text, mime_for_path, pair_views,
    parse_http_date_secs, sort_pairs, sorted_pairs,
};
use crate::http::{header_pairs, header_value_ok, header_value_valid, push_header};
use crate::text::{chars_to_string, str_chars, utf8_lossy};
use vstd::utf8::encode_utf8;

verus! {

/// Outcome of parsing a `Range` header against a resource length.
#[derive(Debug, Clone, Copy, PartialEq, Eq, Structural)]
pub enum ParsedRange {
    /// A single satisfiable range, inclusive bounds.
    Valid(u64, u64),
    /// Syntactically valid but outside the resource: 416.
    Unsatisfiable,
    /// Malformed or unsupported (multi-range): ignore, serve 200.
    Ignore,
}

/// `bytes=`, the only range unit understood.
pub open spec fn bytes_unit() -> Seq<char> {
    seq!['b', 'y', 't', 'e', 's', '=']
}

/// `a.saturating_sub(b)`.
pub open spec fn sat_sub(a: u64, b: u64) -> u64 {
    if b >= a {
        0
    } else {
        (a - b) as u64
    }
}

/// The range of a `first-last` spec once its bounds are split at the
/// first `-`: `a` is the text before it, `b` the text after it.
pub open spec fn range_bounds(a: Seq<char>, b: Seq<char>, len: u64) -> ParsedRange {
    if a.len() == 0 {
        // Suffix form: the last n bytes.
        match parse_u64_spec(trim(b)) {
            None => ParsedRange::Ignore,
            Some(n) => if n == 0 || len == 0 {
                ParsedRange::Unsatisfiable
            } else {
                ParsedRange::Valid(sat_sub(len, n), (len - 1) as u64)
            },
        }
    } else {
        match parse_u64_spec(trim(a)) {
            None => ParsedRange::Ignore,
            Some(start) => {
                let end: Option<u64> = if b.len() == 0 {
                    Some(sat_sub(len, 1))
                } else {
                    match parse_u64_spec(trim(b)) {
                        None => None,
                        Some(e) => Some(if e <= sat_sub(len, 1) {
                            e
                        } else {
                            sat_sub(len, 1)
                        }),
                    }
                };
                match end {
                    None => ParsedRange::Ignore,
                    Some(end) => if start >= len {
                        ParsedRange::Unsatisfiable
                    } else if end < start {
                        ParsedRange::Ignore
                    } else {
                        ParsedRange::Valid(start, end)
                    },
                }
            },
        }
    }
}

/// A `Range` header read against a resource of `len` bytes: only the
/// `bytes=` unit and a single range are understood.
pub open spec fn range_spec(h: Seq<char>, len: u64) -> ParsedRange {
    if !starts_with(h, bytes_unit()) {
        ParsedRange::Ignore
    } else {
        let rest = h.subrange(6, h.len() as int);
        if rest.contains(',') {
            ParsedRange::Ignore
        } else {
            let t = trim(rest);
            match first_index(t, '-') {
                None => ParsedRange::Ignore,
                Some(k) => range_bounds(t.subrange(0, k), t.subrange(k + 1, t.len() as int), len),
            }
        }
    }
}

fn parse_bounds(a: &Vec<char>, b: &Vec<char>, len: u64) -> (r: ParsedRange)
    ensures
        r == range_bounds(a@, b@, len),
{
    let last: u64 = if len >= 1 {
        len - 1
    } else {
        0
    };
    if a.len() == 0 {
        match parse_u64_chars(&trim_chars(b)) {
            None => ParsedRange::Ignore,
            Some(n) => {
                if n == 0 || len == 0 {
                    ParsedRange::Unsatisfiable
                } else {
                    let start = if n >= len {
                        0
                    } else {
                        len - n
                    };
                    ParsedRange::Valid(start, len - 1)
                }
            },
        }
    } else {
        match parse_u64_chars(&trim_chars(a)) {
            None => ParsedRange::Ignore,
            Some(start) => {
                let end: Option<u64> = if b.len() == 0 {
                    Some(last)
                } else {
                    match parse_u64_chars(&trim_chars(b)) {
                        None => None,
                        Some(e) => Some(
                            if e <= last {
                                e
                            } else {
                                last
                            },
                        ),
                    }
                };
                match end {
                    None => ParsedRange::Ignore,
                    Some(end) => {
                        if start >= len {
                            ParsedRange::Unsatisfiable
                        } else if end < start {
                            ParsedRange::Ignore
                        } else {
                            ParsedRange::Valid(start, end)
                        }
                    },
                }
            },
        }
    }
}

/// Parse a `Range` header for a resource of `len` bytes.
#[verifier::spinoff_prover]
#[verifier::rlimit(40)]
pub fn parse_range(header: &str, len: u64) -> (r: ParsedRange)
    ensures
        r == range_spec(header@, len),
        r matches ParsedRange::Valid(s, e) ==> s <= e < len,
{
    let h = str_chars(header);
    let unit = str_chars("bytes=");
    proof {
        reveal_strlit("bytes=");
        assert(unit@ =~= bytes_unit());
    }
    if !starts_with_chars(&h, &unit) {
        return ParsedRange::Ignore;
    }
    let rest = sub_chars(&h, 6, h.len());
    if contains_char(&rest, ',') {
        return ParsedRange::Ignore;
    }
    let t = trim_chars(&rest);
    match find_first(&t, '-') {
        None => ParsedRange::Ignore,
        Some(k) => {
            let a = sub_chars(&t, 0, k);
            let b = sub_chars(&t, k + 1, t.len());
            parse_bounds(&a, &b, len)
        },
    }
}


/// A path segment that names the current or the parent directory.
pub open spec fn dot_segment(seg: Seq<char>) -> bool {
    seg == seq!['.'] || seg == seq!['.', '.']
}

/// A relative path that cannot leave the served root: not empty, not
/// absolute, no NUL and no backslash, and every `/`-separated segment is
/// non-empty and neither `.` nor `..`.
pub open spec fn safe_relative_path(s: Seq<char>) -> bool {
    &&& s.len() > 0
    &&& s[0] != '/'
    &&& !s.contains('\0')
    &&& !s.contains('\\')
    &&& forall|i: int|
        0 <= i < split_seq(s, '/').len() ==> #[trigger] split_seq(s, '/')[i].len() > 0
            && !dot_segment(split_seq(s, '/')[i])
}

/// A segment that names a dotfile: it starts with `.` and is not `.`.
pub open spec fn dotfile_segment(seg: Seq<char>) -> bool {
    seg.len() > 0 && seg[0] == '.' && seg != seq!['.']
}

/// Whether some `/`-separated segment of the path is a dotfile.
pub open spec fn has_dotfile(s: Seq<char>) -> bool {
    exists|i: int| 0 <= i < split_seq(s, '/').len() && dotfile_segment(#[trigger] split_seq(s, '/')[i])
}

fn is_dot_segment(seg: &Vec<char>) -> (r: bool)
    ensures
        r == dot_segment(seg@),
{
    if seg.len() == 1 && seg[0] == '.' {
        assert(seg@ =~= seq!['.']);
        true
    } else if seg.len() == 2 && seg[0] == '.' && seg[1] == '.' {
        assert(seg@ =~= seq!['.', '.']);
        true
    } else {
        assert(seg@.len() != 1 || seg@ != seq!['.'] || seg@[0] == '.');
        false
    }
}

/// Reject anything that could escape the root: `..`, empty, backslash,
/// NUL, or absolute segments.
pub fn is_safe_relative_path(rel: &str) -> (r: bool)
    ensures
        r == safe_relative_path(rel@),
{
    let cs = str_chars(rel);
    if cs.len() == 0 || cs[0] == '/' || contains_char(&cs, '\0') || contains_char(&cs, '\\') {
        return false;
    }
    let pieces = split_chars(&cs, '/');
    let mut i: usize = 0;
    while i < pieces.len()
        invariant
            cs@ == rel@,
            pieces@.len() == split_seq(cs@, '/').len(),
            forall|j: int| 0 <= j < pieces@.len() ==> #[trigger] pieces@[j]@ == split_seq(cs@, '/')[j],
            i <= pieces@.len(),
            forall|j: int|
                0 <= j < i ==> #[trigger] split_seq(cs@, '/')[j].len() > 0 && !dot_segment(
                    split_seq(cs@, '/')[j],
                ),
        decreases pieces@.len() - i,
    {
        assert(pieces@[i as int]@ == split_seq(cs@, '/')[i as int]);
        if pieces[i].len() == 0 || is_dot_segment(&pieces[i]) {
            return false;
        }
        i = i + 1;
    }
    true
}

/// Whether some segment of `path` is a dotfile (`.env`, `.git`, ...).
pub fn has_dotfile_segment(path: &str) -> (r: bool)
    ensures
        r == has_dotfile(path@),
{
    let cs = str_chars(path);
    let pieces = split_chars(&cs, '/');
    let mut i: usize = 0;
    while i < pieces.len()
        invariant
            cs@ == path@,
            pieces@.len() == split_seq(cs@, '/').len(),
            forall|j: int| 0 <= j < pieces@.len() ==> #[trigger] pieces@[j]@ == split_seq(cs@, '/')[j],
            i <= pieces@.len(),
            forall|j: int| 0 <= j < i ==> !dotfile_segment(#[trigger] split_seq(cs@, '/')[j]),
        decreases pieces@.len() - i,
    {
        let seg = &pieces[i];
        assert(seg@ == split_seq(cs@, '/')[i as int]);
        if seg.len() > 0 && seg[0] == '.' && !(seg.len() == 1) {
            return true;
        }
        assert(!dotfile_segment(seg@)) by {
            if seg@.len() == 1 && seg@[0] == '.' {
                assert(seg@ =~= seq!['.']);
            }
        }
        i = i + 1;
    }
    false
}


#[verifier::external_type_specification]
#[verifier::external_body]
pub struct ExPathBuf(std::path::PathBuf);

/// Serve files from a directory. Mount it on a wildcard route
/// (`/static/{*path}`); the server performs the file-system reads and asks
/// this value what to do at each step.
///
/// Traversal attempts (`..`, backslashes, absolute segments) and dotfile
/// segments (`.git`, `.env`, ...) are rejected unless
/// [`ServeDir::allow_dotfiles`] is set; symlinks that escape the root are
/// refused after canonicalization. Directory requests serve `index.html`
/// if present.
pub struct ServeDir {
    root: std::path::PathBuf,
    cache_control: Option<String>,
    allow_dotfiles: bool,
    fallback_file: Option<std::path::PathBuf>,
    files_listing: bool,
}

/// The settings of a [`ServeDir`].
pub struct ServeDirConfig {
    /// The served directory.
    pub root: std::path::PathBuf,
    /// The `Cache-Control` value for successful responses.
    pub cache_control: Option<Seq<char>>,
    /// Whether dotfile segments are served.
    pub allow_dotfiles: bool,
    /// The file served for unknown paths.
    pub fallback_file: Option<std::path::PathBuf>,
    /// Whether directories without `index.html` get an HTML listing.
    pub files_listing: bool,
}

impl View for ServeDir {
    type V = ServeDirConfig;

    closed spec fn view(&self) -> ServeDirConfig {
        ServeDirConfig {
            root: self.root,
            cache_control: match self.cache_control {
                Some(c) => Some(c@),
                None => None,
            },
            allow_dotfiles: self.allow_dotfiles,
            fallback_file: self.fallback_file,
            files_listing: self.files_listing,
        }
    }
}

/// What a directory route makes of its `{*path}` parameter.
pub enum DirRequest {
    /// Refused (traversal, NUL, backslash, dotfile): 404.
    NotFound,
    /// No path: the root itself.
    Root,
    /// A safe path, percent-decoded, relative to the root.
    Relative(String),
}

/// The text of a [`DirRequest`].
pub enum DirRequestView {
    /// Refused: 404.
    NotFound,
    /// The root itself.
    Root,
    /// A safe relative path.
    Relative(Seq<char>),
}

impl View for DirRequest {
    type V = DirRequestView;

    open spec fn view(&self) -> DirRequestView {
        match self {
            DirRequest::NotFound => DirRequestView::NotFound,
            DirRequest::Root => DirRequestView::Root,
            DirRequest::Relative(p) => DirRequestView::Relative(p@),
        }
    }
}

/// The next step of a directory route once the file system has answered.
#[derive(Debug, Clone, Copy, PartialEq, Eq, Structural)]
pub enum DirAction {
    /// Answer 404.
    NotFound,
    /// Serve the configured fallback file (single-page apps).
    ServeFallback,
    /// Serve the directory's `index.html`.
    ServeIndex,
    /// Render the directory listing.
    Listing,
    /// Serve the resolved file.
    ServeFile,
}

/// The percent-decoded route parameter (empty when absent).
pub open spec fn decoded_param(rel: Option<Seq<char>>) -> Seq<char> {
    match rel {
        Some(r) => utf8_lossy(percent_decode_bytes(encode_utf8(r))),
        None => Seq::empty(),
    }
}

/// The request a directory route serves for a route parameter.
pub open spec fn dir_request_spec(allow_dotfiles: bool, rel: Option<Seq<char>>) -> DirRequestView {
    let d = decoded_param(rel);
    if d.len() == 0 {
        DirRequestView::Root
    } else if !safe_relative_path(d) || (has_dotfile(d) && !allow_dotfiles) {
        DirRequestView::NotFound
    } else {
        DirRequestView::Relative(d)
    }
}

impl ServeDir {
    /// Serve files under this directory.
    pub fn new(root: std::path::PathBuf) -> (r: ServeDir)
        ensures
            r@ == (ServeDirConfig {
                root,
                cache_control: None,
                allow_dotfiles: false,
                fallback_file: None,
                files_listing: false,
            }),
    {
        ServeDir {
            root,
            cache_control: None,
            allow_dotfiles: false,
            fallback_file: None,
            files_listing: false,
        }
    }

    /// Render an HTML listing when a directory has no `index.html`
    /// (instead of a 404). File names are HTML-escaped.
    pub fn files_listing(self) -> (r: ServeDir)
        ensures
            r@ == (ServeDirConfig { files_listing: true, ..self@ }),
    {
        ServeDir { files_listing: true, ..self }
    }

    /// Serve this file when the requested path does not exist: the
    /// single-page-app pattern. The response is 200.
    pub fn fallback_file(self, path: std::path::PathBuf) -> (r: ServeDir)
        ensures
            r@ == (ServeDirConfig { fallback_file: Some(path), ..self@ }),
    {
        ServeDir { fallback_file: Some(path), ..self }
    }

    /// Emit a `Cache-Control` header on successful responses.
    pub fn cache_control(self, value: String) -> (r: ServeDir)
        ensures
            r@ == (ServeDirConfig { cache_control: Some(value@), ..self@ }),
    {
        ServeDir { cache_control: Some(value), ..self }
    }

    /// Serve dotfile segments (`.hidden`, `.well-known/...`). Off by
    /// default so secrets like `.git/config` or `.env` never leak.
    pub fn allow_dotfiles(self) -> (r: ServeDir)
        ensures
            r@ == (ServeDirConfig { allow_dotfiles: true, ..self@ }),
    {
        ServeDir { allow_dotfiles: true, ..self }
    }

    /// The served directory.
    pub fn root(&self) -> (r: &std::path::PathBuf)
        ensures
            *r == self@.root,
    {
        &self.root
    }

    /// The fallback file, if any.
    pub fn fallback(&self) -> (r: Option<&std::path::PathBuf>)
        ensures
            match r {
                Some(p) => self@.fallback_file == Some(*p),
                None => self@.fallback_file is None,
            },
    {
        match &self.fallback_file {
            Some(p) => Some(p),
            None => None,
        }
    }

    /// The `Cache-Control` value, if any.
    pub fn cache_control_value(&self) -> (r: Option<&str>)
        ensures
            match r {
                Some(c) => self@.cache_control == Some(c@),
                None => self@.cache_control is None,
            },
    {
        match &self.cache_control {
            Some(c) => Some(c.as_str()),
            None => None,
        }
    }

    /// Whether dotfile segments are served.
    pub fn dotfiles_allowed(&self) -> (r: bool)
        ensures
            r == self@.allow_dotfiles,
    {
        self.allow_dotfiles
    }

    /// Whether directories without `index.html` get a listing.
    pub fn listing_enabled(&self) -> (r: bool)
        ensures
            r == self@.files_listing,
    {
        self.files_listing
    }

    /// What to serve for the `{*path}` parameter (absent on a route
    /// registered on the bare prefix): the parameter is percent-decoded,
    /// then refused if it could escape the root or names a dotfile.
    pub fn request_target(&self, rel: Option<&str>) -> (r: DirRequest)
        ensures
            r@ == dir_request_spec(
                self@.allow_dotfiles,
                match rel {
                    Some(p) => Some(p@),
                    None => None,
                },
            ),
            r matches DirRequest::Relative(p) ==> safe_relative_path(p@) && (
            self@.allow_dotfiles || !has_dotfile(p@)),
    {
        let decoded = match rel {
            Some(p) => percent_decode(p),
            None => String::new(),
        };
        let dcs = str_chars(decoded.as_str());
        if dcs.len() == 0 {
            return DirRequest::Root;
        }
        if !is_safe_relative_path(decoded.as_str()) || (has_dotfile_segment(decoded.as_str())
            && !self.allow_dotfiles) {
            return DirRequest::NotFound;
        }
        DirRequest::Relative(decoded)
    }

    /// The next step when the target does not exist (canonicalization
    /// failed): the fallback file if configured, else 404.
    pub fn on_missing(&self) -> (r: DirAction)
        ensures
            r == (if self@.fallback_file is Some {
                DirAction::ServeFallback
            } else {
                DirAction::NotFound
            }),
    {
        if self.fallback_file.is_some() {
            DirAction::ServeFallback
        } else {
            DirAction::NotFound
        }
    }

    /// The next step once the target is resolved. `root`, `target` and
    /// `index` (the directory's `index.html`, when it exists) are canonical
    /// paths as bytes. Anything outside the root is 404; a directory serves
    /// its `index.html` when that lies inside the root, else a listing when
    /// enabled, else 404; a file inside the root is served.
    pub fn on_resolved(&self, root: &[u8], target: &[u8], is_dir: bool, index: Option<&[u8]>) -> (r:
        DirAction)
        ensures
            r == resolved_spec(
                self@.files_listing,
                root@,
                target@,
                is_dir,
                match index {
                    Some(ix) => Some(ix@),
                    None => None,
                },
            ),
            r == DirAction::ServeFile ==> path_within(root@, target@) && !is_dir,
            r == DirAction::ServeIndex ==> path_within(root@, target@) && (index matches Some(ix)
                && path_within(root@, ix@)),
            r != DirAction::ServeFallback,
    {
        if !path_within_root(root, target) {
            DirAction::NotFound
        } else if is_dir {
            let index_inside = match index {
                Some(ix) => path_within_root(root, ix),
                None => false,
            };
            if index_inside {
                DirAction::ServeIndex
            } else if self.files_listing {
                DirAction::Listing
            } else {
                DirAction::NotFound
            }
        } else {
            DirAction::ServeFile
        }
    }
}

/// Whether the path `p` lies inside the directory `root` (both canonical,
/// as bytes): `root` is a prefix of `p` that ends at a component boundary.
/// For canonical paths this is `Path::starts_with`.
pub open spec fn path_within(root: Seq<u8>, p: Seq<u8>) -> bool {
    &&& 0 < root.len() <= p.len()
    &&& p.subrange(0, root.len() as int) == root
    &&& (p.len() == root.len() || root.last() == 47u8 || p[root.len() as int] == 47u8)
}

/// The next step of a directory route once the file system has answered.
pub open spec fn resolved_spec(
    listing: bool,
    root: Seq<u8>,
    target: Seq<u8>,
    is_dir: bool,
    index: Option<Seq<u8>>,
) -> DirAction {
    if !path_within(root, target) {
        DirAction::NotFound
    } else if is_dir {
        if index matches Some(ix) && path_within(root, ix) {
            DirAction::ServeIndex
        } else if listing {
            DirAction::Listing
        } else {
            DirAction::NotFound
        }
    } else {
        DirAction::ServeFile
    }
}

/// A directory route serves a file only from inside its root: once the
/// target is resolved, the file served (the target itself, or the
/// directory's `index.html`) lies inside the canonical root. (The
/// configured fallback file, served when the target does not exist, is the
/// application's own choice.)
pub proof fn lemma_served_file_inside_root(
    listing: bool,
    root: Seq<u8>,
    target: Seq<u8>,
    is_dir: bool,
    index: Option<Seq<u8>>,
)
    ensures
        resolved_spec(listing, root, target, is_dir, index) == DirAction::ServeFile ==> path_within(
            root,
            target,
        ),
        resolved_spec(listing, root, target, is_dir, index) == DirAction::ServeIndex ==> (index matches Some(
            ix,
        ) && path_within(root, ix)),
        resolved_spec(listing, root, target, is_dir, index) != DirAction::ServeFallback,
{
}

/// Whether `p` lies inside `root` (see [`path_within`]).
pub fn path_within_root(root: &[u8], p: &[u8]) -> (r: bool)
    ensures
        r == path_within(root@, p@),
{
    let n = root.len();
    if n == 0 || n > p.len() {
        return false;
    }
    let mut i: usize = 0;
    while i < n
        invariant
            n == root@.len(),
            n <= p@.len(),
            i <= n,
            forall|j: int| 0 <= j < i ==> p@[j] == root@[j],
        decreases n - i,
    {
        if p[i] != root[i] {
            assert(p@.subrange(0, n as int)[i as int] != root@[i as int]);
            return false;
        }
        i = i + 1;
    }
    assert(p@.subrange(0, n as int) =~= root@);
    p.len() == n || root[n - 1] == 47u8 || p[n] == 47u8
}

/// Serve a single fixed file.
pub struct ServeFile {
    path: std::path::PathBuf,
    cache_control: Option<String>,
}

/// The settings of a [`ServeFile`].
pub struct ServeFileConfig {
    /// The served file.
    pub path: std::path::PathBuf,
    /// The `Cache-Control` value for successful responses.
    pub cache_control: Option<Seq<char>>,
}

impl View for ServeFile {
    type V = ServeFileConfig;

    closed spec fn view(&self) -> ServeFileConfig {
        ServeFileConfig {
            path: self.path,
            cache_control: match self.cache_control {
                Some(c) => Some(c@),
                None => None,
            },
        }
    }
}

impl ServeFile {
    /// Serve this exact file.
    pub fn new(path: std::path::PathBuf) -> (r: ServeFile)
        ensures
            r@ == (ServeFileConfig { path, cache_control: None }),
    {
        ServeFile { path, cache_control: None }
    }

    /// Emit a `Cache-Control` header on successful responses.
    pub fn cache_control(self, value: String) -> (r: ServeFile)
        ensures
            r@ == (ServeFileConfig { cache_control: Some(value@), ..self@ }),
    {
        ServeFile { cache_control: Some(value), ..self }
    }

    /// The served file.
    pub fn path(&self) -> (r: &std::path::PathBuf)
        ensures
            *r == self@.path,
    {
        &self.path
    }

    /// The `Cache-Control` value, if any.
    pub fn cache_control_value(&self) -> (r: Option<&str>)
        ensures
            match r {
                Some(c) => self@.cache_control == Some(c@),
                None => self@.cache_control is None,
            },
    {
        match &self.cache_control {
            Some(c) => Some(c.as_str()),
            None => None,
        }
    }
}


/// Whether one `If-None-Match` candidate matches the entity tag: `*`,
/// the tag itself, or its weak form `W/` + tag.
pub open spec fn etag_candidate_matches(c: Seq<char>, etag: Seq<char>) -> bool {
    c == seq!['*'] || c == etag || c == seq!['W', '/'] + etag
}

/// Whether an `If-None-Match` header matches the entity tag: some of its
/// comma-separated candidates, trimmed, matches.
pub open spec fn if_none_match_spec(header: Seq<char>, etag: Seq<char>) -> bool {
    exists|i: int|
        0 <= i < split_seq(header, ',').len() && etag_candidate_matches(
            trim(#[trigger] split_seq(header, ',')[i]),
            etag,
        )
}

/// Whether the `If-None-Match` header matches `etag`.
pub fn if_none_match_matches(header: &str, etag: &str) -> (r: bool)
    ensures
        r == if_none_match_spec(header@, etag@),
{
    let hs = str_chars(header);
    let es = str_chars(etag);
    let star = str_chars("*");
    let mut weak = str_chars("W/");
    proof {
        reveal_strlit("*");
        reveal_strlit("W/");
        assert(star@ =~= seq!['*']);
    }
    push_chars(&mut weak, &es);
    assert(weak@ =~= seq!['W', '/'] + es@);
    let pieces = split_chars(&hs, ',');
    let mut i: usize = 0;
    while i < pieces.len()
        invariant
            hs@ == header@,
            es@ == etag@,
            star@ == seq!['*'],
            weak@ == seq!['W', '/'] + es@,
            pieces@.len() == split_seq(hs@, ',').len(),
            forall|j: int| 0 <= j < pieces@.len() ==> #[trigger] pieces@[j]@ == split_seq(hs@, ',')[j],
            i <= pieces@.len(),
            forall|j: int|
                0 <= j < i ==> !etag_candidate_matches(trim(#[trigger] split_seq(hs@, ',')[j]), es@),
        decreases pieces@.len() - i,
    {
        assert(pieces@[i as int]@ == split_seq(hs@, ',')[i as int]);
        let c = trim_chars(&pieces[i]);
        if eq_chars(&c, &star) || eq_chars(&c, &es) || eq_chars(&c, &weak) {
            return true;
        }
        i = i + 1;
    }
    false
}

/// What the server learned from a file's metadata.
#[derive(Debug, Clone, Copy, PartialEq, Eq, Structural)]
pub struct FileMeta {
    /// Whether the path is a directory.
    pub is_dir: bool,
    /// The length in bytes.
    pub len: u64,
    /// Modification time: whole seconds after the epoch.
    pub modified_secs: u64,
    /// Modification time: the nanoseconds past `modified_secs`.
    pub modified_nanos: u32,
}

/// The strong entity tag of a file: modification time in nanoseconds and
/// length, both in lower-case hex, `"<nanos>-<len>"`.
pub open spec fn etag_text(m: FileMeta) -> Seq<char> {
    seq!['"'] + hex_lower((m.modified_secs as nat) * 1000000000 + (m.modified_nanos as nat))
        + seq!['-'] + hex_lower(m.len as nat) + seq!['"']
}

/// The entity tag of a file.
pub fn etag(m: &FileMeta) -> (r: String)
    requires
        m.modified_nanos < 1000000000,
    ensures
        r@ == etag_text(*m),
{
    let nanos: u128 = (m.modified_secs as u128) * 1000000000 + (m.modified_nanos as u128);
    let mut out: Vec<char> = Vec::new();
    out.push('"');
    push_hex(&mut out, nanos);
    out.push('-');
    push_hex(&mut out, m.len as u128);
    out.push('"');
    assert(out@ =~= etag_text(*m));
    chars_to_string(out.as_slice())
}

/// Whether a conditional request is answered 304: `If-None-Match`, when
/// present, decides alone; otherwise `If-Modified-Since` does, when it
/// parses, by comparing the modification time with the given second.
pub open spec fn not_modified_spec(
    m: FileMeta,
    if_none_match: Option<Seq<char>>,
    if_modified_since: Option<Seq<char>>,
) -> bool {
    match if_none_match {
        Some(h) => if_none_match_spec(h, etag_text(m)),
        None => match if_modified_since {
            Some(t) => match http_date_secs(t) {
                Some(since) => m.modified_secs < since || (m.modified_secs == since
                    && m.modified_nanos == 0),
                None => false,
            },
            None => false,
        },
    }
}

/// What the body of a file response holds.
#[derive(Debug, Clone, Copy, PartialEq, Eq, Structural)]
pub enum FileBody {
    /// No body.
    Empty,
    /// The whole file.
    Whole,
    /// `length` bytes from offset `start`.
    Slice(u64, u64),
}

/// A planned file response: status, headers in order, and which bytes of
/// the file form the body.
pub struct FileResponse {
    /// The HTTP status.
    pub status: u16,
    /// The headers, in the order they are set.
    pub headers: Vec<(String, String)>,
    /// The body.
    pub body: FileBody,
}

/// `bytes <start>-<end>/<total>`.
pub open spec fn content_range_text(start: u64, end: u64, total: u64) -> Seq<char> {
    seq!['b', 'y', 't', 'e', 's', ' '] + decimal(start as nat) + seq!['-'] + decimal(end as nat)
        + seq!['/'] + decimal(total as nat)
}

/// `bytes */<total>`.
pub open spec fn unsatisfiable_range_text(total: u64) -> Seq<char> {
    seq!['b', 'y', 't', 'e', 's', ' ', '*', '/'] + decimal(total as nat)
}

/// The `Cache-Control` header added to successful responses, when the
/// configured value is a valid header value.
pub open spec fn cache_header(cc: Option<Seq<char>>) -> Seq<(Seq<char>, Seq<char>)> {
    match cc {
        Some(v) => if header_value_ok(v) {
            seq![("cache-control"@, v)]
        } else {
            Seq::empty()
        },
        None => Seq::empty(),
    }
}

/// The full (200) file response.
pub open spec fn full_file_spec(
    m: FileMeta,
    path: Seq<char>,
    cc: Option<Seq<char>>,
) -> (u16, Seq<(Seq<char>, Seq<char>)>, FileBody) {
    (
        200,
        seq![
            ("content-type"@, mime_for_path(path)),
            ("etag"@, etag_text(m)),
            ("last-modified"@, http_date_text(m.modified_secs)),
            ("accept-ranges"@, "bytes"@),
        ] + cache_header(cc),
        FileBody::Whole,
    )
}

/// The response to a request for a file: 404 for a directory; 304 when the
/// conditional headers say the client's copy is current; 206 for one
/// satisfiable byte range; 416 for an unsatisfiable one; else the whole
/// file. Successful responses carry the `Cache-Control` value.
pub open spec fn file_response_spec(
    m: FileMeta,
    path: Seq<char>,
    if_none_match: Option<Seq<char>>,
    if_modified_since: Option<Seq<char>>,
    range: Option<Seq<char>>,
    cc: Option<Seq<char>>,
) -> Option<(u16, Seq<(Seq<char>, Seq<char>)>, FileBody)> {
    if m.is_dir {
        None
    } else if not_modified_spec(m, if_none_match, if_modified_since) {
        Some(
            (
                304,
                seq![("etag"@, etag_text(m)), ("last-modified"@, http_date_text(m.modified_secs))]
                    + cache_header(cc),
                FileBody::Empty,
            ),
        )
    } else {
        match range {
            Some(r) => match range_spec(r, m.len) {
                ParsedRange::Valid(start, end) => Some(
                    (
                        206,
                        seq![
                            ("content-type"@, mime_for_path(path)),
                            ("content-range"@, content_range_text(start, end, m.len)),
                            ("etag"@, etag_text(m)),
                            ("last-modified"@, http_date_text(m.modified_secs)),
                            ("accept-ranges"@, "bytes"@),
                        ] + cache_header(cc),
                        FileBody::Slice(start, (end - start + 1) as u64),
                    ),
                ),
                ParsedRange::Unsatisfiable => Some(
                    (
                        416,
                        seq![
                            ("content-type"@, mime_for_path(path)),
                            ("content-range"@, unsatisfiable_range_text(m.len)),
                        ] + cache_header(cc),
                        FileBody::Empty,
                    ),
                ),
                ParsedRange::Ignore => Some(full_file_spec(m, path, cc)),
            },
            None => Some(full_file_spec(m, path, cc)),
        }
    }
}

/// When `If-None-Match` is sent and none of its candidates matches the
/// file's entity tag, the file has changed for the client: the answer is
/// never `304`, and it is the one a request without any conditional header
/// gets, whatever `If-Modified-Since` says.
pub proof fn lemma_unmatched_if_none_match_decides(
    m: FileMeta,
    path: Seq<char>,
    if_none_match: Seq<char>,
    if_modified_since: Option<Seq<char>>,
    range: Option<Seq<char>>,
    cc: Option<Seq<char>>,
)
    requires
        !m.is_dir,
        forall|i: int|
            0 <= i < split_seq(if_none_match, ',').len() ==> !etag_candidate_matches(
                trim(#[trigger] split_seq(if_none_match, ',')[i]),
                etag_text(m),
            ),
    ensures
        file_response_spec(m, path, Some(if_none_match), if_modified_since, range, cc) matches Some(
            (status, _, _),
        ) && status != 304,
        file_response_spec(m, path, Some(if_none_match), if_modified_since, range, cc)
            == file_response_spec(m, path, None, None, range, cc),
{
}

/// When some `If-None-Match` candidate matches the file's entity tag, the
/// client's copy is current: the answer is `304` with an empty body,
/// whatever `If-Modified-Since` or `Range` say.
pub proof fn lemma_matched_if_none_match_not_modified(
    m: FileMeta,
    path: Seq<char>,
    if_none_match: Seq<char>,
    i: int,
    if_modified_since: Option<Seq<char>>,
    range: Option<Seq<char>>,
    cc: Option<Seq<char>>,
)
    requires
        !m.is_dir,
        0 <= i < split_seq(if_none_match, ',').len(),
        etag_candidate_matches(trim(split_seq(if_none_match, ',')[i]), etag_text(m)),
    ensures
        file_response_spec(m, path, Some(if_none_match), if_modified_since, range, cc) matches Some(
            (status, _, body),
        ) && status == 304 && body == FileBody::Empty,
{
    assert(if_none_match_spec(if_none_match, etag_text(m)));
}

/// Without `If-None-Match`, a parsed `If-Modified-Since` decides: a file
/// last modified before that second is answered `304`, one modified after
/// it (even by a fraction of a second) is sent again, and a later date
/// never turns a `304` into a resend.
pub proof fn lemma_if_modified_since_decides(
    m: FileMeta,
    path: Seq<char>,
    t: Seq<char>,
    later: Seq<char>,
    range: Option<Seq<char>>,
    cc: Option<Seq<char>>,
)
    requires
        !m.is_dir,
        http_date_secs(t) is Some,
        http_date_secs(later) is Some,
        http_date_secs(t)->0 <= http_date_secs(later)->0,
    ensures
        m.modified_secs < http_date_secs(t)->0 ==> (file_response_spec(m, path, None, Some(t), range, cc)
            matches Some((status, _, _)) && status == 304),
        (m.modified_secs > http_date_secs(t)->0 || (m.modified_secs == http_date_secs(t)->0
            && m.modified_nanos > 0)) ==> (file_response_spec(m, path, None, Some(t), range, cc)
            matches Some((status, _, _)) && status != 304),
        (file_response_spec(m, path, None, Some(t), range, cc) matches Some((status, _, _))
            && status == 304) ==> (file_response_spec(m, path, None, Some(later), range, cc) matches Some(
            (status2, _, _),
        ) && status2 == 304),
{
}

fn push_cache_control(headers: &mut Vec<(String, String)>, cc: Option<&str>)
    ensures
        header_pairs(final(headers)@) == header_pairs(old(headers)@) + cache_header(
            match cc {
                Some(s) => Some(s@),
                None => None,
            },
        ),
{
    match cc {
        Some(v) => {
            if header_value_valid(v) {
                push_header(headers, "cache-control", v.to_owned());
                assert(header_pairs(headers@) =~= header_pairs(old(headers)@) + seq![
                    ("cache-control"@, v@),
                ]);
            } else {
                assert(header_pairs(headers@) =~= header_pairs(old(headers)@) + Seq::empty());
            }
        },
        None => {
            assert(header_pairs(headers@) =~= header_pairs(old(headers)@) + Seq::empty());
        },
    }
}

fn string_of(cs: &Vec<char>) -> (r: String)
    ensures
        r@ == cs@,
{
    chars_to_string(cs.as_slice())
}

fn is_fresh(
    m: &FileMeta,
    tag: &String,
    if_none_match: Option<&str>,
    if_modified_since: Option<&str>,
) -> (r: bool)
    requires
        tag@ == etag_text(*m),
    ensures
        r == not_modified_spec(
            *m,
            match if_none_match {
                Some(s) => Some(s@),
                None => None,
            },
            match if_modified_since {
                Some(s) => Some(s@),
                None => None,
            },
        ),
{
    match if_none_match {
        Some(h) => if_none_match_matches(h, tag.as_str()),
        None => match if_modified_since {
            Some(t) => match parse_http_date_secs(t) {
                Some(since) => m.modified_secs < since || (m.modified_secs == since
                    && m.modified_nanos == 0),
                None => false,
            },
            None => false,
        },
    }
}

fn not_modified_response(tag: String, last_modified: String, cache_control: Option<&str>) -> (r:
    FileResponse)
    ensures
        r.status == 304,
        r.body == FileBody::Empty,
        header_pairs(r.headers@) == seq![("etag"@, tag@), ("last-modified"@, last_modified@)]
            + cache_header(
            match cache_control {
                Some(s) => Some(s@),
                None => None,
            },
        ),
{
    let mut headers: Vec<(String, String)> = Vec::new();
    push_header(&mut headers, "etag", tag);
    push_header(&mut headers, "last-modified", last_modified);
    push_cache_control(&mut headers, cache_control);
    assert(seq![("etag"@, tag@), ("last-modified"@, last_modified@)] =~= Seq::<
        (Seq<char>, Seq<char>),
    >::empty().push(("etag"@, tag@)).push(("last-modified"@, last_modified@)));
    FileResponse { status: 304, headers, body: FileBody::Empty }
}

fn partial_file_response(
    mime: String,
    tag: String,
    last_modified: String,
    start: u64,
    end: u64,
    total: u64,
    cache_control: Option<&str>,
) -> (r: FileResponse)
    requires
        start <= end < total,
    ensures
        r.status == 206,
        r.body == FileBody::Slice(start, (end - start + 1) as u64),
        header_pairs(r.headers@) == seq![
            ("content-type"@, mime@),
            ("content-range"@, content_range_text(start, end, total)),
            ("etag"@, tag@),
            ("last-modified"@, last_modified@),
            ("accept-ranges"@, "bytes"@),
        ] + cache_header(
            match cache_control {
                Some(s) => Some(s@),
                None => None,
            },
        ),
{
    let mut cr: Vec<char> = str_chars("bytes ");
    proof {
        reveal_strlit("bytes ");
    }
    push_decimal(&mut cr, start);
    cr.push('-');
    push_decimal(&mut cr, end);
    cr.push('/');
    push_decimal(&mut cr, total);
    assert(cr@ =~= content_range_text(start, end, total));
    let crs = string_of(&cr);
    let ghost crv = crs@;
    let mut headers: Vec<(String, String)> = Vec::new();
    push_header(&mut headers, "content-type", mime);
    push_header(&mut headers, "content-range", crs);
    push_header(&mut headers, "etag", tag);
    push_header(&mut headers, "last-modified", last_modified);
    let bytes = "bytes".to_owned();
    push_header(&mut headers, "accept-ranges", bytes);
    assert(seq![
        ("content-type"@, mime@),
        ("content-range"@, crv),
        ("etag"@, tag@),
        ("last-modified"@, last_modified@),
        ("accept-ranges"@, "bytes"@),
    ] =~= Seq::<(Seq<char>, Seq<char>)>::empty().push(("content-type"@, mime@)).push(
        ("content-range"@, crv),
    ).push(("etag"@, tag@)).push(("last-modified"@, last_modified@)).push(
        ("accept-ranges"@, "bytes"@),
    ));
    push_cache_control(&mut headers, cache_control);
    FileResponse { status: 206, headers, body: FileBody::Slice(start, end - start + 1) }
}

fn unsatisfiable_response(mime: String, total: u64, cache_control: Option<&str>) -> (r:
    FileResponse)
    ensures
        r.status == 416,
        r.body == FileBody::Empty,
        header_pairs(r.headers@) == seq![
            ("content-type"@, mime@),
            ("content-range"@, unsatisfiable_range_text(total)),
        ] + cache_header(
            match cache_control {
                Some(s) => Some(s@),
                None => None,
            },
        ),
{
    let mut cr: Vec<char> = str_chars("bytes */");
    proof {
        reveal_strlit("bytes */");
    }
    push_decimal(&mut cr, total);
    assert(cr@ =~= unsatisfiable_range_text(total));
    let crs = string_of(&cr);
    let ghost crv = crs@;
    let mut headers: Vec<(String, String)> = Vec::new();
    push_header(&mut headers, "content-type", mime);
    push_header(&mut headers, "content-range", crs);
    assert(seq![("content-type"@, mime@), ("content-range"@, crv)] =~= Seq::<
        (Seq<char>, Seq<char>),
    >::empty().push(("content-type"@, mime@)).push(("content-range"@, crv)));
    push_cache_control(&mut headers, cache_control);
    FileResponse { status: 416, headers, body: FileBody::Empty }
}

fn full_file_response(
    mime: String,
    tag: String,
    last_modified: String,
    cache_control: Option<&str>,
) -> (r: FileResponse)
    ensures
        r.status == 200,
        r.body == FileBody::Whole,
        header_pairs(r.headers@) == seq![
            ("content-type"@, mime@),
            ("etag"@, tag@),
            ("last-modified"@, last_modified@),
            ("accept-ranges"@, "bytes"@),
        ] + cache_header(
            match cache_control {
                Some(s) => Some(s@),
                None => None,
            },
        ),
{
    let mut headers: Vec<(String, String)> = Vec::new();
    push_header(&mut headers, "content-type", mime);
    push_header(&mut headers, "etag", tag);
    push_header(&mut headers, "last-modified", last_modified);
    let bytes = "bytes".to_owned();
    push_header(&mut headers, "accept-ranges", bytes);
    assert(seq![
        ("content-type"@, mime@),
        ("etag"@, tag@),
        ("last-modified"@, last_modified@),
        ("accept-ranges"@, "bytes"@),
    ] =~= Seq::<(Seq<char>, Seq<char>)>::empty().push(("content-type"@, mime@)).push(
        ("etag"@, tag@),
    ).push(("last-modified"@, last_modified@)).push(("accept-ranges"@, "bytes"@)));
    push_cache_control(&mut headers, cache_control);
    FileResponse { status: 200, headers, body: FileBody::Whole }
}

/// Plan the response for a file: `path` names it (for the MIME type),
/// the three request headers are passed when present and readable.
pub fn plan_file_response(
    m: &FileMeta,
    path: &str,
    if_none_match: Option<&str>,
    if_modified_since: Option<&str>,
    range: Option<&str>,
    cache_control: Option<&str>,
) -> (r: Option<FileResponse>)
    requires
        m.modified_secs < 253402300800,
        m.modified_nanos < 1000000000,
    ensures
        match file_response_spec(
            *m,
            path@,
            match if_none_match {
                Some(s) => Some(s@),
                None => None,
            },
            match if_modified_since {
                Some(s) => Some(s@),
                None => None,
            },
            match range {
                Some(s) => Some(s@),
                None => None,
            },
            match cache_control {
                Some(s) => Some(s@),
                None => None,
            },
        ) {
            None => r is None,
            Some((status, headers, body)) => r matches Some(fr) && fr.status == status
                && header_pairs(fr.headers@) == headers && fr.body == body,
        },
{
    if m.is_dir {
        return None;
    }
    let tag = etag(m);
    let last_modified = fmt_http_date_secs(m.modified_secs);
    if is_fresh(m, &tag, if_none_match, if_modified_since) {
        return Some(not_modified_response(tag, last_modified, cache_control));
    }
    let mime = guess_mime(path);
    let parsed = match range {
        Some(r) => parse_range(r, m.len),
        None => ParsedRange::Ignore,
    };
    match parsed {
        ParsedRange::Valid(start, end) => Some(
            partial_file_response(mime, tag, last_modified, start, end, m.len, cache_control),
        ),
        ParsedRange::Unsatisfiable => Some(unsatisfiable_response(mime, m.len, cache_control)),
        ParsedRange::Ignore => Some(full_file_response(mime, tag, last_modified, cache_control)),
    }
}


/// The HTML escape of one character.
pub open spec fn escape_char(c: char) -> Seq<char> {
    if c == '&' {
        seq!['&', 'a', 'm', 'p', ';']
    } else if c == '<' {
        seq!['&', 'l', 't', ';']
    } else if c == '>' {
        seq!['&', 'g', 't', ';']
    } else if c == '"' {
        seq!['&', 'q', 'u', 'o', 't', ';']
    } else if c == '\'' {
        seq!['&', '#', '3', '9', ';']
    } else {
        seq![c]
    }
}

/// HTML escaping: `& < > " '` become entities, everything else stays.
pub open spec fn html_escape_spec(s: Seq<char>) -> Seq<char>
    decreases s.len(),
{
    if s.len() == 0 {
        Seq::empty()
    } else {
        html_escape_spec(s.drop_last()) + escape_char(s.last())
    }
}

/// Escape text for HTML.
pub fn html_escape(s: &str) -> (r: String)
    ensures
        r@ == html_escape_spec(s@),
{
    let cs = str_chars(s);
    let mut out: Vec<char> = Vec::new();
    let mut i: usize = 0;
    while i < cs.len()
        invariant
            cs@ == s@,
            i <= cs@.len(),
            out@ == html_escape_spec(cs@.subrange(0, i as int)),
        decreases cs@.len() - i,
    {
        let c = cs[i];
        assert(cs@.subrange(0, i + 1).drop_last() =~= cs@.subrange(0, i as int));
        if c == '&' {
            out.push('&');
            out.push('a');
            out.push('m');
            out.push('p');
            out.push(';');
        } else if c == '<' {
            out.push('&');
            out.push('l');
            out.push('t');
            out.push(';');
        } else if c == '>' {
            out.push('&');
            out.push('g');
            out.push('t');
            out.push(';');
        } else if c == '"' {
            out.push('&');
            out.push('q');
            out.push('u');
            out.push('o');
            out.push('t');
            out.push(';');
        } else if c == '\'' {
            out.push('&');
            out.push('#');
            out.push('3');
            out.push('9');
            out.push(';');
        } else {
            out.push(c);
        }
        assert(out@ =~= html_escape_spec(cs@.subrange(0, i + 1)));
        i = i + 1;
    }
    assert(cs@.subrange(0, cs@.len() as int) =~= cs@);
    chars_to_string(out.as_slice())
}

/// Escaped text holds none of the characters that open markup or end an
/// attribute value: `<`, `>`, `"` and `'`.
pub proof fn lemma_html_escape_inert(s: Seq<char>)
    ensures
        !html_escape_spec(s).contains('<'),
        !html_escape_spec(s).contains('>'),
        !html_escape_spec(s).contains('"'),
        !html_escape_spec(s).contains('\''),
    decreases s.len(),
{
    if s.len() > 0 {
        lemma_html_escape_inert(s.drop_last());
        let a = html_escape_spec(s.drop_last());
        let b = escape_char(s.last());
        assert(html_escape_spec(s) == a + b);
        assert forall|c: char| (c == '<' || c == '>' || c == '"' || c == '\'') implies !(a
            + b).contains(c) by {
            if (a + b).contains(c) {
                let k = choose|k: int| 0 <= k < (a + b).len() && (a + b)[k] == c;
                if k < a.len() {
                    assert(a[k] == c);
                } else {
                    assert(b[k - a.len()] == c);
                }
            }
        }
    }
}

/// One entry of a directory, as read from the file system.
pub struct ListingEntry {
    /// The file name.
    pub name: String,
    /// Whether it is a directory.
    pub is_dir: bool,
}

/// The rows a listing shows, in directory order: dotfiles are hidden
/// unless allowed; the kind is `dir` or `file`.
pub open spec fn visible_rows(e: Seq<ListingEntry>, allow_dotfiles: bool) -> Seq<
    (Seq<char>, Seq<char>),
>
    decreases e.len(),
{
    if e.len() == 0 {
        Seq::empty()
    } else {
        let rest = visible_rows(e.drop_last(), allow_dotfiles);
        let last = e.last();
        if !allow_dotfiles && last.name@.len() > 0 && last.name@[0] == '.' {
            rest
        } else {
            rest.push((last.name@, if last.is_dir { "dir"@ } else { "file"@ }))
        }
    }
}

/// One row of the listing table.
pub open spec fn row_html(row: (Seq<char>, Seq<char>)) -> Seq<char> {
    "<tr><td>"@ + html_escape_spec(row.0) + "</td><td>"@ + row.1 + "</td></tr>"@
}

/// The rows of the listing table.
pub open spec fn rows_html(rows: Seq<(Seq<char>, Seq<char>)>) -> Seq<char>
    decreases rows.len(),
{
    if rows.len() == 0 {
        Seq::empty()
    } else {
        rows_html(rows.drop_last()) + row_html(rows.last())
    }
}

/// The listing page for `path` with the given rows.
pub open spec fn listing_html(path: Seq<char>, rows: Seq<(Seq<char>, Seq<char>)>) -> Seq<char> {
    "<!DOCTYPE html><html><head><meta charset=\"utf-8\"><title>Index of "@ + html_escape_spec(path)
        + "</title><style>body{font:14px ui-monospace,monospace;margin:40px auto;max-width:640px}td{padding:2px 12px 2px 0}table{border-collapse:collapse}</style></head><body><h3>Index of "@
        + html_escape_spec(path) + "</h3><table>"@ + rows_html(rows) + "</table></body></html>"@
}

/// Render a minimal HTML directory listing: the visible entries sorted
/// by name, names escaped.
pub fn render_listing(request_path: &str, entries: &Vec<ListingEntry>, allow_dotfiles: bool) -> (r:
    String)
    ensures
        exists|rows: Seq<(Seq<char>, Seq<char>)>|
            rows.to_multiset() == visible_rows(entries@, allow_dotfiles).to_multiset()
                && sorted_pairs(rows) && r@ == listing_html(request_path@, rows),
{
    let mut rows: Vec<(String, String)> = Vec::new();
    let mut i: usize = 0;
    while i < entries.len()
        invariant
            i <= entries@.len(),
            pair_views(rows@) == visible_rows(entries@.subrange(0, i as int), allow_dotfiles),
        decreases entries@.len() - i,
    {
        let e = &entries[i];
        assert(entries@.subrange(0, i + 1).drop_last() =~= entries@.subrange(0, i as int));
        let ncs = str_chars(e.name.as_str());
        let hidden = !allow_dotfiles && ncs.len() > 0 && ncs[0] == '.';
        if !hidden {
            let kind = if e.is_dir {
                "dir".to_owned()
            } else {
                "file".to_owned()
            };
            rows.push((e.name.clone(), kind));
            assert(pair_views(rows@) =~= visible_rows(entries@.subrange(0, i + 1), allow_dotfiles));
        }
        i = i + 1;
    }
    assert(entries@.subrange(0, entries@.len() as int) =~= entries@);
    let ghost unsorted = pair_views(rows@);
    sort_pairs(&mut rows);
    let mut body: Vec<char> = Vec::new();
    let mut k: usize = 0;
    while k < rows.len()
        invariant
            k <= rows@.len(),
            body@ == rows_html(pair_views(rows@).subrange(0, k as int)),
        decreases rows@.len() - k,
    {
        let ghost before = body@;
        push_str(&mut body, "<tr><td>");
        let esc = html_escape(rows[k].0.as_str());
        let ecs = str_chars(esc.as_str());
        push_chars(&mut body, &ecs);
        push_str(&mut body, "</td><td>");
        push_str(&mut body, rows[k].1.as_str());
        push_str(&mut body, "</td></tr>");
        assert(pair_views(rows@).subrange(0, k + 1).drop_last() =~= pair_views(rows@).subrange(
            0,
            k as int,
        ));
        assert(body@ =~= before + row_html(pair_views(rows@)[k as int]));
        k = k + 1;
    }
    assert(pair_views(rows@).subrange(0, rows@.len() as int) =~= pair_views(rows@));
    let escaped_path = html_escape(request_path);
    let pcs = str_chars(escaped_path.as_str());
    let mut out: Vec<char> = Vec::new();
    push_str(
        &mut out,
        "<!DOCTYPE html><html><head><meta charset=\"utf-8\"><title>Index of ",
    );
    push_chars(&mut out, &pcs);
    push_str(
        &mut out,
        "</title><style>body{font:14px ui-monospace,monospace;margin:40px auto;max-width:640px}td{padding:2px 12px 2px 0}table{border-collapse:collapse}</style></head><body><h3>Index of ",
    );
    push_chars(&mut out, &pcs);
    push_str(&mut out, "</h3><table>");
    push_chars(&mut out, &body);
    push_str(&mut out, "</table></body></html>");
    assert(out@ =~= listing_html(request_path@, pair_views(rows@)));
    chars_to_string(out.as_slice())
}

} // verus!

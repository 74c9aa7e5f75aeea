//! The compiled route table and the routing decision for one request.
//!
//! [`RouteTable::build`] registers every path of a [`Router`] with the
//! radix-tree matcher; [`RouteTable::plan`] asks the matcher for a path
//! and decides what runs: a handler, the `405` answer with its `Allow`
//! list, or the fallback.

use matchit::Router as RadixTree;
use vstd::prelude::*;

use crate::chars::push_str;
use crate::encoding::{percent_decode, percent_decode_bytes};
use crate::ext::{
    all_accepted, matcher_at, matcher_history, matcher_insert, matcher_new, matcher_routes, matchit_accepts,
    matchit_at, max_params, named_params, pair_views, patterns_of, static_pattern,
};
use crate::router::{method_name, methods_by_name, Method, MethodRouter, Router};
use crate::text::{chars_to_string, str_chars, utf8_lossy};
use vstd::utf8::encode_utf8;

verus! {

/// What a captured path parameter decodes to: percent-decoded bytes, read
/// as UTF-8 with invalid sequences replaced.
pub open spec fn decode_param(s: Seq<char>) -> Seq<char> {
    utf8_lossy(percent_decode_bytes(encode_utf8(s)))
}

/// Every parameter with its value decoded, names unchanged, order kept.
pub open spec fn decode_params(ps: Seq<(Seq<char>, Seq<char>)>) -> Seq<(Seq<char>, Seq<char>)> {
    Seq::new(ps.len(), |j: int| (ps[j].0, decode_param(ps[j].1)))
}

/// The patterns of a table registered in order, each mapped to its index.
pub open spec fn pattern_map(paths: Seq<Seq<char>>) -> Map<Seq<char>, usize>
    decreases paths.len(),
{
    if paths.len() == 0 {
        Map::empty()
    } else {
        pattern_map(paths.drop_last()).insert(paths.last(), (paths.len() - 1) as usize)
    }
}

/// Whether no path occurs twice.
pub open spec fn distinct_paths(paths: Seq<Seq<char>>) -> bool {
    forall|a: int, b: int| 0 <= a < b < paths.len() ==> #[trigger] paths[a] != #[trigger] paths[b]
}

/// The patterns of `pattern_map` are exactly the registered paths.
pub proof fn lemma_pattern_map_dom(paths: Seq<Seq<char>>)
    ensures
        forall|k: Seq<char>|
            #[trigger] pattern_map(paths).dom().contains(k) <==> exists|j: int|
                0 <= j < paths.len() && paths[j] == k,
    decreases paths.len(),
{
    if paths.len() > 0 {
        let init = paths.drop_last();
        lemma_pattern_map_dom(init);
        assert(pattern_map(paths) == pattern_map(init).insert(paths.last(), (paths.len() - 1) as usize));
        assert forall|k: Seq<char>|
            #[trigger] pattern_map(paths).dom().contains(k) <==> exists|j: int|
                0 <= j < paths.len() && paths[j] == k by {
            if k == paths.last() {
                assert(paths[paths.len() - 1] == k);
            }
            if exists|j: int| 0 <= j < init.len() && init[j] == k {
                let j = choose|j: int| 0 <= j < init.len() && init[j] == k;
                assert(paths[j] == k);
            }
            if exists|j: int| 0 <= j < paths.len() && paths[j] == k {
                let j = choose|j: int| 0 <= j < paths.len() && paths[j] == k;
                if j < init.len() {
                    assert(init[j] == k);
                }
            }
        }
    }
}

/// With no path registered twice, every path leads to its own route.
pub proof fn lemma_each_path_finds_its_route(paths: Seq<Seq<char>>, i: int)
    requires
        distinct_paths(paths),
        0 <= i < paths.len(),
        paths.len() <= usize::MAX,
    ensures
        pattern_map(paths).dom().contains(paths[i]),
        pattern_map(paths)[paths[i]] == i,
    decreases paths.len(),
{
    let init = paths.drop_last();
    if i < paths.len() - 1 {
        assert forall|a: int, b: int| 0 <= a < b < init.len() implies #[trigger] init[a] != #[trigger] init[b] by {
            assert(init[a] == paths[a] && init[b] == paths[b]);
        }
        assert(init[i] == paths[i]);
        lemma_each_path_finds_its_route(init, i);
        assert(paths[i] != paths[paths.len() - 1]);
    }
}

/// A router that registers a path twice does not have distinct paths, so
/// `RouteTable::build` refuses it.
pub proof fn lemma_duplicate_path_refused<H, M>(router: Router<H, M>, a: int, b: int)
    requires
        0 <= a < b < router.len(),
        router.path(a) == router.path(b),
    ensures
        !distinct_paths(router.paths()),
{
    assert(router.paths()[a] == router.paths()[b]);
}

/// The method a request is served with: `HEAD` falls back to `GET` when
/// the route has no `HEAD` handler of its own. `None` stands for a method
/// outside the nine this crate knows.
pub open spec fn effective_method(method: Option<Method>, registered: Set<Method>) -> Option<Method> {
    if method == Some(Method::Head) && !registered.contains(Method::Head) {
        Some(Method::Get)
    } else {
        method
    }
}

/// Whether `m` belongs in the `Allow` header of a route: it is registered,
/// or it is `HEAD` and `GET` is registered.
pub open spec fn allowed(m: Method, registered: Set<Method>) -> bool {
    registered.contains(m) || (m == Method::Head && registered.contains(Method::Get))
}

/// The methods of `ms` that belong in the `Allow` header, in the order of
/// `ms`.
pub open spec fn allowed_from(ms: Seq<Method>, registered: Set<Method>) -> Seq<Method>
    decreases ms.len(),
{
    if ms.len() == 0 {
        Seq::empty()
    } else {
        let rest = allowed_from(ms.drop_last(), registered);
        if allowed(ms.last(), registered) {
            rest.push(ms.last())
        } else {
            rest
        }
    }
}

/// Method names joined with `", "`.
pub open spec fn join_methods(ms: Seq<Method>) -> Seq<char>
    decreases ms.len(),
{
    if ms.len() == 0 {
        Seq::empty()
    } else if ms.len() == 1 {
        method_name(ms[0])
    } else {
        join_methods(ms.drop_last()) + seq![',', ' '] + method_name(ms.last())
    }
}

/// The `Allow` header of a route: its methods (and `HEAD` with `GET`),
/// sorted by name, each once, joined with `", "`.
pub open spec fn allow_text(registered: Set<Method>) -> Seq<char> {
    join_methods(allowed_from(methods_by_name(), registered))
}

/// The routing decision, with text as character sequences.
pub enum DecisionView {
    /// Run the global middleware, then the route's, then this handler.
    Handler { route: usize, method: Method, params: Seq<(Seq<char>, Seq<char>)>, head: bool },
    /// The path exists but not for this method: answer `405` with `Allow`,
    /// through the global middleware, then the route's.
    NotAllowed { route: usize, allow: Seq<char>, params: Seq<(Seq<char>, Seq<char>)>, head: bool },
    /// No route matches: run the fallback through the global middleware.
    NotFound,
}

/// What a request on a matched route is answered with. `head` records a
/// `HEAD` request, whose response body is dropped.
pub open spec fn route_decision(
    registered: Set<Method>,
    route: usize,
    method: Option<Method>,
    raw_params: Seq<(Seq<char>, Seq<char>)>,
) -> DecisionView {
    let eff = effective_method(method, registered);
    let head = method == Some(Method::Head);
    let params = decode_params(raw_params);
    if eff is Some && registered.contains(eff->0) {
        DecisionView::Handler { route, method: eff->0, params, head }
    } else {
        DecisionView::NotAllowed { route, allow: allow_text(registered), params, head }
    }
}

/// The routing decision for one request.
pub enum RouteDecision {
    /// Run the global middleware, then the route's, then the handler for
    /// `method` (already resolved from `HEAD` to `GET` where needed).
    Handler { route: usize, method: Method, params: Vec<(String, String)>, head: bool },
    /// The path exists but not for this method: answer `405` with this
    /// `Allow` header, through the global middleware, then the route's
    /// (so CORS preflight and logging see it).
    NotAllowed { route: usize, allow: String, params: Vec<(String, String)>, head: bool },
    /// No route matches: run the fallback through the global middleware.
    NotFound,
}

impl View for RouteDecision {
    type V = DecisionView;

    open spec fn view(&self) -> DecisionView {
        match self {
            RouteDecision::Handler { route, method, params, head } => DecisionView::Handler {
                route: *route,
                method: *method,
                params: pair_views(params@),
                head: *head,
            },
            RouteDecision::NotAllowed { route, allow, params, head } => DecisionView::NotAllowed {
                route: *route,
                allow: allow@,
                params: pair_views(params@),
                head: *head,
            },
            RouteDecision::NotFound => DecisionView::NotFound,
        }
    }
}

/// Why a router could not be compiled.
pub enum RouteError {
    /// The matcher refused the path (a conflict with an earlier route, or a
    /// malformed pattern), for this reason.
    Refused {
        /// The refused path.
        path: String,
        /// Why the matcher refused it.
        error: matchit::InsertError,
    },
    /// The path has more named parameters than the matcher can name.
    TooManyParams {
        /// The refused path.
        path: String,
    },
}

impl RouteError {
    /// The refused path.
    pub open spec fn path_text(&self) -> Seq<char> {
        match self {
            RouteError::Refused { path, .. } => path@,
            RouteError::TooManyParams { path } => path@,
        }
    }
}

/// Whether route `i` of `paths` is compiled: its named parameters are
/// within the matcher's limit and the matcher accepts it after the routes
/// before it.
pub open spec fn route_accepted(paths: Seq<Seq<char>>, i: int) -> bool {
    named_params(paths[i]) <= max_params() && matchit_accepts(paths.take(i), paths[i])
}

/// Each path with its index: the inserts a table makes, in order.
pub open spec fn numbered(paths: Seq<Seq<char>>) -> Seq<(Seq<char>, usize)> {
    Seq::new(paths.len(), |i: int| (paths[i], i as usize))
}

/// The named parameters of a pattern.
fn count_named_params(s: &str) -> (n: usize)
    ensures
        n == named_params(s@),
{
    let cs = str_chars(s);
    let len = cs.len();
    let mut n: usize = 0;
    let mut i: usize = 0;
    assert(cs@.subrange(0, len as int) =~= cs@);
    while i < len
        invariant
            cs@ == s@,
            len == cs@.len(),
            i <= len,
            n <= i,
            n + named_params(cs@.subrange(i as int, len as int)) == named_params(s@),
        decreases len - i,
    {
        let ghost rest = cs@.subrange(i as int, len as int);
        if i + 1 < len && ((cs[i] == '{' && cs[i + 1] == '{') || (cs[i] == '}' && cs[i + 1] == '}')) {
            assert(rest.subrange(2, rest.len() as int) =~= cs@.subrange(i + 2, len as int));
            i = i + 2;
        } else {
            assert(rest.drop_first() =~= cs@.subrange(i + 1, len as int));
            if cs[i] == '{' && !(i + 1 < len && cs[i + 1] == '*') {
                n = n + 1;
            }
            i = i + 1;
        }
    }
    assert(cs@.subrange(len as int, len as int) =~= Seq::<char>::empty());
    n
}

/// Whether a decision answers a `HEAD` request, whose response goes out
/// without a body.
pub open spec fn answers_head(d: DecisionView) -> bool {
    match d {
        DecisionView::Handler { head, .. } => head,
        DecisionView::NotAllowed { head, .. } => head,
        DecisionView::NotFound => false,
    }
}

impl RouteDecision {
    /// Whether the response goes out without a body: a `HEAD` request on a
    /// matched path (served by its `GET` handler or answered `405`).
    pub fn answers_head(&self) -> (r: bool)
        ensures
            r == answers_head(self@),
    {
        match self {
            RouteDecision::Handler { head, .. } => *head,
            RouteDecision::NotAllowed { head, .. } => *head,
            RouteDecision::NotFound => false,
        }
    }
}

/// The body sent for a response: nothing (`empty`) for a `HEAD` request,
/// else the body the handler produced.
pub fn sent_body<B>(head: bool, body: B, empty: B) -> (r: B)
    ensures
        head ==> r == empty,
        !head ==> r == body,
{
    if head {
        empty
    } else {
        body
    }
}

/// The routes compiled for dispatch: the matcher maps each pattern to the
/// index of its method router.
pub struct RouteTable<H, M> {
    matcher: RadixTree<usize>,
    routes: Vec<MethodRouter<H, M>>,
}

impl<H, M> RouteTable<H, M> {
    /// The number of routes.
    pub closed spec fn len(&self) -> nat {
        self.routes@.len()
    }

    /// The method router of route `i`.
    pub closed spec fn route(&self, i: int) -> MethodRouter<H, M> {
        self.routes@[i]
    }

    /// The patterns the matcher holds, each with its route index.
    pub closed spec fn patterns(&self) -> Map<Seq<char>, usize> {
        matcher_routes(self.matcher)
    }

    /// Every pattern leads to a route, and every route is well formed.
    pub closed spec fn wf(&self) -> bool {
        &&& forall|k: Seq<char>| #[trigger]
            self.patterns().dom().contains(k) ==> self.patterns()[k] < self.routes@.len()
        &&& forall|i: int| 0 <= i < self.routes@.len() ==> (#[trigger] self.routes@[i]).wf()
        &&& all_accepted(patterns_of(self.history()))
    }

    /// The inserts the matcher was built with, in order: each pattern with
    /// its route index.
    pub closed spec fn history(&self) -> Seq<(Seq<char>, usize)> {
        matcher_history(self.matcher)
    }

    /// Compile a router. Every path is registered with the matcher, in
    /// order; the first path with more opening braces than the matcher can
    /// name parameters for, or that the matcher refuses, is returned with
    /// the reason.
    pub fn build(router: Router<H, M>) -> (r: Result<RouteTable<H, M>, RouteError>)
        requires
            router.wf(),
        ensures
            r is Ok <==> forall|i: int|
                0 <= i < router.len() ==> #[trigger] route_accepted(router.paths(), i),
            r matches Ok(t) ==> {
                &&& t.wf()
                &&& t.len() == router.len()
                &&& forall|i: int| 0 <= i < router.len() ==> #[trigger] t.route(i) == router.entry(i)
                &&& t.patterns() == pattern_map(router.paths())
                &&& t.history() == numbered(router.paths())
                &&& distinct_paths(router.paths())
            },
            r matches Err(e) ==> exists|i: int|
                0 <= i < router.len() && #[trigger] router.path(i) == e.path_text() && !route_accepted(
                    router.paths(),
                    i,
                ) && (forall|j: int| 0 <= j < i ==> route_accepted(router.paths(), j)) && (e is TooManyParams
                    <==> named_params(router.path(i)) > max_params()),
            !distinct_paths(router.paths()) ==> r is Err,
    {
        let ghost paths = router.paths();
        let ghost entries = Seq::new(router.len(), |i: int| router.entry(i));
        proof {
            assert forall|i: int| 0 <= i < router.len() implies (#[trigger] entries[i]).wf() by {
                assert(router.route_ok(i));
            }
        }
        let all = router.into_routes();
        let mut src = all;
        let mut matcher = matcher_new();
        let mut routes: Vec<MethodRouter<H, M>> = Vec::new();
        let n = src.len();
        let mut i: usize = 0;
        assert(paths.subrange(0, 0) =~= Seq::<Seq<char>>::empty());
        while src.len() > 0
            invariant
                n == paths.len(),
                n == entries.len(),
                i + src@.len() == n,
                forall|j: int| 0 <= j < src@.len() ==> #[trigger] src@[j].0@ == paths[i + j]
                    && src@[j].1 == entries[i + j],
                forall|j: int| 0 <= j < n ==> (#[trigger] entries[j]).wf(),
                routes@.len() == i,
                forall|j: int| 0 <= j < i ==> #[trigger] routes@[j] == entries[j],
                matcher_routes(matcher) == pattern_map(paths.subrange(0, i as int)),
                matcher_history(matcher) == numbered(paths.take(i as int)),
                forall|j: int| 0 <= j < i ==> #[trigger] route_accepted(paths, j),
                distinct_paths(paths.subrange(0, i as int)),
                forall|k: Seq<char>| #[trigger]
                    matcher_routes(matcher).dom().contains(k) ==> matcher_routes(matcher)[k] < i,
                forall|j: int| 0 <= j < paths.len() ==> #[trigger] paths[j] == router.path(j),
                paths.len() == router.len(),
                paths == router.paths(),
            decreases src@.len(),
        {
            let ghost before = src@;
            let (path, mr) = src.remove(0);
            assert(path@ == paths[i as int] && mr == entries[i as int]) by {
                assert(before[0] == (path, mr));
            }
            if count_named_params(path.as_str()) > 25 {
                assert(router.path(i as int) == path@);
                assert(!route_accepted(paths, i as int));
                return Err(RouteError::TooManyParams { path });
            }
            let key = path.clone();
            let ghost old_map = matcher_routes(matcher);
            assert(patterns_of(numbered(paths.take(i as int))) =~= paths.take(i as int));
            match matcher_insert(&mut matcher, key, i) {
                Ok(()) => {},
                Err(error) => {
                    assert(router.path(i as int) == path@);
                    assert(!route_accepted(paths, i as int));
                    return Err(RouteError::Refused { path, error });
                },
            }
            assert(route_accepted(paths, i as int));
            assert(paths.subrange(0, i + 1).drop_last() =~= paths.subrange(0, i as int));
            assert(paths.take(i as int).push(path@) =~= paths.take(i + 1));
            assert(numbered(paths.take(i as int)).push((path@, i)) =~= numbered(paths.take(i + 1)));
            assert(patterns_of(numbered(paths.take(i as int))) =~= paths.take(i as int));
            proof {
                lemma_pattern_map_dom(paths.subrange(0, i as int));
                let next = paths.subrange(0, i + 1);
                assert forall|a: int, b: int| 0 <= a < b < next.len() implies #[trigger] next[a] != #[trigger] next[b] by {
                    if b == i {
                        assert(next[a] == paths.subrange(0, i as int)[a]);
                        assert(old_map.dom().contains(next[a]));
                    } else {
                        assert(next[a] == paths.subrange(0, i as int)[a]);
                        assert(next[b] == paths.subrange(0, i as int)[b]);
                    }
                }
            }
            routes.push(mr);
            assert forall|j: int| 0 <= j < src@.len() implies #[trigger] src@[j].0@ == paths[i + 1
                + j] && src@[j].1 == entries[i + 1 + j] by {
                assert(src@[j] == before[j + 1]);
            }
            i = i + 1;
            assert forall|k: Seq<char>| #[trigger]
                matcher_routes(matcher).dom().contains(k) implies matcher_routes(matcher)[k] < i by {
                if k != path@ {
                    assert(old_map.dom().contains(k));
                }
            }
        }
        assert(paths.subrange(0, n as int) =~= paths);
        assert(paths.take(n as int) =~= paths);
        assert(patterns_of(numbered(paths)) =~= paths);
        assert forall|j: int| 0 <= j < paths.len() implies #[trigger] matchit_accepts(paths.take(j), paths[j]) by {
            assert(route_accepted(paths, j));
        }
        Ok(RouteTable { matcher, routes })
    }

    /// The route's handler for `m`.
    pub fn handler(&self, route: usize, m: Method) -> (r: Option<&H>)
        requires
            self.wf(),
            route < self.len(),
        ensures
            match r {
                Some(h) => self.route(route as int).handlers().dom().contains(m)
                    && self.route(route as int).handlers()[m] == *h,
                None => !self.route(route as int).handlers().dom().contains(m),
            },
    {
        assert(self.routes@[route as int].wf());
        self.routes[route].handler(m)
    }

    /// The route's own middleware, outermost first (group middleware
    /// included).
    pub fn middleware_list(&self, route: usize) -> (r: &Vec<M>)
        requires
            route < self.len(),
        ensures
            r@ == self.route(route as int).middlewares(),
    {
        self.routes[route].middleware_list()
    }

    /// Decide what answers a request, given what the matcher found for
    /// its path: the route index and the raw captured parameters.
    pub fn decide(&self, method: Option<Method>, matched: Option<(usize, Vec<(String, String)>)>) -> (r:
        RouteDecision)
        requires
            matched matches Some((i, _)) ==> i < self.len(),
        ensures
            r@ == match matched {
                None => DecisionView::NotFound,
                Some((i, ps)) => route_decision(
                    self.route(i as int).handlers().dom(),
                    i,
                    method,
                    pair_views(ps@),
                ),
            },
    {
        match matched {
            None => RouteDecision::NotFound,
            Some((i, raw)) => {
                let mr = &self.routes[i];
                let ghost registered = mr.handlers().dom();
                let params = decode_all(raw);
                let head = match method {
                    Some(Method::Head) => true,
                    _ => false,
                };
                let eff = if head && !mr.has(Method::Head) {
                    Some(Method::Get)
                } else {
                    method
                };
                assert(eff == effective_method(method, registered));
                match eff {
                    Some(m) => {
                        if mr.has(m) {
                            return RouteDecision::Handler { route: i, method: m, params, head };
                        }
                    },
                    None => {},
                }
                let allow = allow_header(mr);
                RouteDecision::NotAllowed { route: i, allow, params, head }
            },
        }
    }

    /// Route one request: ask the matcher for `path`, then decide.
    pub fn plan(&self, method: Option<Method>, path: &str) -> (r: RouteDecision)
        requires
            self.wf(),
        ensures
            r@ == match matchit_at(self.history(), path@) {
                None => DecisionView::NotFound,
                Some((i, ps)) => route_decision(
                    self.route(i as int).handlers().dom(),
                    i,
                    method,
                    ps,
                ),
            },
            static_pattern(path@) && self.patterns().dom().contains(path@) ==> r@ == route_decision(
                self.route(self.patterns()[path@] as int).handlers().dom(),
                self.patterns()[path@],
                method,
                Seq::empty(),
            ),
    {
        let found = matcher_at(&self.matcher, path);
        proof {
            if found is Some {
                let pair = found->0;
                let i = pair.0;
                let ps = pair.1;
                let k = choose|k: Seq<char>| #[trigger]
                    matcher_routes(self.matcher).dom().contains(k) && matcher_routes(self.matcher)[k]
                        == i;
                assert(self.patterns().dom().contains(k));
                if static_pattern(path@) && self.patterns().dom().contains(path@) {
                    assert(pair_views(ps@) =~= Seq::<(Seq<char>, Seq<char>)>::empty());
                }
            }
        }
        self.decide(method, found)
    }
}

/// The `Allow` list holds exactly the registered methods, plus `HEAD`
/// wherever `GET` is registered, each once, in order of name.
pub proof fn lemma_allow_list(registered: Set<Method>)
    ensures
        forall|m: Method|
            #![trigger allowed_from(methods_by_name(), registered).contains(m)]
            allowed_from(methods_by_name(), registered).contains(m) <==> allowed(m, registered),
        forall|a: int, b: int|
            0 <= a < b < allowed_from(methods_by_name(), registered).len() ==> #[trigger] allowed_from(
                methods_by_name(),
                registered,
            )[a] != #[trigger] allowed_from(methods_by_name(), registered)[b],
{
    let all = methods_by_name();
    assert forall|m: Method| #[trigger] all.contains(m) by {
        match m {
            Method::Connect => assert(all[0] == m),
            Method::Delete => assert(all[1] == m),
            Method::Get => assert(all[2] == m),
            Method::Head => assert(all[3] == m),
            Method::Options => assert(all[4] == m),
            Method::Patch => assert(all[5] == m),
            Method::Post => assert(all[6] == m),
            Method::Put => assert(all[7] == m),
            Method::Trace => assert(all[8] == m),
        }
    }
    lemma_allowed_from(all, registered);
}

proof fn lemma_allowed_from(ms: Seq<Method>, registered: Set<Method>)
    requires
        forall|a: int, b: int| 0 <= a < b < ms.len() ==> #[trigger] ms[a] != #[trigger] ms[b],
    ensures
        forall|m: Method|
            #![trigger allowed_from(ms, registered).contains(m)]
            allowed_from(ms, registered).contains(m) <==> (ms.contains(m) && allowed(m, registered)),
        forall|a: int, b: int|
            0 <= a < b < allowed_from(ms, registered).len() ==> #[trigger] allowed_from(ms, registered)[a]
                != #[trigger] allowed_from(ms, registered)[b],
    decreases ms.len(),
{
    if ms.len() > 0 {
        let init = ms.drop_last();
        assert forall|a: int, b: int| 0 <= a < b < init.len() implies #[trigger] init[a] != #[trigger] init[b] by {
            assert(init[a] == ms[a] && init[b] == ms[b]);
        }
        lemma_allowed_from(init, registered);
        let rest = allowed_from(init, registered);
        assert forall|m: Method| ms.contains(m) <==> (init.contains(m) || m == ms.last()) by {
            if ms.contains(m) {
                let k = choose|k: int| 0 <= k < ms.len() && ms[k] == m;
                if k < ms.len() - 1 {
                    assert(init[k] == m);
                }
            }
            if init.contains(m) {
                let k = choose|k: int| 0 <= k < init.len() && init[k] == m;
                assert(ms[k] == m);
            }
            if m == ms.last() {
                assert(ms[ms.len() - 1] == m);
            }
        }
        assert(!init.contains(ms.last())) by {
            if init.contains(ms.last()) {
                let k = choose|k: int| 0 <= k < init.len() && init[k] == ms.last();
                assert(ms[k] == ms[ms.len() - 1]);
            }
        }
        if allowed(ms.last(), registered) {
            let out = rest.push(ms.last());
            assert forall|m: Method| #[trigger] out.contains(m) <==> (rest.contains(m) || m == ms.last()) by {
                if out.contains(m) {
                    let k = choose|k: int| 0 <= k < out.len() && out[k] == m;
                    if k < rest.len() {
                        assert(rest[k] == m);
                    }
                }
                if rest.contains(m) {
                    let k = choose|k: int| 0 <= k < rest.len() && rest[k] == m;
                    assert(out[k] == m);
                }
                if m == ms.last() {
                    assert(out[out.len() - 1] == m);
                }
            }
            assert forall|a: int, b: int| 0 <= a < b < out.len() implies #[trigger] out[a] != #[trigger] out[b] by {
                if b == out.len() - 1 {
                    assert(rest[a] == out[a]);
                    assert(rest.contains(out[a]));
                } else {
                    assert(rest[a] == out[a] && rest[b] == out[b]);
                }
            }
        }
    }
}

/// A request whose method has a handler on the matched route runs that
/// handler.
pub proof fn lemma_registered_method_runs(
    registered: Set<Method>,
    route: usize,
    m: Method,
    raw_params: Seq<(Seq<char>, Seq<char>)>,
)
    requires
        registered.contains(m),
    ensures
        route_decision(registered, route, Some(m), raw_params) == (DecisionView::Handler {
            route,
            method: m,
            params: decode_params(raw_params),
            head: m == Method::Head,
        }),
{
}

/// `HEAD` on a route with `GET` but no `HEAD` handler runs the `GET`
/// handler, and the response body is dropped.
pub proof fn lemma_head_served_by_get(
    registered: Set<Method>,
    route: usize,
    raw_params: Seq<(Seq<char>, Seq<char>)>,
)
    requires
        registered.contains(Method::Get),
        !registered.contains(Method::Head),
    ensures
        route_decision(registered, route, Some(Method::Head), raw_params) == (DecisionView::Handler {
            route,
            method: Method::Get,
            params: decode_params(raw_params),
            head: true,
        }),
{
}

/// `HEAD` on a route with `GET` but no `HEAD` handler runs the `GET`
/// handler and is answered without a body.
pub proof fn lemma_head_response_has_no_body(
    registered: Set<Method>,
    route: usize,
    raw_params: Seq<(Seq<char>, Seq<char>)>,
)
    requires
        registered.contains(Method::Get),
        !registered.contains(Method::Head),
    ensures
        route_decision(registered, route, Some(Method::Head), raw_params) matches DecisionView::Handler {
            method,
            ..
        } && method == Method::Get,
        answers_head(route_decision(registered, route, Some(Method::Head), raw_params)),
{
}

/// A method the route cannot serve is answered `405`, and the `Allow`
/// header is the route's list.
pub proof fn lemma_unregistered_method_refused(
    registered: Set<Method>,
    route: usize,
    method: Option<Method>,
    raw_params: Seq<(Seq<char>, Seq<char>)>,
)
    requires
        !(effective_method(method, registered) matches Some(m) && registered.contains(m)),
    ensures
        route_decision(registered, route, method, raw_params) == (DecisionView::NotAllowed {
            route,
            allow: allow_text(registered),
            params: decode_params(raw_params),
            head: method == Some(Method::Head),
        }),
{
}

/// Whether `chain` is the global middleware, then the route's own, each
/// cloned, in that order.
pub open spec fn chained<M: Clone>(global: Seq<M>, route: Seq<M>, chain: Seq<M>) -> bool {
    &&& chain.len() == global.len() + route.len()
    &&& forall|j: int| 0 <= j < global.len() ==> cloned::<M>(global[j], #[trigger] chain[j])
    &&& forall|j: int|
        0 <= j < route.len() ==> cloned::<M>(route[j], #[trigger] chain[global.len() + j])
}

impl<H, M: Clone> RouteTable<H, M> {
    /// The middleware a decision runs through, outermost first: the global
    /// middleware, then, for a matched path (a handler or the `405`
    /// answer alike), the route's own. The fallback runs through the
    /// global middleware only.
    pub fn middleware_chain(&self, global: &Vec<M>, decision: &RouteDecision) -> (c: Vec<M>)
        requires
            decision matches RouteDecision::Handler { route, .. } ==> route < self.len(),
            decision matches RouteDecision::NotAllowed { route, .. } ==> route < self.len(),
        ensures
            match decision {
                RouteDecision::Handler { route, .. } => chained(
                    global@,
                    self.route(*route as int).middlewares(),
                    c@,
                ),
                RouteDecision::NotAllowed { route, .. } => chained(
                    global@,
                    self.route(*route as int).middlewares(),
                    c@,
                ),
                RouteDecision::NotFound => chained(global@, Seq::empty(), c@),
            },
    {
        let mut chain = global.clone();
        let ghost g = chain@;
        let route = match decision {
            RouteDecision::Handler { route, .. } => *route,
            RouteDecision::NotAllowed { route, .. } => *route,
            RouteDecision::NotFound => {
                return chain;
            },
        };
        let mut own = self.routes[route].middleware_list().clone();
        let ghost o = own@;
        chain.append(&mut own);
        assert forall|j: int| 0 <= j < global@.len() implies cloned::<M>(global@[j], #[trigger] chain@[j]) by {
            assert(chain@[j] == g[j]);
        }
        assert forall|j: int|
            0 <= j < self.route(route as int).middlewares().len() implies cloned::<M>(
            self.route(route as int).middlewares()[j],
            #[trigger] chain@[global@.len() + j],
        ) by {
            assert(chain@[global@.len() + j] == o[j]);
        }
        chain
    }
}

/// Decode every captured value.
fn decode_all(raw: Vec<(String, String)>) -> (out: Vec<(String, String)>)
    ensures
        pair_views(out@) == decode_params(pair_views(raw@)),
{
    let mut src = raw;
    let ghost all = pair_views(src@);
    let n = src.len();
    let mut out: Vec<(String, String)> = Vec::new();
    let mut i: usize = 0;
    while src.len() > 0
        invariant
            n == all.len(),
            i + src@.len() == n,
            forall|j: int| 0 <= j < src@.len() ==> (#[trigger] src@[j].0@, src@[j].1@) == all[i + j],
            out@.len() == i,
            pair_views(out@) == decode_params(all).subrange(0, i as int),
        decreases src@.len(),
    {
        let ghost before = src@;
        let (name, value) = src.remove(0);
        assert((name@, value@) == all[i as int]) by {
            assert(before[0] == (name, value));
        }
        let decoded = percent_decode(value.as_str());
        let ghost prev = out@;
        out.push((name, decoded));
        assert forall|j: int| 0 <= j < src@.len() implies (#[trigger] src@[j].0@, src@[j].1@) == all[i
            + 1 + j] by {
            assert(src@[j] == before[j + 1]);
        }
        assert(pair_views(out@) =~= decode_params(all).subrange(0, i + 1)) by {
            assert forall|j: int| 0 <= j < i implies pair_views(out@)[j] == pair_views(prev)[j] by {
                assert(out@[j] == prev[j]);
            }
        }
        i = i + 1;
    }
    assert(decode_params(all).subrange(0, n as int) =~= decode_params(all));
    out
}

/// The methods in order of their names.
fn methods_in_name_order() -> (v: Vec<Method>)
    ensures
        v@ == methods_by_name(),
{
    let v = vec![
        Method::Connect,
        Method::Delete,
        Method::Get,
        Method::Head,
        Method::Options,
        Method::Patch,
        Method::Post,
        Method::Put,
        Method::Trace,
    ];
    assert(v@ =~= methods_by_name());
    v
}

/// The `Allow` header of a route.
fn allow_header<H, M>(mr: &MethodRouter<H, M>) -> (s: String)
    ensures
        s@ == allow_text(mr.handlers().dom()),
{
    let ms = methods_in_name_order();
    let ghost registered = mr.handlers().dom();
    let has_get = mr.has(Method::Get);
    let mut out: Vec<char> = Vec::new();
    let mut count: usize = 0;
    let mut i: usize = 0;
    assert(ms@.subrange(0, 0) =~= Seq::<Method>::empty());
    while i < ms.len()
        invariant
            ms@ == methods_by_name(),
            i <= ms@.len(),
            has_get == registered.contains(Method::Get),
            registered == mr.handlers().dom(),
            count == allowed_from(ms@.subrange(0, i as int), registered).len(),
            count <= i,
            out@ == join_methods(allowed_from(ms@.subrange(0, i as int), registered)),
        decreases ms@.len() - i,
    {
        let m = ms[i];
        let ghost prefix = ms@.subrange(0, i as int);
        assert(ms@.subrange(0, i + 1).drop_last() =~= prefix);
        let keep = mr.has(m) || (m == Method::Head && has_get);
        if keep {
            let ghost before = allowed_from(prefix, registered);
            if count > 0 {
                push_str(&mut out, ", ");
                proof {
                    reveal_strlit(", ");
                }
            }
            push_str(&mut out, m.as_str());
            count = count + 1;
            proof {
                let after = before.push(m);
                assert(after.drop_last() =~= before);
                if before.len() > 0 {
                    assert(join_methods(after) == join_methods(before) + seq![',', ' '] + method_name(m));
                } else {
                    assert(after =~= seq![m]);
                }
            }
        }
        i = i + 1;
    }
    assert(ms@.subrange(0, ms@.len() as int) =~= ms@);
    chars_to_string(out.as_slice())
}

} // verus!

//! Routing: [`MethodRouter`] (per-path method to handler map), [`Router`]
//! (a composable tree of routes with group middleware) and the compiled
//! [`RouteTable`] that dispatch consults.
//!
//! Handlers and middleware are type parameters: the server instantiates
//! them with its erased handler and middleware types.

use vstd::prelude::*;

use crate::chars::{push_str, starts_with};
use crate::encoding::{percent_decode, percent_decode_bytes};
use crate::text::{chars_to_string, str_chars, utf8_lossy};
use vstd::utf8::encode_utf8;

verus! {

/// The HTTP methods a route can be registered for.
#[derive(Debug, Clone, Copy, PartialEq, Eq, Structural)]
pub enum Method {
    /// `GET`
    Get,
    /// `POST`
    Post,
    /// `PUT`
    Put,
    /// `PATCH`
    Patch,
    /// `DELETE`
    Delete,
    /// `HEAD`
    Head,
    /// `OPTIONS`
    Options,
    /// `TRACE`
    Trace,
    /// `CONNECT`
    Connect,
}

/// The method name as sent on the wire.
pub open spec fn method_name(m: Method) -> Seq<char> {
    match m {
        Method::Get => seq!['G', 'E', 'T'],
        Method::Post => seq!['P', 'O', 'S', 'T'],
        Method::Put => seq!['P', 'U', 'T'],
        Method::Patch => seq!['P', 'A', 'T', 'C', 'H'],
        Method::Delete => seq!['D', 'E', 'L', 'E', 'T', 'E'],
        Method::Head => seq!['H', 'E', 'A', 'D'],
        Method::Options => seq!['O', 'P', 'T', 'I', 'O', 'N', 'S'],
        Method::Trace => seq!['T', 'R', 'A', 'C', 'E'],
        Method::Connect => seq!['C', 'O', 'N', 'N', 'E', 'C', 'T'],
    }
}

/// Every method, in lexicographic order of its name.
pub open spec fn methods_by_name() -> Seq<Method> {
    seq![
        Method::Connect,
        Method::Delete,
        Method::Get,
        Method::Head,
        Method::Options,
        Method::Patch,
        Method::Post,
        Method::Put,
        Method::Trace,
    ]
}

impl Method {
    /// The method name.
    pub fn as_str(&self) -> (s: &'static str)
        ensures
            s@ == method_name(*self),
    {
        proof {
            reveal_strlit("GET");
            reveal_strlit("POST");
            reveal_strlit("PUT");
            reveal_strlit("PATCH");
            reveal_strlit("DELETE");
            reveal_strlit("HEAD");
            reveal_strlit("OPTIONS");
            reveal_strlit("TRACE");
            reveal_strlit("CONNECT");
        }
        match self {
            Method::Get => "GET",
            Method::Post => "POST",
            Method::Put => "PUT",
            Method::Patch => "PATCH",
            Method::Delete => "DELETE",
            Method::Head => "HEAD",
            Method::Options => "OPTIONS",
            Method::Trace => "TRACE",
            Method::Connect => "CONNECT",
        }
    }
}

/// The handlers for one path, keyed by method, and the middleware that
/// wraps them. Each method has at most one handler.
pub struct MethodRouter<H, M> {
    handlers: Vec<(Method, H)>,
    middlewares: Vec<M>,
}

/// Whether no method occurs twice.
pub open spec fn unique_methods<H>(hs: Seq<(Method, H)>) -> bool {
    forall|i: int, j: int| 0 <= i < j < hs.len() ==> #[trigger] hs[i].0 != #[trigger] hs[j].0
}

/// The handler map of an association list.
pub open spec fn handler_map<H>(hs: Seq<(Method, H)>) -> Map<Method, H>
    decreases hs.len(),
{
    if hs.len() == 0 {
        Map::empty()
    } else {
        handler_map(hs.drop_last()).insert(hs.last().0, hs.last().1)
    }
}

proof fn lemma_handler_map_dom<H>(hs: Seq<(Method, H)>, m: Method)
    ensures
        handler_map(hs).dom().contains(m) <==> exists|i: int| 0 <= i < hs.len() && hs[i].0 == m,
    decreases hs.len(),
{
    if hs.len() > 0 {
        let init = hs.drop_last();
        lemma_handler_map_dom(init, m);
        if exists|i: int| 0 <= i < init.len() && init[i].0 == m {
            let i = choose|i: int| 0 <= i < init.len() && init[i].0 == m;
            assert(init[i] == hs[i]);
        }
        if exists|i: int| 0 <= i < hs.len() && hs[i].0 == m {
            let i = choose|i: int| 0 <= i < hs.len() && hs[i].0 == m;
            if i < hs.len() - 1 {
                assert(init[i] == hs[i]);
            }
        }
    }
}

proof fn lemma_handler_map_value<H>(hs: Seq<(Method, H)>, i: int)
    requires
        unique_methods(hs),
        0 <= i < hs.len(),
    ensures
        handler_map(hs).dom().contains(hs[i].0),
        handler_map(hs)[hs[i].0] == hs[i].1,
    decreases hs.len(),
{
    let init = hs.drop_last();
    if i < hs.len() - 1 {
        assert(init[i] == hs[i]);
        assert(unique_methods(init));
        lemma_handler_map_value(init, i);
        assert(hs[i].0 != hs[hs.len() - 1].0);
    }
}

impl<H, M> MethodRouter<H, M> {
    /// Whether a handler is registered for `m`.
    pub fn has(&self, m: Method) -> (r: bool)
        ensures
            r == self.handlers().dom().contains(m),
    {
        proof {
            lemma_handler_map_dom(self.handlers@, m);
        }
        let mut i: usize = 0;
        while i < self.handlers.len()
            invariant
                i <= self.handlers@.len(),
                forall|j: int| 0 <= j < i ==> self.handlers@[j].0 != m,
            decreases self.handlers@.len() - i,
        {
            if self.handlers[i].0 == m {
                proof {
                    assert(self.handlers@[i as int].0 == m);
                    lemma_handler_map_dom(self.handlers@, m);
                }
                return true;
            }
            i = i + 1;
        }
        false
    }

    /// The handler registered for `m`.
    pub fn handler(&self, m: Method) -> (r: Option<&H>)
        requires
            self.wf(),
        ensures
            match r {
                Some(h) => self.handlers().dom().contains(m) && self.handlers()[m] == *h,
                None => !self.handlers().dom().contains(m),
            },
    {
        proof {
            lemma_handler_map_dom(self.handlers@, m);
        }
        let mut i: usize = 0;
        while i < self.handlers.len()
            invariant
                i <= self.handlers@.len(),
                unique_methods(self.handlers@),
                forall|j: int| 0 <= j < i ==> self.handlers@[j].0 != m,
            decreases self.handlers@.len() - i,
        {
            if self.handlers[i].0 == m {
                proof {
                    lemma_handler_map_value(self.handlers@, i as int);
                }
                return Some(&self.handlers[i].1);
            }
            i = i + 1;
        }
        None
    }

    /// The route's own middleware, outermost first.
    pub fn middleware_list(&self) -> (r: &Vec<M>)
        ensures
            r@ == self.middlewares(),
    {
        &self.middlewares
    }

    /// The method to handler map.
    pub closed spec fn handlers(&self) -> Map<Method, H> {
        handler_map(self.handlers@)
    }

    /// The route's own middleware, outermost first.
    pub closed spec fn middlewares(&self) -> Seq<M> {
        self.middlewares@
    }

    /// The well-formedness of the association list: no method twice.
    pub closed spec fn wf(&self) -> bool {
        unique_methods(self.handlers@)
    }

    /// An empty router.
    pub fn new() -> (r: MethodRouter<H, M>)
        ensures
            r.wf(),
            r.handlers() == Map::<Method, H>::empty(),
            r.middlewares() == Seq::<M>::empty(),
    {
        MethodRouter { handlers: Vec::new(), middlewares: Vec::new() }
    }

    /// Register `handler` for `method`, replacing an earlier one.
    pub fn on(self, method: Method, handler: H) -> (r: MethodRouter<H, M>)
        requires
            self.wf(),
        ensures
            r.wf(),
            r.handlers() == self.handlers().insert(method, handler),
            r.middlewares() == self.middlewares(),
    {
        let MethodRouter { handlers, middlewares } = self;
        let ghost old_hs = handlers@;
        let mut src = handlers;
        let mut out: Vec<(Method, H)> = Vec::new();
        let mut i: usize = 0;
        let total = src.len();
        assert(old_hs.subrange(0, 0) =~= Seq::<(Method, H)>::empty());
        assert(src@ =~= old_hs.subrange(0, old_hs.len() as int));
        while src.len() > 0
            invariant
                unique_methods(old_hs),
                total == old_hs.len(),
                src@.len() + i == old_hs.len(),
                src@ == old_hs.subrange(i as int, old_hs.len() as int),
                unique_methods(out@),
                forall|k: int| 0 <= k < out@.len() ==> #[trigger] out@[k].0 != method,
                handler_map(out@) == handler_map(old_hs.subrange(0, i as int)).remove(method),
                forall|k: int|
                    0 <= k < out@.len() ==> exists|j: int|
                        0 <= j < i && #[trigger] out@[k].0 == old_hs[j].0,
            decreases src@.len(),
        {
            let e = src.remove(0);
            let ghost prev = out@;
            assert(old_hs.subrange(0, i + 1).drop_last() =~= old_hs.subrange(0, i as int));
            assert(e == old_hs[i as int]);
            if e.0 != method {
                out.push(e);
                assert(out@.drop_last() =~= prev);
                assert forall|k: int| 0 <= k < out@.len() - 1 implies #[trigger] out@[k].0
                    != out@[out@.len() - 1].0 by {
                    let j = choose|j: int| 0 <= j < i && prev[k].0 == old_hs[j].0;
                    assert(out@[k] == prev[k]);
                    assert(old_hs[j].0 != old_hs[i as int].0);
                }
                assert(handler_map(out@) =~= handler_map(old_hs.subrange(0, i + 1)).remove(
                    method,
                ));
            } else {
                assert(handler_map(out@) =~= handler_map(old_hs.subrange(0, i + 1)).remove(
                    method,
                ));
            }
            assert(src@ =~= old_hs.subrange(i + 1, old_hs.len() as int));
            i = i + 1;
            assert forall|k: int| 0 <= k < out@.len() implies exists|j: int|
                0 <= j < i && #[trigger] out@[k].0 == old_hs[j].0 by {
                if k < prev.len() {
                    let j = choose|j: int| 0 <= j < i - 1 && prev[k].0 == old_hs[j].0;
                    assert(out@[k] == prev[k]);
                } else {
                    assert(out@[k] == old_hs[i - 1]);
                }
            }
        }
        assert(old_hs.subrange(0, old_hs.len() as int) =~= old_hs);
        let ghost before = out@;
        out.push((method, handler));
        assert(out@.drop_last() =~= before);
        assert(handler_map(out@) =~= handler_map(old_hs).insert(method, handler));
        MethodRouter { handlers: out, middlewares }
    }

    /// Handle `GET`.
    pub fn get(self, handler: H) -> (r: MethodRouter<H, M>)
        requires
            self.wf(),
        ensures
            r.wf(),
            r.handlers() == self.handlers().insert(Method::Get, handler),
            r.middlewares() == self.middlewares(),
    {
        self.on(Method::Get, handler)
    }

    /// Handle `POST`.
    pub fn post(self, handler: H) -> (r: MethodRouter<H, M>)
        requires
            self.wf(),
        ensures
            r.wf(),
            r.handlers() == self.handlers().insert(Method::Post, handler),
            r.middlewares() == self.middlewares(),
    {
        self.on(Method::Post, handler)
    }

    /// Handle `PUT`.
    pub fn put(self, handler: H) -> (r: MethodRouter<H, M>)
        requires
            self.wf(),
        ensures
            r.wf(),
            r.handlers() == self.handlers().insert(Method::Put, handler),
            r.middlewares() == self.middlewares(),
    {
        self.on(Method::Put, handler)
    }

    /// Handle `PATCH`.
    pub fn patch(self, handler: H) -> (r: MethodRouter<H, M>)
        requires
            self.wf(),
        ensures
            r.wf(),
            r.handlers() == self.handlers().insert(Method::Patch, handler),
            r.middlewares() == self.middlewares(),
    {
        self.on(Method::Patch, handler)
    }

    /// Handle `DELETE`.
    pub fn delete(self, handler: H) -> (r: MethodRouter<H, M>)
        requires
            self.wf(),
        ensures
            r.wf(),
            r.handlers() == self.handlers().insert(Method::Delete, handler),
            r.middlewares() == self.middlewares(),
    {
        self.on(Method::Delete, handler)
    }

    /// Handle `HEAD` (otherwise derived from `GET`).
    pub fn head(self, handler: H) -> (r: MethodRouter<H, M>)
        requires
            self.wf(),
        ensures
            r.wf(),
            r.handlers() == self.handlers().insert(Method::Head, handler),
            r.middlewares() == self.middlewares(),
    {
        self.on(Method::Head, handler)
    }

    /// Handle `OPTIONS`.
    pub fn options(self, handler: H) -> (r: MethodRouter<H, M>)
        requires
            self.wf(),
        ensures
            r.wf(),
            r.handlers() == self.handlers().insert(Method::Options, handler),
            r.middlewares() == self.middlewares(),
    {
        self.on(Method::Options, handler)
    }

    /// Handle `TRACE`.
    pub fn trace(self, handler: H) -> (r: MethodRouter<H, M>)
        requires
            self.wf(),
        ensures
            r.wf(),
            r.handlers() == self.handlers().insert(Method::Trace, handler),
            r.middlewares() == self.middlewares(),
    {
        self.on(Method::Trace, handler)
    }

    /// Handle `CONNECT`.
    pub fn connect(self, handler: H) -> (r: MethodRouter<H, M>)
        requires
            self.wf(),
        ensures
            r.wf(),
            r.handlers() == self.handlers().insert(Method::Connect, handler),
            r.middlewares() == self.middlewares(),
    {
        self.on(Method::Connect, handler)
    }
}


/// A `GET` route builder.
pub fn get<H, M>(handler: H) -> (r: MethodRouter<H, M>)
    ensures
        r.wf(),
        r.handlers() == Map::<Method, H>::empty().insert(Method::Get, handler),
        r.middlewares() == Seq::<M>::empty(),
{
    MethodRouter::new().on(Method::Get, handler)
}

/// A `POST` route builder.
pub fn post<H, M>(handler: H) -> (r: MethodRouter<H, M>)
    ensures
        r.wf(),
        r.handlers() == Map::<Method, H>::empty().insert(Method::Post, handler),
        r.middlewares() == Seq::<M>::empty(),
{
    MethodRouter::new().on(Method::Post, handler)
}

/// A `PUT` route builder.
pub fn put<H, M>(handler: H) -> (r: MethodRouter<H, M>)
    ensures
        r.wf(),
        r.handlers() == Map::<Method, H>::empty().insert(Method::Put, handler),
        r.middlewares() == Seq::<M>::empty(),
{
    MethodRouter::new().on(Method::Put, handler)
}

/// A `PATCH` route builder.
pub fn patch<H, M>(handler: H) -> (r: MethodRouter<H, M>)
    ensures
        r.wf(),
        r.handlers() == Map::<Method, H>::empty().insert(Method::Patch, handler),
        r.middlewares() == Seq::<M>::empty(),
{
    MethodRouter::new().on(Method::Patch, handler)
}

/// A `DELETE` route builder.
pub fn delete<H, M>(handler: H) -> (r: MethodRouter<H, M>)
    ensures
        r.wf(),
        r.handlers() == Map::<Method, H>::empty().insert(Method::Delete, handler),
        r.middlewares() == Seq::<M>::empty(),
{
    MethodRouter::new().on(Method::Delete, handler)
}

/// A `HEAD` route builder.
pub fn head<H, M>(handler: H) -> (r: MethodRouter<H, M>)
    ensures
        r.wf(),
        r.handlers() == Map::<Method, H>::empty().insert(Method::Head, handler),
        r.middlewares() == Seq::<M>::empty(),
{
    MethodRouter::new().on(Method::Head, handler)
}

/// A `OPTIONS` route builder.
pub fn options<H, M>(handler: H) -> (r: MethodRouter<H, M>)
    ensures
        r.wf(),
        r.handlers() == Map::<Method, H>::empty().insert(Method::Options, handler),
        r.middlewares() == Seq::<M>::empty(),
{
    MethodRouter::new().on(Method::Options, handler)
}

/// A `TRACE` route builder.
pub fn trace<H, M>(handler: H) -> (r: MethodRouter<H, M>)
    ensures
        r.wf(),
        r.handlers() == Map::<Method, H>::empty().insert(Method::Trace, handler),
        r.middlewares() == Seq::<M>::empty(),
{
    MethodRouter::new().on(Method::Trace, handler)
}

/// A `CONNECT` route builder.
pub fn connect<H, M>(handler: H) -> (r: MethodRouter<H, M>)
    ensures
        r.wf(),
        r.handlers() == Map::<Method, H>::empty().insert(Method::Connect, handler),
        r.middlewares() == Seq::<M>::empty(),
{
    MethodRouter::new().on(Method::Connect, handler)
}

impl<H, M> Default for MethodRouter<H, M> {
    fn default() -> (r: MethodRouter<H, M>)
        ensures
            r.wf(),
            r.handlers() == Map::<Method, H>::empty(),
            r.middlewares() == Seq::<M>::empty(),
    {
        MethodRouter::new()
    }
}

/// A composable set of routes with group middleware. Mount it with
/// `App::nest`, or combine routers with `App::merge`.
pub struct Router<H, M> {
    routes: Vec<(String, MethodRouter<H, M>)>,
    middlewares: Vec<M>,
}

/// Whether `chained` is the group middleware (cloned), then the route's
/// own middleware, in that order: inner groups run inside outer groups.
pub open spec fn group_chain<M: Clone>(group: Seq<M>, own: Seq<M>, chained: Seq<M>) -> bool {
    &&& chained.len() == group.len() + own.len()
    &&& forall|j: int| 0 <= j < group.len() ==> cloned::<M>(group[j], #[trigger] chained[j])
    &&& chained.subrange(group.len() as int, chained.len() as int) == own
}

/// Whether a path can be registered: it starts with `/`.
pub open spec fn route_path_ok(p: Seq<char>) -> bool {
    p.len() > 0 && p[0] == '/'
}

/// Whether a nest prefix is acceptable: it starts with `/` and does not
/// end with `/`.
pub open spec fn nest_prefix_ok(p: Seq<char>) -> bool {
    p.len() > 0 && p[0] == '/' && p.last() != '/'
}

impl<H, M> Router<H, M> {
    /// The number of routes.
    pub closed spec fn len(&self) -> nat {
        self.routes@.len()
    }

    /// The path of route `i`.
    pub closed spec fn path(&self, i: int) -> Seq<char> {
        self.routes@[i].0@
    }

    /// The method router of route `i`.
    pub closed spec fn entry(&self, i: int) -> MethodRouter<H, M> {
        self.routes@[i].1
    }

    /// The paths of all routes, in registration order.
    pub open spec fn paths(&self) -> Seq<Seq<char>> {
        Seq::new(self.len(), |i: int| self.path(i))
    }

    /// The group middleware, outermost first.
    pub closed spec fn group(&self) -> Seq<M> {
        self.middlewares@
    }

    /// Route `i` is well formed and registered under a `/` path.
    pub open spec fn route_ok(&self, i: int) -> bool {
        self.entry(i).wf() && route_path_ok(self.path(i))
    }

    /// Every route is well formed and registered under a `/` path.
    pub open spec fn wf(&self) -> bool {
        forall|i: int| 0 <= i < self.len() ==> #[trigger] self.route_ok(i)
    }

    proof fn lemma_wf_entry(&self, i: int)
        requires
            self.wf(),
            0 <= i < self.len(),
        ensures
            self.entry(i).wf(),
            route_path_ok(self.path(i)),
    {
        assert(self.route_ok(i));
    }

    /// An empty router.
    pub fn new() -> (r: Router<H, M>)
        ensures
            r.wf(),
            r.len() == 0,
            r.group() == Seq::<M>::empty(),
    {
        Router { routes: Vec::new(), middlewares: Vec::new() }
    }

    /// Register a route. Conflicting paths are refused when the table is
    /// built.
    pub fn route(self, path: String, method_router: MethodRouter<H, M>) -> (r: Router<H, M>)
        requires
            self.wf(),
            method_router.wf(),
            route_path_ok(path@),
        ensures
            r.wf(),
            r.len() == self.len() + 1,
            forall|i: int| 0 <= i < self.len() ==> r.path(i) == self.path(i) && r.entry(i) == self.entry(i),
            r.path(self.len() as int) == path@,
            r.entry(self.len() as int) == method_router,
            r.group() == self.group(),
    {
        let Router { mut routes, middlewares } = self;
        routes.push((path, method_router));
        let r = Router { routes, middlewares };
        assert forall|i: int| 0 <= i < r.len() implies #[trigger] r.route_ok(i) by {
            if i < self.len() {
                assert(r.entry(i) == self.entry(i));
                assert(self.route_ok(i));
            }
        }
        r
    }

    /// Group middleware, applied to every route of this router when it is
    /// attached to an app. Inner groups run inside outer groups.
    pub fn with(self, middleware: M) -> (r: Router<H, M>)
        ensures
            r.len() == self.len(),
            forall|i: int| 0 <= i < self.len() ==> r.path(i) == self.path(i) && r.entry(i) == self.entry(i),
            r.group() == self.group().push(middleware),
    {
        let Router { routes, mut middlewares } = self;
        middlewares.push(middleware);
        Router { routes, middlewares }
    }

    /// Take the routes out: path and method router, in order.
    pub fn into_routes(self) -> (r: Vec<(String, MethodRouter<H, M>)>)
        ensures
            r@.len() == self.len(),
            forall|i: int| 0 <= i < self.len() ==> #[trigger] r@[i].0@ == self.path(i) && r@[i].1 == self.entry(i),
    {
        self.routes
    }
}

impl<H, M> Default for Router<H, M> {
    fn default() -> (r: Router<H, M>)
        ensures
            r.wf(),
            r.len() == 0,
            r.group() == Seq::<M>::empty(),
    {
        Router::new()
    }
}

impl<H, M: Clone> Router<H, M> {
    #[verifier::spinoff_prover]
    #[verifier::rlimit(30)]
    fn absorb(self, prefix: &str, router: Router<H, M>) -> (r: Router<H, M>)
        ensures
            r.len() == self.len() + router.len(),
            r.group() == self.group(),
            forall|i: int| 0 <= i < self.len() ==> r.path(i) == self.path(i) && r.entry(i) == self.entry(i),
            forall|k: int|
                0 <= k < router.len() ==> {
                    &&& #[trigger] r.path(self.len() + k) == prefix@ + router.path(k)
                    &&& r.entry(self.len() + k).handlers() == router.entry(k).handlers()
                    &&& (router.entry(k).wf() ==> r.entry(self.len() + k).wf())
                    &&& group_chain(
                        router.group(),
                        router.entry(k).middlewares(),
                        r.entry(self.len() + k).middlewares(),
                    )
                },
    {
        let Router { mut routes, middlewares } = self;
        let ghost base = routes@;
        let Router { routes: sub, middlewares: group } = router;
        let ghost sub_all = sub@;
        let mut src = sub;
        let mut k: usize = 0;
        let total = src.len();
        assert(src@ =~= sub_all.subrange(0, sub_all.len() as int));
        while src.len() > 0
            invariant
                total == sub_all.len(),
                src@.len() + k == sub_all.len(),
                src@ == sub_all.subrange(k as int, sub_all.len() as int),
                routes@.len() == base.len() + k,
                forall|i: int| 0 <= i < base.len() ==> #[trigger] routes@[i] == base[i],
                forall|j: int|
                    0 <= j < k ==> {
                        &&& #[trigger] routes@[base.len() + j].0@ == prefix@ + sub_all[j].0@
                        &&& routes@[base.len() + j].1.handlers() == sub_all[j].1.handlers()
                        &&& (sub_all[j].1.wf() ==> routes@[base.len() + j].1.wf())
                        &&& group_chain(
                            group@,
                            sub_all[j].1.middlewares(),
                            routes@[base.len() + j].1.middlewares(),
                        )
                    },
            decreases src@.len(),
        {
            let (path, mr) = src.remove(0);
            assert((path, mr) == sub_all[k as int]);
            let MethodRouter { handlers, middlewares: mut own } = mr;
            let ghost own_all = own@;
            let mut chain = group.clone();
            let ghost g = chain@;
            chain.append(&mut own);
            assert(chain@.subrange(group@.len() as int, chain@.len() as int) =~= own_all);
            let mut full = str_chars(prefix);
            push_str(&mut full, path.as_str());
            let full_path = chars_to_string(full.as_slice());
            let ghost prev = routes@;
            routes.push((full_path, MethodRouter { handlers, middlewares: chain }));
            assert(src@ =~= sub_all.subrange(k + 1, sub_all.len() as int));
            k = k + 1;
            assert forall|i: int| 0 <= i < base.len() implies #[trigger] routes@[i] == base[i] by {
                assert(routes@[i] == prev[i]);
            }
            assert forall|j: int|
                0 <= j < k implies {
                    &&& #[trigger] routes@[base.len() + j].0@ == prefix@ + sub_all[j].0@
                    &&& routes@[base.len() + j].1.handlers() == sub_all[j].1.handlers()
                    &&& (sub_all[j].1.wf() ==> routes@[base.len() + j].1.wf())
                    &&& group_chain(
                        group@,
                        sub_all[j].1.middlewares(),
                        routes@[base.len() + j].1.middlewares(),
                    )
                } by {
                if j < k - 1 {
                    assert(routes@[base.len() + j] == prev[base.len() + j]);
                }
            }
        }
        Router { routes, middlewares }
    }

    /// Mount `router` under `prefix`. The sub-router's group middleware
    /// keeps applying to its routes, outside their own.
    pub fn nest(self, prefix: String, router: Router<H, M>) -> (r: Router<H, M>)
        requires
            self.wf(),
            router.wf(),
            nest_prefix_ok(prefix@),
        ensures
            r.wf(),
            r.len() == self.len() + router.len(),
            r.group() == self.group(),
            forall|i: int| 0 <= i < self.len() ==> r.path(i) == self.path(i) && r.entry(i) == self.entry(i),
            forall|k: int|
                0 <= k < router.len() ==> {
                    &&& #[trigger] r.path(self.len() + k) == prefix@ + router.path(k)
                    &&& r.entry(self.len() + k).handlers() == router.entry(k).handlers()
                    &&& group_chain(
                        router.group(),
                        router.entry(k).middlewares(),
                        r.entry(self.len() + k).middlewares(),
                    )
                },
    {
        let ghost me = self;
        let ghost sub = router;
        assert(me.wf());
        let r = self.absorb(prefix.as_str(), router);
        assert forall|i: int| 0 <= i < r.len() implies #[trigger] r.route_ok(i) by {
            if i < me.len() {
                me.lemma_wf_entry(i);
            } else {
                let k = i - me.len();
                assert(r.path(me.len() + k) == prefix@ + sub.path(k));
                sub.lemma_wf_entry(k);
                assert((prefix@ + sub.path(k))[0] == prefix@[0]);
            }
        }
        r
    }

    /// Add all routes of `router` to this one. The group middleware of
    /// `router` travels with its routes. Conflicting paths are refused when
    /// the table is built.
    pub fn merge(self, router: Router<H, M>) -> (r: Router<H, M>)
        requires
            self.wf(),
            router.wf(),
        ensures
            r.wf(),
            r.len() == self.len() + router.len(),
            r.paths() == self.paths() + router.paths(),
            r.group() == self.group(),
            forall|i: int| 0 <= i < self.len() ==> r.entry(i) == self.entry(i),
            forall|k: int|
                0 <= k < router.len() ==> {
                    &&& #[trigger] r.entry(self.len() + k).handlers() == router.entry(k).handlers()
                    &&& group_chain(
                        router.group(),
                        router.entry(k).middlewares(),
                        r.entry(self.len() + k).middlewares(),
                    )
                },
    {
        let ghost me = self;
        let ghost sub = router;
        assert(me.wf());
        let r = self.absorb("", router);
        proof {
            assert forall|k: int| 0 <= k < sub.len() implies {
                &&& #[trigger] r.entry(me.len() + k).handlers() == sub.entry(k).handlers()
                &&& group_chain(
                    sub.group(),
                    sub.entry(k).middlewares(),
                    r.entry(me.len() + k).middlewares(),
                )
            } by {
                assert(r.path(me.len() + k) == ""@ + sub.path(k));
            }
            reveal_strlit("");
            assert forall|k: int| 0 <= k < sub.len() implies #[trigger] r.path(me.len() + k) == sub.path(k) by {
                assert(r.path(me.len() + k) == ""@ + sub.path(k));
                assert(""@ + sub.path(k) =~= sub.path(k));
            }
            assert(r.paths() =~= me.paths() + sub.paths()) by {
                assert forall|i: int| 0 <= i < r.len() implies r.paths()[i] == (me.paths() + sub.paths())[i] by {
                    if i >= me.len() {
                        let k = i - me.len();
                        assert(r.path(me.len() + k) == sub.path(k));
                    }
                }
            }
            assert forall|i: int| 0 <= i < r.len() implies #[trigger] r.route_ok(i) by {
                if i < me.len() {
                    me.lemma_wf_entry(i);
                } else {
                    let k = i - me.len();
                    assert(r.path(me.len() + k) == sub.path(k));
                    sub.lemma_wf_entry(k);
                }
            }
        }
        r
    }
}

} // verus!

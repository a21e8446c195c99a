//! Routes, and the router that holds them.

use vstd::prelude::*;

use crate::pattern::{
    captured, join_paths, joined_paths, match_pattern, parse_pattern, path_segments, pattern_of,
    pattern_text, pattern_view, render_pattern, segments_of, Segment, SegmentView,
};
use crate::text::{
    contains_text, copy_opt, copy_texts, join, join_texts, opt, same, views,
};
use crate::text_map::TextMap;
use crate::trie::{
    all_methods, can_serve, collected, is_best, is_found, lemma_matching, matching, RouteIndex,
    RouteKey,
};
use crate::websocket::config::{resolved, says, ResolvedWebSocketConfig, WebSocketConfig};
use crate::websocket::error::WsError;

verus! {

/// What a route leads to.
#[derive(Debug)]
pub enum RouteKind {
    Http,
    /// A WebSocket, with the rules of its route.
    WebSocket(WebSocketConfig),
}

/// A route. Its handler and its middlewares are known by numbers.
#[derive(Debug)]
pub struct Route {
    pub method: String,
    pub pattern: Vec<Segment>,
    pub handler: u64,
    pub middlewares: Vec<u64>,
    pub kind: RouteKind,
    pub summary: Option<String>,
    pub description: Option<String>,
    pub tags: Vec<String>,
}

/// A route as contracts speak of it.
#[verifier::ext_equal]
pub struct RouteView {
    pub method: Seq<char>,
    pub pattern: Seq<SegmentView>,
    pub handler: u64,
    pub middlewares: Seq<u64>,
    pub kind: RouteKind,
    pub summary: Option<Seq<char>>,
    pub description: Option<Seq<char>>,
    pub tags: Seq<Seq<char>>,
}

impl View for Route {
    type V = RouteView;

    open spec fn view(&self) -> RouteView {
        RouteView {
            method: self.method@,
            pattern: pattern_view(self.pattern@),
            handler: self.handler,
            middlewares: self.middlewares@,
            kind: self.kind,
            summary: opt(self.summary),
            description: opt(self.description),
            tags: views(self.tags@),
        }
    }
}

impl RouteView {
    /// A route that is served by a handler, and by nothing else.
    pub open spec fn plain(
        method: Seq<char>,
        path: Seq<char>,
        handler: u64,
        kind: RouteKind,
    ) -> RouteView {
        RouteView {
            method,
            pattern: pattern_of(path),
            handler,
            middlewares: Seq::empty(),
            kind,
            summary: None,
            description: None,
            tags: Seq::empty(),
        }
    }

    /// The route below a prefix, inside the middlewares of its router.
    pub open spec fn mounted(self, prefix: Seq<char>, scoped: Seq<u64>) -> RouteView {
        RouteView {
            pattern: pattern_of(prefix) + self.pattern,
            middlewares: scoped + self.middlewares,
            ..self
        }
    }
}

/// What the index knows of routes.
pub open spec fn route_keys(routes: Seq<Route>) -> Seq<RouteKey> {
    Seq::new(routes.len(), |i: int| (routes[i].method@, pattern_view(routes[i].pattern@)))
}

/// A router.
pub struct Router {
    pub routes: Vec<Route>,
    pub middlewares: Vec<u64>,
    /// The index of the routes, where it was built since the last change.
    pub index: Option<RouteIndex>,
}

/// A router as contracts speak of it.
#[verifier::ext_equal]
pub struct RouterView {
    pub routes: Seq<RouteView>,
    pub middlewares: Seq<u64>,
}

impl View for Router {
    type V = RouterView;

    open spec fn view(&self) -> RouterView {
        RouterView {
            routes: Seq::new(self.routes@.len(), |i: int| self.routes@[i]@),
            middlewares: self.middlewares@,
        }
    }
}

impl RouterView {
    /// What the index knows of the routes.
    pub open spec fn keys(self) -> Seq<RouteKey> {
        Seq::new(self.routes.len(), |i: int| (self.routes[i].method, self.routes[i].pattern))
    }

    /// The router with one more route.
    pub open spec fn with_route(self, route: RouteView) -> RouterView {
        RouterView { routes: self.routes.push(route), ..self }
    }

    /// The router with another route in the place of one.
    pub open spec fn with_changed(self, k: int, route: RouteView) -> RouterView {
        RouterView { routes: self.routes.update(k, route), ..self }
    }

    /// The methods that the routes of a path are for, each once, in the order in which
    /// they were registered. Routes for all methods count for nothing.
    pub open spec fn allowed(self, path: Seq<char>) -> Seq<Seq<char>> {
        distinct(matching(self.keys(), segments_of(path)))
    }

    /// Whether a route is the one to serve a method on a path.
    pub open spec fn serves(self, k: int, method: Seq<char>, path: Seq<char>) -> bool {
        is_best(self.keys(), k, method, segments_of(path))
    }

    /// Whether any route can serve a method on a path.
    pub open spec fn can_serve(self, method: Seq<char>, path: Seq<char>) -> bool {
        exists|k: int| can_serve(self.keys(), k, method, segments_of(path))
    }

    /// What is wrong with the rules of the WebSocket routes, where anything is: the
    /// fault of the first route that has one.
    pub open spec fn websocket_fault(self, defaults: WebSocketConfig) -> Option<Seq<char>> {
        fault_in(self.routes, defaults)
    }
}

/// The fault of the first WebSocket route whose rules have one.
pub open spec fn fault_in(routes: Seq<RouteView>, defaults: WebSocketConfig) -> Option<Seq<char>>
    decreases routes.len(),
{
    if routes.len() == 0 {
        None
    } else {
        match fault_in(routes.drop_last(), defaults) {
            Some(f) => Some(f),
            None => match routes.last().kind {
                RouteKind::Http => None,
                RouteKind::WebSocket(c) => resolved(defaults, c).fault(),
            },
        }
    }
}

/// The methods, each once, but for what stands for all of them.
pub open spec fn distinct(found: Seq<(nat, Seq<char>)>) -> Seq<Seq<char>>
    decreases found.len(),
{
    if found.len() == 0 {
        Seq::empty()
    } else {
        let before = distinct(found.drop_last());
        let m = found.last().1;
        if m == all_methods() || before.contains(m) {
            before
        } else {
            before.push(m)
        }
    }
}

/// The methods that a response tells to be allowed: HEAD comes with GET, and OPTIONS
/// with anything.
pub open spec fn told_methods(allowed: Seq<Seq<char>>) -> Seq<Seq<char>> {
    let with_head = if allowed.contains("GET"@) && !allowed.contains("HEAD"@) {
        allowed.push("HEAD"@)
    } else {
        allowed
    };
    if with_head.contains("OPTIONS"@) {
        with_head
    } else {
        with_head.push("OPTIONS"@)
    }
}

/// The value of the header that tells the allowed methods.
pub fn allow_header_value(allowed: &Vec<String>) -> (r: String)
    ensures
        r@ == join(told_methods(views(allowed@)), ", "@),
{
    let mut methods: Vec<String> = copy_texts(allowed);
    if contains_text(&methods, "GET") && !contains_text(&methods, "HEAD") {
        methods.push("HEAD".to_owned());
        assert(views(methods@) =~= views(allowed@).push("HEAD"@));
    }
    if !contains_text(&methods, "OPTIONS") {
        let ghost before = views(methods@);
        methods.push("OPTIONS".to_owned());
        assert(views(methods@) =~= before.push("OPTIONS"@));
    }
    join_texts(&methods, ", ")
}

/// The route that was found for a request, and what its path captured.
#[derive(Debug)]
pub struct MatchedRoute {
    /// The place of the route in its router.
    pub place: usize,
    pub handler: u64,
    pub middlewares: Vec<u64>,
    pub params: TextMap,
    pub pattern: String,
}

impl MatchedRoute {
    /// Whether this is what a path captures of a route of a router.
    pub open spec fn is_match(&self, router: RouterView, path: Seq<char>) -> bool {
        let k = self.place as int;
        &&& 0 <= k < router.routes.len()
        &&& self.handler == router.routes[k].handler
        &&& self.middlewares@ == router.routes[k].middlewares
        &&& self.pattern@ == pattern_text(router.routes[k].pattern)
        &&& self.params.wf()
        &&& forall|n: Seq<char>| #[trigger]
            self.params.lookup(n) == captured(router.routes[k].pattern, segments_of(path), n)
    }
}

/// What is told of a route.
#[derive(Debug)]
pub struct RouteInfo {
    pub method: String,
    pub path: String,
    pub summary: Option<String>,
    pub description: Option<String>,
    pub tags: Vec<String>,
}

/// What is told of a route, as contracts speak of it.
#[verifier::ext_equal]
pub struct RouteInfoView {
    pub method: Seq<char>,
    pub path: Seq<char>,
    pub summary: Option<Seq<char>>,
    pub description: Option<Seq<char>>,
    pub tags: Seq<Seq<char>>,
}

impl View for RouteInfo {
    type V = RouteInfoView;

    open spec fn view(&self) -> RouteInfoView {
        RouteInfoView {
            method: self.method@,
            path: self.path@,
            summary: opt(self.summary),
            description: opt(self.description),
            tags: views(self.tags@),
        }
    }
}

impl RouteView {
    /// What is told of the route.
    pub open spec fn info(self) -> RouteInfoView {
        RouteInfoView {
            method: self.method,
            path: pattern_text(self.pattern),
            summary: self.summary,
            description: self.description,
            tags: self.tags,
        }
    }
}

impl Router {
    /// Whether the index is that of the routes.
    pub open spec fn wf(&self) -> bool {
        self.index matches Some(ix) ==> ix.wf() && ix.routes@ == self@.keys()
    }

    /// A router without routes.
    pub fn new() -> (r: Router)
        ensures
            r.wf(),
            r@ == (RouterView { routes: Seq::empty(), middlewares: Seq::empty() }),
    {
        Router { routes: Vec::new(), middlewares: Vec::new(), index: None }
    }

    /// Builds the index, where it is not there, so that lookups need not.
    pub fn index(&mut self)
        requires
            old(self).wf(),
        ensures
            final(self).wf(),
            final(self)@ == old(self)@,
            final(self).index is Some,
    {
        if self.index.is_none() {
            self.index = Some(RouteIndex::build(&self.routes));
            assert(route_keys(self.routes@) =~= self@.keys());
        }
    }

    /// Adds a route for a method.
    pub fn add(&mut self, method: &str, path: &str, handler: u64) -> (r: RouteHandle<'_>)
        requires
            old(self).wf(),
        ensures
            r.wf(),
            r.index == old(self)@.routes.len(),
            r.router@ == old(self)@.with_route(
                RouteView::plain(method@, path@, handler, RouteKind::Http),
            ),
            *final(self) == *final(r.router),
    {
        self.push(method, path, handler, RouteKind::Http);
        assert(self.routes@.len() == self@.routes.len());
        let index: usize = self.routes.len() - 1;
        RouteHandle { router: self, index }
    }

    /// Adds a route.
    fn push(&mut self, method: &str, path: &str, handler: u64, kind: RouteKind)
        requires
            old(self).wf(),
        ensures
            final(self).wf(),
            final(self)@ == old(self)@.with_route(
                RouteView::plain(method@, path@, handler, kind),
            ),
    {
        let ghost before = self@;
        let route: Route = Route {
            method: method.to_owned(),
            pattern: parse_pattern(path),
            handler,
            middlewares: Vec::new(),
            kind,
            summary: None,
            description: None,
            tags: Vec::new(),
        };
        assert(route@ =~= RouteView::plain(method@, path@, handler, kind)) by {
            assert(views(route.tags@) =~= Seq::empty());
        }
        self.routes.push(route);
        self.index = None;
        assert(self@.routes =~= before.routes.push(route@));
    }
}

/// A route that was just added, for more to be said of it.
pub struct RouteHandle<'a> {
    pub router: &'a mut Router,
    pub index: usize,
}

impl<'a> RouteHandle<'a> {
    /// Whether the route is there.
    pub open spec fn wf(&self) -> bool {
        self.router.wf() && self.index < self.router@.routes.len()
    }

    /// The route.
    pub open spec fn route(&self) -> RouteView {
        self.router@.routes[self.index as int]
    }

    /// Wraps the route in a middleware, inside those that it has.
    pub fn layer(self, middleware: u64) -> (r: RouteHandle<'a>)
        requires
            self.wf(),
        ensures
            r.wf(),
            r.index == self.index,
            r.router@ == old(self.router)@.with_changed(
                self.index as int,
                (RouteView {
                    middlewares: self.route().middlewares.push(middleware),
                    ..self.route()
                }),
            ),
            *final(self.router) == *final(r.router),
    {
        let ghost before = self.router@;
        let ghost was = self.route();
        let RouteHandle { router, index } = self;
        router.routes[index].middlewares.push(middleware);
        proof {
            assert(router@.routes =~= before.routes.update(
                index as int,
                (RouteView { middlewares: was.middlewares.push(middleware), ..was }),
            ));
            assert(router@.keys() =~= before.keys());
        }
        RouteHandle { router, index }
    }
}

impl<'a> RouteHandle<'a> {
    /// Says in short what the route does.
    pub fn summary(self, summary: &str) -> (r: RouteHandle<'a>)
        requires
            self.wf(),
        ensures
            r.wf(),
            r.index == self.index,
            r.router@ == old(self.router)@.with_changed(
                self.index as int,
                (RouteView { summary: Some(summary@), ..self.route() }),
            ),
            *final(self.router) == *final(r.router),
    {
        let ghost before = self.router@;
        let ghost was = self.route();
        let RouteHandle { router, index } = self;
        router.routes[index].summary = Some(summary.to_owned());
        proof {
            assert(router@.routes =~= before.routes.update(
                index as int,
                (RouteView { summary: Some(summary@), ..was }),
            ));
            assert(router@.keys() =~= before.keys());
        }
        RouteHandle { router, index }
    }

    /// Says what the route does.
    pub fn description(self, description: &str) -> (r: RouteHandle<'a>)
        requires
            self.wf(),
        ensures
            r.wf(),
            r.index == self.index,
            r.router@ == old(self.router)@.with_changed(
                self.index as int,
                (RouteView { description: Some(description@), ..self.route() }),
            ),
            *final(self.router) == *final(r.router),
    {
        let ghost before = self.router@;
        let ghost was = self.route();
        let RouteHandle { router, index } = self;
        router.routes[index].description = Some(description.to_owned());
        proof {
            assert(router@.routes =~= before.routes.update(
                index as int,
                (RouteView { description: Some(description@), ..was }),
            ));
            assert(router@.keys() =~= before.keys());
        }
        RouteHandle { router, index }
    }

    /// Puts the route into one more group.
    pub fn tag(self, tag: &str) -> (r: RouteHandle<'a>)
        requires
            self.wf(),
        ensures
            r.wf(),
            r.index == self.index,
            r.router@ == old(self.router)@.with_changed(
                self.index as int,
                (RouteView { tags: self.route().tags.push(tag@), ..self.route() }),
            ),
            *final(self.router) == *final(r.router),
    {
        let ghost before = self.router@;
        let ghost was = self.route();
        let RouteHandle { router, index } = self;
        router.routes[index].tags.push(tag.to_owned());
        proof {
            assert(views(router.routes@[index as int].tags@) =~= was.tags.push(tag@));
            assert(router@.routes =~= before.routes.update(
                index as int,
                (RouteView { tags: was.tags.push(tag@), ..was }),
            ));
            assert(router@.keys() =~= before.keys());
        }
        RouteHandle { router, index }
    }
}

impl Router {
    /// Adds a route for GET.
    pub fn get(&mut self, path: &str, handler: u64) -> (r: RouteHandle<'_>)
        requires
            old(self).wf(),
        ensures
            r.wf(),
            r.index == old(self)@.routes.len(),
            r.router@ == old(self)@.with_route(
                RouteView::plain("GET"@, path@, handler, RouteKind::Http),
            ),
            *final(self) == *final(r.router),
    {
        self.add("GET", path, handler)
    }

    /// Adds a route for POST.
    pub fn post(&mut self, path: &str, handler: u64) -> (r: RouteHandle<'_>)
        requires
            old(self).wf(),
        ensures
            r.wf(),
            r.index == old(self)@.routes.len(),
            r.router@ == old(self)@.with_route(
                RouteView::plain("POST"@, path@, handler, RouteKind::Http),
            ),
            *final(self) == *final(r.router),
    {
        self.add("POST", path, handler)
    }

    /// Adds a route for PUT.
    pub fn put(&mut self, path: &str, handler: u64) -> (r: RouteHandle<'_>)
        requires
            old(self).wf(),
        ensures
            r.wf(),
            r.index == old(self)@.routes.len(),
            r.router@ == old(self)@.with_route(
                RouteView::plain("PUT"@, path@, handler, RouteKind::Http),
            ),
            *final(self) == *final(r.router),
    {
        self.add("PUT", path, handler)
    }

    /// Adds a route for DELETE.
    pub fn delete(&mut self, path: &str, handler: u64) -> (r: RouteHandle<'_>)
        requires
            old(self).wf(),
        ensures
            r.wf(),
            r.index == old(self)@.routes.len(),
            r.router@ == old(self)@.with_route(
                RouteView::plain("DELETE"@, path@, handler, RouteKind::Http),
            ),
            *final(self) == *final(r.router),
    {
        self.add("DELETE", path, handler)
    }

    /// Adds a route for PATCH.
    pub fn patch(&mut self, path: &str, handler: u64) -> (r: RouteHandle<'_>)
        requires
            old(self).wf(),
        ensures
            r.wf(),
            r.index == old(self)@.routes.len(),
            r.router@ == old(self)@.with_route(
                RouteView::plain("PATCH"@, path@, handler, RouteKind::Http),
            ),
            *final(self) == *final(r.router),
    {
        self.add("PATCH", path, handler)
    }

    /// Adds a route for OPTIONS.
    pub fn options(&mut self, path: &str, handler: u64) -> (r: RouteHandle<'_>)
        requires
            old(self).wf(),
        ensures
            r.wf(),
            r.index == old(self)@.routes.len(),
            r.router@ == old(self)@.with_route(
                RouteView::plain("OPTIONS"@, path@, handler, RouteKind::Http),
            ),
            *final(self) == *final(r.router),
    {
        self.add("OPTIONS", path, handler)
    }

    /// Adds a route for HEAD.
    pub fn head(&mut self, path: &str, handler: u64) -> (r: RouteHandle<'_>)
        requires
            old(self).wf(),
        ensures
            r.wf(),
            r.index == old(self)@.routes.len(),
            r.router@ == old(self)@.with_route(
                RouteView::plain("HEAD"@, path@, handler, RouteKind::Http),
            ),
            *final(self) == *final(r.router),
    {
        self.add("HEAD", path, handler)
    }

    /// Adds a route for all methods.
    pub fn all(&mut self, path: &str, handler: u64) -> (r: RouteHandle<'_>)
        requires
            old(self).wf(),
        ensures
            r.wf(),
            r.index == old(self)@.routes.len(),
            r.router@ == old(self)@.with_route(
                RouteView::plain("*"@, path@, handler, RouteKind::Http),
            ),
            *final(self) == *final(r.router),
    {
        self.add("*", path, handler)
    }

    /// Adds a WebSocket route whose rules are those of the application.
    pub fn websocket(&mut self, path: &str, handler: u64)
        requires
            old(self).wf(),
        ensures
            final(self).wf(),
            final(self)@ == old(self)@.with_route(
                RouteView::plain(
                    "GET"@,
                    path@,
                    handler,
                    RouteKind::WebSocket(WebSocketConfig::blank()),
                ),
            ),
    {
        self.websocket_with(path, WebSocketConfig::new(), handler);
    }

    /// Adds a WebSocket route whose rules are those of the application.
    pub fn ws(&mut self, path: &str, handler: u64)
        requires
            old(self).wf(),
        ensures
            final(self).wf(),
            final(self)@ == old(self)@.with_route(
                RouteView::plain(
                    "GET"@,
                    path@,
                    handler,
                    RouteKind::WebSocket(WebSocketConfig::blank()),
                ),
            ),
    {
        self.websocket(path, handler);
    }

    /// Adds a WebSocket route with rules of its own.
    pub fn websocket_with(&mut self, path: &str, config: WebSocketConfig, handler: u64)
        requires
            old(self).wf(),
        ensures
            final(self).wf(),
            final(self)@ == old(self)@.with_route(
                RouteView::plain("GET"@, path@, handler, RouteKind::WebSocket(config)),
            ),
    {
        self.push("GET", path, handler, RouteKind::WebSocket(config));
    }

    /// Wraps the routes in a middleware, once the router is mounted.
    pub fn layer(&mut self, middleware: u64)
        requires
            old(self).wf(),
        ensures
            final(self).wf(),
            final(self)@ == (RouterView {
                middlewares: old(self)@.middlewares.push(middleware),
                ..old(self)@
            }),
    {
        let ghost before = self@;
        self.middlewares.push(middleware);
        assert(self@.routes =~= before.routes);
        assert(self@.keys() =~= before.keys());
    }

    /// Serves what no other route serves.
    pub fn fallback(&mut self, handler: u64)
        requires
            old(self).wf(),
        ensures
            final(self).wf(),
            final(self)@ == old(self)@.with_route(
                RouteView::plain(all_methods(), "/*path"@, handler, RouteKind::Http),
            ),
    {
        self.push("*", "/*path", handler, RouteKind::Http);
    }

    /// Serves files below a prefix, for GET and HEAD.
    pub fn static_files(&mut self, prefix: &str, handler: u64)
        requires
            old(self).wf(),
        ensures
            final(self).wf(),
            final(self)@ == old(self)@.with_route(
                RouteView::plain(
                    "GET"@,
                    joined_paths(prefix@, "/*path"@),
                    handler,
                    RouteKind::Http,
                ),
            ).with_route(
                RouteView::plain(
                    "HEAD"@,
                    joined_paths(prefix@, "/*path"@),
                    handler,
                    RouteKind::Http,
                ),
            ),
    {
        let pattern: String = join_paths(prefix, "/*path");
        self.push("GET", pattern.as_str(), handler, RouteKind::Http);
        self.push("HEAD", pattern.as_str(), handler, RouteKind::Http);
    }

    /// Takes in the routes of another router below a prefix, inside its middlewares.
    pub fn mount(&mut self, prefix: &str, other: Router)
        requires
            old(self).wf(),
        ensures
            final(self).wf(),
            final(self)@ == (RouterView {
                routes: old(self)@.routes + other@.mounted(prefix@),
                ..old(self)@
            }),
    {
        let ghost before = self@;
        let Router { routes, middlewares, .. } = other;
        let ghost all = routes@;
        let mut rest: Vec<Route> = routes;
        let mut added: Vec<Route> = Vec::new();
        while rest.len() > 0
            invariant
                rest@.len() <= all.len(),
                rest@ == all.take(rest@.len() as int),
                added@.len() == all.len() - rest@.len(),
                forall|i: int|
                    0 <= i < added@.len() ==> (#[trigger] added@[i])@ == all[all.len() - 1
                        - i]@.mounted(prefix@, middlewares@),
            decreases rest@.len(),
        {
            let ghost n = rest@.len();
            match rest.pop() {
                Some(route) => {
                    let mut pattern: Vec<Segment> = parse_pattern(prefix);
                    let mut scoped: Vec<u64> = copy_numbers(&middlewares);
                    let Route {
                        method,
                        pattern: own,
                        handler,
                        middlewares: inner,
                        kind,
                        summary,
                        description,
                        tags,
                    } = route;
                    let mut own: Vec<Segment> = own;
                    let mut inner: Vec<u64> = inner;
                    let ghost was = route@;
                    pattern.append(&mut own);
                    scoped.append(&mut inner);
                    let mounted: Route = Route {
                        method,
                        pattern,
                        handler,
                        middlewares: scoped,
                        kind,
                        summary,
                        description,
                        tags,
                    };
                    proof {
                        assert(mounted@.pattern =~= pattern_of(prefix@) + was.pattern);
                        assert(mounted@.middlewares =~= middlewares@ + was.middlewares);
                        assert(rest@ =~= all.take(n - 1));
                    }
                    added.push(mounted);
                },
                None => {},
            }
        }
        let ghost list = added@;
        let ghost start = self.routes@;
        while added.len() > 0
            invariant
                added@.len() <= list.len(),
                added@ == list.take(added@.len() as int),
                self.middlewares@ == before.middlewares,
                self.routes@.len() == start.len() + list.len() - added@.len(),
                forall|i: int| 0 <= i < start.len() ==> self.routes@[i] == start[i],
                forall|i: int|
                    0 <= i < list.len() - added@.len() ==> #[trigger] self.routes@[start.len() + i]
                        == list[list.len() - 1 - i],
            decreases added@.len(),
        {
            let ghost n = added@.len();
            let ghost had = self.routes@;
            match added.pop() {
                Some(route) => {
                    assert(route == list[n - 1]);
                    assert(added@ =~= list.take(n - 1));
                    self.routes.push(route);
                    proof {
                        assert forall|i: int| 0 <= i < list.len() - added@.len() implies
                            #[trigger] self.routes@[start.len() + i] == list[list.len() - 1 - i] by {
                            if i < list.len() - n {
                                assert(self.routes@[start.len() + i] == had[start.len() + i]);
                            }
                        }
                    }
                },
                None => {},
            }
        }
        self.index = None;
        proof {
            let want = before.routes + other@.mounted(prefix@);
            assert forall|i: int| 0 <= i < self@.routes.len() implies #[trigger] self@.routes[i]
                == want[i] by {
                if i >= start.len() {
                    let j = i - start.len();
                    assert(self.routes@[start.len() + j] == list[list.len() - 1 - j]);
                    assert(list[list.len() - 1 - j]@ == all[all.len() - 1 - (list.len() - 1
                        - j)]@.mounted(prefix@, middlewares@));
                }
            }
            assert(self@.routes =~= want);
        }
    }

    /// The number of the route to serve a method on a path.
    fn find(&self, method: &str, segments: &Vec<String>) -> (k: Option<usize>)
        requires
            self.wf(),
        ensures
            is_found(self@.keys(), k, method@, views(segments@)),
    {
        match &self.index {
            Some(index) => index.find(method, segments),
            None => {
                let index: RouteIndex = RouteIndex::build(&self.routes);
                assert(route_keys(self.routes@) =~= self@.keys());
                index.find(method, segments)
            },
        }
    }

    /// The route to serve a method on a path, and what the path captures.
    pub fn route(&self, method: &str, path: &str) -> (r: Option<MatchedRoute>)
        requires
            self.wf(),
        ensures
            match r {
                Some(m) => self@.serves(m.place as int, method@, path@) && m.is_match(
                    self@,
                    path@,
                ),
                None => !self@.can_serve(method@, path@),
            },
    {
        let segments: Vec<String> = path_segments(path);
        match self.find(method, &segments) {
            None => None,
            Some(k) => {
                assert(can_serve(self@.keys(), k as int, method@, segments_of(path@)));
                let route: &Route = &self.routes[k];
                assert(self@.routes[k as int] == route@);
                match match_pattern(&route.pattern, &segments) {
                    Some(params) => Some(
                        MatchedRoute {
                            place: k,
                            handler: route.handler,
                            middlewares: copy_numbers(&route.middlewares),
                            params,
                            pattern: render_pattern(&route.pattern),
                        },
                    ),
                    None => None,
                }
            },
        }
    }

    /// The methods that the routes of a path are for.
    pub fn allowed_methods(&self, path: &str) -> (r: Vec<String>)
        requires
            self.wf(),
        ensures
            views(r@) == self@.allowed(path@),
    {
        let segments: Vec<String> = path_segments(path);
        let found: Vec<(usize, String)> = match &self.index {
            Some(index) => index.matching_methods(&segments),
            None => {
                let index: RouteIndex = RouteIndex::build(&self.routes);
                assert(route_keys(self.routes@) =~= self@.keys());
                index.matching_methods(&segments)
            },
        };
        let ghost all = collected(found@);
        let mut r: Vec<String> = Vec::new();
        let mut i: usize = 0;
        assert(all.take(0) =~= Seq::empty());
        assert(views(r@) =~= Seq::empty());
        while i < found.len()
            invariant
                i <= found.len(),
                all == collected(found@),
                views(r@) == distinct(all.take(i as int)),
            decreases found.len() - i,
        {
            let ghost before = views(r@);
            proof {
                assert(all.take(i + 1).drop_last() =~= all.take(i as int));
                assert(all.take(i + 1).last() == (found@[i as int].0 as nat, found@[i as int].1@));
            }
            let method: &String = &found[i].1;
            if !same(method.as_str(), "*") && !contains_text(&r, method.as_str()) {
                r.push(method.clone());
                assert(views(r@) =~= before.push(method@));
            }
            i += 1;
        }
        assert(all.take(all.len() as int) =~= all);
        r
    }

    /// What is told of the routes, in the order in which they were registered.
    pub fn routes(&self) -> (r: Vec<RouteInfo>)
        ensures
            r@.len() == self@.routes.len(),
            forall|i: int| 0 <= i < r@.len() ==> (#[trigger] r@[i])@ == self@.routes[i].info(),
    {
        let mut r: Vec<RouteInfo> = Vec::new();
        let mut i: usize = 0;
        while i < self.routes.len()
            invariant
                i <= self.routes.len(),
                r@.len() == i,
                forall|j: int| 0 <= j < i ==> (#[trigger] r@[j])@ == self@.routes[j].info(),
            decreases self.routes.len() - i,
        {
            let route: &Route = &self.routes[i];
            let info: RouteInfo = RouteInfo {
                method: route.method.clone(),
                path: render_pattern(&route.pattern),
                summary: copy_opt(&route.summary),
                description: copy_opt(&route.description),
                tags: copy_texts(&route.tags),
            };
            assert(info@ =~= self@.routes[i as int].info());
            r.push(info);
            i += 1;
        }
        r
    }

    /// Reports the first fault in the rules of the WebSocket routes.
    pub fn validate_websockets(&self, defaults: &WebSocketConfig) -> (r: Result<(), WsError>)
        ensures
            says(r, self@.websocket_fault(*defaults)),
    {
        let mut i: usize = 0;
        assert(self@.routes.take(0) =~= Seq::empty());
        while i < self.routes.len()
            invariant
                i <= self.routes.len(),
                fault_in(self@.routes.take(i as int), *defaults) is None,
            decreases self.routes.len() - i,
        {
            proof {
                assert(self@.routes.take(i + 1).drop_last() =~= self@.routes.take(i as int));
                assert(self@.routes.take(i + 1).last() == self.routes@[i as int]@);
            }
            if let RouteKind::WebSocket(config) = &self.routes[i].kind {
                let rules: ResolvedWebSocketConfig = ResolvedWebSocketConfig::from_layers(
                    defaults,
                    config,
                );
                let checked: Result<(), WsError> = rules.validate();
                if checked.is_err() {
                    proof {
                        lemma_first_fault(self@.routes, i as int, *defaults);
                    }
                    return checked;
                }
            }
            i += 1;
        }
        assert(self@.routes.take(self@.routes.len() as int) =~= self@.routes);
        Ok(())
    }
}

/// The first fault stays the first.
proof fn lemma_first_fault(routes: Seq<RouteView>, i: int, defaults: WebSocketConfig)
    requires
        0 <= i < routes.len(),
        fault_in(routes.take(i + 1), defaults) is Some,
    ensures
        fault_in(routes, defaults) == fault_in(routes.take(i + 1), defaults),
    decreases routes.len(),
{
    if i + 1 == routes.len() {
        assert(routes.take(i + 1) =~= routes);
    } else {
        let d = routes.drop_last();
        assert(d.take(i + 1) =~= routes.take(i + 1));
        lemma_first_fault(d, i, defaults);
    }
}

impl RouterView {
    /// The routes below a prefix, inside the middlewares of the router.
    pub open spec fn mounted(self, prefix: Seq<char>) -> Seq<RouteView> {
        Seq::new(
            self.routes.len(),
            |i: int| self.routes[i].mounted(prefix, self.middlewares),
        )
    }
}

impl Default for Router {
    fn default() -> (r: Self)
        ensures
            r.wf(),
            r@ == (RouterView { routes: Seq::empty(), middlewares: Seq::empty() }),
    {
        Router::new()
    }
}

/// A copy of a list of numbers.
pub fn copy_numbers(list: &Vec<u64>) -> (r: Vec<u64>)
    ensures
        r@ == list@,
{
    let mut r: Vec<u64> = Vec::new();
    let mut i: usize = 0;
    while i < list.len()
        invariant
            i <= list.len(),
            r@ == list@.take(i as int),
        decreases list.len() - i,
    {
        r.push(list[i]);
        assert(list@.take(i + 1) =~= list@.take(i as int).push(list@[i as int]));
        i += 1;
    }
    assert(list@.take(list@.len() as int) =~= list@);
    r
}

/// A method is allowed on a path exactly where a route for it fits the path.
pub proof fn law_allowed_methods_have_routes(v: RouterView, path: Seq<char>, method: Seq<char>)
    ensures
        v.allowed(path).contains(method) <==> method != all_methods() && exists|k: int|
            0 <= k < v.routes.len() && (#[trigger] v.routes[k]).method == method
                && crate::pattern::fits(v.routes[k].pattern, segments_of(path)),
{
    let keys = v.keys();
    let s = segments_of(path);
    let m = matching(keys, s);
    lemma_matching(keys, s);
    lemma_distinct(m, method);
    if v.allowed(path).contains(method) {
        let i = choose|i: int| 0 <= i < m.len() && (#[trigger] m[i]).1 == method;
        assert(m.contains(m[i]));
        let k = m[i].0 as int;
        assert(v.routes[k].method == method);
    }
    if method != all_methods() && exists|k: int|
        0 <= k < v.routes.len() && (#[trigger] v.routes[k]).method == method
            && crate::pattern::fits(v.routes[k].pattern, s) {
        let k = choose|k: int|
            0 <= k < v.routes.len() && (#[trigger] v.routes[k]).method == method
                && crate::pattern::fits(v.routes[k].pattern, s);
        assert(crate::pattern::fits(keys[k].1, s));
        let i = choose|i: int| 0 <= i < m.len() && m[i] == (k as nat, keys[k].0);
        assert(m[i].1 == method);
    }
}

proof fn lemma_distinct(m: Seq<(nat, Seq<char>)>, method: Seq<char>)
    ensures
        distinct(m).contains(method) <==> method != all_methods() && exists|i: int|
            0 <= i < m.len() && (#[trigger] m[i]).1 == method,
        distinct(m).no_duplicates(),
    decreases m.len(),
{
    if m.len() > 0 {
        let d = m.drop_last();
        lemma_distinct(d, method);
        lemma_distinct(d, m.last().1);
        let x = m.last().1;
        let before = distinct(d);
        if x != all_methods() && !before.contains(x) {
            assert(distinct(m) == before.push(x));
            if before.contains(method) {
                let i = choose|i: int| 0 <= i < before.len() && before[i] == method;
                assert(before.push(x)[i] == method);
            }
            if x == method {
                assert(before.push(x)[before.len() as int] == x);
            }
            if before.push(x).contains(method) && method != x {
                let i = choose|i: int|
                    0 <= i < before.push(x).len() && before.push(x)[i] == method;
                assert(before[i] == method);
            }
        }
        if exists|i: int| 0 <= i < d.len() && (#[trigger] d[i]).1 == method {
            let i = choose|i: int| 0 <= i < d.len() && (#[trigger] d[i]).1 == method;
            assert(m[i].1 == method);
        }
        if exists|i: int| 0 <= i < m.len() && (#[trigger] m[i]).1 == method {
            let i = choose|i: int| 0 <= i < m.len() && (#[trigger] m[i]).1 == method;
            if i < d.len() {
                assert(d[i].1 == method);
            } else {
                assert(x == method);
            }
        }
        assert(m[m.len() - 1].1 == x);
    }
}

/// A method that is allowed on a path can be served there.
pub proof fn law_allowed_methods_can_be_served(v: RouterView, path: Seq<char>, method: Seq<char>)
    requires
        v.allowed(path).contains(method),
    ensures
        v.can_serve(method, path),
{
    law_allowed_methods_have_routes(v, path, method);
    let k = choose|k: int|
        0 <= k < v.routes.len() && (#[trigger] v.routes[k]).method == method
            && crate::pattern::fits(v.routes[k].pattern, segments_of(path));
    assert(can_serve(v.keys(), k, method, segments_of(path)));
}

/// Routers that are mounted in each other have their prefixes put together, and their
/// middlewares from the outside in.
pub proof fn law_mounts_nest(inner: RouterView, middle: RouterView, a: Seq<char>, b: Seq<char>, k: int)
    requires
        0 <= k < inner.routes.len(),
    ensures
        ({
            let once = RouterView { routes: middle.routes + inner.mounted(b), ..middle };
            let twice = once.mounted(a);
            let r = twice[middle.routes.len() + k];
            &&& r.pattern == pattern_of(a) + pattern_of(b) + inner.routes[k].pattern
            &&& r.middlewares == middle.middlewares + inner.middlewares
                + inner.routes[k].middlewares
            &&& r.handler == inner.routes[k].handler
            &&& r.method == inner.routes[k].method
        }),
{
    let once = RouterView { routes: middle.routes + inner.mounted(b), ..middle };
    let twice = once.mounted(a);
    let r = twice[middle.routes.len() + k];
    assert(once.routes[middle.routes.len() + k] == inner.mounted(b)[k]);
    assert(r.pattern =~= pattern_of(a) + pattern_of(b) + inner.routes[k].pattern);
    assert(r.middlewares =~= middle.middlewares + inner.middlewares + inner.routes[k].middlewares);
}

/// The methods that are told are those that are allowed, in their order, with HEAD where
/// GET is among them, and OPTIONS always; each once.
pub proof fn law_told_methods_are_the_allowed_ones(allowed: Seq<Seq<char>>, m: Seq<char>)
    ensures
        told_methods(allowed).contains(m) <==> allowed.contains(m) || m == "OPTIONS"@ || (m
            == "HEAD"@ && allowed.contains("GET"@)),
        allowed.len() <= told_methods(allowed).len() <= allowed.len() + 2,
        told_methods(allowed).take(allowed.len() as int) == allowed,
        allowed.no_duplicates() ==> told_methods(allowed).no_duplicates(),
{
    reveal_strlit("GET");
    reveal_strlit("HEAD");
    reveal_strlit("OPTIONS");
    assert("HEAD"@.len() == 4 && "OPTIONS"@.len() == 7);
    let w = if allowed.contains("GET"@) && !allowed.contains("HEAD"@) {
        allowed.push("HEAD"@)
    } else {
        allowed
    };
    lemma_push_contains(allowed, "HEAD"@, m);
    lemma_push_contains(allowed, "HEAD"@, "OPTIONS"@);
    lemma_push_contains(w, "OPTIONS"@, m);
    assert(told_methods(allowed).take(allowed.len() as int) =~= allowed);
    if allowed.no_duplicates() {
        lemma_push_distinct(allowed, "HEAD"@);
        lemma_push_distinct(w, "OPTIONS"@);
    }
}

proof fn lemma_push_contains(s: Seq<Seq<char>>, x: Seq<char>, m: Seq<char>)
    ensures
        s.push(x).contains(m) <==> s.contains(m) || m == x,
{
    let t = s.push(x);
    if s.contains(m) {
        let i = choose|i: int| 0 <= i < s.len() && s[i] == m;
        assert(t[i] == m);
    }
    if m == x {
        assert(t[s.len() as int] == m);
    }
    if t.contains(m) && m != x {
        let i = choose|i: int| 0 <= i < t.len() && t[i] == m;
        assert(s[i] == m);
    }
}

proof fn lemma_push_distinct(s: Seq<Seq<char>>, x: Seq<char>)
    requires
        s.no_duplicates(),
    ensures
        !s.contains(x) ==> s.push(x).no_duplicates(),
{
}

/// Methods are allowed in the order in which their first routes were registered, and each
/// is told once.
pub proof fn law_allowed_methods_stand_once(v: RouterView, path: Seq<char>)
    ensures
        v.allowed(path).no_duplicates(),
{
    lemma_distinct(matching(v.keys(), segments_of(path)), Seq::empty());
}

/// Whether the rules of a route are in order.
pub open spec fn is_in_order(route: RouteView, defaults: WebSocketConfig) -> bool {
    match route.kind {
        RouteKind::Http => true,
        RouteKind::WebSocket(c) => resolved(defaults, c).fault() is None,
    }
}

/// The rules of the WebSocket routes are in order exactly where those of each are, and
/// otherwise the fault of the first route that has one is told.
pub proof fn law_first_fault_is_told(routes: Seq<RouteView>, defaults: WebSocketConfig, k: int)
    ensures
        fault_in(routes, defaults) is None <==> forall|i: int|
            0 <= i < routes.len() ==> is_in_order(#[trigger] routes[i], defaults),
        0 <= k < routes.len() && !is_in_order(routes[k], defaults) && (forall|i: int|
            0 <= i < k ==> is_in_order(#[trigger] routes[i], defaults)) ==> fault_in(
            routes,
            defaults,
        ) == resolved(defaults, routes[k].kind->WebSocket_0).fault(),
    decreases routes.len(),
{
    if routes.len() > 0 {
        let d = routes.drop_last();
        law_first_fault_is_told(d, defaults, k);
        assert forall|i: int| 0 <= i < d.len() implies #[trigger] d[i] == routes[i] by {}
        assert(routes[routes.len() - 1] == routes.last());
        if fault_in(routes, defaults) is None {
            assert forall|i: int| 0 <= i < routes.len() implies is_in_order(
                #[trigger] routes[i],
                defaults,
            ) by {
                if i < d.len() {
                    assert(is_in_order(d[i], defaults));
                }
            }
        }
        if 0 <= k < d.len() {
            assert(d[k] == routes[k]);
        }
    }
}

/// A router that is mounted gives all its routes, in their order. Each keeps what it is,
/// and gets the prefix before its pattern and the middlewares of its router around its
/// own.
pub proof fn law_mounted_routes_keep_what_they_are(v: RouterView, prefix: Seq<char>, k: int)
    requires
        0 <= k < v.routes.len(),
    ensures
        v.mounted(prefix).len() == v.routes.len(),
        v.mounted(prefix)[k].method == v.routes[k].method,
        v.mounted(prefix)[k].handler == v.routes[k].handler,
        v.mounted(prefix)[k].kind == v.routes[k].kind,
        v.mounted(prefix)[k].summary == v.routes[k].summary,
        v.mounted(prefix)[k].description == v.routes[k].description,
        v.mounted(prefix)[k].tags == v.routes[k].tags,
        v.mounted(prefix)[k].pattern == pattern_of(prefix) + v.routes[k].pattern,
        v.mounted(prefix)[k].middlewares.len() == v.middlewares.len()
            + v.routes[k].middlewares.len(),
        forall|i: int|
            0 <= i < v.middlewares.len() ==> v.mounted(prefix)[k].middlewares[i]
                == #[trigger] v.middlewares[i],
        forall|i: int|
            0 <= i < v.routes[k].middlewares.len() ==> v.mounted(
                prefix,
            )[k].middlewares[v.middlewares.len() + i] == #[trigger] v.routes[k].middlewares[i],
{
}

/// A mounted route fits exactly the paths that begin with its prefix and whose rest it
/// fitted before.
pub proof fn law_mounted_routes_serve_below_their_prefix(
    prefix: Seq<char>,
    p: Seq<SegmentView>,
    s: Seq<Seq<char>>,
)
    requires
        forall|i: int|
            0 <= i < segments_of(prefix).len() ==> (#[trigger] segments_of(prefix)[i])[0] != ':'
                && segments_of(prefix)[i][0] != '*',
    ensures
        crate::pattern::fits(pattern_of(prefix) + p, s) <==> {
            let n = segments_of(prefix).len() as int;
            n <= s.len() && s.take(n) == segments_of(prefix) && crate::pattern::fits(p, s.skip(n))
        },
{
    let pre = segments_of(prefix);
    let n = pre.len() as int;
    let q = pattern_of(prefix) + p;
    crate::pattern::lemma_segments(prefix);
    assert forall|i: int| 0 <= i < n implies #[trigger] q[i] == SegmentView::Static(pre[i]) by {
        assert(pre[i].len() > 0);
    }
    assert forall|i: int| 0 <= i < p.len() implies #[trigger] p[i] == q[n + i] by {}
    if p.len() > 0 {
        assert(q.last() == p.last());
    } else if n > 0 {
        assert(q.last() == q[n - 1]);
    }
    if crate::pattern::fits(q, s) {
        assert forall|i: int| 0 <= i < n implies s[i] == #[trigger] pre[i] by {
            assert(crate::pattern::fits_part(q[i], s[i]));
        }
        assert(n <= s.len());
        assert(s.take(n) =~= pre);
        assert forall|i: int|
            0 <= i < p.len() - (if crate::pattern::open_ended(p) {
                1int
            } else {
                0
            }) implies crate::pattern::fits_part(#[trigger] p[i], s.skip(n)[i]) by {
            assert(crate::pattern::fits_part(q[n + i], s[n + i]));
        }
    }
    if n <= s.len() && s.take(n) == pre && crate::pattern::fits(p, s.skip(n)) {
        assert forall|i: int|
            0 <= i < q.len() - (if crate::pattern::open_ended(q) {
                1int
            } else {
                0
            }) implies crate::pattern::fits_part(#[trigger] q[i], s[i]) by {
            if i < n {
                assert(s.take(n)[i] == pre[i]);
            } else {
                assert(p[i - n] == q[n + (i - n)]);
                assert(crate::pattern::fits_part(p[i - n], s.skip(n)[i - n]));
            }
        }
    }
}

/// A request is served by the handler and inside the middlewares of its route, and each
/// name of the route's pattern stands for its part of the path.
pub proof fn law_matches_are_those_of_their_route(
    m: MatchedRoute,
    router: RouterView,
    path: Seq<char>,
    n: Seq<char>,
)
    requires
        m.is_match(router, path),
    ensures
        m.place < router.routes.len(),
        m.handler == router.routes[m.place as int].handler,
        m.middlewares@ == router.routes[m.place as int].middlewares,
        m.pattern@ == pattern_text(router.routes[m.place as int].pattern),
        m.params.lookup(n) == captured(
            router.routes[m.place as int].pattern,
            segments_of(path),
            n,
        ),
{
}

} // verus!

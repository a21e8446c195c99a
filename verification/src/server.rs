//! The application: what a request leads to, and what becomes of its response.

use vstd::prelude::*;

use crate::error::{HttpError, HttpErrorView};
use crate::pattern::{
    law_last_slash_counts_for_nothing, lemma_without_last_slashes, pattern_text, segments_of,
    strip_last_slashes, without_last_slashes,
};
use crate::request::Request;
use crate::response::{lemma_room_empty, BodyView, Response, ResponseView};
use crate::router::{
    allow_header_value, copy_numbers, law_allowed_methods_can_be_served,
    law_allowed_methods_have_routes, told_methods, MatchedRoute, RouteHandle, RouteInfo, RouteKind,
    RouteView, Router, RouterView,
};
use crate::state::StateStore;
use crate::text::{chars, contains_text, join, opt, same, views};
use crate::text_map::TextMap;
use crate::time::Duration;
use crate::trie::all_methods;
use crate::websocket::config::{resolved, says, ResolvedWebSocketConfig, WebSocketConfig};
use crate::websocket::error::WsError;

verus! {

/// How many bytes of a body are taken in where nothing else is said.
pub const DEFAULT_MAX_BODY_BYTES: usize = 65536;

/// What is done with a path that ends with a slash, other than the root.
#[derive(Clone, Copy, Debug, PartialEq, Eq, Structural)]
pub enum TrailingSlash {
    /// The slash counts for nothing.
    Ignore,
    /// There is nothing at such a path.
    Strict,
    /// The client is sent to the path without the slash.
    Redirect,
}

impl Default for TrailingSlash {
    fn default() -> (r: Self)
        ensures
            r == TrailingSlash::Ignore,
    {
        TrailingSlash::Ignore
    }
}

/// Limits for all requests.
#[derive(Clone, Copy, Debug, PartialEq, Eq, Structural)]
pub struct ServerConfig {
    pub max_body_size: usize,
    pub request_timeout: Option<Duration>,
    pub header_read_timeout: Option<Duration>,
    pub trailing_slash: TrailingSlash,
}

impl Default for ServerConfig {
    fn default() -> (r: Self)
        ensures
            r == (ServerConfig {
                max_body_size: 65536,
                request_timeout: None,
                header_read_timeout: None,
                trailing_slash: TrailingSlash::Ignore,
            }),
    {
        ServerConfig {
            max_body_size: DEFAULT_MAX_BODY_BYTES,
            request_timeout: None,
            header_read_timeout: None,
            trailing_slash: TrailingSlash::Ignore,
        }
    }
}

/// How requests come in.
#[derive(Clone, Copy, Debug, PartialEq, Eq, Structural)]
pub enum TransportSecurity {
    Plain,
    Tls,
}

impl TransportSecurity {
    /// Whether the transport is secure.
    pub fn is_secure(self) -> (r: bool)
        ensures
            r == (self == TransportSecurity::Tls),
    {
        matches!(self, TransportSecurity::Tls)
    }
}

/// An application. Its handlers and middlewares are known by numbers.
pub struct App {
    pub router: Router,
    pub middlewares: Vec<u64>,
    pub state: StateStore,
    pub error_handler: Option<u64>,
    pub config: ServerConfig,
    pub websocket_defaults: WebSocketConfig,
}

/// What answers a request.
#[derive(Debug)]
pub enum Target {
    /// A handler.
    Handler(u64),
    /// There is nothing at the path.
    NotFound,
    /// The methods that are allowed, since the request asks for them.
    Options(String),
    /// The methods that are allowed, since that of the request is not.
    MethodNotAllowed(String),
    /// Another place.
    Redirect(String),
}

/// What answers a request, as contracts speak of it.
#[verifier::ext_equal]
pub enum TargetView {
    Handler(u64),
    NotFound,
    Options(Seq<char>),
    MethodNotAllowed(Seq<char>),
    Redirect(Seq<char>),
}

impl View for Target {
    type V = TargetView;

    open spec fn view(&self) -> TargetView {
        match *self {
            Target::Handler(h) => TargetView::Handler(h),
            Target::NotFound => TargetView::NotFound,
            Target::Options(a) => TargetView::Options(a@),
            Target::MethodNotAllowed(a) => TargetView::MethodNotAllowed(a@),
            Target::Redirect(l) => TargetView::Redirect(l@),
        }
    }
}

impl TargetView {
    /// The response, where it does not take a handler to make it.
    pub open spec fn response(self) -> Option<ResponseView> {
        match self {
            TargetView::Handler(_) => None,
            TargetView::NotFound => Some(
                ResponseView::of_error(HttpErrorView { status: 404, message: "Not Found"@ }),
            ),
            TargetView::Options(allow) => Some(
                ResponseView::text(""@).with_status(204).with_header("allow"@, allow),
            ),
            TargetView::MethodNotAllowed(allow) => Some(
                ResponseView::of_error(
                    HttpErrorView { status: 405, message: "Method Not Allowed"@ },
                ).with_header("allow"@, allow),
            ),
            TargetView::Redirect(location) => Some(
                ResponseView::text(""@).with_status(308).with_header("location"@, location),
            ),
        }
    }
}

/// The response where there is nothing at a path. It carries the error, so that an error
/// handler can put it into its own form.
pub fn not_found_handler() -> (r: Response)
    ensures
        TargetView::NotFound.response() == Some(r@),
{
    Response::from_error(HttpError::not_found("Not Found"))
}

/// The response where the method is not allowed.
pub fn method_not_allowed_handler(allow: &str) -> (r: Response)
    ensures
        TargetView::MethodNotAllowed(allow@).response() == Some(r@),
{
    proof {
        lemma_room_empty(1);
    }
    Response::from_error(HttpError::new(405, "Method Not Allowed")).header("allow", allow)
}

/// The response that tells the methods that are allowed.
pub fn options_handler(allow: &str) -> (r: Response)
    ensures
        TargetView::Options(allow@).response() == Some(r@),
{
    proof {
        lemma_room_empty(1);
    }
    Response::send("").status(204).header("allow", allow)
}

/// The response to a request whose handler or middleware gave up.
pub fn panic_response() -> (r: Response)
    ensures
        r@ == ResponseView::of_error(
            HttpErrorView { status: 500, message: "Internal Server Error"@ },
        ),
{
    Response::internal_server_error()
}

impl Target {
    /// The response, where it does not take a handler to make it.
    pub fn answer(&self) -> (r: Option<Response>)
        ensures
            match r {
                Some(res) => self@.response() == Some(res@),
                None => self@.response() is None,
            },
    {
        match self {
            Target::Handler(_) => None,
            Target::NotFound => Some(not_found_handler()),
            Target::Options(allow) => Some(options_handler(allow.as_str())),
            Target::MethodNotAllowed(allow) => Some(method_not_allowed_handler(allow.as_str())),
            Target::Redirect(location) => Some(
                Response::redirect_with_status(location.as_str(), 308),
            ),
        }
    }
}

/// What a request leads to.
#[derive(Debug)]
pub struct Plan {
    pub target: Target,
    /// The middlewares around it, from the outermost on.
    pub middlewares: Vec<u64>,
    /// The route, where there is one.
    pub place: Option<usize>,
    /// The request, with what its path captured.
    pub request: Request,
    /// Whether the body of the response is to be taken away.
    pub is_head: bool,
}

/// What the path of a request leads to.
#[derive(Debug)]
pub struct Resolved {
    pub target: Target,
    pub middlewares: Vec<u64>,
    pub place: Option<usize>,
    pub params: TextMap,
    pub pattern: String,
}

impl Resolved {
    /// Whether this is a route of a router, and what a path captures of it.
    pub open spec fn is_route(
        &self,
        router: RouterView,
        method: Seq<char>,
        path: Seq<char>,
    ) -> bool {
        &&& self.place matches Some(k)
        &&& router.serves(k as int, method, path)
        &&& 0 <= k < router.routes.len()
        &&& self.target@ == TargetView::Handler(router.routes[k as int].handler)
        &&& self.middlewares@ == router.routes[k as int].middlewares
        &&& self.pattern@ == pattern_text(router.routes[k as int].pattern)
        &&& self.params.wf()
        &&& forall|n: Seq<char>| #[trigger]
            self.params.lookup(n) == crate::pattern::captured(
                router.routes[k as int].pattern,
                segments_of(path),
                n,
            )
    }

    /// Whether this is an answer that takes no route.
    pub open spec fn is_answer(&self, path: Seq<char>, target: TargetView) -> bool {
        &&& self.place is None
        &&& self.target@ == target
        &&& self.middlewares@.len() == 0
        &&& self.pattern@ == path
        &&& self.params.wf()
        &&& forall|n: Seq<char>| #[trigger] self.params.lookup(n) is None
    }

    /// Whether this is what a path without a route for its method leads to: HEAD is
    /// served by GET, OPTIONS is told the methods, other methods are refused where the
    /// path has any, and otherwise there is nothing at the path.
    pub open spec fn is_miss(
        &self,
        router: RouterView,
        method: Seq<char>,
        path: Seq<char>,
    ) -> bool {
        let allowed = router.allowed(path);
        let told = join(told_methods(allowed), ", "@);
        if allowed.len() == 0 {
            self.is_answer(path, TargetView::NotFound)
        } else if method == "HEAD"@ && allowed.contains("GET"@) {
            self.is_route(router, "GET"@, path)
        } else if method == "OPTIONS"@ {
            self.is_answer(path, TargetView::Options(told))
        } else {
            self.is_answer(path, TargetView::MethodNotAllowed(told))
        }
    }
}

/// An answer that takes no route.
fn answered(path: &str, target: Target) -> (r: Resolved)
    ensures
        r.is_answer(path@, target@),
{
    Resolved {
        target,
        middlewares: Vec::new(),
        place: None,
        params: TextMap::new(),
        pattern: path.to_owned(),
    }
}

/// A route.
fn routed(found: MatchedRoute) -> (r: Resolved)
    ensures
        r.target@ == TargetView::Handler(found.handler),
        r.middlewares == found.middlewares,
        r.place == Some(found.place),
        r.params == found.params,
        r.pattern == found.pattern,
{
    Resolved {
        target: Target::Handler(found.handler),
        middlewares: found.middlewares,
        place: Some(found.place),
        params: found.params,
        pattern: found.pattern,
    }
}

/// Whether a path ends with a slash that it could do without.
pub open spec fn has_extra_slash(path: Seq<char>) -> bool {
    path.len() > 1 && path.last() == '/'
}

/// The path and the query without the slashes at the end of the path.
pub open spec fn canonical(path: Seq<char>, query: Option<Seq<char>>) -> Seq<char> {
    let bare = without_last_slashes(path);
    let base = if bare.len() == 0 {
        "/"@
    } else {
        bare
    };
    match query {
        Some(q) => base + "?"@ + q,
        None => base,
    }
}

/// What a path with an extra slash leads to under a policy, where the policy decides.
pub open spec fn slash_target(policy: TrailingSlash, req: Request) -> Option<TargetView> {
    if !has_extra_slash(req.path@) {
        None
    } else {
        match policy {
            TrailingSlash::Ignore => None,
            TrailingSlash::Strict => Some(TargetView::NotFound),
            TrailingSlash::Redirect => Some(
                TargetView::Redirect(canonical(req.path@, opt(req.raw_query))),
            ),
        }
    }
}

/// How an error is told to the client.
#[derive(Debug)]
pub enum ErrorAnswer {
    /// The error handler with this number makes the response.
    Format(u64, HttpError),
    /// This is the response.
    Done(Response),
}

impl App {
    /// Whether the router and the state are in order.
    pub open spec fn wf(&self) -> bool {
        self.router.wf() && self.state.wf()
    }

    /// An application without routes.
    pub fn new() -> (r: App)
        ensures
            r.wf(),
            r.router@ == (RouterView { routes: Seq::empty(), middlewares: Seq::empty() }),
            r.middlewares@.len() == 0,
            forall|k: u64| #[trigger] r.state.lookup(k) is None,
            r.error_handler is None,
            r.config == (ServerConfig {
                max_body_size: 65536,
                request_timeout: None,
                header_read_timeout: None,
                trailing_slash: TrailingSlash::Ignore,
            }),
            r.websocket_defaults == WebSocketConfig::blank(),
    {
        App {
            router: Router::new(),
            middlewares: Vec::new(),
            state: StateStore::new(),
            error_handler: None,
            config: ServerConfig::default(),
            websocket_defaults: WebSocketConfig::new(),
        }
    }

    /// Reports the first fault in the rules of the WebSocket routes.
    pub fn validate_websockets(&self) -> (r: Result<(), WsError>)
        ensures
            says(r, self.router@.websocket_fault(self.websocket_defaults)),
    {
        self.router.validate_websockets(&self.websocket_defaults)
    }

    /// What a path without a route for its method leads to.
    pub fn resolve_miss(&self, method: &str, path: &str) -> (r: Resolved)
        requires
            self.wf(),
        ensures
            r.is_miss(self.router@, method@, path@),
    {
        let allowed: Vec<String> = self.router.allowed_methods(path);
        if allowed.len() == 0 {
            assert(views(allowed@).len() == 0);
            return answered(path, Target::NotFound);
        }
        assert(views(allowed@).len() > 0);
        if same(method, "HEAD") && contains_text(&allowed, "GET") {
            proof {
                law_allowed_methods_can_be_served(self.router@, path@, "GET"@);
            }
            match self.router.route("GET", path) {
                Some(found) => {
                    return routed(found);
                },
                None => {},
            }
        }
        let told: String = allow_header_value(&allowed);
        if same(method, "OPTIONS") {
            answered(path, Target::Options(told))
        } else {
            answered(path, Target::MethodNotAllowed(told))
        }
    }

    /// What a path with an extra slash leads to, where the policy decides.
    pub fn trailing_slash_miss(&self, request: &Request) -> (r: Option<Target>)
        ensures
            match r {
                Some(t) => slash_target(self.config.trailing_slash, *request) == Some(t@),
                None => slash_target(self.config.trailing_slash, *request) is None,
            },
    {
        let c: Vec<char> = chars(request.path.as_str());
        if c.len() <= 1 || c[c.len() - 1] != '/' {
            return None;
        }
        match self.config.trailing_slash {
            TrailingSlash::Ignore => None,
            TrailingSlash::Strict => Some(Target::NotFound),
            TrailingSlash::Redirect => {
                let bare: String = strip_last_slashes(request.path.as_str());
                let base: String = if bare.as_str().is_empty() {
                    "/".to_owned()
                } else {
                    bare
                };
                let location: String = match &request.raw_query {
                    Some(q) => base.concat("?").concat(q.as_str()),
                    None => base,
                };
                Some(Target::Redirect(location))
            },
        }
    }

    /// Whether this is what a request leads to.
    pub open spec fn leads_to(&self, req: Request, r: Resolved) -> bool {
        match slash_target(self.config.trailing_slash, req) {
            Some(t) => r.is_answer(req.path@, t),
            None => if self.router@.can_serve(req.method@, req.path@) {
                r.is_route(self.router@, req.method@, req.path@)
            } else {
                r.is_miss(self.router@, req.method@, req.path@)
            },
        }
    }

    /// What a request leads to.
    pub fn resolve(&self, request: &Request) -> (r: Resolved)
        requires
            self.wf(),
        ensures
            self.leads_to(*request, r),
    {
        if let Some(target) = self.trailing_slash_miss(request) {
            return answered(request.path.as_str(), target);
        }
        match self.router.route(request.method.as_str(), request.path.as_str()) {
            Some(found) => {
                assert(crate::trie::can_serve(
                    self.router@.keys(),
                    found.place as int,
                    request.method@,
                    segments_of(request.path@),
                ));
                routed(found)
            },
            None => self.resolve_miss(request.method.as_str(), request.path.as_str()),
        }
    }

    /// The rules of a WebSocket route, as contracts speak of them.
    pub open spec fn rules_at(&self, place: Option<usize>) -> Option<
        crate::websocket::config::ConfigView,
    > {
        match place {
            Some(k) => match self.router@.routes[k as int].kind {
                RouteKind::Http => None,
                RouteKind::WebSocket(c) => Some(resolved(self.websocket_defaults, c)),
            },
            None => None,
        }
    }

    /// Settles what a request leads to: its route, or what is answered where there is
    /// none, with all middlewares around it, those of the application outermost. The
    /// request gets the state of the application, what its path captured, and the rules
    /// of a WebSocket route.
    pub fn dispatch(&self, request: Request) -> (r: Plan)
        requires
            self.wf(),
            request.wf(),
        ensures
            r.request.wf(),
            exists|found: Resolved| #[trigger] self.leads_to(request, found) && {
                &&& r.target@ == found.target@
                &&& r.middlewares@ == self.middlewares@ + found.middlewares@
                &&& r.place == found.place
                &&& r.request.params == found.params
                &&& opt(r.request.route_pattern) == Some(found.pattern@)
            },
            r.is_head == (request.method@ == "HEAD"@),
            forall|k: u64| #[trigger] r.request.state.lookup(k) == self.state.lookup(k),
            match self.rules_at(r.place) {
                Some(c) => r.request.resolved_websocket_config matches Some(rules) && rules@ == c,
                None => r.request.resolved_websocket_config is None,
            },
            r.request == (Request {
                params: r.request.params,
                route_pattern: r.request.route_pattern,
                resolved_websocket_config: r.request.resolved_websocket_config,
                state: r.request.state,
                ..request
            }),
    {
        let is_head: bool = same(request.method.as_str(), "HEAD");
        let found: Resolved = self.resolve(&request);
        let ghost was = found;
        let rules: Option<ResolvedWebSocketConfig> = match found.place {
            Some(k) => match &self.router.routes[k].kind {
                RouteKind::Http => None,
                RouteKind::WebSocket(c) => Some(
                    ResolvedWebSocketConfig::from_layers(&self.websocket_defaults, c),
                ),
            },
            None => None,
        };
        let Resolved { target, middlewares, place, params, pattern } = found;
        let mut all: Vec<u64> = copy_numbers(&self.middlewares);
        let mut inner: Vec<u64> = middlewares;
        all.append(&mut inner);
        let request: Request = Request {
            params,
            route_pattern: Some(pattern),
            resolved_websocket_config: rules,
            state: self.state.copy(),
            ..request
        };
        Plan { target, middlewares: all, place, request, is_head }
    }

    /// How an error is told to the client: by the error handler, where there is one.
    pub fn error_response(&self, error: HttpError) -> (r: ErrorAnswer)
        ensures
            match self.error_handler {
                Some(h) => r matches ErrorAnswer::Format(k, e) && k == h && e@ == error@,
                None => r matches ErrorAnswer::Done(res) && res@ == ResponseView::of_error(
                    error@,
                ),
            },
    {
        match self.error_handler {
            Some(h) => ErrorAnswer::Format(h, error),
            None => ErrorAnswer::Done(Response::from_error(error)),
        }
    }

    /// What becomes of a response that came back through the middlewares: where it
    /// carries an error and there is an error handler, that makes another.
    pub fn settle(&self, response: Response) -> (r: ErrorAnswer)
        ensures
            match (response@.error, self.error_handler) {
                (Some(e), Some(h)) => r matches ErrorAnswer::Format(k, err) && k == h && err@ == e,
                _ => r matches ErrorAnswer::Done(res) && res@ == (ResponseView {
                    error: None,
                    ..response@
                }),
            },
    {
        let mut response: Response = response;
        match (response.take_error(), self.error_handler) {
            (Some(e), Some(h)) => ErrorAnswer::Format(h, e),
            _ => ErrorAnswer::Done(response),
        }
    }
}

/// The response as it goes out: without a body where the request asked for none.
pub fn without_body_for_head(response: Response, is_head: bool) -> (r: Response)
    ensures
        r@ == (if is_head {
            ResponseView { body: BodyView::Empty, ..response@ }
        } else {
            response@
        }),
{
    let mut response: Response = response;
    if is_head {
        response.clear_body();
    }
    response
}

/// The error where the body of a request could not be read: it is too long, or breaks
/// off.
pub fn body_error(too_long: bool) -> (r: HttpError)
    ensures
        r@ == (if too_long {
            HttpErrorView { status: 413, message: "Payload Too Large"@ }
        } else {
            HttpErrorView { status: 400, message: "Could not read request body"@ }
        }),
{
    if too_long {
        HttpError::new(413, "Payload Too Large")
    } else {
        HttpError::bad_request("Could not read request body")
    }
}

/// The error where a request took too long.
pub fn timeout_error() -> (r: HttpError)
    ensures
        r@ == (HttpErrorView { status: 408, message: "Request Timeout"@ }),
{
    HttpError::new(408, "Request Timeout")
}

impl App {
    /// Sets the rules of WebSocket routes that have none of their own.
    pub fn websocket_defaults(&mut self, config: WebSocketConfig)
        ensures
            *final(self) == (App { websocket_defaults: config, ..*old(self) }),
    {
        self.websocket_defaults = config;
    }

    /// Sets how many bytes of a body are taken in.
    pub fn max_body_size(&mut self, bytes: usize)
        ensures
            *final(self) == (App {
                config: ServerConfig { max_body_size: bytes, ..old(self).config },
                ..*old(self)
            }),
    {
        self.config.max_body_size = bytes;
    }

    /// Whether a body is taken in.
    pub fn takes_body(&self, len: usize) -> (r: bool)
        ensures
            r == (len <= self.config.max_body_size),
    {
        len <= self.config.max_body_size
    }

    /// Sets how long a request may take.
    pub fn request_timeout(&mut self, timeout: Duration)
        ensures
            *final(self) == (App {
                config: ServerConfig { request_timeout: Some(timeout), ..old(self).config },
                ..*old(self)
            }),
    {
        self.config.request_timeout = Some(timeout);
    }

    /// Sets how long the headers of a request may take.
    pub fn header_read_timeout(&mut self, timeout: Duration)
        ensures
            *final(self) == (App {
                config: ServerConfig { header_read_timeout: Some(timeout), ..old(self).config },
                ..*old(self)
            }),
    {
        self.config.header_read_timeout = Some(timeout);
    }

    /// Sets what is done with paths that end with a slash.
    pub fn trailing_slash(&mut self, policy: TrailingSlash)
        ensures
            *final(self) == (App {
                config: ServerConfig { trailing_slash: policy, ..old(self).config },
                ..*old(self)
            }),
    {
        self.config.trailing_slash = policy;
    }

    /// What is told of the routes, in the order in which they were registered.
    pub fn routes(&self) -> (r: Vec<RouteInfo>)
        ensures
            r@.len() == self.router@.routes.len(),
            forall|i: int|
                0 <= i < r@.len() ==> (#[trigger] r@[i])@ == self.router@.routes[i].info(),
    {
        self.router.routes()
    }

    /// Adds a route for GET.
    pub fn get(&mut self, path: &str, handler: u64) -> (r: RouteHandle<'_>)
        requires
            old(self).wf(),
        ensures
            r.wf(),
            r.index == old(self).router@.routes.len(),
            r.router@ == old(self).router@.with_route(
                RouteView::plain("GET"@, path@, handler, RouteKind::Http),
            ),
            *final(self) == (App { router: *final(r.router), ..*old(self) }),
    {
        self.router.get(path, handler)
    }

    /// Adds a route for POST.
    pub fn post(&mut self, path: &str, handler: u64) -> (r: RouteHandle<'_>)
        requires
            old(self).wf(),
        ensures
            r.wf(),
            r.index == old(self).router@.routes.len(),
            r.router@ == old(self).router@.with_route(
                RouteView::plain("POST"@, path@, handler, RouteKind::Http),
            ),
            *final(self) == (App { router: *final(r.router), ..*old(self) }),
    {
        self.router.post(path, handler)
    }

    /// Adds a route for PUT.
    pub fn put(&mut self, path: &str, handler: u64) -> (r: RouteHandle<'_>)
        requires
            old(self).wf(),
        ensures
            r.wf(),
            r.index == old(self).router@.routes.len(),
            r.router@ == old(self).router@.with_route(
                RouteView::plain("PUT"@, path@, handler, RouteKind::Http),
            ),
            *final(self) == (App { router: *final(r.router), ..*old(self) }),
    {
        self.router.put(path, handler)
    }

    /// Adds a route for DELETE.
    pub fn delete(&mut self, path: &str, handler: u64) -> (r: RouteHandle<'_>)
        requires
            old(self).wf(),
        ensures
            r.wf(),
            r.index == old(self).router@.routes.len(),
            r.router@ == old(self).router@.with_route(
                RouteView::plain("DELETE"@, path@, handler, RouteKind::Http),
            ),
            *final(self) == (App { router: *final(r.router), ..*old(self) }),
    {
        self.router.delete(path, handler)
    }

    /// Adds a route for PATCH.
    pub fn patch(&mut self, path: &str, handler: u64) -> (r: RouteHandle<'_>)
        requires
            old(self).wf(),
        ensures
            r.wf(),
            r.index == old(self).router@.routes.len(),
            r.router@ == old(self).router@.with_route(
                RouteView::plain("PATCH"@, path@, handler, RouteKind::Http),
            ),
            *final(self) == (App { router: *final(r.router), ..*old(self) }),
    {
        self.router.patch(path, handler)
    }

    /// Adds a route for OPTIONS.
    pub fn options(&mut self, path: &str, handler: u64) -> (r: RouteHandle<'_>)
        requires
            old(self).wf(),
        ensures
            r.wf(),
            r.index == old(self).router@.routes.len(),
            r.router@ == old(self).router@.with_route(
                RouteView::plain("OPTIONS"@, path@, handler, RouteKind::Http),
            ),
            *final(self) == (App { router: *final(r.router), ..*old(self) }),
    {
        self.router.options(path, handler)
    }

    /// Adds a route for HEAD.
    pub fn head(&mut self, path: &str, handler: u64) -> (r: RouteHandle<'_>)
        requires
            old(self).wf(),
        ensures
            r.wf(),
            r.index == old(self).router@.routes.len(),
            r.router@ == old(self).router@.with_route(
                RouteView::plain("HEAD"@, path@, handler, RouteKind::Http),
            ),
            *final(self) == (App { router: *final(r.router), ..*old(self) }),
    {
        self.router.head(path, handler)
    }

    /// Adds a route for all methods.
    pub fn all(&mut self, path: &str, handler: u64) -> (r: RouteHandle<'_>)
        requires
            old(self).wf(),
        ensures
            r.wf(),
            r.index == old(self).router@.routes.len(),
            r.router@ == old(self).router@.with_route(
                RouteView::plain("*"@, path@, handler, RouteKind::Http),
            ),
            *final(self) == (App { router: *final(r.router), ..*old(self) }),
    {
        self.router.all(path, handler)
    }

    /// Takes in the routes of a router below a prefix.
    pub fn mount(&mut self, prefix: &str, router: Router)
        requires
            old(self).wf(),
        ensures
            final(self).wf(),
            final(self).router@ == (RouterView {
                routes: old(self).router@.routes + router@.mounted(prefix@),
                ..old(self).router@
            }),
            *final(self) == (App { router: final(self).router, ..*old(self) }),
    {
        self.router.mount(prefix, router);
    }

    /// Serves what no other route serves.
    pub fn fallback(&mut self, handler: u64)
        requires
            old(self).wf(),
        ensures
            final(self).wf(),
            final(self).router@ == old(self).router@.with_route(
                RouteView::plain(all_methods(), "/*path"@, handler, RouteKind::Http),
            ),
            *final(self) == (App { router: final(self).router, ..*old(self) }),
    {
        self.router.fallback(handler);
    }

    /// Serves files below a prefix, for GET and HEAD.
    pub fn static_files(&mut self, prefix: &str, handler: u64)
        requires
            old(self).wf(),
        ensures
            final(self).wf(),
            final(self).router@ == old(self).router@.with_route(
                RouteView::plain(
                    "GET"@,
                    crate::pattern::joined_paths(prefix@, "/*path"@),
                    handler,
                    RouteKind::Http,
                ),
            ).with_route(
                RouteView::plain(
                    "HEAD"@,
                    crate::pattern::joined_paths(prefix@, "/*path"@),
                    handler,
                    RouteKind::Http,
                ),
            ),
            *final(self) == (App { router: final(self).router, ..*old(self) }),
    {
        self.router.static_files(prefix, handler);
    }

    /// Adds a WebSocket route whose rules are those of the application.
    pub fn websocket(&mut self, path: &str, handler: u64)
        requires
            old(self).wf(),
        ensures
            final(self).wf(),
            final(self).router@ == old(self).router@.with_route(
                RouteView::plain(
                    "GET"@,
                    path@,
                    handler,
                    RouteKind::WebSocket(WebSocketConfig::blank()),
                ),
            ),
            *final(self) == (App { router: final(self).router, ..*old(self) }),
    {
        self.router.websocket(path, handler);
    }

    /// Adds a WebSocket route whose rules are those of the application.
    pub fn ws(&mut self, path: &str, handler: u64)
        requires
            old(self).wf(),
        ensures
            final(self).wf(),
            final(self).router@ == old(self).router@.with_route(
                RouteView::plain(
                    "GET"@,
                    path@,
                    handler,
                    RouteKind::WebSocket(WebSocketConfig::blank()),
                ),
            ),
            *final(self) == (App { router: final(self).router, ..*old(self) }),
    {
        self.router.ws(path, handler);
    }

    /// Adds a WebSocket route with rules of its own.
    pub fn websocket_with(&mut self, path: &str, config: WebSocketConfig, handler: u64)
        requires
            old(self).wf(),
        ensures
            final(self).wf(),
            final(self).router@ == old(self).router@.with_route(
                RouteView::plain("GET"@, path@, handler, RouteKind::WebSocket(config)),
            ),
            *final(self) == (App { router: final(self).router, ..*old(self) }),
    {
        self.router.websocket_with(path, config, handler);
    }

    /// Sets the value of a kind of state.
    pub fn state(&mut self, kind: u64, value: u64)
        requires
            old(self).wf(),
        ensures
            final(self).wf(),
            forall|k: u64| #[trigger]
                final(self).state.lookup(k) == (if k == kind {
                    Some(value)
                } else {
                    old(self).state.lookup(k)
                }),
            *final(self) == (App { state: final(self).state, ..*old(self) }),
    {
        self.state.insert(kind, value);
    }

    /// Sets the handler that puts errors into their form.
    pub fn error_handler(&mut self, handler: u64)
        ensures
            *final(self) == (App { error_handler: Some(handler), ..*old(self) }),
    {
        self.error_handler = Some(handler);
    }

    /// Wraps all that the application does in a middleware, inside those that it has.
    pub fn layer(&mut self, middleware: u64)
        ensures
            final(self).middlewares@ == old(self).middlewares@.push(middleware),
            *final(self) == (App { middlewares: final(self).middlewares, ..*old(self) }),
    {
        self.middlewares.push(middleware);
    }
}

impl Default for App {
    fn default() -> (r: Self)
        ensures
            r.wf(),
            r.router@ == (RouterView { routes: Seq::empty(), middlewares: Seq::empty() }),
            r.middlewares@.len() == 0,
            forall|k: u64| #[trigger] r.state.lookup(k) is None,
            r.error_handler is None,
            r.config == (ServerConfig {
                max_body_size: 65536,
                request_timeout: None,
                header_read_timeout: None,
                trailing_slash: TrailingSlash::Ignore,
            }),
            r.websocket_defaults == WebSocketConfig::blank(),
    {
        App::new()
    }
}

/// A redirect for an extra slash leads to a path with the same parts that is not
/// redirected again.
pub proof fn law_redirects_end(path: Seq<char>)
    requires
        has_extra_slash(path),
    ensures
        !has_extra_slash(canonical(path, None)),
        segments_of(canonical(path, None)) == segments_of(path),
{
    lemma_without_last_slashes(path);
    if without_last_slashes(path).len() == 0 {
        reveal_strlit("/");
        law_last_slash_counts_for_nothing(Seq::empty());
        assert(Seq::<char>::empty().push('/') =~= "/"@);
        assert(without_last_slashes(path) =~= Seq::empty());
    }
}

/// Where a path has a route for GET and none for HEAD, HEAD is served by the very route
/// that GET is.
pub proof fn law_head_is_served_like_get(
    app: App,
    head: Request,
    get: Request,
    r: Resolved,
    g: Resolved,
)
    requires
        head.method@ == "HEAD"@,
        get.method@ == "GET"@,
        head.path@ == get.path@,
        slash_target(app.config.trailing_slash, get) is None,
        app.router@.can_serve("GET"@, get.path@),
        !app.router@.can_serve("HEAD"@, get.path@),
        app.leads_to(head, r),
        app.leads_to(get, g),
    ensures
        r.target@ == g.target@,
        r.place == g.place,
        r.middlewares@ == g.middlewares@,
        r.pattern@ == g.pattern@,
{
    let v = app.router@;
    let s = segments_of(get.path@);
    reveal_strlit("GET");
    reveal_strlit("*");
    assert("GET"@.len() == 3 && "*"@.len() == 1);
    let k = choose|k: int| crate::trie::can_serve(v.keys(), k, "GET"@, s);
    if v.keys()[k].0 == all_methods() {
        assert(crate::trie::can_serve(v.keys(), k, "HEAD"@, s));
    }
    assert(v.routes[k].method == "GET"@);
    law_allowed_methods_have_routes(v, get.path@, "GET"@);
    assert(v.allowed(get.path@).contains("GET"@));
    assert(g.is_route(v, "GET"@, get.path@));
    assert(r.is_route(v, "GET"@, get.path@));
    crate::trie::law_best_route_is_unique(v.keys(), r.place->0 as int, g.place->0 as int, "GET"@, s);
}

/// A path without the slashes at its end is what it is redirected to, with its query
/// behind it, and only paths that end with a slash, but for the root, are redirected.
pub proof fn law_redirects_take_the_slashes_off(
    path: Seq<char>,
    slashes: Seq<char>,
    query: Option<Seq<char>>,
)
    requires
        path.len() > 0 ==> path.last() != '/',
        forall|i: int| 0 <= i < slashes.len() ==> #[trigger] slashes[i] == '/',
    ensures
        without_last_slashes(path + slashes) == path,
        path.len() > 0 && query is None ==> canonical(path + slashes, query) == path,
        path.len() > 0 && query is Some ==> canonical(path + slashes, query) == path + seq!['?']
            + query->0,
        path.len() == 0 && query is None ==> canonical(path + slashes, query) == seq!['/'],
        path.len() == 0 && query is Some ==> canonical(path + slashes, query) == seq!['/', '?']
            + query->0,
        has_extra_slash(path + slashes) <==> slashes.len() > 0 && path.len() + slashes.len() > 1,
    decreases slashes.len(),
{
    reveal_strlit("/");
    reveal_strlit("?");
    assert("/"@ =~= seq!['/']);
    assert("?"@ =~= seq!['?']);
    let all = path + slashes;
    if slashes.len() == 0 {
        assert(all =~= path);
    } else {
        let d = slashes.drop_last();
        assert forall|i: int| 0 <= i < d.len() implies #[trigger] d[i] == '/' by {
            assert(d[i] == slashes[i]);
        }
        law_redirects_take_the_slashes_off(path, d, query);
        assert(all.drop_last() =~= path + d);
        assert(all.last() == slashes[slashes.len() - 1]);
    }
    if path.len() == 0 {
        assert(without_last_slashes(all).len() == 0);
        if query is Some {
            assert("/"@ + "?"@ + query->0 =~= seq!['/', '?'] + query->0);
        }
    }
}

/// A policy decides only of paths with an extra slash: where slashes are ignored it never
/// does, a strict one finds nothing there, and the third sends the client on.
pub proof fn law_policies_decide_of_extra_slashes(policy: TrailingSlash, req: Request)
    ensures
        policy == TrailingSlash::Ignore ==> slash_target(policy, req) is None,
        req.path@.len() <= 1 || req.path@.last() != '/' ==> slash_target(policy, req) is None,
        req.path@.len() > 1 && req.path@.last() == '/' && policy == TrailingSlash::Strict
            ==> slash_target(policy, req) == Some(TargetView::NotFound),
        req.path@.len() > 1 && req.path@.last() == '/' && policy == TrailingSlash::Redirect
            ==> slash_target(policy, req) == Some(
            TargetView::Redirect(canonical(req.path@, opt(req.raw_query))),
        ),
{
}

/// What is answered without a handler has the status of its kind, tells the methods or the
/// place, and carries an error exactly where something is wrong.
pub proof fn law_answers_have_their_status(text: Seq<char>)
    requires
        crate::headers::is_header_value(text),
    ensures
        TargetView::NotFound.response() matches Some(r) && r.status == 404 && r.error == Some(
            HttpErrorView { status: 404, message: "Not Found"@ },
        ),
        TargetView::Options(text).response() matches Some(r) && r.status == 204 && r.error is None
            && crate::headers::values_of(r.headers, "allow"@) == seq![text],
        TargetView::MethodNotAllowed(text).response() matches Some(r) && r.status == 405
            && r.error == Some(HttpErrorView { status: 405, message: "Method Not Allowed"@ })
            && crate::headers::values_of(r.headers, "allow"@) == seq![text],
        TargetView::Redirect(text).response() matches Some(r) && r.status == 308 && r.error is None
            && crate::headers::values_of(r.headers, "location"@) == seq![text],
        forall|h: u64| #[trigger] TargetView::Handler(h).response() is None,
{
    reveal_strlit("allow");
    reveal_strlit("location");
    crate::response::lemma_plain_name("allow"@);
    crate::response::lemma_plain_name("location"@);
}

/// A request is led to the route that serves it, in its middlewares, unless the policy on
/// slashes decides otherwise.
pub proof fn law_requests_are_led_to_their_route(app: App, req: Request, r: Resolved, k: int)
    requires
        app.leads_to(req, r),
        slash_target(app.config.trailing_slash, req) is None,
        app.router@.serves(k, req.method@, req.path@),
    ensures
        r.place == Some(k as usize),
        r.target@ == TargetView::Handler(app.router@.routes[k].handler),
        r.middlewares@ == app.router@.routes[k].middlewares,
        forall|n: Seq<char>| #[trigger]
            r.params.lookup(n) == crate::pattern::captured(
                app.router@.routes[k].pattern,
                segments_of(req.path@),
                n,
            ),
{
    let s = segments_of(req.path@);
    assert(crate::trie::can_serve(app.router@.keys(), k, req.method@, s));
    crate::trie::law_best_route_is_unique(app.router@.keys(), k, r.place->0 as int, req.method@, s);
}

/// A request that no route serves is answered by what there is at its path: nothing where
/// no route fits it, the allowed methods where it asks for them, and else that its method
/// is not among them.
pub proof fn law_misses_tell_what_is_there(app: App, req: Request, r: Resolved)
    requires
        app.leads_to(req, r),
        slash_target(app.config.trailing_slash, req) is None,
        forall|k: int|
            0 <= k < app.router@.routes.len() ==> !(((#[trigger] app.router@.routes[k]).method
                == req.method@ || app.router@.routes[k].method == "*"@) && crate::pattern::fits(
                app.router@.routes[k].pattern,
                segments_of(req.path@),
            )),
        req.method@ != "HEAD"@,
    ensures
        r.place is None,
        r.middlewares@.len() == 0,
        (forall|k: int|
            0 <= k < app.router@.routes.len() ==> !crate::pattern::fits(
                (#[trigger] app.router@.routes[k]).pattern,
                segments_of(req.path@),
            )) ==> r.target@ == TargetView::NotFound,
        (exists|k: int|
            0 <= k < app.router@.routes.len() && crate::pattern::fits(
                (#[trigger] app.router@.routes[k]).pattern,
                segments_of(req.path@),
            )) ==> r.target@ == (if req.method@ == "OPTIONS"@ {
            TargetView::Options(join(told_methods(app.router@.allowed(req.path@)), ", "@))
        } else {
            TargetView::MethodNotAllowed(join(told_methods(app.router@.allowed(req.path@)), ", "@))
        }),
{
    let v = app.router@;
    let s = segments_of(req.path@);
    assert(!v.can_serve(req.method@, req.path@)) by {
        if v.can_serve(req.method@, req.path@) {
            let k = choose|k: int| crate::trie::can_serve(v.keys(), k, req.method@, s);
            assert(crate::pattern::fits(v.routes[k].pattern, s));
        }
    }
    let allowed = v.allowed(req.path@);
    if exists|k: int|
        0 <= k < v.routes.len() && crate::pattern::fits((#[trigger] v.routes[k]).pattern, s) {
        let k = choose|k: int|
            0 <= k < v.routes.len() && crate::pattern::fits((#[trigger] v.routes[k]).pattern, s);
        law_allowed_methods_have_routes(v, req.path@, v.routes[k].method);
        assert(allowed.contains(v.routes[k].method));
        assert(allowed.len() > 0);
    } else if allowed.len() > 0 {
        law_allowed_methods_have_routes(v, req.path@, allowed[0]);
        assert(allowed.contains(allowed[0]));
    }
}

/// A WebSocket route has the rules that its own and those of the application settle on,
/// and no other route has any.
pub proof fn law_websocket_routes_have_rules(app: App, k: usize)
    requires
        k < app.router@.routes.len(),
    ensures
        app.router@.routes[k as int].kind is Http ==> app.rules_at(Some(k)) is None,
        app.router@.routes[k as int].kind matches RouteKind::WebSocket(c) ==> app.rules_at(Some(k))
            == Some(resolved(app.websocket_defaults, c)),
        app.rules_at(None) is None,
{
}

} // verus!

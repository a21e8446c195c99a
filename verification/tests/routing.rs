use rustrest::json::JsonValue;
use rustrest::openapi::{document_json, page_response};
use rustrest::pattern::{match_pattern, parse_pattern, path_segments, render_pattern};
use rustrest::request::Request;
use rustrest::response::{BodyKind, Response};
use rustrest::router::{allow_header_value, RouteKind, Router};
use rustrest::serve::{ServeAction, ServeEvent, ServeState};
use rustrest::server::{
    body_error, panic_response, timeout_error, without_body_for_head, App, ErrorAnswer, Plan,
    Target, TrailingSlash, TransportSecurity,
};
use rustrest::error::HttpError;
use rustrest::time::Duration;
use rustrest::websocket::config::WebSocketConfig;

fn request_with_method(method: &str, path: &str) -> Request {
    let mut req = Request::builder().build();
    req.method = method.to_string();
    req.path = path.to_string();
    req
}

fn texts(names: &[&str]) -> Vec<String> {
    names.iter().map(|name| name.to_string()).collect()
}

fn handler_of(plan: &Plan) -> Option<u64> {
    match plan.target {
        Target::Handler(h) => Some(h),
        _ => None,
    }
}

fn answer_of(plan: &Plan) -> Response {
    plan.target.answer().expect("answered without a handler")
}

#[test]
fn match_pattern_captures_params_and_rejects_mismatches() {
    let pattern = parse_pattern("/users/:id/posts");
    let params = match_pattern(&pattern, &path_segments("/users/42/posts")).unwrap();
    assert_eq!(params.get("id"), Some("42"));
    assert!(match_pattern(&pattern, &path_segments("/users/42")).is_none());
    assert!(match_pattern(&pattern, &path_segments("/users/42/comments")).is_none());
}

#[test]
fn stars_take_in_the_rest_of_a_path() {
    let pattern = parse_pattern("/files/*rest");
    let params = match_pattern(&pattern, &path_segments("/files/a/b")).unwrap();
    assert_eq!(params.get("rest"), Some("a/b"));
    let params = match_pattern(&pattern, &path_segments("/files")).unwrap();
    assert_eq!(params.get("rest"), Some(""));
    let params = match_pattern(&parse_pattern("/*"), &path_segments("/x//y/")).unwrap();
    assert_eq!(params.get("path"), Some("x/y"));
    // A star that is not the last part fits nothing.
    assert!(match_pattern(&parse_pattern("/*a/b"), &path_segments("/x/b")).is_none());
    // Of parts with the same name the last counts.
    let params = match_pattern(&parse_pattern("/:x/:x"), &path_segments("/1/2")).unwrap();
    assert_eq!(params.get("x"), Some("2"));
}

#[test]
fn router_matches_method_and_path_param() {
    let mut router = Router::new();
    router.get("/users", 1);
    router.get("/users/:id", 2);

    assert!(router.route("GET", "/users").is_some());
    assert!(router.route("POST", "/users").is_none());
    assert!(router.route("GET", "/nope/extra").is_none());

    let found = router.route("GET", "/users/42").expect("should match");
    assert_eq!(found.params.get("id"), Some("42"));
    assert_eq!(found.handler, 2);
    assert_eq!(found.pattern, "/users/:id");
}

#[test]
fn router_supports_extra_methods_and_all() {
    let mut router = Router::new();
    router.patch("/items/:id", 1);
    router.options("/items", 2);
    router.head("/items", 3);
    router.all("/health", 4);

    assert!(router.route("PATCH", "/items/1").is_some());
    assert!(router.route("OPTIONS", "/items").is_some());
    assert!(router.route("HEAD", "/items").is_some());
    assert!(router.route("GET", "/health").is_some());
    assert!(router.route("POST", "/health").is_some());
}

#[test]
fn mount_concatenates_prefixes_across_nesting() {
    let mut users = Router::new();
    users.get("/:id", 1);
    users.layer(30);

    let mut api = Router::new();
    api.mount("/users", users);
    api.layer(20);

    let mut root = Router::new();
    root.mount("/api", api);

    let found = root.route("GET", "/api/users/42").expect("should match");
    assert_eq!(found.params.get("id"), Some("42"));
    assert_eq!(found.middlewares, vec![20, 30]);
    // Only `/:id` was registered, so the bare collection path does not match.
    assert!(root.route("GET", "/api/users").is_none());
}

#[test]
fn router_prefers_static_over_param_regardless_of_registration_order() {
    let mut router = Router::new();
    // The param route is registered FIRST; specificity must still win.
    router.get("/users/:id", 1);
    router.get("/users/me", 2);

    let found = router.route("GET", "/users/me").expect("should match");
    assert!(found.params.entries.is_empty(), "static /users/me should win over /users/:id");
    assert_eq!(found.handler, 2);

    let found = router.route("GET", "/users/42").expect("should match");
    assert_eq!(found.params.get("id"), Some("42"));
}

#[test]
fn router_prefers_param_over_wildcard_and_backtracks_across_branches() {
    let mut router = Router::new();
    // Wildcard registered first; the more specific param route must win.
    router.get("/files/*rest", 1);
    router.get("/files/:name", 2);

    let found = router.route("GET", "/files/readme").expect("should match");
    assert_eq!(found.params.get("name"), Some("readme"));

    // Deeper paths only the wildcard can absorb.
    let found = router.route("GET", "/files/a/b").expect("should match");
    assert_eq!(found.params.get("rest"), Some("a/b"));

    // A static branch that dead-ends must backtrack to the param route
    // (also exercises index invalidation after further registration).
    router.index();
    router.get("/users/me/profile", 3);
    router.get("/users/:id", 4);
    let found = router.route("GET", "/users/me").expect("should match");
    assert_eq!(found.params.get("id"), Some("me"));

    // Method-aware backtracking: POST /users/me must not shadow GET.
    router.post("/users/me", 5);
    let found = router.route("GET", "/users/me").expect("should match");
    assert_eq!(found.params.get("id"), Some("me"));
    let found = router.route("POST", "/users/me").expect("should match");
    assert!(found.params.entries.is_empty());
}

#[test]
fn router_prefers_exact_method_over_all_on_same_path() {
    let mut router = Router::new();
    // `.all()` registered first; an exact-method route must still win for GET.
    router.all("/health", 1);
    router.get("/health", 2);

    assert_eq!(router.route("GET", "/health").expect("should match").handler, 2);
    assert_eq!(router.route("DELETE", "/health").expect("should match").handler, 1);
}

#[test]
fn first_registered_route_wins_ties() {
    let mut router = Router::new();
    router.get("/a/:x", 1);
    router.get("/a/:y", 2);
    assert_eq!(router.route("GET", "/a/1").unwrap().handler, 1);
    // A more specific route for all methods comes before a vaguer one for the method.
    router.all("/a/b", 3);
    assert_eq!(router.route("GET", "/a/b").unwrap().handler, 3);
}

#[test]
fn app_lists_registered_routes_for_introspection() {
    let mut app = App::new();
    app.get("/", 1);
    app.post("/users", 2);
    app.get("/users/:id", 3);
    let mut files = Router::new();
    files.get("/*path", 4);
    app.mount("/files", files);

    let listed: Vec<(String, String)> = app
        .routes()
        .iter()
        .map(|route| (route.method.clone(), route.path.clone()))
        .collect();

    assert!(listed.contains(&("GET".to_string(), "/".to_string())));
    assert!(listed.contains(&("POST".to_string(), "/users".to_string())));
    assert!(listed.contains(&("GET".to_string(), "/users/:id".to_string())));
    assert!(listed.contains(&("GET".to_string(), "/files/*path".to_string())));
    assert_eq!(rustrest::openapi::route_line(&app.routes()[1]), "POST    /users");
}

#[test]
fn told_paths_are_read_back_as_the_same_patterns() {
    for path in ["/", "", "/users/:id", "//a///*rest/", "/*"] {
        let text = render_pattern(&parse_pattern(path));
        assert_eq!(render_pattern(&parse_pattern(&text)), text);
    }
    assert_eq!(render_pattern(&parse_pattern("/*")), "/*path");
}

#[test]
fn router_index_refreshes_after_mount() {
    let mut root = Router::new();
    // Force a lookup (and any lazy index build) before mounting.
    root.index();
    assert!(root.route("GET", "/api/ping").is_none());

    let mut api = Router::new();
    api.get("/ping", 1);
    root.mount("/api", api);

    assert!(root.route("GET", "/api/ping").is_some());
}

#[test]
fn allowed_methods_are_told_once_in_order() {
    let mut router = Router::new();
    router.post("/x", 1);
    router.get("/:any", 2);
    router.post("/x", 3);
    router.all("/x", 4);
    assert_eq!(router.allowed_methods("/x"), vec!["POST", "GET"]);
    assert!(router.allowed_methods("/x/y").is_empty());

    assert_eq!(allow_header_value(&texts(&["GET"])), "GET, HEAD, OPTIONS");
    assert_eq!(allow_header_value(&texts(&["POST"])), "POST, OPTIONS");
    assert_eq!(allow_header_value(&texts(&["GET", "HEAD", "OPTIONS"])), "GET, HEAD, OPTIONS");
}

#[test]
fn trailing_slash_policy_controls_non_canonical_paths() {
    // Default (Ignore): a trailing slash still matches.
    let mut app = App::new();
    app.get("/users", 1);
    let plan = app.dispatch(request_with_method("GET", "/users/"));
    assert_eq!(handler_of(&plan), Some(1));

    // Strict: non-canonical paths 404; canonical ones and "/" are untouched.
    let mut app = App::new();
    app.trailing_slash(TrailingSlash::Strict);
    app.get("/users", 1);
    app.get("/", 2);
    assert_eq!(answer_of(&app.dispatch(request_with_method("GET", "/users/"))).status, 404);
    assert_eq!(handler_of(&app.dispatch(request_with_method("GET", "/users"))), Some(1));
    assert_eq!(handler_of(&app.dispatch(request_with_method("GET", "/"))), Some(2));

    // Redirect: 308 to the canonical path, preserving the query string.
    let mut app = App::new();
    app.trailing_slash(TrailingSlash::Redirect);
    app.get("/users", 1);
    let mut req = request_with_method("GET", "/users/");
    req.raw_query = Some("page=2".to_string());
    let res = answer_of(&app.dispatch(req));
    assert_eq!(res.status, 308);
    assert_eq!(res.headers.get("location").unwrap(), "/users?page=2");
    let res = answer_of(&app.dispatch(request_with_method("GET", "//")));
    assert_eq!(res.headers.get("location").unwrap(), "/");
}

#[test]
fn dispatch_unmatched_returns_404() {
    let app = App::new();
    let plan = app.dispatch(request_with_method("GET", "/"));
    let res = answer_of(&plan);
    assert_eq!(res.status, 404);
    assert_eq!(res.body_text(), "404 Not Found");
    assert_eq!(plan.request.route_pattern.as_deref(), Some("/"));
}

#[test]
fn unmatched_method_returns_405_with_allow() {
    let mut app = App::new();
    app.get("/only", 1);

    let res = answer_of(&app.dispatch(request_with_method("POST", "/only")));

    assert_eq!(res.status, 405);
    assert_eq!(res.headers.get("allow").unwrap(), "GET, HEAD, OPTIONS");
    assert_eq!(res.body_text(), "405 Method Not Allowed");
}

#[test]
fn head_is_auto_served_from_get() {
    let mut app = App::new();
    app.get("/page", 1);

    let plan = app.dispatch(request_with_method("HEAD", "/page"));

    // Matched via the GET route; body stripped because the method is HEAD.
    assert_eq!(handler_of(&plan), Some(1));
    assert!(plan.is_head);
    let res = without_body_for_head(Response::send("hello"), plan.is_head);
    assert_eq!(res.status, 200);
    assert_eq!(res.body_text(), "");
    assert!(matches!(res.body_kind, BodyKind::Empty));
}

#[test]
fn options_is_auto_answered_with_allow() {
    let mut app = App::new();
    app.get("/thing", 1);
    app.post("/thing", 2);

    let res = answer_of(&app.dispatch(request_with_method("OPTIONS", "/thing")));

    assert_eq!(res.status, 204);
    let allow = res.headers.get("allow").unwrap().to_str().unwrap();
    assert!(allow.contains("GET"), "allow: {allow}");
    assert!(allow.contains("POST"), "allow: {allow}");
    assert!(allow.contains("OPTIONS"), "allow: {allow}");
}

#[test]
fn middlewares_nest_in_registration_order() {
    let mut scoped = Router::new();
    scoped.layer(21);
    scoped.layer(22);
    scoped.get("/thing", 1).layer(31).layer(32);

    let mut app = App::new();
    app.layer(11);
    app.layer(12);
    app.get("/", 2);
    app.mount("/api", scoped);

    let plan = app.dispatch(request_with_method("GET", "/api/thing"));
    assert_eq!(plan.middlewares, vec![11, 12, 21, 22, 31, 32]);

    // A request outside the mount does not run its middlewares.
    let plan = app.dispatch(request_with_method("GET", "/"));
    assert_eq!(plan.middlewares, vec![11, 12]);
    // Unmatched requests run those of the application.
    let plan = app.dispatch(request_with_method("GET", "/nowhere"));
    assert_eq!(plan.middlewares, vec![11, 12]);
}

#[test]
fn per_route_middleware_applies_only_to_that_route() {
    let mut app = App::new();
    app.get("/guarded", 1).layer(7);
    app.get("/open", 2);

    assert_eq!(app.dispatch(request_with_method("GET", "/guarded")).middlewares, vec![7]);
    assert!(app.dispatch(request_with_method("GET", "/open")).middlewares.is_empty());
}

#[test]
fn dispatch_hands_on_state_parameters_and_rules() {
    let mut app = App::new();
    app.state(1, 10);
    app.websocket_defaults(WebSocketConfig::new().max_connections(5));
    app.websocket_with("/ws/:room", WebSocketConfig::new().max_connections(2), 1);
    app.ws("/plain", 2);
    app.fallback(3);

    let plan = app.dispatch(request_with_method("GET", "/ws/lobby"));
    assert_eq!(plan.request.state(1), Some(10));
    assert_eq!(plan.request.state(2), None);
    assert_eq!(plan.request.param("room"), Some("lobby"));
    assert_eq!(plan.request.route_pattern().as_deref(), Some("/ws/:room"));
    let rules = plan.request.resolved_websocket_config.as_ref().expect("a WebSocket route");
    assert_eq!(rules.process_max_connections, Some(5));
    assert_eq!(rules.route_max_connections, Some(2));
    assert!(matches!(app.router.routes[0].kind, RouteKind::WebSocket(_)));

    let plan = app.dispatch(request_with_method("DELETE", "/elsewhere/deep"));
    assert_eq!(handler_of(&plan), Some(3));
    assert_eq!(plan.request.param("path"), Some("elsewhere/deep"));
    assert!(plan.request.resolved_websocket_config.is_none());
}

#[test]
fn websocket_routes_are_validated_before_serving() {
    let mut app = App::new();
    app.websocket("/ok", 1);
    assert!(app.validate_websockets().is_ok());
    app.websocket_with("/bad", WebSocketConfig::new().inbound_capacity(0), 2);
    assert!(app.validate_websockets().is_err());

    let mut defaults = App::new();
    defaults.websocket_defaults(WebSocketConfig::new().max_message_size(0));
    assert!(defaults.validate_websockets().is_ok());
    defaults.websocket("/ws", 1);
    assert!(defaults.validate_websockets().is_err());
}

#[test]
fn error_handler_formats_404_and_405() {
    let mut app = App::new();
    app.error_handler(99);
    app.get("/exists", 1);

    // Unmatched route (404) flows through the error handler.
    let res = answer_of(&app.dispatch(request_with_method("GET", "/missing")));
    match app.settle(res) {
        ErrorAnswer::Format(handler, error) => {
            assert_eq!(handler, 99);
            assert_eq!(error.status(), 404);
        }
        ErrorAnswer::Done(_) => panic!("the error handler is to be asked"),
    }

    // Method mismatch (405) flows through the error handler too.
    let res = answer_of(&app.dispatch(request_with_method("POST", "/exists")));
    match app.settle(res) {
        ErrorAnswer::Format(_, error) => assert_eq!(error.status(), 405),
        ErrorAnswer::Done(_) => panic!("the error handler is to be asked"),
    }
}

#[test]
fn errors_without_a_handler_keep_their_text() {
    let app = App::new();
    match app.error_response(HttpError::bad_request("Invalid name")) {
        ErrorAnswer::Done(res) => {
            assert_eq!(res.status, 400);
            assert_eq!(res.body_text(), "400 Invalid name");
        }
        ErrorAnswer::Format(_, _) => panic!("there is no error handler"),
    }
    match app.settle(panic_response()) {
        ErrorAnswer::Done(res) => {
            assert_eq!(res.status, 500);
            assert!(res.error.is_none());
        }
        ErrorAnswer::Format(_, _) => panic!("there is no error handler"),
    }
    assert_eq!(body_error(true).status(), 413);
    assert_eq!(body_error(false).message(), "Could not read request body");
    assert_eq!(timeout_error().status(), 408);
}

#[test]
fn limits_of_the_application_are_set_one_by_one() {
    let mut app = App::default();
    assert_eq!(app.config.max_body_size, 64 * 1024);
    assert_eq!(app.config.request_timeout, None);
    app.max_body_size(4);
    app.request_timeout(Duration::from_millis(30));
    app.header_read_timeout(Duration::from_secs(1));
    assert!(app.takes_body(4));
    assert!(!app.takes_body(5));
    assert_eq!(app.config.request_timeout, Some(Duration::from_millis(30)));
    assert_eq!(app.config.header_read_timeout, Some(Duration::from_secs(1)));
    assert!(TransportSecurity::Tls.is_secure());
    assert!(!TransportSecurity::Plain.is_secure());
}

#[test]
fn static_routes_are_for_get_and_head() {
    let mut app = App::new();
    app.static_files("/assets/", 5);
    let found = app.router.route("GET", "/assets/css/app.css").unwrap();
    assert_eq!(found.handler, 5);
    assert_eq!(found.params.get("path"), Some("css/app.css"));
    assert!(app.router.route("HEAD", "/assets/x").is_some());
    assert!(app.router.route("POST", "/assets/x").is_none());
}

#[test]
fn users_and_interface_routes_nest() {
    let handlers = rustrest::users::UserHandlers { list: 1, show: 2, create: 3, update: 4, remove: 5 };
    let mut app = App::new();
    app.mount("/api", rustrest::api::router(handlers, 50));
    let plan = app.dispatch(request_with_method("GET", "/api/users"));
    assert_eq!(handler_of(&plan), Some(1));
    assert_eq!(plan.middlewares, vec![50]);
    let plan = app.dispatch(request_with_method("PUT", "/api/users/42"));
    assert_eq!(handler_of(&plan), Some(4));
    assert_eq!(rustrest::users::updated_id(&plan.request, 7), 42);
    assert_eq!(rustrest::users::show(&plan.request).body_text(), "Requested user: 42");
    assert_eq!(rustrest::users::remove(&plan.request).body_text(), "User 42 deleted");
    let plan = app.dispatch(request_with_method("PUT", "/api/users/4294967296"));
    assert_eq!(rustrest::users::updated_id(&plan.request, 7), 7);
}

fn to_serde(value: JsonValue) -> serde_json::Value {
    match value {
        JsonValue::Bool(value) => value.into(),
        JsonValue::Text(text) => text.into(),
        JsonValue::List(list) => list.into_iter().map(to_serde).collect(),
        JsonValue::Object(members) => serde_json::Value::Object(
            members.into_iter().map(|(name, value)| (name, to_serde(value))).collect(),
        ),
    }
}

#[test]
fn openapi_document_and_docs_routes_are_served() {
    let mut app = App::new();
    app.get("/users", 1).summary("Lista usuarios").tag("users").description("Todos");
    app.post("/users", 2);
    app.get("/users/:id", 3);
    app.all("/health", 4);
    let (doc, page) = app.serve_docs("/docs", "Mi API", "0.2.0", 8, 9);

    assert_eq!(doc.title, "Mi API");
    assert_eq!(doc.version, "0.2.0");
    let find = |path: &str, method: &str| {
        doc.entries.iter().find(|entry| entry.path == path && entry.method == method)
    };
    let list = find("/users", "get").expect("listed");
    assert_eq!(list.operation.summary.as_deref(), Some("Lista usuarios"));
    assert_eq!(list.operation.description.as_deref(), Some("Todos"));
    assert_eq!(list.operation.tags, vec!["users"]);
    assert!(find("/users", "post").is_some());
    assert_eq!(find("/users/{id}", "get").expect("listed").operation.parameters, vec!["id"]);
    // `all()` routes have no single HTTP method and are not listed.
    assert!(doc.entries.iter().all(|entry| entry.path != "/health"));

    let json = to_serde(document_json(&doc));
    assert_eq!(json["openapi"], "3.0.3");
    assert_eq!(json["info"]["title"], "Mi API");
    assert_eq!(json["info"]["version"], "0.2.0");
    assert!(json["paths"]["/users"]["get"].is_object());
    assert!(json["paths"]["/users"]["post"].is_object());
    assert_eq!(json["paths"]["/users"]["get"]["summary"], "Lista usuarios");
    assert_eq!(json["paths"]["/users"]["get"]["tags"][0], "users");
    assert_eq!(json["paths"]["/users"]["get"]["responses"]["200"]["description"], "OK");
    let param = &json["paths"]["/users/{id}"]["get"]["parameters"][0];
    assert_eq!(param["name"], "id");
    assert_eq!(param["in"], "path");
    assert_eq!(param["required"], true);
    assert_eq!(param["schema"]["type"], "string");
    // What is not there is left out.
    let create = json["paths"]["/users"]["post"].as_object().expect("told");
    assert_eq!(create.keys().collect::<Vec<_>>(), vec!["responses"]);
    assert!(json["paths"]["/health"].is_null());

    let spec = Response::json(Some(json.to_string()));
    assert_eq!(spec.status, 200);
    assert_eq!(spec.content_type, "application/json");
    let body: serde_json::Value = serde_json::from_slice(spec.body_bytes().unwrap()).unwrap();
    assert!(body["paths"]["/users/{id}"]["get"].is_object());
    let ui = page_response(&page);
    assert_eq!(ui.status, 200);
    assert!(ui.content_type.starts_with("text/html"));
    assert!(ui.body_text().contains("/docs/openapi.json"));

    assert_eq!(handler_of(&app.dispatch(request_with_method("GET", "/docs/openapi.json"))), Some(8));
    assert_eq!(handler_of(&app.dispatch(request_with_method("GET", "/docs"))), Some(9));
    assert!(page.contains("url: \"/docs/openapi.json\""));
    assert!(page.contains("<title>Mi API — API docs</title>"));
    let (path, params) = rustrest::openapi::openapi_path("/users/:id/files/*rest");
    assert_eq!(path, "/users/{id}/files/{rest}");
    assert_eq!(params, vec!["id", "rest"]);
    assert_eq!(rustrest::openapi::openapi_path("/").0, "/");
}

#[test]
fn serving_goes_on_until_told_to_stop() {
    let (state, action) = ServeState::Accepting.step(ServeEvent::AcceptFailed);
    assert_eq!(action, ServeAction::Pause(Duration::from_millis(5)));
    let (state, action) = state.step(ServeEvent::Accepted);
    assert_eq!(action, ServeAction::Serve);
    let (state, action) = state.step(ServeEvent::ShutdownRequested);
    assert_eq!(action, ServeAction::Drain(Duration::from_secs(10)));
    let (state, action) = state.step(ServeEvent::Accepted);
    assert_eq!(action, ServeAction::Rest);
    assert_eq!(state.step(ServeEvent::DrainTimedOut).1, ServeAction::FinishLate);
    let (state, action) = state.step(ServeEvent::Drained);
    assert_eq!((state, action), (ServeState::Stopped, ServeAction::Finish));
}

use std::io::Read;

use hyper::header::{CONTENT_ENCODING, SET_COOKIE};
use rustrest::cors::{Cors, CorsStep};
use rustrest::middleware::{
    accepts_gzip, choose_encoding, compression, compression_with_min_size, cors, encoding_of, etag,
    etag_condition, guard, gzip, request_id, sha1_hex, tell_request_id, timeout_response, Encoding,
    RequestIds,
};
use rustrest::rate_limit::{rate_limit, RateLimiter};
use rustrest::request::Request;
use rustrest::response::{BodyKind, Response};
use rustrest::router::Router;
use rustrest::server::{App, Target};
use rustrest::session::{SessionIds, Sessions};
use rustrest::static_files::{
    chunk_size, content_type_for_path, finish_static_file, parse_byte_range, remaining_after,
    safe_static_path, serve_static_file, static_names, FileFacts, Opened, RangeParse, StaticPlan,
};
use rustrest::time::{Duration, Instant};
use rustrest::websocket::types::IpAddress;

fn header<'a>(res: &'a Response, name: &str) -> Option<&'a str> {
    res.headers.get(name).map(|value| value.to_str().unwrap())
}

fn get(headers: &[(&str, &str)]) -> Request {
    let mut builder = Request::builder();
    for (name, value) in headers {
        builder = builder.header(name, value);
    }
    builder.build()
}

#[test]
fn builtin_middlewares_add_cors_request_id_gzip_and_tracing() {
    let mut req = get(&[("accept-encoding", "br, gzip"), ("x-request-id", "req-123")]);
    let mut ids = RequestIds::new();
    let id = request_id(&mut req, &mut ids, 5);
    assert_eq!(id, "req-123");
    assert_eq!(ids.next, 1);

    let res = Response::send(req.header("x-request-id").unwrap_or("no-id"));
    let res = tell_request_id(cors(gzip(res, accepts_gzip(&req))), &id);

    assert_eq!(header(&res, "access-control-allow-origin"), Some("*"));
    assert_eq!(header(&res, "x-request-id"), Some("req-123"));
    assert_eq!(res.headers.get(CONTENT_ENCODING).unwrap(), "gzip");

    let mut decoder = flate2::read::GzDecoder::new(&res.body_bytes().unwrap()[..]);
    let mut decoded = String::new();
    decoder.read_to_string(&mut decoded).unwrap();
    assert_eq!(decoded, "req-123");
}

#[test]
fn request_ids_are_made_where_there_is_none() {
    let mut ids = RequestIds::new();
    let mut req = get(&[]);
    assert_eq!(request_id(&mut req, &mut ids, 77), "req-77-1");
    assert_eq!(req.header("x-request-id"), Some("req-77-1"));
    assert_eq!(request_id(&mut get(&[]), &mut ids, 78), "req-78-2");
    ids.next = u64::MAX;
    assert_eq!(ids.generate_request_id(0), "req-0-18446744073709551615");
    assert_eq!(ids.generate_request_id(0), "req-0-0");
}

#[test]
fn gzip_middleware_skips_websocket_upgrade_responses() {
    let mut req = get(&[]);
    for (name, value) in [
        ("accept-encoding", "gzip"),
        ("upgrade", "websocket"),
        ("connection", "Upgrade"),
        ("sec-websocket-key", "dGhlIHNhbXBsZSBub25jZQ=="),
        ("sec-websocket-version", "13"),
    ] {
        req.headers.insert(name.to_string(), value.to_string());
    }
    let res = gzip(Response::websocket(&req).unwrap(), accepts_gzip(&req));

    assert_eq!(res.status, 101);
    assert!(res.headers.get(CONTENT_ENCODING).is_none());
}

#[test]
fn compression_negotiates_encoding_and_skips_small_bodies() {
    let big = "x".repeat(2048);
    let serve = |body: &str, accept: &str| {
        let req = get(&[("accept-encoding", accept)]);
        compression(Response::send(body), encoding_of(&req, false))
    };

    // Only deflate accepted -> zlib-encoded body.
    let res = serve(&big, "deflate");
    assert_eq!(res.headers.get(CONTENT_ENCODING).unwrap(), "deflate");
    let mut decoder = flate2::read::ZlibDecoder::new(&res.body_bytes().unwrap()[..]);
    let mut decoded = String::new();
    decoder.read_to_string(&mut decoded).unwrap();
    assert_eq!(decoded.len(), 2048);

    // gzip preferred when both are accepted; Vary advertises the negotiation.
    let res = serve(&big, "deflate, gzip;q=0.8");
    assert_eq!(res.headers.get(CONTENT_ENCODING).unwrap(), "gzip");
    assert_eq!(header(&res, "vary"), Some("Accept-Encoding"));

    // Bodies under the threshold are left alone.
    assert!(serve("tiny", "gzip").headers.get(CONTENT_ENCODING).is_none());

    // No Accept-Encoding -> untouched.
    let res = compression(Response::send(&big), encoding_of(&get(&[]), false));
    assert!(res.headers.get(CONTENT_ENCODING).is_none());

    // q=0 explicitly refuses an encoding.
    let res = serve(&big, "gzip;q=0, deflate");
    assert_eq!(res.headers.get(CONTENT_ENCODING).unwrap(), "deflate");
}

#[test]
fn brotli_comes_first_where_it_is_offered() {
    assert_eq!(choose_encoding("gzip, BR", true), Some(Encoding::Brotli));
    assert_eq!(choose_encoding("gzip, br", false), Some(Encoding::Gzip));
    assert_eq!(choose_encoding("gzip ; Q = 0", true), None);
    assert_eq!(choose_encoding("identity", true), None);
    let res = compression_with_min_size(Response::send("aaaaaaaaaa"), Some(Encoding::Brotli), 1);
    assert_eq!(res.headers.get(CONTENT_ENCODING).unwrap(), "br");
    let mut decoded = Vec::new();
    brotli::BrotliDecompress(&mut &res.body_bytes().unwrap()[..], &mut decoded).unwrap();
    assert_eq!(decoded, b"aaaaaaaaaa");
    // What is encoded already, or streamed, stays as it is.
    let res = compression_with_min_size(
        Response::send("abc").header("content-encoding", "x"),
        Some(Encoding::Gzip),
        1,
    );
    assert_eq!(res.body_text(), "abc");
    let res = compression_with_min_size(Response::stream(1), Some(Encoding::Gzip), 0);
    assert!(res.headers.is_empty());
}

#[test]
fn etag_middleware_sets_validator_and_answers_304() {
    let serve = |headers: &[(&str, &str)]| {
        let req = get(headers);
        etag(Response::send("contenido estable"), etag_condition(&req))
    };

    let first = serve(&[]);
    assert_eq!(first.status, 200);
    let tag = header(&first, "etag").expect("etag set").to_string();
    assert!(tag.starts_with('"') && tag.ends_with('"'), "strong quoted etag, got {tag}");

    // A matching validator gets 304 with no body but the ETag preserved.
    let revalidated = serve(&[("if-none-match", &tag)]);
    assert_eq!(revalidated.status, 304);
    assert_eq!(revalidated.body_text(), "");
    assert_eq!(header(&revalidated, "etag"), Some(&tag[..]));
    assert_eq!(serve(&[("if-none-match", &format!("\"x\", W/{tag}"))]).status, 304);
    assert_eq!(serve(&[("if-none-match", "*")]).status, 304);

    // A stale validator gets the full response again.
    let stale = serve(&[("if-none-match", "\"nope\"")]);
    assert_eq!(stale.status, 200);
    assert_eq!(stale.body_text(), "contenido estable");
}

#[test]
fn etags_are_made_of_bodies_in_memory_only() {
    assert_eq!(sha1_hex(&b"abc".to_vec()), "a9993e364706816aba3e25717850c26c9cd0d89d");
    let res = etag(Response::send("abc"), None);
    assert_eq!(header(&res, "etag"), Some("\"a9993e364706816aba3e25717850c26c9cd0d89d\""));
    assert!(etag(Response::stream(1), None).headers.is_empty());
    assert!(etag(Response::send(""), None).headers.is_empty());
    assert!(etag(Response::send("x").status(201), None).headers.is_empty());
    let own = etag(Response::send("x").header("etag", "\"mine\""), Some("\"mine\"".to_string()));
    assert_eq!(own.status, 304);
    assert_eq!(header(&own, "etag"), Some("\"mine\""));
    let gone = etag(Response::send("abc"), Some("*".to_string()));
    assert_eq!(gone.status, 304);
    assert!(gone.body_bytes().is_none());
    let mut post = get(&[("if-none-match", "*")]);
    post.method = "POST".to_string();
    assert_eq!(etag_condition(&post), None);
}

#[test]
fn etags_leave_streams_as_they_are() {
    let req = get(&[("if-none-match", "\"v1\"")]);
    let stream = Response::stream(7).header("etag", "\"v1\"");
    let res = etag(stream, etag_condition(&req));
    assert_eq!(res.status, 200);
    assert_eq!(header(&res, "etag"), Some("\"v1\""));
    assert!(matches!(res.body_kind, BodyKind::Stream(7)));
}

#[test]
fn timeout_middleware_cuts_off_slow_handlers() {
    let slow = timeout_response();
    assert_eq!(slow.status, 408);
    assert_eq!(slow.body_text(), "408 Request Timeout");
}

#[test]
fn router_guards_block_requests_and_scoped_fallbacks_handle_misses() {
    let blocked = guard(false).expect("turned away");
    assert_eq!(blocked.status, 403);
    assert_eq!(blocked.body_text(), "403 Access denied");
    assert!(guard(true).is_none());

    // The guard is middleware 9, the route handler 1, and the fallback handler 2.
    let mut api = Router::new();
    api.layer(9);
    api.get("/private", 1);
    api.fallback(2);
    let mut app = App::new();
    app.mount("/api", api);
    let serve = |path: &str, key: Option<&str>| {
        let mut req = get(&[]);
        req.path = path.to_string();
        if let Some(key) = key {
            req.headers.insert("x-api-key".to_string(), key.to_string());
        }
        let plan = app.dispatch(req);
        assert_eq!(plan.middlewares, vec![9]);
        match guard(plan.request.header("x-api-key") == Some("secret")) {
            Some(blocked) => blocked,
            None => match plan.target {
                Target::Handler(1) => Response::send("private"),
                Target::Handler(2) => Response::send("fallback api").status(404),
                other => panic!("{other:?}"),
            },
        }
    };
    assert_eq!(serve("/api/private", None).status, 403);
    assert_eq!(serve("/api/private", Some("secret")).body_text(), "private");
    let fallback = serve("/api/not-found", Some("secret"));
    assert_eq!(fallback.status, 404);
    assert_eq!(fallback.body_text(), "fallback api");
}

#[test]
fn rate_limit_middleware_throttles_per_ip_and_recovers() {
    let at = |millis: u64| Instant { nanos: Duration::from_millis(millis).nanos };
    let one = Some(IpAddress::V4(0x0101_0101));
    let two = Some(IpAddress::V4(0x0202_0202));
    let mut limiter = RateLimiter::new(2, Duration::from_millis(80));

    // Two requests from the same IP pass; the third is throttled.
    assert!(rate_limit(limiter.check(one, at(0))).is_none());
    assert!(rate_limit(limiter.check(one, at(1))).is_none());
    let throttled = rate_limit(limiter.check(one, at(2))).expect("throttled");
    assert_eq!(throttled.status, 429);
    assert_eq!(throttled.body_text(), "Too Many Requests");
    assert_eq!(header(&throttled, "retry-after"), Some("1"));

    // A different client is unaffected, and clients without an address are one.
    assert!(limiter.check(two, at(2)).is_none());
    assert!(limiter.check(None, at(2)).is_none());
    assert!(limiter.check(None, at(2)).is_none());
    assert_eq!(limiter.check(None, at(3)), Some(Duration::from_millis(79)));

    // Once the window expires the client is admitted again.
    assert!(limiter.check(one, at(80)).is_none());
    let wait = rate_limit(Some(Duration::from_millis(2500))).unwrap();
    assert_eq!(header(&wait, "retry-after"), Some("2"));
}

#[test]
fn cors_builder_handles_preflight_and_origin_allowlist() {
    let rules = Cors::new()
        .allow_origin("https://app.example.com")
        .allow_credentials(true)
        .max_age_secs(600);
    let serve = |req: Request, body: &str| match rules.into_middleware(&req) {
        CorsStep::Answer(res) => res,
        CorsStep::Pass(Some(allowed)) => rules.apply_grant(Response::send(body), &allowed),
        CorsStep::Pass(None) => Response::send(body),
    };

    // Preflight short-circuits with the CORS grant.
    let mut preflight = get(&[
        ("origin", "https://app.example.com"),
        ("access-control-request-method", "POST"),
        ("access-control-request-headers", "x-custom"),
    ]);
    preflight.method = "OPTIONS".to_string();
    let res = serve(preflight, "never");
    assert_eq!(res.status, 204);
    assert_eq!(header(&res, "access-control-allow-origin"), Some("https://app.example.com"));
    assert_eq!(header(&res, "access-control-allow-credentials"), Some("true"));
    assert_eq!(header(&res, "access-control-max-age"), Some("600"));
    assert!(header(&res, "access-control-allow-methods").is_some());
    assert_eq!(header(&res, "access-control-allow-headers"), Some("x-custom"));

    // Normal request from an allowed origin gets the grant appended.
    let res = serve(get(&[("origin", "https://app.example.com")]), "data");
    assert_eq!(res.body_text(), "data");
    assert_eq!(header(&res, "access-control-allow-origin"), Some("https://app.example.com"));
    assert_eq!(header(&res, "vary"), Some("Origin"));

    // Disallowed origin: no grant emitted.
    let res = serve(get(&[("origin", "https://evil.example")]), "data");
    assert!(header(&res, "access-control-allow-origin").is_none());

    // Same-origin/non-CORS request untouched.
    let res = serve(get(&[]), "data");
    assert!(header(&res, "access-control-allow-origin").is_none());
}

#[test]
fn cors_rules_for_all_sites_never_share_credentials() {
    let open = Cors::new().allow_any_origin().allow_methods(&["GET", "PUT"]).allow_headers(&["a", "b"]);
    assert_eq!(open.grant_for("https://x").as_deref(), Some("*"));
    assert_eq!(open.methods, "GET, PUT");
    assert_eq!(open.headers.as_deref(), Some("a, b"));
    let res = open.apply_grant(Response::send("x"), "*");
    assert!(header(&res, "vary").is_none());
    let both = open.allow_credentials(true);
    assert_eq!(both.grant_for("https://x").as_deref(), Some("https://x"));
}

#[test]
fn sessions_middleware_assigns_and_persists_session() {
    let mut sessions = Sessions::new("top-secret");
    let mut ids = SessionIds::new();

    // First visit creates the session and sets a signed cookie.
    let mut req = get(&[]);
    let (id, is_new) = sessions.begin(&mut req, &mut ids, 1);
    assert!(is_new);
    assert_eq!(req.session_id(), Some(&id[..]));
    sessions.set(&id, "visits", "1");
    let res = sessions.finish(Response::send("1"), &id, is_new);
    let set_cookie = res
        .headers
        .get(SET_COOKIE)
        .expect("session cookie set")
        .to_str()
        .unwrap()
        .to_string();
    let (name, value) = set_cookie.split(';').next().unwrap().split_once('=').unwrap();
    assert_eq!(name, "rustrest_session");
    assert!(set_cookie.ends_with("; HttpOnly; SameSite=Lax"), "{set_cookie}");

    // Replaying the cookie resumes the same session.
    let mut req = Request::builder().cookie(name, value).build();
    let (again, is_new) = sessions.begin(&mut req, &mut ids, 2);
    assert_eq!((&again, is_new), (&id, false));
    assert_eq!(sessions.get(&again, "visits").as_deref(), Some("1"));
    assert!(sessions.finish(Response::send("2"), &again, is_new).headers.is_empty());

    // A tampered cookie gets a fresh session (and a new Set-Cookie).
    let mut req = Request::builder().cookie(name, "forged.sig").build();
    let (fresh, is_new) = sessions.begin(&mut req, &mut ids, 3);
    assert!(is_new);
    assert_ne!(fresh, id);
    assert_eq!(sessions.get(&fresh, "visits"), None);
    assert!(sessions.finish(Response::send("1"), &fresh, is_new).headers.get(SET_COOKIE).is_some());
}

#[test]
fn session_data_is_kept_apart() {
    let mut sessions = Sessions::new("s").cookie_name("sid");
    assert_eq!(sessions.cookie_name, "sid");
    sessions.set("a", "k", "1");
    sessions.set("a", "l", "2");
    sessions.set("b", "k", "3");
    sessions.set("a", "k", "4");
    assert_eq!(sessions.get("a", "k").as_deref(), Some("4"));
    sessions.remove("a", "k");
    sessions.remove("none", "k");
    assert_eq!(sessions.get("a", "k"), None);
    assert_eq!(sessions.get("a", "l").as_deref(), Some("2"));
    sessions.clear("a");
    sessions.clear("none");
    assert_eq!(sessions.get("a", "l"), None);
    assert_eq!(sessions.get("b", "k").as_deref(), Some("3"));
}

fn ten_bytes() -> Option<FileFacts> {
    // 1994-11-06 08:49:37, and half a second.
    Some(FileFacts { len: 10, modified: Some(784_111_777_500_000_000) })
}

fn sent(headers: &[(&str, &str)]) -> Response {
    match serve_static_file(&get(headers), "static.txt", ten_bytes()) {
        StaticPlan::Answer(res) => res,
        StaticPlan::Send(slice) => finish_static_file(&slice, Opened::Stream(1)),
    }
}

#[test]
fn static_files_support_conditional_and_range_requests() {
    // Full GET: 200 with validators and a streamed, exact-length body.
    let res = sent(&[]);
    assert_eq!(res.status, 200);
    assert_eq!(header(&res, "content-length"), Some("10"));
    assert_eq!(header(&res, "accept-ranges"), Some("bytes"));
    assert_eq!(header(&res, "last-modified"), Some("Sun, 06 Nov 1994 08:49:37 GMT"));
    let etag = header(&res, "etag").expect("etag set").to_string();
    assert_eq!(etag, "\"a-ae1b981da166f00\"");

    // If-None-Match revalidation -> 304.
    assert_eq!(sent(&[("if-none-match", &etag)]).status, 304);
    assert_eq!(sent(&[("if-none-match", "\"x\", *")]).status, 304);
    assert_eq!(sent(&[("if-none-match", "\"x\"")]).status, 200);

    // Byte range -> 206 with Content-Range.
    let res = sent(&[("range", "bytes=2-5")]);
    assert_eq!(res.status, 206);
    assert_eq!(header(&res, "content-range"), Some("bytes 2-5/10"));
    assert_eq!(header(&res, "content-length"), Some("4"));

    // Suffix range (last N bytes).
    let res = sent(&[("range", "bytes=-3")]);
    assert_eq!(res.status, 206);
    assert_eq!(header(&res, "content-range"), Some("bytes 7-9/10"));

    // Unsatisfiable range -> 416 with the total size.
    let res = sent(&[("range", "bytes=50-")]);
    assert_eq!(res.status, 416);
    assert_eq!(header(&res, "content-range"), Some("bytes */10"));
}

#[test]
fn static_files_revalidate_by_date() {
    assert_eq!(sent(&[("if-modified-since", "Sun, 06 Nov 1994 08:49:37 GMT")]).status, 304);
    assert_eq!(sent(&[("if-modified-since", "Sun, 06 Nov 1994 08:49:36 GMT")]).status, 200);
    assert_eq!(sent(&[("if-modified-since", "yesterday")]).status, 200);
    // A tag that does not match comes before a date that does.
    let stale = [("if-none-match", "\"x\""), ("if-modified-since", "Sun, 06 Nov 2050 08:49:37 GMT")];
    assert_eq!(sent(&stale).status, 200);
}

#[test]
fn static_files_that_cannot_be_read_are_told() {
    match serve_static_file(&get(&[]), "x", None) {
        StaticPlan::Answer(res) => assert_eq!(res.status, 404),
        StaticPlan::Send(_) => panic!("there is no file"),
    }
    let empty = Some(FileFacts { len: 0, modified: None });
    match serve_static_file(&get(&[]), "x", empty) {
        StaticPlan::Answer(_) => panic!("there is a file"),
        StaticPlan::Send(slice) => {
            assert_eq!(finish_static_file(&slice, Opened::Failed).status, 404);
            assert_eq!(finish_static_file(&slice, Opened::SeekFailed).status, 500);
            let res = finish_static_file(&slice, Opened::Stream(1));
            assert_eq!(res.status, 200);
            assert_eq!(header(&res, "etag"), None);
        }
    }
    assert_eq!(chunk_size(0), None);
    assert_eq!(chunk_size(10), Some(10));
    assert_eq!(chunk_size(1 << 20), Some(65536));
    assert_eq!(remaining_after(10, 4), 6);
    assert_eq!(remaining_after(10, 0), 0);
}

#[test]
fn ranges_are_read_by_the_book() {
    assert_eq!(parse_byte_range("bytes=0-0", 10), RangeParse::Satisfiable(0, 0));
    assert_eq!(parse_byte_range(" bytes=5- ", 10), RangeParse::Satisfiable(5, 9));
    assert_eq!(parse_byte_range("bytes=5-99", 10), RangeParse::Satisfiable(5, 9));
    assert_eq!(parse_byte_range("bytes=-99", 10), RangeParse::Satisfiable(0, 9));
    assert_eq!(parse_byte_range("bytes=-0", 10), RangeParse::Unsatisfiable);
    assert_eq!(parse_byte_range("bytes=0-", 0), RangeParse::Unsatisfiable);
    assert_eq!(parse_byte_range("bytes=5-2", 10), RangeParse::Ignored);
    assert_eq!(parse_byte_range("bytes=0-1,2-3", 10), RangeParse::Ignored);
    assert_eq!(parse_byte_range("items=0-1", 10), RangeParse::Ignored);
    assert_eq!(parse_byte_range("bytes=x-1", 10), RangeParse::Ignored);
    assert_eq!(parse_byte_range("bytes=1", 10), RangeParse::Ignored);
    // What is malformed counts for nothing, also behind the end.
    assert_eq!(parse_byte_range("bytes=50-x", 10), RangeParse::Ignored);
    assert_eq!(parse_byte_range("bytes=50-20", 10), RangeParse::Ignored);
    assert_eq!(parse_byte_range("bytes=50-60", 10), RangeParse::Unsatisfiable);
    assert_eq!(parse_byte_range("bytes=10-", 10), RangeParse::Unsatisfiable);
    assert_eq!(parse_byte_range("bytes=9-", 10), RangeParse::Satisfiable(9, 9));
    let whole = sent(&[("range", "bytes=50-x")]);
    assert_eq!(whole.status, 200);
    assert_eq!(header(&whole, "content-length"), Some("10"));
}

/// A request for a file, as the route for files hands it on.
fn asset(path: &str) -> Request {
    let mut app = App::new();
    app.static_files("/assets", 1);
    let mut req = get(&[]);
    req.path = path.to_string();
    app.dispatch(req).request
}

#[test]
fn static_files_rejects_path_traversal() {
    let res = static_names(&asset("/assets/../secret.txt")).err().expect("refused");
    assert_eq!(res.status, 400);
    assert!(safe_static_path("../secret.txt").is_none());
    assert!(safe_static_path("a/%2e%2e/b").is_none());
    assert!(safe_static_path("%2Fetc").is_none());
    assert_eq!(safe_static_path("").unwrap(), vec!["index.html"]);
    assert_eq!(safe_static_path("./a//b%20c/").unwrap(), vec!["a", "b c"]);
    assert!(safe_static_path(".").unwrap().is_empty());
}

#[test]
fn app_static_files_serves_files_with_content_type() {
    let req = asset("/assets/app.css");
    let names = static_names(&req).ok().expect("below the directory");
    assert_eq!(names, vec!["app.css"]);
    let facts = Some(FileFacts { len: 20, modified: None });
    match serve_static_file(&req, &names[0], facts) {
        StaticPlan::Send(slice) => {
            assert_eq!((slice.start, slice.len), (0, 20));
            let res = finish_static_file(&slice, Opened::Stream(1));
            assert_eq!(res.status, 200);
            assert_eq!(res.content_type, "text/css; charset=utf-8");
            assert!(matches!(res.body_kind, BodyKind::Stream(1)));
        }
        StaticPlan::Answer(res) => panic!("{res:?}"),
    }
    assert_eq!(content_type_for_path("app.css"), "text/css; charset=utf-8");
    assert_eq!(content_type_for_path("a.tar.mjs"), "text/javascript; charset=utf-8");
    assert_eq!(content_type_for_path("x.JPG"), "application/octet-stream");
    assert_eq!(content_type_for_path(".html"), "application/octet-stream");
    assert_eq!(content_type_for_path("plain"), "application/octet-stream");
    assert_eq!(content_type_for_path("x.jpeg"), "image/jpeg");
}

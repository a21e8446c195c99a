use rustrest::cookie::{sanitize_cookie_part, sign_value, verify_value, Cookie};
use rustrest::form::parse_multipart;
use rustrest::pattern::path_segments;
use rustrest::request::{decode_component, Request};
use rustrest::response::Response;
use rustrest::router::Router;
use rustrest::server::{App, Target, TrailingSlash};
use rustrest::sse::{next_sent, Awaited, SseEvent};
use rustrest::static_files::{
    finish_static_file, serve_static_file, FileFacts, Opened, StaticPlan,
};
use rustrest::time::Duration;
use rustrest::websocket::broker::{WsNodeId, WsPublicationId};
use rustrest::websocket::config::{OriginPolicy, ResolvedWebSocketConfig, WebSocketConfig};
use rustrest::websocket::handshake::validate_handshake;
use rustrest::websocket::runtime::WebSocketRuntimeHandle;

fn resolved(app: &WebSocketConfig, route: &WebSocketConfig) -> ResolvedWebSocketConfig {
    ResolvedWebSocketConfig::from_layers(app, route)
}

#[test]
fn nothing_that_ends_a_cookie_gets_into_one() {
    assert_eq!(sanitize_cookie_part("a;b,c\r\nd"), "abcd");
    assert_eq!(sanitize_cookie_part("plain value"), "plain value");
    let header = Cookie::new("n;", "v\r\nSet-Cookie: x").to_header_value();
    assert_eq!(header, "n=vSet-Cookie: x; Path=/");
    let res = Response::send("").cookie("a", "b; Secure");
    assert_eq!(res.header_values("set-cookie"), vec!["a=b Secure; Path=/; HttpOnly"]);
}

#[test]
fn events_end_with_an_empty_line_and_keep_their_lines_apart() {
    let event = SseEvent::new("uno\ndos\r\ntres").retry(5).format();
    assert_eq!(event, "retry: 5\ndata: uno\ndata: dos\ndata: tres\n\n");
    assert_eq!(SseEvent::new("").format(), "data: \n\n");
    let blank = SseEvent::new("a\n\nb").id("7").event("e").format();
    assert_eq!(blank, "id: 7\nevent: e\ndata: a\ndata: \ndata: b\n\n");
    assert_eq!(blank.find("\n\n"), Some(blank.len() - 2));
    let data: Vec<&str> = blank.split('\n').filter(|line| line.starts_with("data: ")).collect();
    assert_eq!(data, vec!["data: a", "data: ", "data: b"]);
}

#[test]
fn silence_is_filled_and_ends_are_kept() {
    let event = next_sent(Awaited::Event(SseEvent::new("hola"))).expect("sent");
    assert_eq!(event.format(), "data: hola\n\n");
    let filler = next_sent(Awaited::Silence).expect("sent");
    assert_eq!(filler.format(), ": keep-alive\n\n");
    assert!(next_sent(Awaited::End).is_none());
}

#[test]
fn signed_texts_are_refused_once_they_are_changed() {
    for value in ["", "user42", "a.b.c", "ñandú"] {
        let signed = sign_value("secret", value);
        let own = &signed[value.len() + 1..];
        assert_eq!(own.len(), 43);
        assert!(own.chars().all(|c| c.is_ascii_alphanumeric() || c == '-' || c == '_'));
        assert_eq!(verify_value("secret", &signed).as_deref(), Some(value));
        // Nothing may follow, and the bits that are left over must be zero.
        assert_eq!(verify_value("secret", &format!("{signed}=")), None);
        let (head, last) = signed.split_at(signed.len() - 1);
        for other in "ABCDEFGHIJKLMNOPQRSTUVWXYZabcdefghijklmnopqrstuvwxyz0123456789-_".chars() {
            let changed = format!("{head}{other}");
            assert_eq!(verify_value("secret", &changed).is_some(), last == other.to_string());
        }
    }
    assert_ne!(sign_value("secret", "a"), sign_value("secret", "b"));
}

#[test]
fn texts_are_read_back_as_they_were_written() {
    for text in ["", "ok", "ñandú", "日本"] {
        assert_eq!(Response::send(text).body_text(), text);
        let req = Request::builder().body(text.as_bytes().to_vec()).build();
        assert_eq!(req.text(), text);
        assert_eq!(req.extract::<String>().ok().as_deref(), Some(text));
    }
    assert_eq!(Request::builder().body(vec![0x61, 0xff]).build().text(), "a\u{fffd}");
}

#[test]
fn forms_are_read_as_they_were_written() {
    let body = "--frontera\r\n\
        Content-Disposition: form-data; name=\"año\"; filename=\"día.txt\"\r\n\
        Content-Type: text/plain\r\n\r\n\
        señal\r\n\
        --frontera--";
    let parts = parse_multipart(&body.as_bytes().to_vec(), "frontera").ok().expect("well formed");
    assert_eq!(parts.len(), 1);
    assert_eq!(parts[0].name, "año");
    assert_eq!(parts[0].filename.as_deref(), Some("día.txt"));
    assert_eq!(parts[0].content_type.as_deref(), Some("text/plain"));
    assert_eq!(parts[0].text(), "señal");
}

#[test]
fn told_moments_of_change_revalidate() {
    for modified in [0, 784_111_777_500_000_000, 253_402_300_799_999_999_999] {
        let facts = FileFacts { len: 10, modified: Some(modified) };
        let plain = Request::builder().build();
        let told = match serve_static_file(&plain, "a.txt", Some(facts)) {
            StaticPlan::Send(slice) => finish_static_file(&slice, Opened::Stream(1)),
            StaticPlan::Answer(res) => panic!("{res:?}"),
        };
        let date = told.header_values("last-modified");
        assert_eq!(date.len(), 1);
        assert_eq!(facts.last_modified().as_ref(), date.first());
        assert_eq!(told.header_values("content-length"), vec!["10"]);
        let again = Request::builder().header("if-modified-since", &date[0]).build();
        match serve_static_file(&again, "a.txt", Some(facts)) {
            StaticPlan::Answer(res) => {
                assert_eq!(res.status, 304);
                assert_eq!(res.header_values("last-modified"), date);
            }
            StaticPlan::Send(slice) => panic!("{slice:?}"),
        }
    }
}

#[test]
fn escaped_bytes_are_read_back() {
    for text in ["", "plain", "a b+c%d", "ñ/é", "日本", "\u{1f600}"] {
        let high: String = text.bytes().map(|b| format!("%{b:02X}")).collect();
        let low: String = text.bytes().map(|b| format!("%{b:02x}")).collect();
        for plus_as_space in [false, true] {
            assert_eq!(decode_component(&high, plus_as_space), text);
            assert_eq!(decode_component(&low, plus_as_space), text);
        }
    }
}

#[test]
fn redirects_end_at_a_path_that_is_served() {
    let mut app = App::new();
    app.trailing_slash(TrailingSlash::Redirect);
    app.get("/users", 1);
    let mut path = "/users///".to_string();
    for served in [false, true] {
        let mut req = Request::builder().build();
        req.path = path.clone();
        match app.dispatch(req).target {
            Target::Redirect(location) => {
                assert!(!served);
                path = location;
            }
            Target::Handler(1) => assert!(served),
            other => panic!("{other:?}"),
        }
    }
    assert_eq!(path, "/users");
    assert_eq!(path_segments("//users///"), path_segments("/users"));
}

#[test]
fn head_takes_the_route_of_get_with_its_middlewares() {
    let mut app = App::new();
    app.get("/a/:id", 1).layer(5);
    app.post("/a/:id", 2);
    let get = app.dispatch(Request::builder().method("GET").path("/a/7").build());
    let head = app.dispatch(Request::builder().method("HEAD").path("/a/7").build());
    assert!(matches!((&get.target, &head.target), (Target::Handler(1), Target::Handler(1))));
    assert_eq!(head.place, get.place);
    assert_eq!(head.middlewares, vec![5]);
    assert_eq!(head.request.param("id"), Some("7"));
}

#[test]
fn the_order_of_routes_does_not_change_who_serves() {
    let patterns = ["/a/*rest", "/a/:id", "/a/b", "/*all"];
    let mut forward = Router::new();
    let mut backward = Router::new();
    for (number, pattern) in patterns.iter().enumerate() {
        forward.get(pattern, number as u64);
    }
    for (number, pattern) in patterns.iter().enumerate().rev() {
        backward.get(pattern, number as u64);
    }
    for (path, expected) in [("/a/b", 2), ("/a/c", 1), ("/a/c/d", 0), ("/z", 3), ("/a", 0)] {
        assert_eq!(forward.route("GET", path).unwrap().handler, expected, "{path}");
        assert_eq!(backward.route("GET", path).unwrap().handler, expected, "{path}");
    }
}

#[test]
fn layers_of_rules_inherit_and_override() {
    let blank = WebSocketConfig::new();
    let app = WebSocketConfig::new().max_message_size(10).close_timeout(Duration::from_secs(1));
    let inherited = resolved(&app, &blank);
    assert_eq!(inherited.max_message_size, 10);
    assert_eq!(inherited.close_timeout, Duration::from_secs(1));
    let route = WebSocketConfig::new().max_message_size(20);
    assert_eq!(resolved(&app, &route).max_message_size, 20);
    assert_eq!(resolved(&blank, &route).max_message_size, 20);
    assert!(resolved(&blank, &blank).validate().is_ok());
    assert_eq!(resolved(&blank, &blank).max_message_size, 16 * 1024 * 1024);
}

#[test]
fn what_strict_rules_let_pass_the_default_ones_do_too() {
    let req = Request::builder()
        .header("host", "localhost")
        .header("upgrade", "websocket")
        .header("connection", "Upgrade")
        .header("sec-websocket-key", "dGhlIHNhbXBsZSBub25jZQ==")
        .header("sec-websocket-version", "13")
        .header("origin", "http://localhost")
        .header("sec-websocket-protocol", "chat")
        .build();
    let blank = WebSocketConfig::new();
    let strict = WebSocketConfig::new()
        .origin_policy(OriginPolicy::same_host().allow_missing(false))
        .protocols(&["chat"])
        .require_protocol(true);
    let protocol = validate_handshake(&req, &resolved(&blank, &strict)).ok().unwrap();
    assert_eq!(protocol.as_deref(), Some("chat"));
    assert!(validate_handshake(&req, &resolved(&blank, &blank)).is_ok());
    assert_eq!(Response::websocket(&req).unwrap().status, 101);
}

#[test]
fn seen_publications_are_remembered_up_to_a_bound() {
    let mut runtime = WebSocketRuntimeHandle::local(WsNodeId::new(1));
    let origin = WsNodeId::new(2);
    for id in 0..4096 {
        assert!(runtime.mark_publication_seen(origin, WsPublicationId::new(id)));
    }
    assert!(!runtime.mark_publication_seen(origin, WsPublicationId::new(0)));
    // One more, and the oldest is forgotten.
    assert!(runtime.mark_publication_seen(origin, WsPublicationId::new(4096)));
    assert!(runtime.mark_publication_seen(origin, WsPublicationId::new(0)));
    assert_eq!(runtime.seen_publications.len(), 4096);
}

#[test]
fn leaving_undoes_joining() {
    let mut runtime = WebSocketRuntimeHandle::local(WsNodeId::new(1));
    let config = resolved(&WebSocketConfig::new(), &WebSocketConfig::new());
    let id = runtime.admit_connection("/ws", None, None, &config, 0).unwrap();
    let first = vec!["a".to_string(), "b".to_string()];
    let more = vec!["b".to_string(), "c".to_string()];
    runtime.join(id, &first).unwrap();
    let news = runtime.join(id, &more).unwrap();
    assert_eq!(news.rooms, vec!["c"]);
    runtime.leave(id, &news.rooms).unwrap();
    assert_eq!(runtime.rooms(id).unwrap(), first);
}

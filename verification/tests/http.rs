use std::collections::HashMap;

use hyper::header::{CONTENT_TYPE, LOCATION, SET_COOKIE};
use rustrest::cookie::{sign_value, verify_value, Cookie, SameSite};
use rustrest::error::HttpError;
use rustrest::extract::FromRequest;
use rustrest::form::{multipart_boundary, parse_multipart};
use rustrest::request::{
    decode_component, parse_cookies, parse_query, unescape, HttpVersion, Request,
};
use rustrest::response::{BodyKind, IntoResponse, Response};
use rustrest::sse::SseEvent;
use rustrest::websocket::types::{IpAddress, PeerAddr};

fn dummy_request(body: &str) -> Request {
    Request::builder().body(body.as_bytes().to_vec()).build()
}

#[test]
fn sse_comment_events_format_as_comments() {
    assert_eq!(SseEvent::comment("keep-alive").format(), ": keep-alive\n\n");
    // Regular events keep their existing shape.
    assert_eq!(SseEvent::new("hola").id("1").format(), "id: 1\ndata: hola\n\n");
}

#[test]
fn response_formats_sse_events() {
    let text = SseEvent::new("hello").event("greeting").id("1").format()
        + &SseEvent::new("goodbye").format();
    assert_eq!(text, "id: 1\nevent: greeting\ndata: hello\n\ndata: goodbye\n\n");

    let res = Response::sse(4).into_outgoing().unwrap();
    assert_eq!(res.headers.get("content-type").unwrap(), "text/event-stream");
    assert_eq!(res.headers.get("cache-control").unwrap(), "no-cache");
    assert!(matches!(res.body_kind, BodyKind::Stream(4)));
}

#[test]
fn request_exposes_last_event_id() {
    let mut req = dummy_request("");
    assert!(req.last_event_id().is_none());
    req.headers.insert("last-event-id".to_string(), "42".to_string());
    assert_eq!(req.last_event_id(), Some("42"));
}

#[test]
fn response_body_accessors_and_no_desync_for_streams() {
    let bytes_res = Response::send("hi");
    assert_eq!(bytes_res.status, 200);
    assert_eq!(bytes_res.content_type, "text/plain; charset=utf-8");
    assert_eq!(bytes_res.body_bytes().map(|body| &body[..]), Some(&b"hi"[..]));
    assert_eq!(bytes_res.body_text(), "hi");

    // A streamed response keeps no in-memory body to desync from its stream.
    let stream_res = Response::stream(1);
    assert_eq!(stream_res.body_bytes(), None);
    assert_eq!(stream_res.body_text(), "");
}

#[test]
fn request_builder_builds_full_request() {
    let req = Request::builder()
        .method("POST")
        .path("/users/42?active=true&tag=a&tag=b")
        .header("X-Tag", "uno")
        .header("x-tag", "dos")
        .cookie("sid", "abc")
        .param("id", "42")
        .state(3, 30)
        .body(br#"{"n":1}"#.to_vec())
        .build();

    assert_eq!(req.method, "POST");
    assert_eq!(req.path, "/users/42");
    assert_eq!(req.query("active"), Some("true"));
    assert_eq!(req.query_all("tag"), vec!["a", "b"]);
    // Header names are lowercased like the real server; map keeps last value,
    // headers_all keeps every value.
    assert_eq!(req.header("X-Tag"), Some("dos"));
    assert_eq!(req.headers_all("x-tag"), vec!["uno", "dos"]);
    assert_eq!(req.cookie("sid"), Some("abc"));
    assert_eq!(req.param("id"), Some("42"));
    assert_eq!(req.bytes(), br#"{"n":1}"#);
    assert_eq!(req.state(3), Some(30));
}

#[test]
fn cookies_that_were_set_come_before_those_of_headers() {
    let req = Request::builder()
        .header("cookie", "a=1; b=2")
        .header("cookie", "a=9; c=3")
        .cookie("b", "set")
        .build();
    assert_eq!(req.cookie("a"), Some("1"));
    assert_eq!(req.cookie("b"), Some("set"));
    assert_eq!(req.cookie("c"), Some("3"));
}

#[test]
fn requests_from_connections_keep_all_that_came() {
    let pairs = vec![
        ("host".to_string(), "localhost".to_string()),
        ("x-a".to_string(), "1".to_string()),
        ("x-a".to_string(), "2".to_string()),
        ("cookie".to_string(), "sid=abc; sid=last".to_string()),
        ("cookie".to_string(), "other=1".to_string()),
    ];
    let peer = PeerAddr { ip: IpAddress::V4(0x0101_0101), port: 9 };
    let req = Request::from_parts(
        HttpVersion::Http2,
        "GET".to_string(),
        "/x".to_string(),
        Some("k=v&k=w".to_string()),
        pairs,
        b"body".to_vec(),
        Some(peer),
        true,
    );
    assert_eq!(req.version(), HttpVersion::Http2);
    assert!(req.is_secure());
    assert_eq!(req.header("X-A"), Some("2"));
    assert_eq!(req.headers_all("X-A"), vec!["1", "2"]);
    assert_eq!(req.cookie("sid"), Some("last"));
    assert_eq!(req.cookie("other"), None);
    assert_eq!(req.query("k"), Some("v"));
    assert_eq!(req.remote_addr(), Some(peer));
    assert!(!req.upgrade);
}

#[test]
fn upgrade_requests_are_told_by_their_heads() {
    let head = |version: HttpVersion, key: &str| {
        Request::from_parts(
            version,
            "GET".to_string(),
            "/ws".to_string(),
            None,
            vec![
                ("upgrade".to_string(), "WebSocket".to_string()),
                ("connection".to_string(), "keep-alive, Upgrade".to_string()),
                ("sec-websocket-key".to_string(), key.to_string()),
                ("sec-websocket-version".to_string(), "13".to_string()),
            ],
            Vec::new(),
            None,
            false,
        )
    };
    assert!(head(HttpVersion::Http11, "dGhlIHNhbXBsZSBub25jZQ==").upgrade);
    assert!(!head(HttpVersion::Http2, "dGhlIHNhbXBsZSBub25jZQ==").upgrade);
    assert!(!head(HttpVersion::Http11, "c2hvcnQ=").upgrade);
}

#[test]
fn send_sets_text_plain_and_200() {
    let res = Response::send("hello");
    assert_eq!(res.status, 200);
    assert_eq!(res.body_text(), "hello");
    assert_eq!(res.content_type, "text/plain; charset=utf-8");
}

#[test]
fn not_found_sets_404() {
    let res = Response::not_found();
    assert_eq!(res.status, 404);
    assert_eq!(res.body_text(), "404 Not Found");
}

#[test]
fn bad_request_sets_400() {
    let res = Response::bad_request();
    assert_eq!(res.status, 400);
    assert_eq!(res.content_type, "text/plain; charset=utf-8");
}

#[test]
fn json_serializes_value_with_200_and_json_content_type() {
    let mut user = serde_json::Map::new();
    user.insert("id".to_string(), serde_json::Value::from(1));
    user.insert("name".to_string(), serde_json::Value::from("Ada"));
    let res = Response::json(serde_json::to_string(&user).ok());
    assert_eq!(res.status, 200);
    assert_eq!(res.content_type, "application/json");
    assert_eq!(res.body_text(), r#"{"id":1,"name":"Ada"}"#);
}

#[test]
fn json_serialization_error_degrades_to_500() {
    // serde_json cannot serialize a map with non-string (tuple) keys.
    let mut map: HashMap<(i32, i32), i32> = HashMap::new();
    map.insert((1, 2), 3);
    let res = Response::json(serde_json::to_string(&map).ok());
    assert_eq!(res.status, 500);
    assert_eq!(res.content_type, "text/plain; charset=utf-8");
}

#[test]
fn into_hyper_maps_status_and_content_type_header() {
    let res = Response::send("hi").into_outgoing().unwrap();
    assert_eq!(res.status, 200);
    assert_eq!(res.headers.get(CONTENT_TYPE).unwrap(), "text/plain; charset=utf-8");
}

#[test]
fn responses_that_cannot_go_out_are_held_back() {
    assert!(Response::send("x").status(99).into_outgoing().is_none());
    assert!(Response::send("x").status(1000).into_outgoing().is_none());
    assert!(Response::send("x").content_type("a\nb").into_outgoing().is_none());
    let own = Response::send("x").header("Content-Type", "text/x").into_outgoing().unwrap();
    assert_eq!(own.header_values("content-type"), vec!["text/x"]);
}

#[test]
fn response_allows_arbitrary_headers() {
    let res = Response::send("ok").header("x-trace-id", "abc-123").into_outgoing().unwrap();

    assert_eq!(res.headers.get("x-trace-id").unwrap(), "abc-123");
    // What cannot be a header changes nothing.
    let res = Response::send("ok").header("bad name", "v").header("x", "a\r\nb");
    assert!(res.headers.is_empty());
}

#[test]
fn response_redirect_sets_location_header() {
    let res = Response::redirect("/login").into_outgoing().unwrap();

    assert_eq!(res.status, 302);
    assert_eq!(res.headers.get(LOCATION).unwrap(), "/login");
}

#[test]
fn response_cookie_appends_set_cookie_headers() {
    let res = Response::send("ok")
        .cookie("sid", "abc")
        .cookie("theme", "dark")
        .into_outgoing()
        .unwrap();
    let cookies: Vec<_> = res
        .headers
        .get_all(SET_COOKIE)
        .iter()
        .map(|value| value.to_str().unwrap().to_string())
        .collect();

    assert_eq!(cookies.len(), 2);
    assert!(cookies.iter().any(|value| value.starts_with("sid=abc")));
    assert!(cookies.iter().any(|value| value.starts_with("theme=dark")));
}

#[test]
fn cookie_builder_renders_attributes() {
    let header = Cookie::new("sid", "abc")
        .domain("example.com")
        .max_age_secs(3600)
        .secure(true)
        .http_only(true)
        .same_site(SameSite::Strict)
        .to_header_value();
    assert_eq!(
        header,
        "sid=abc; Path=/; Domain=example.com; Max-Age=3600; Secure; HttpOnly; SameSite=Strict"
    );

    let res = Response::send("ok").set_cookie(Cookie::new("a", "1")).clear_cookie("old");
    let cookies: Vec<_> = res
        .headers
        .get_all(SET_COOKIE)
        .iter()
        .map(|value| value.to_str().unwrap().to_string())
        .collect();
    assert!(cookies.contains(&"a=1; Path=/".to_string()), "{cookies:?}");
    assert!(cookies.contains(&"old=; Path=/; Max-Age=0".to_string()), "{cookies:?}");
}

#[test]
fn signed_values_roundtrip_and_reject_tampering() {
    let signed = sign_value("secret", "user42");
    assert_ne!(signed, "user42");
    assert_eq!(verify_value("secret", &signed).as_deref(), Some("user42"));
    assert_eq!(verify_value("wrong-secret", &signed), None);
    assert_eq!(verify_value("secret", "user42.forged"), None);
    assert_eq!(verify_value("secret", "no-signature"), None);
    assert_eq!(signed, "user42.fMWGteHyWfil16M-1swtQRqkLNFVvnDwVrek3XT_Ux0");
}

#[test]
fn query_params_are_parsed_and_url_decoded() {
    let query = parse_query("q=rust+rest&tag=web&tag=api&empty=&flag&encoded=hello%20world");
    let mut req = dummy_request("");
    req.path = "/buscar".to_string();
    req.query = query;

    assert_eq!(req.query("q"), Some("rust rest"));
    assert_eq!(req.query("empty"), Some(""));
    assert_eq!(req.query("flag"), Some(""));
    assert_eq!(req.query("encoded"), Some("hello world"));
    assert_eq!(req.query_all("tag"), vec!["web", "api"]);
    assert_eq!(req.query("none"), None);
}

#[test]
fn escapes_that_are_none_stay_as_they_are() {
    assert_eq!(decode_component("a%2", false), "a%2");
    assert_eq!(decode_component("%zz%41+", false), "%zzA+");
    assert_eq!(decode_component("%C3%A1", true), "á");
    assert_eq!(decode_component("ñ+ñ", true), "ñ ñ");
    assert_eq!(decode_component("%ff", true), "\u{fffd}");
    assert_eq!(unescape(b"%41%4", false), b"A%4");
}

#[test]
fn request_cookies_are_parsed_from_cookie_header() {
    let mut req = dummy_request("");
    req.cookies = parse_cookies("sid=abc; theme=dark; empty=");

    assert_eq!(req.cookie("sid"), Some("abc"));
    assert_eq!(req.cookie("theme"), Some("dark"));
    assert_eq!(req.cookie("empty"), Some(""));
}

#[test]
fn request_multipart_parses_fields_and_binary_files() {
    let mut body = Vec::new();
    body.extend_from_slice(
        b"--XBOUND\r\ncontent-disposition: form-data; name=\"campo\"\r\n\r\nhola\r\n",
    );
    body.extend_from_slice(
        b"--XBOUND\r\ncontent-disposition: form-data; name=\"archivo\"; filename=\"a.bin\"\r\ncontent-type: application/octet-stream\r\n\r\n",
    );
    body.extend_from_slice(&[0xFF, 0x00, 0xFE]);
    body.extend_from_slice(b"\r\n--XBOUND--\r\n");

    let req = Request::builder()
        .method("POST")
        .header("content-type", "multipart/form-data; boundary=XBOUND")
        .body(body)
        .build();

    let parts = req.multipart().unwrap();
    assert_eq!(parts.len(), 2);

    assert_eq!(parts[0].name, "campo");
    assert_eq!(parts[0].filename, None);
    assert_eq!(parts[0].text(), "hola");

    assert_eq!(parts[1].name, "archivo");
    assert_eq!(parts[1].filename.as_deref(), Some("a.bin"));
    assert_eq!(parts[1].content_type.as_deref(), Some("application/octet-stream"));
    assert_eq!(&parts[1].data[..], &[0xFF, 0x00, 0xFE]);

    // Without a multipart content type the call fails cleanly.
    assert!(dummy_request("x").multipart().is_err());
}

#[test]
fn malformed_multipart_bodies_are_told() {
    let message = |content_type: &str, body: &[u8]| {
        Request::builder()
            .header("content-type", content_type)
            .body(body.to_vec())
            .build()
            .multipart()
            .err()
            .map(|error| error.message().to_string())
    };
    assert_eq!(
        dummy_request("x").multipart().err().unwrap().message(),
        "Expected multipart/form-data"
    );
    assert_eq!(message("text/plain; boundary=x", b"").as_deref(), Some("Missing multipart boundary"));
    let kind = "Multipart/Form-Data; a=b; Boundary=\"q\"";
    assert_eq!(multipart_boundary(kind).as_deref(), Some("q"));
    assert_eq!(multipart_boundary("multipart/form-data; flag; boundary=q"), None);
    for body in [
        &b"no boundary"[..],
        &b"--q\r\nname: x"[..],
        &b"--q\r\na: b\r\n\r\ndata without an end"[..],
        &b"--q\r\na: b\r\n\r\nnameless\r\n--q--"[..],
    ] {
        assert_eq!(message(kind, body).as_deref(), Some("Malformed multipart body"));
    }
    assert!(parse_multipart(&b"--q--".to_vec(), "q").unwrap().is_empty());
}

#[test]
fn request_body_bytes_preserve_non_utf8_and_text_is_lossy() {
    // Bytes that are not valid UTF-8 must survive intact through `bytes()`,
    // while `text()` exposes a lossy view for text consumers.
    let raw: &[u8] = &[0xff, 0xfe, b'h', b'i'];
    let mut req = dummy_request("");
    req.body = raw.to_vec();

    assert_eq!(req.bytes(), raw);
    assert_eq!(req.text(), String::from_utf8_lossy(raw));
}

#[test]
fn raw_extractors_and_their_wrappers_never_lose_the_body() {
    let mut req = dummy_request("cuerpo");
    req.params.insert("id".to_string(), "42".to_string());
    assert_eq!(req.extract::<Vec<u8>>().unwrap(), b"cuerpo");
    assert_eq!(req.extract::<String>().unwrap(), "cuerpo");
    let some: Option<String> = req.extract().unwrap();
    assert_eq!(some.as_deref(), Some("cuerpo"));
    let inner: Result<String, HttpError> = Result::<String, HttpError>::from_request(&req).unwrap();
    assert_eq!(inner.unwrap(), "cuerpo");
    assert_eq!(req.sole_param(), Some("42"));
    req.params.insert("other".to_string(), "1".to_string());
    assert_eq!(req.sole_param(), None);
    assert_eq!(req.state_or_error(1).err().unwrap().message(), "State not found");
}

#[test]
fn results_become_responses() {
    let ok: Result<Response, &'static str> = Ok(Response::send("ok"));
    assert_eq!(ok.into_response().body_text(), "ok");
    let failed: Result<Response, &'static str> = Err("fallo");
    assert_eq!(failed.into_response().status, 500);
    let told: Result<Response, HttpError> = Err(HttpError::unauthorized("no"));
    assert_eq!(told.into_response().status, 401);
    assert_eq!(HttpError::forbidden("no").into_response().body_text(), "403 no");
}

#[test]
fn json_bodies_are_marked_as_such() {
    let req = Request::builder().json(Some("[1]".to_string())).build();
    assert_eq!(req.header("content-type"), Some("application/json"));
    assert_eq!(req.text(), "[1]");
    let req = Request::builder().body(b"old".to_vec()).json(None).build();
    assert_eq!(req.header("content-type"), Some("application/json"));
    assert!(req.bytes().is_empty());
}

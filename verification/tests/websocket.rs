use hyper::header::SEC_WEBSOCKET_ACCEPT;
use rustrest::request::{HttpVersion, Request, RequestBuilder};
use rustrest::response::Response;
use rustrest::time::Duration;
use rustrest::websocket::broker::{NodeIds, WsNodeId};
use rustrest::websocket::config::{OriginPolicy, ResolvedWebSocketConfig, WebSocketConfig};
use rustrest::websocket::driver::shutdown_frame;
use rustrest::websocket::error::{WebSocketError, WsError};
use rustrest::websocket::handshake::{validate_handshake, Admission};
use rustrest::websocket::hub::WsHub;
use rustrest::websocket::runtime::{AdmissionError, WebSocketRuntimeHandle};
use rustrest::websocket::types::{IpAddress, PeerAddr, WebSocketId, WebSocketLifecycleState};

fn resolved_config(app: WebSocketConfig, route: WebSocketConfig) -> ResolvedWebSocketConfig {
    ResolvedWebSocketConfig::from_layers(&app, &route)
}

fn local_runtime() -> WebSocketRuntimeHandle {
    WebSocketRuntimeHandle::local(WsNodeId::new(1))
}

fn addr(last: u32, port: u16) -> PeerAddr {
    PeerAddr { ip: IpAddress::V4(0x7f00_0000 + last), port }
}

fn rooms(names: &[&str]) -> Vec<String> {
    names.iter().map(|name| name.to_string()).collect()
}

#[test]
fn websocket_config_rejects_unbounded_or_inconsistent_values() {
    assert!(WebSocketConfig::new().outbound_capacity(0).validate().is_err());
    assert!(WebSocketConfig::new().inbound_capacity(0).validate().is_err());
    assert!(WebSocketConfig::new()
        .write_buffer_size(1024)
        .max_write_buffer_size(1024)
        .validate()
        .is_err());
    assert!(WebSocketConfig::new()
        .ping_interval(Duration::from_secs(30))
        .pong_timeout(Duration::from_secs(30))
        .validate()
        .is_err());
    assert!(WebSocketConfig::new().validate().is_ok());
}

#[test]
fn websocket_origin_policy_normalizes_default_ports() {
    let policy = OriginPolicy::allow(&["https://app.example.com"]);
    assert!(policy.allows(Some("https://app.example.com:443"), "app.example.com"));
    assert!(!policy.allows(Some("https://evil.example"), "app.example.com"));

    let same_host = OriginPolicy::same_host().allow_missing(false);
    assert!(same_host.allows(Some("http://localhost:3000"), "localhost:3000"));
    assert!(!same_host.allows(None, "localhost:3000"));
}

#[test]
fn websocket_origin_policy_rejects_invalid_explicit_ports() {
    let policy = OriginPolicy::any();
    assert!(!policy.allows(Some("https://app.example.com:not-a-port"), "app.example.com"));

    let config = WebSocketConfig::new()
        .origin_policy(OriginPolicy::allow(&["https://app.example.com:not-a-port"]));
    assert!(config.validate().is_err());
}

#[test]
fn existing_websocket_error_remains_exhaustive() {
    fn classify(error: WebSocketError) -> &'static str {
        match error {
            WebSocketError::Protocol(_) => "protocol",
            WebSocketError::Json(_) => "json",
        }
    }
    assert_eq!(classify(WebSocketError::Protocol("x".to_string())), "protocol");
    assert_eq!(classify(WebSocketError::Json("x".to_string())), "json");
}

#[test]
fn websocket_hubs_allocate_unique_nodes_unless_configured() {
    let mut ids = NodeIds::new();
    let first = WsHub::local(&mut ids);
    let second = WsHub::local(&mut ids);
    let configured = WsHub::builder().node_id(WsNodeId::new(9001)).build(&mut ids).unwrap();

    assert_ne!(first.node_id(), second.node_id());
    assert_eq!(configured.node_id().get(), 9001);
}

#[test]
fn websocket_config_resolves_process_route_and_disable_overrides() {
    let app = WebSocketConfig::new()
        .max_connections(10)
        .max_connections_per_ip(4)
        .message_rate_limit(8, Duration::from_secs(1))
        .idle_timeout(Duration::from_secs(30))
        .max_connection_lifetime(Duration::from_secs(300));
    let route = WebSocketConfig::new()
        .max_connections(2)
        .disable_max_connections_per_ip()
        .disable_message_rate_limit()
        .disable_idle_timeout()
        .disable_max_connection_lifetime();

    let resolved = resolved_config(app, route);

    assert_eq!(resolved.process_max_connections, Some(10));
    assert_eq!(resolved.route_max_connections, Some(2));
    assert_eq!(resolved.max_connections_per_ip, None);
    assert!(resolved.message_rate_limit.is_none());
    assert_eq!(resolved.idle_timeout, None);
    assert_eq!(resolved.max_connection_lifetime, None);
}

fn handshake_request_without_host() -> RequestBuilder {
    Request::builder()
        .method("GET")
        .header("upgrade", "websocket")
        .header("connection", "Upgrade")
        .header("sec-websocket-key", "dGhlIHNhbXBsZSBub25jZQ==")
        .header("sec-websocket-version", "13")
}

fn handshake_request() -> RequestBuilder {
    handshake_request_without_host().header("host", "localhost")
}

fn assert_websocket_error_status(req: &Request, expected: u16) {
    let error = Response::websocket(req).err().expect("the handshake should be rejected");
    assert_eq!(error.status(), expected);
}

#[test]
fn websocket_handshake_sets_upgrade_headers() {
    let req = handshake_request().build();

    assert!(req.is_websocket_upgrade());

    let res = Response::websocket(&req).unwrap().into_outgoing().unwrap();

    assert_eq!(res.status, 101);
    assert_eq!(
        res.headers.get(SEC_WEBSOCKET_ACCEPT).unwrap(),
        "s3pPLMBiTxaQ9kYGzzhZRbK+xOo="
    );
    assert_eq!(res.headers.get("upgrade").unwrap(), "websocket");
    assert_eq!(res.headers.get("connection").unwrap(), "Upgrade");
}

#[test]
fn websocket_upgrade_predicate_rejects_duplicates_and_trims_version() {
    let whitespace_version = Request::builder()
        .method("GET")
        .header("host", "localhost")
        .header("upgrade", "websocket")
        .header("connection", "Upgrade")
        .header("sec-websocket-key", "dGhlIHNhbXBsZSBub25jZQ==")
        .header("sec-websocket-version", " 13 ")
        .build();
    assert!(whitespace_version.is_websocket_upgrade());

    let duplicate_key = handshake_request()
        .header("sec-websocket-key", "dGhlIHNhbXBsZSBub25jZQ==")
        .build();
    assert!(!duplicate_key.is_websocket_upgrade());

    let duplicate_version = handshake_request().header("sec-websocket-version", "13").build();
    assert!(!duplicate_version.is_websocket_upgrade());
}

#[test]
fn upgrades_are_told_by_the_map_where_no_header_came_in() {
    let mut req = Request::builder().build();
    for (name, value) in [
        ("upgrade", "websocket"),
        ("connection", "Upgrade"),
        ("sec-websocket-key", "dGhlIHNhbXBsZSBub25jZQ=="),
        ("sec-websocket-version", "13"),
    ] {
        assert!(!req.is_websocket_upgrade());
        req.headers.insert(name.to_string(), value.to_string());
    }
    assert!(req.is_websocket_upgrade());
    assert_eq!(Response::websocket(&req).unwrap().status, 101);
}

#[test]
fn opening_asks_less_than_the_rules_of_a_route() {
    let rules = resolved_config(WebSocketConfig::new(), WebSocketConfig::new());
    let mut short_key = handshake_request().build();
    for pair in short_key.header_pairs.iter_mut() {
        if pair.0 == "sec-websocket-key" {
            pair.1 = "c2hvcnQ=".to_string();
        }
    }
    assert_eq!(validate_handshake(&short_key, &rules).unwrap_err().status, 400);
    assert_eq!(Response::websocket(&short_key).unwrap().status, 101);

    let mut old = handshake_request().build();
    old.version = HttpVersion::Http10;
    assert_eq!(validate_handshake(&old, &rules).unwrap_err().status, 400);
    assert_eq!(Response::websocket(&old).unwrap().status, 101);

    let other_version = Request::builder()
        .header("host", "localhost")
        .header("upgrade", "websocket")
        .header("connection", "Upgrade")
        .header("sec-websocket-key", "dGhlIHNhbXBsZSBub25jZQ==")
        .header("sec-websocket-version", "12")
        .build();
    assert_eq!(validate_handshake(&other_version, &rules).unwrap_err().status, 426);
    let error = Response::websocket(&other_version).err().expect("refused");
    assert_eq!(error.line(), "400 Invalid WebSocket upgrade");
}

#[test]
fn websocket_handshake_parses_upgrade_headers_as_tokens() {
    let req = Request::builder()
        .method("GET")
        .header("host", "localhost")
        .header("upgrade", "h2c")
        .header("upgrade", "WebSocket")
        .header("connection", "keep-alive")
        .header("connection", "keep-alive, UpGrAdE")
        .header("sec-websocket-key", "dGhlIHNhbXBsZSBub25jZQ==")
        .header("sec-websocket-version", "13")
        .build();

    assert!(Response::websocket(&req).is_ok());
}

#[test]
fn websocket_handshake_requires_one_non_empty_host() {
    let missing = handshake_request_without_host().build();
    assert_websocket_error_status(&missing, 400);

    let empty = handshake_request_without_host().header("host", "").build();
    assert_websocket_error_status(&empty, 400);

    let duplicate = handshake_request().header("host", "example.com").build();
    assert_websocket_error_status(&duplicate, 400);
}

#[test]
fn websocket_handshake_rejects_duplicate_key() {
    let req = handshake_request()
        .header("sec-websocket-key", "dGhlIHNhbXBsZSBub25jZQ==")
        .build();

    assert_websocket_error_status(&req, 400);
}

#[test]
fn websocket_handshake_rejects_duplicate_version() {
    let req = handshake_request().header("sec-websocket-version", "13").build();

    assert_websocket_error_status(&req, 400);
}

#[test]
fn websocket_handshake_rejects_duplicate_origin() {
    let req = handshake_request()
        .header("origin", "https://app.example.com")
        .header("origin", "https://app.example.com")
        .build();

    assert_websocket_error_status(&req, 400);
}

#[test]
fn websocket_with_rejects_disallowed_origin_with_403() {
    let req = Request::builder()
        .method("GET")
        .header("host", "app.example.com")
        .header("origin", "https://evil.example.com")
        .header("upgrade", "websocket")
        .header("connection", "Upgrade")
        .header("sec-websocket-key", "dGhlIHNhbXBsZSBub25jZQ==")
        .header("sec-websocket-version", "13")
        .secure(true)
        .build();
    let config =
        WebSocketConfig::new().origin_policy(OriginPolicy::same_host().allow_missing(false));
    let mut runtime = local_runtime();

    let (response, admission) = req.websocket_with(&config, &mut runtime, 0);

    assert_eq!(response.status, 403);
    assert!(matches!(admission, Admission::NotAsked));
    assert_eq!(runtime.stats().accepted_connections, 0);
}

#[test]
fn websocket_with_requires_subprotocol_overlap_when_configured() {
    let req = handshake_request().header("sec-websocket-protocol", "graphql-ws").build();
    let config = WebSocketConfig::new().protocols(&["chat"]).require_protocol(true);
    let mut runtime = local_runtime();

    let (response, admission) = req.websocket_with(&config, &mut runtime, 0);

    assert_eq!(response.status, 400);
    assert!(matches!(admission, Admission::NotAsked));
}

#[test]
fn websocket_config_negotiates_first_supported_subprotocol() {
    let req = Request::builder()
        .header("sec-websocket-protocol", "other")
        .header("sec-websocket-protocol", "chat, superchat")
        .build();

    // Client preference order wins among the server-supported protocols.
    let config = WebSocketConfig::new().protocols(&["superchat", "chat"]);
    assert_eq!(config.negotiate(&req).as_deref(), Some("chat"));

    let config = WebSocketConfig::new().protocols(&["superchat"]);
    assert_eq!(config.negotiate(&req).as_deref(), Some("superchat"));

    // No overlap (or no offer) -> no protocol echoed.
    let config = WebSocketConfig::new().protocols(&["graphql-ws"]);
    assert_eq!(config.negotiate(&req), None);
    assert_eq!(WebSocketConfig::new().negotiate(&req), None);
}

#[test]
fn handshake_faults_have_their_own_answers() {
    let config = resolved_config(WebSocketConfig::new(), WebSocketConfig::new());
    let reject = |builder: RequestBuilder| {
        validate_handshake(&builder.build(), &config)
            .err()
            .expect("refused")
    };

    let mut old_version = handshake_request();
    old_version.version = rustrest::request::HttpVersion::Http10;
    let rejection = reject(old_version);
    assert_eq!(rejection.status, 400);
    assert_eq!(rejection.message, "La actualizacion WebSocket requiere HTTP/1.1");

    assert_eq!(
        reject(handshake_request().method("POST")).message,
        "La actualizacion WebSocket requiere el metodo GET"
    );

    let plain = || Request::builder().header("host", "localhost");
    assert_eq!(reject(plain()).message, "La cabecera Upgrade debe incluir websocket");
    let upgrading = || plain().header("upgrade", "websocket");
    assert_eq!(reject(upgrading()).message, "La cabecera Connection debe incluir Upgrade");
    let connecting = || upgrading().header("connection", "upgrade");
    assert_eq!(
        reject(connecting()).message,
        "Sec-WebSocket-Version debe aparecer exactamente una vez"
    );
    let wrong = reject(connecting().header("sec-websocket-version", "8"));
    assert_eq!(wrong.status, 426);
    let answer = wrong.into_response();
    assert_eq!(answer.status, 426);
    assert_eq!(answer.headers.get("sec-websocket-version").unwrap(), "13");
    let versioned = || connecting().header("sec-websocket-version", "13");
    assert_eq!(
        reject(versioned()).message,
        "Sec-WebSocket-Key debe aparecer exactamente una vez"
    );
    assert_eq!(
        reject(versioned().header("sec-websocket-key", "bm90LXNpeHRlZW4=")).message,
        "Sec-WebSocket-Key debe codificar exactamente 16 bytes"
    );
}

#[test]
fn websocket_opens_once_admitted_and_the_connection_can_be_taken_over() {
    let mut runtime = local_runtime();
    let config = WebSocketConfig::new().protocols(&["chat"]);

    let mut req = handshake_request().header("sec-websocket-protocol", "chat").build();
    req.path = "/ws".to_string();
    req.upgrade = true;
    let (response, admission) = req.websocket_with(&config, &mut runtime, 7);
    let opening = match admission {
        Admission::Opened(opening) => opening,
        other => panic!("{other:?}"),
    };
    assert_eq!(response.status, 101);
    assert_eq!(response.headers.get("sec-websocket-protocol").unwrap(), "chat");
    assert_eq!(opening.route, "/ws");
    assert_eq!(opening.protocol.as_deref(), Some("chat"));
    assert_eq!(runtime.stats().active_connections, 1);
    assert_eq!(runtime.connection(opening.id).unwrap().opened_at, 7);

    // A connection that cannot be taken over is given back.
    req.upgrade = false;
    let (response, admission) = req.websocket(&mut runtime, 8);
    assert_eq!(response.status, 400);
    assert_eq!(response.body_text(), "400 La actualizacion WebSocket no esta disponible");
    assert!(matches!(admission, Admission::GivenBack(id) if id.0 == 2));
    assert_eq!(runtime.stats().active_connections, 1);
    assert_eq!(runtime.stats().closed_connections, 1);

    // A runtime that is full answers before the upgrade.
    let full = WebSocketConfig::new().max_connections(1);
    let mut routed = handshake_request().build();
    routed.path = "/ws".to_string();
    routed.upgrade = true;
    let (response, admission) = routed.websocket_with(&full, &mut runtime, 9);
    assert_eq!(response.status, 503);
    assert!(matches!(admission, Admission::Refused(AdmissionError::RouteCapacity)));
    assert_eq!(runtime.stats().rejected_connections, 1);
}

#[test]
fn websocket_runtime_accounts_for_permits() {
    let mut runtime = local_runtime();
    let config = resolved_config(WebSocketConfig::new(), WebSocketConfig::new());
    let first_addr = addr(1, 4001);
    let second_addr = addr(2, 4002);

    let first_id = runtime
        .admit_connection("/chat/:room", Some(first_addr), Some("chat"), &config, 0)
        .unwrap();
    let _second = runtime
        .admit_connection("/chat/:room", Some(second_addr), None, &config, 0)
        .unwrap();
    runtime.join(first_id, &rooms(&["zeta", "general"])).unwrap();

    assert_eq!(runtime.stats().active_connections, 2);
    let first_snapshot = runtime.connection(first_id).unwrap();
    assert_eq!(first_snapshot.id.0, 1);
    assert_eq!(first_snapshot.route, "/chat/:room");
    assert_eq!(first_snapshot.remote_addr, Some(first_addr));
    assert_eq!(first_snapshot.protocol.as_deref(), Some("chat"));
    assert_eq!(first_snapshot.rooms, ["general", "zeta"]);
    assert_eq!(first_snapshot.lifecycle, WebSocketLifecycleState::Connecting);
    let connections = runtime.connections();
    assert_eq!(connections.len(), 2);
    assert!(connections[0].id.0 < connections[1].id.0);
    runtime.release(first_id);
    assert_eq!(runtime.stats().active_connections, 1);
    assert_eq!(runtime.stats().accepted_connections, 2);
}

#[test]
fn websocket_runtime_rejects_capacity_without_partial_registration() {
    let mut process_runtime = local_runtime();
    let process_config = resolved_config(
        WebSocketConfig::new().max_connections(1),
        WebSocketConfig::new().max_connections(1).max_connections_per_ip(1),
    );
    process_runtime
        .admit_connection("/process", Some(addr(1, 4101)), None, &process_config, 0)
        .unwrap();
    assert!(matches!(
        process_runtime.admit_connection("/process", Some(addr(1, 4102)), None, &process_config, 0),
        Err(AdmissionError::ProcessCapacity)
    ));
    assert_eq!(process_runtime.stats().active_connections, 1);
    assert_eq!(process_runtime.stats().accepted_connections, 1);
    assert_eq!(process_runtime.stats().rejected_connections, 1);

    let mut route_runtime = local_runtime();
    let route_config = resolved_config(
        WebSocketConfig::new(),
        WebSocketConfig::new().max_connections(1).max_connections_per_ip(1),
    );
    route_runtime
        .admit_connection("/route/:id", Some(addr(3, 4201)), None, &route_config, 0)
        .unwrap();
    assert!(matches!(
        route_runtime.admit_connection("/route/:id", Some(addr(3, 4202)), None, &route_config, 0),
        Err(AdmissionError::RouteCapacity)
    ));
    assert_eq!(route_runtime.stats().active_connections, 1);
    assert_eq!(route_runtime.stats().accepted_connections, 1);
    assert_eq!(route_runtime.stats().rejected_connections, 1);

    let mut ip_runtime = local_runtime();
    let ip_config = resolved_config(
        WebSocketConfig::new(),
        WebSocketConfig::new().max_connections_per_ip(1),
    );
    ip_runtime
        .admit_connection("/first", Some(addr(5, 4301)), None, &ip_config, 0)
        .unwrap();
    assert!(matches!(
        ip_runtime.admit_connection("/second", Some(addr(5, 4302)), None, &ip_config, 0),
        Err(AdmissionError::IpCapacity)
    ));
    assert_eq!(ip_runtime.stats().active_connections, 1);
    assert_eq!(ip_runtime.stats().accepted_connections, 1);
    assert_eq!(ip_runtime.stats().rejected_connections, 1);
}

#[test]
fn websocket_runtime_rejects_after_accepting_stops() {
    let mut runtime = local_runtime();
    let config = resolved_config(WebSocketConfig::new(), WebSocketConfig::new());

    runtime.stop_accepting();

    assert!(matches!(
        runtime.admit_connection("/ws", None, None, &config, 0),
        Err(AdmissionError::Shutdown)
    ));
    assert_eq!(runtime.stats().active_connections, 0);
    assert_eq!(runtime.stats().accepted_connections, 0);
    assert_eq!(runtime.stats().rejected_connections, 1);
}

#[test]
fn websocket_rooms_are_route_scoped_atomic_and_cleaned_on_release() {
    let mut runtime = local_runtime();
    let config = resolved_config(
        WebSocketConfig::new(),
        WebSocketConfig::new().max_rooms_per_connection(2).max_room_name_bytes(16),
    );
    let chat = runtime.admit_connection("/chat/:channel", None, None, &config, 0).unwrap();
    let admin = runtime.admit_connection("/admin/chat/:channel", None, None, &config, 0).unwrap();

    runtime.join(chat, &rooms(&["general", "equipo-7"])).unwrap();
    runtime.join(chat, &rooms(&["general"])).unwrap();
    runtime.join(admin, &rooms(&["general"])).unwrap();

    assert_eq!(runtime.rooms(chat).unwrap(), vec!["equipo-7", "general"]);
    assert_eq!(runtime.local_room_size("/chat/:channel", "general"), 1);
    assert_eq!(runtime.local_room_size("/admin/chat/:channel", "general"), 1);

    assert!(runtime.join(chat, &rooms(&["a", "b", "c"])).is_err());
    assert!(runtime.join(chat, &rooms(&["valida", ""])).is_err());
    assert!(runtime.join(chat, &rooms(&["con\0nul"])).is_err());
    assert!(runtime.join(chat, &vec!["á".repeat(9)]).is_err());
    assert_eq!(runtime.rooms(chat).unwrap(), vec!["equipo-7", "general"]);

    runtime.leave(chat, &rooms(&["general"])).unwrap();
    runtime.leave(chat, &rooms(&["general"])).unwrap();
    assert_eq!(runtime.rooms(chat).unwrap(), vec!["equipo-7"]);
    runtime.leave_all(chat).unwrap();
    assert!(runtime.rooms(chat).unwrap().is_empty());

    runtime.join(chat, &rooms(&["general"])).unwrap();
    runtime.release(chat);
    assert!(runtime.rooms(WebSocketId(1)).is_none());
    assert_eq!(runtime.local_room_size("/chat/:channel", "general"), 0);
    assert_eq!(runtime.local_room_size("/admin/chat/:channel", "general"), 1);
    runtime.release(admin);
    assert_eq!(runtime.stats().active_rooms, 0);
}

#[test]
fn websocket_hub_room_limits_are_hard_ceilings() {
    let mut ids = NodeIds::new();
    let hub = WsHub::builder()
        .max_rooms_per_connection(1)
        .max_room_name_bytes(4)
        .build(&mut ids)
        .unwrap();
    let mut runtime = hub.runtime();
    let config = resolved_config(
        WebSocketConfig::new(),
        WebSocketConfig::new().max_rooms_per_connection(10).max_room_name_bytes(100),
    );
    let id = runtime.admit_connection("/ws", None, None, &config, 0).unwrap();

    runtime.join(id, &rooms(&["sala"])).unwrap();
    assert!(matches!(runtime.join(id, &rooms(&["otra"])), Err(WsError::RoomLimit)));
    runtime.leave_all(id).unwrap();
    assert!(matches!(runtime.join(id, &rooms(&["larga"])), Err(WsError::InvalidRoom(_))));
}

#[test]
fn websocket_admission_errors_map_before_upgrade() {
    for error in [
        AdmissionError::Shutdown,
        AdmissionError::ProcessCapacity,
        AdmissionError::RouteCapacity,
    ] {
        assert_eq!(error.into_response().status, 503);
    }

    let response = AdmissionError::IpCapacity.into_response();
    assert_eq!(response.status, 429);
    assert_eq!(response.headers.get("retry-after").unwrap(), "1");
}

#[test]
fn shutdown_closes_all_and_forces_those_that_can_be_reached_once() {
    let mut runtime = local_runtime();
    let quick = resolved_config(
        WebSocketConfig::new(),
        WebSocketConfig::new().close_timeout(Duration::from_secs(2)),
    );
    let slow = resolved_config(
        WebSocketConfig::new(),
        WebSocketConfig::new().close_timeout(Duration::from_secs(7)),
    );
    assert_eq!(runtime.shutdown_grace_period(), Duration::from_secs(0));
    let first = runtime.admit_connection("/ws", None, None, &quick, 0).unwrap();
    let second = runtime.admit_connection("/ws", None, None, &slow, 0).unwrap();
    runtime.record_opened(first);
    assert_eq!(runtime.connection(first).unwrap().lifecycle, WebSocketLifecycleState::Open);
    assert!(runtime.register_driver(first));
    assert!(!runtime.register_driver(WebSocketId(99)));
    assert!(runtime.local_socket(second).is_none());

    runtime.begin_shutdown();
    assert!(matches!(
        runtime.admit_connection("/ws", None, None, &quick, 0),
        Err(AdmissionError::Shutdown)
    ));
    assert!(runtime
        .connections()
        .iter()
        .all(|connection| connection.lifecycle == WebSocketLifecycleState::Closing));
    assert_eq!(runtime.shutdown_grace_period(), Duration::from_secs(7));
    assert_eq!(runtime.abort_remaining(), vec![first]);
    assert!(runtime.abort_remaining().is_empty());
}

#[test]
fn shutdown_tells_connections_that_the_server_goes_away() {
    let frame = shutdown_frame();
    assert_eq!(frame.code, 1001);
    assert_eq!(frame.reason, "apagado del servidor");
}

#[test]
fn one_connection_can_be_closed_by_its_id() {
    let mut runtime = local_runtime();
    let config = resolved_config(
        WebSocketConfig::new(),
        WebSocketConfig::new().close_timeout(Duration::from_secs(3)),
    );
    let id = runtime.admit_connection("/ws", None, None, &config, 0).unwrap();
    match runtime.close(id, 1005, "") {
        Err(WsError::InvalidClose { code: 1005, reason }) => {
            assert_eq!(reason, "codigo de cierre reservado o no asignado");
        }
        other => panic!("{other:?}"),
    }
    match runtime.close(id, 1000, &"x".repeat(124)) {
        Err(WsError::InvalidClose { code: 1000, reason }) => {
            assert_eq!(reason, "la razon de cierre supera 123 bytes UTF-8");
        }
        other => panic!("{other:?}"),
    }
    assert!(matches!(
        runtime.close(WebSocketId(9), 1000, ""),
        Err(WsError::ConnectionNotFound(WebSocketId(9)))
    ));
    assert_eq!(runtime.close(id, 1000, "fin").unwrap(), Duration::from_secs(3));
    assert_eq!(runtime.connection(id).unwrap().lifecycle, WebSocketLifecycleState::Closing);
}

#[test]
fn what_happens_is_counted() {
    let mut runtime = local_runtime();
    runtime.record_message(true, 5);
    runtime.record_message(false, 7);
    runtime.record_saturated_send();
    runtime.record_heartbeat_timeout();
    runtime.record_broadcast(0, 0);
    runtime.record_broadcast(1, 0);
    runtime.record_broker_publication();
    runtime.record_broker_error();
    assert!(runtime.set_broker_connected());
    assert!(!runtime.set_broker_connected());
    let stats = runtime.stats();
    assert_eq!((stats.messages_sent, stats.bytes_sent), (1, 5));
    assert_eq!((stats.messages_received, stats.bytes_received), (1, 7));
    assert_eq!((stats.saturated_sends, stats.heartbeat_timeouts), (1, 1));
    assert_eq!((stats.local_broadcasts, stats.partial_broadcasts), (2, 1));
    assert_eq!((stats.broker_publications, stats.broker_errors), (1, 1));
    assert!(stats.broker_connected);
    runtime.set_broker_disconnected();
    assert!(!runtime.stats().broker_connected);
}

#[test]
fn origins_are_held_against_hosts() {
    let same = OriginPolicy::same_host();
    assert!(same.allows(None, "localhost"));
    assert!(same.allows(Some("https://example.com"), "example.com:443"));
    assert!(!same.allows(Some("https://example.com:8443"), "example.com"));
    assert!(same.allows_for_transport(Some("https://EXAMPLE.com"), "example.com", true));
    assert!(!same.allows_for_transport(Some("http://example.com"), "example.com", true));
    assert!(!OriginPolicy::any().allows(Some("not an origin"), "x"));
    assert!(!OriginPolicy::any().allows(Some("https://example.com/path"), "x"));
    assert!(OriginPolicy::any().allows(Some("https://[::1]:80"), "x"));
    assert!(!OriginPolicy::any().allow_missing(false).allows(None, "x"));
}

use rustrest::time::{Duration, Instant};
use rustrest::websocket::broker::{
    InMemoryWsBroker, NodeIds, Received, WsBrokerError, WsBrokerErrorCategory, WsBrokerPayload,
    WsBrokerPublication, WsBrokerTarget, WsNodeId, WsPublicationId,
};
use rustrest::websocket::config::{BackpressurePolicy, ResolvedWebSocketConfig, WebSocketConfig};
use rustrest::websocket::driver::{
    rejected_start, ControlCommand, DriverAction, DriverEvent, DriverState, InboundDelivery,
};
use rustrest::websocket::error::{
    WebSocketCapacityError, WebSocketError, WebSocketTimeout, WsError,
};
use rustrest::websocket::hub::{PublicationVerdict, PublishOutcome, WsBroadcastError, WsHub, WsTarget};
use rustrest::websocket::runtime::AdmissionError;
use rustrest::websocket::socket::{
    close_command, compatibility_error, enqueue, json_data, route_message, send_application,
    unpublished_close, validate_close, LocalEnqueueOutcome, QueueAttempt, Routed,
};
use rustrest::websocket::supervisor::{BrokerSupervisor, SupervisorAction, SupervisorEvent};
use rustrest::websocket::types::{
    CloseFrame, WebSocketCloseInitiator, WebSocketId, WebSocketMessage, WsRemotePublish,
};

fn rules(config: WebSocketConfig) -> ResolvedWebSocketConfig {
    ResolvedWebSocketConfig::from_layers(&WebSocketConfig::new(), &config)
}

fn at(secs: u64) -> Instant {
    Instant { nanos: Duration::from_secs(secs).nanos }
}

fn step(driver: &mut DriverState, config: &ResolvedWebSocketConfig, event: DriverEvent) -> DriverAction {
    assert!(driver.takes(&event), "{driver:?} does not take {event:?}");
    driver.step(config, event)
}

fn publication(id: u64, origin: u64, room: &str) -> WsBrokerPublication {
    WsBrokerPublication::new(
        WsPublicationId::new(id),
        WsNodeId::new(origin),
        WsBrokerTarget::RouteRooms {
            route: "/chat/:channel".to_string(),
            rooms: vec![room.to_string()],
        },
        WsBrokerPayload::Text("uno".to_string()),
    )
}

#[test]
fn websocket_broadcast_report_represents_every_partial_outcome() {
    let mut ids = NodeIds::new();
    let hub = WsHub::local(&mut ids);
    let mut runtime = hub.runtime();
    let config = rules(
        WebSocketConfig::new()
            .outbound_capacity(1)
            .backpressure_policy(BackpressurePolicy::Reject),
    );
    let first = runtime.admit_connection("/chat", None, None, &config, 0).unwrap();
    let second = runtime.admit_connection("/chat", None, None, &config, 0).unwrap();
    let third = runtime.admit_connection("/chat", None, None, &config, 0).unwrap();
    assert!(runtime.register_driver(first));
    assert!(runtime.register_driver(second));

    let target = hub.route("/chat").all();
    assert!(target.send(&hub, &WebSocketMessage::text("broadcast")).is_ok());
    let recipients = runtime.select_broadcast_recipients(
        &target.route,
        &target.rooms,
        target.all_in_scope,
        &target.excluded,
    );
    assert_eq!(recipients.len(), 3);
    assert!(recipients.iter().any(|recipient| recipient.id == third));

    // The first queue is full, the second takes the message, the third has no driver.
    let report = WsTarget::send_local(&vec![
        LocalEnqueueOutcome::Rejected,
        LocalEnqueueOutcome::Enqueued,
        LocalEnqueueOutcome::Disconnected,
    ]);
    assert_eq!(report.matched, 3);
    assert_eq!(report.enqueued, 1);
    assert_eq!(report.rejected, 1);
    assert_eq!(report.disconnected, 1);
    assert_eq!(report.matched, report.enqueued + report.rejected + report.disconnected);
    assert_eq!(report.remote, WsRemotePublish::NotConfigured);
    assert!(matches!(
        hub.all().send(&hub, &WebSocketMessage::Ping(Vec::new())),
        Err(WsBroadcastError::InvalidMessage)
    ));

    // Without the second, and within a room that nobody is in.
    let others = target.except(second);
    let left = runtime.select_broadcast_recipients(
        &others.route,
        &others.rooms,
        others.all_in_scope,
        &others.excluded,
    );
    assert_eq!(left.iter().map(|recipient| recipient.id).collect::<Vec<_>>(), vec![first, third]);
    let room = hub.route("/chat").to("vacia");
    assert!(runtime
        .select_broadcast_recipients(&room.route, &room.rooms, room.all_in_scope, &room.excluded)
        .is_empty());
}

#[test]
fn broadcasts_settle_with_what_the_broker_said() {
    let report = WsTarget::send_local(&vec![LocalEnqueueOutcome::Enqueued]);
    let settled = WsTarget::settle(report, PublishOutcome::Published).unwrap();
    assert_eq!(settled.remote, WsRemotePublish::Published);
    assert_eq!(settled.enqueued, 1);
    let report = WsTarget::send_local(&vec![LocalEnqueueOutcome::Rejected]);
    match WsTarget::settle(report, PublishOutcome::TimedOut) {
        Err(WsBroadcastError::Broker { source: WsBrokerError::Timeout, local_report }) => {
            assert_eq!(local_report.rejected, 1);
        }
        other => panic!("{other:?}"),
    }
}

#[test]
fn websocket_in_memory_broker_exposes_delivery_lag_and_close() {
    let mut broker = InMemoryWsBroker::new();
    let mut feed = broker.subscribe().unwrap();
    assert!(broker.publish().is_ok());
    let received = feed.take(Received::Publication(publication(1, 7, "general"))).unwrap();
    assert_eq!(received.id.get(), 1);
    assert_eq!(received.origin, WsNodeId::new(7));
    assert!(matches!(feed.take(Received::Lagged(1)), Err(WsBrokerError::Lagged(1))));
    assert!(!feed.terminated);

    broker.close();
    assert!(matches!(feed.take(Received::Closed), Err(WsBrokerError::SubscriptionClosed)));
    assert!(feed.terminated);
    assert!(matches!(broker.publish(), Err(WsBrokerError::Unavailable)));
    assert!(matches!(broker.subscribe(), Err(WsBrokerError::SubscriptionClosed)));
}

#[test]
fn publications_are_taken_once_and_never_from_the_own_node() {
    let mut ids = NodeIds::new();
    let hub = WsHub::builder().node_id(WsNodeId::new(5)).build(&mut ids).unwrap();
    let mut runtime = hub.runtime();
    let own = publication(1, 5, "general");
    let other = publication(1, 6, "general");
    let invalid = publication(2, 6, "");
    assert_eq!(WsHub::handle_broker_publication(&mut runtime, &own), PublicationVerdict::Own);
    assert_eq!(WsHub::handle_broker_publication(&mut runtime, &other), PublicationVerdict::Deliver);
    assert_eq!(WsHub::handle_broker_publication(&mut runtime, &other), PublicationVerdict::Duplicate);
    assert_eq!(WsHub::handle_broker_publication(&mut runtime, &invalid), PublicationVerdict::Invalid);
    let (target, message) = WsHub::deliver_broker_publication(other);
    assert_eq!(target.rooms, vec!["general"]);
    assert!(!target.publish_remote);
    assert!(matches!(message, WebSocketMessage::Text(text) if text == "uno"));
}

#[test]
fn queues_that_are_full_follow_the_policy() {
    let full = send_application(BackpressurePolicy::Reject, QueueAttempt::Full);
    assert!(full.saturated && full.disconnect.is_none());
    assert_eq!(enqueue(BackpressurePolicy::Reject, &full.result), LocalEnqueueOutcome::Rejected);
    let slow = send_application(BackpressurePolicy::Disconnect, QueueAttempt::Full);
    assert_eq!(slow.disconnect.unwrap().code, 1013);
    assert_eq!(
        enqueue(BackpressurePolicy::Disconnect, &slow.result),
        LocalEnqueueOutcome::Disconnected
    );
    let taken = send_application(BackpressurePolicy::Wait, QueueAttempt::Sent);
    assert_eq!(enqueue(BackpressurePolicy::Wait, &taken.result), LocalEnqueueOutcome::Enqueued);
    let late = send_application(BackpressurePolicy::Wait, QueueAttempt::TimedOut);
    assert!(late.saturated);
    assert_eq!(enqueue(BackpressurePolicy::Wait, &late.result), LocalEnqueueOutcome::Rejected);
    let gone = send_application(BackpressurePolicy::Wait, QueueAttempt::Closed);
    assert!(matches!(gone.result, Err(WsError::Closed)));
    assert_eq!(enqueue(BackpressurePolicy::Wait, &gone.result), LocalEnqueueOutcome::Disconnected);
}

#[test]
fn close_frames_are_checked() {
    for code in [1000, 1003, 1007, 1013, 3000, 4999] {
        assert!(validate_close(code, "ok").is_ok());
    }
    for code in [0, 999, 1004, 1005, 1006, 1014, 2999, 5000] {
        assert!(validate_close(code, "").is_err());
    }
    assert!(validate_close(1000, &"x".repeat(123)).is_ok());
    assert!(validate_close(1000, &"á".repeat(62)).is_err());
    assert!(matches!(
        close_command(3000, "fin"),
        Ok(ControlCommand::Close(Some(frame))) if frame.code == 3000 && frame.reason == "fin"
    ));
    assert!(matches!(close_command(1005, ""), Err(WsError::InvalidClose { code: 1005, .. })));
}

#[test]
fn messages_go_to_their_queues() {
    assert!(matches!(
        route_message(WebSocketMessage::Ping(vec![1])),
        Routed::Control(ControlCommand::Ping(_))
    ));
    assert!(matches!(route_message(WebSocketMessage::text("x")), Routed::Application(_)));
    assert_eq!(json_data(WebSocketMessage::text("{}")).unwrap(), b"{}");
    assert_eq!(json_data(WebSocketMessage::Pong(vec![1])), None);
    assert!(matches!(
        compatibility_error(WsError::WebSocket(WebSocketError::Json("x".to_string()))),
        WebSocketError::Json(_)
    ));
    assert_eq!(
        compatibility_error(WsError::Closed).message(),
        "websocket protocol error: IO error: la conexion WebSocket esta cerrada"
    );
    assert_eq!(unpublished_close().code, 1006);
}

#[test]
fn drivers_answer_a_close_of_the_peer_and_end_clean() {
    let config = rules(WebSocketConfig::new());
    let mut driver = DriverState::new(at(0));
    let frame = CloseFrame { code: 1000, reason: "bye".to_string() };
    let action = step(
        &mut driver,
        &config,
        DriverEvent::Incoming { message: WebSocketMessage::Close(Some(frame)), at: at(1) },
    );
    assert!(matches!(action, DriverAction::Deliver { flush: true, .. }));
    let action = step(&mut driver, &config, DriverEvent::Delivered(InboundDelivery::Delivered));
    match action {
        DriverAction::Finish { outcome, report } => {
            assert!(!report);
            assert_eq!(outcome.close_info.code, 1000);
            assert_eq!(outcome.close_info.reason, "bye");
            assert_eq!(outcome.close_info.initiator, WebSocketCloseInitiator::Peer);
            assert!(outcome.close_info.clean);
        }
        other => panic!("{other:?}"),
    }
    // A connection that is over takes nothing.
    assert!(!driver.takes(&DriverEvent::IncomingEnded));
}

#[test]
fn drivers_hand_messages_on_and_write_what_is_sent() {
    let config = rules(WebSocketConfig::new());
    let mut driver = DriverState::new(at(0));
    let message = WebSocketMessage::text("hola");
    let action = step(&mut driver, &config, DriverEvent::Incoming { message, at: at(1) });
    assert!(matches!(
        action,
        DriverAction::Deliver { message: WebSocketMessage::Text(ref text), flush: false }
            if text == "hola"
    ));
    let action = step(&mut driver, &config, DriverEvent::Delivered(InboundDelivery::Delivered));
    assert!(matches!(action, DriverAction::Wait));
    let event = DriverEvent::Outbound(WebSocketMessage::text("adios"));
    let action = step(&mut driver, &config, event);
    assert!(matches!(
        action,
        DriverAction::Write(WebSocketMessage::Text(ref text)) if text == "adios"
    ));
    assert!(matches!(
        step(&mut driver, &config, DriverEvent::Written { at: at(2) }),
        DriverAction::Wait
    ));
}

#[test]
fn drivers_close_once_and_write_nothing_after_it() {
    let config = rules(WebSocketConfig::new().close_timeout(Duration::from_secs(5)));
    let mut driver = DriverState::new(at(0));
    let frame = CloseFrame { code: 3000, reason: "fin".to_string() };
    let action = step(
        &mut driver,
        &config,
        DriverEvent::Control(ControlCommand::Close(Some(frame))),
    );
    assert!(matches!(
        action,
        DriverAction::Close { frame: Some(CloseFrame { code: 3000, .. }), drain: true, .. }
    ));
    step(&mut driver, &config, DriverEvent::Written { at: at(10) });
    assert_eq!(driver.close_deadline, Some(at(15)));
    assert!(!driver.takes(&DriverEvent::Outbound(WebSocketMessage::text("late"))));
    let action = step(&mut driver, &config, DriverEvent::HandlerFinished { succeeded: false, senders: 0 });
    assert!(matches!(action, DriverAction::Wait));
    match step(&mut driver, &config, DriverEvent::CloseDeadline) {
        DriverAction::Finish { outcome, .. } => {
            assert!(!outcome.close_info.clean);
            assert_eq!(outcome.close_info.initiator, WebSocketCloseInitiator::Local);
            assert!(outcome.handler_completed);
        }
        other => panic!("{other:?}"),
    }
}

#[test]
fn drivers_watch_over_their_deadlines() {
    let config = rules(
        WebSocketConfig::new()
            .ping_interval(Duration::from_secs(30))
            .pong_timeout(Duration::from_secs(10))
            .idle_timeout(Duration::from_secs(60))
            .max_connection_lifetime(Duration::from_secs(100)),
    );
    let mut driver = DriverState::new(at(0));
    assert_eq!(driver.ping_deadline(&config), Some(at(30)));
    assert_eq!(driver.idle_deadline(&config), Some(at(60)));
    assert_eq!(driver.lifetime_deadline(&config), Some(at(100)));
    assert_eq!(driver.pong_deadline(&config), None);

    let token = vec![0, 0, 0, 0, 0, 0, 0, 1];
    match step(&mut driver, &config, DriverEvent::PingDeadline) {
        DriverAction::Write(WebSocketMessage::Ping(payload)) => assert_eq!(payload, token),
        other => panic!("{other:?}"),
    }
    step(&mut driver, &config, DriverEvent::Written { at: at(31) });
    assert_eq!(driver.pong_deadline(&config), Some(at(41)));
    assert_eq!(driver.ping_deadline(&config), None);

    // Only the Pong with the payload of the Ping counts.
    for (payload, pending) in [(vec![9], true), (token, false)] {
        let message = WebSocketMessage::Pong(payload);
        step(&mut driver, &config, DriverEvent::Incoming { message, at: at(35) });
        step(&mut driver, &config, DriverEvent::Delivered(InboundDelivery::Delivered));
        assert_eq!(driver.pending_ping.is_some(), pending);
    }
    assert_eq!(driver.ping_deadline(&config), Some(at(65)));

    step(&mut driver, &config, DriverEvent::PingDeadline);
    step(&mut driver, &config, DriverEvent::Written { at: at(65) });
    let action = step(&mut driver, &config, DriverEvent::PongDeadline);
    assert!(matches!(
        action,
        DriverAction::Close { frame: Some(CloseFrame { code: 1001, .. }), heartbeat_timeout: true, .. }
    ));
}

#[test]
fn drivers_stop_peers_that_send_too_much() {
    let config = rules(WebSocketConfig::new().message_rate_limit(1, Duration::from_secs(10)));
    let mut driver = DriverState::new(at(0));
    let incoming = |secs: u64| DriverEvent::Incoming { message: WebSocketMessage::text("x"), at: at(secs) };
    step(&mut driver, &config, incoming(1));
    step(&mut driver, &config, DriverEvent::Delivered(InboundDelivery::Delivered));
    // The window is over, so the count begins anew.
    step(&mut driver, &config, incoming(10));
    step(&mut driver, &config, DriverEvent::Delivered(InboundDelivery::Delivered));
    assert!(matches!(
        step(&mut driver, &config, incoming(11)),
        DriverAction::Close { frame: Some(CloseFrame { code: 1008, .. }), .. }
    ));

    let mut slow = DriverState::new(at(0));
    step(&mut slow, &config, incoming(1));
    assert!(matches!(
        step(&mut slow, &config, DriverEvent::Delivered(InboundDelivery::TimedOut)),
        DriverAction::Close { frame: Some(CloseFrame { code: 1013, .. }), .. }
    ));

    let mut large = DriverState::new(at(0));
    assert!(matches!(
        step(&mut large, &config, DriverEvent::IncomingTooLong),
        DriverAction::Close { frame: Some(CloseFrame { code: 1009, .. }), .. }
    ));
}

#[test]
fn drivers_end_with_their_handlers_and_their_transports() {
    let config = rules(WebSocketConfig::new());
    let mut driver = DriverState::new(at(0));
    let waiting = DriverEvent::HandlerFinished { succeeded: true, senders: 1 };
    assert!(matches!(step(&mut driver, &config, waiting), DriverAction::Wait));
    assert!(matches!(
        step(&mut driver, &config, DriverEvent::SendersChanged { ended: false, senders: 0 }),
        DriverAction::Close { frame: Some(CloseFrame { code: 1000, .. }), .. }
    ));

    let mut failing = DriverState::new(at(0));
    assert!(matches!(
        step(&mut failing, &config, DriverEvent::HandlerFinished { succeeded: false, senders: 2 }),
        DriverAction::Close { frame: Some(CloseFrame { code: 1011, .. }), .. }
    ));

    let mut broken = DriverState::new(at(0));
    match step(&mut broken, &config, DriverEvent::IncomingFailed { reason: "reset".to_string() }) {
        DriverAction::Finish { outcome, report: true } => {
            assert_eq!(outcome.close_info.code, 1006);
            assert_eq!(outcome.close_info.reason, "reset");
            assert_eq!(outcome.close_info.initiator, WebSocketCloseInitiator::ProtocolError);
        }
        other => panic!("{other:?}"),
    }

    let mut gone = DriverState::new(at(0));
    match step(&mut gone, &config, DriverEvent::IncomingEnded) {
        DriverAction::Finish { outcome, report: false } => {
            assert_eq!(outcome.close_info.code, 1006);
            assert_eq!(outcome.close_info.initiator, WebSocketCloseInitiator::Peer);
        }
        other => panic!("{other:?}"),
    }

    let (frame, outcome) = rejected_start();
    assert_eq!(frame.code, 1001);
    assert_eq!(outcome.close_info.initiator, WebSocketCloseInitiator::Runtime);
}

#[test]
fn supervisors_wait_longer_after_each_failure_up_to_a_second() {
    let mut supervisor = BrokerSupervisor::new();
    for expected in [100, 200, 400, 800, 1000, 1000] {
        let failed = supervisor.step(SupervisorEvent::SubscribeTimedOut);
        assert_eq!(failed.action, SupervisorAction::Retry { after: Duration::from_millis(expected) });
        assert!(failed.failed);
        assert_eq!(failed.disconnected, Some(WsBrokerErrorCategory::Timeout));
        let again = supervisor.step(SupervisorEvent::RetryElapsed { shutdown: false });
        assert_eq!(again.action, SupervisorAction::Subscribe);
    }
    assert!(supervisor.step(SupervisorEvent::Subscribed).connected);
    assert_eq!(supervisor.step(SupervisorEvent::Publication).action, SupervisorAction::Listen);
    let lagged = supervisor.step(SupervisorEvent::StreamFailed(WsBrokerError::Lagged(3)));
    assert_eq!(lagged.lagged, Some(3));
    assert_eq!(lagged.action, SupervisorAction::Retry { after: Duration::from_millis(100) });
    let stopped = supervisor.step(SupervisorEvent::Shutdown);
    assert_eq!(stopped.action, SupervisorAction::Stop);
    assert!(!supervisor.takes(&SupervisorEvent::Shutdown));
}

#[test]
fn errors_are_told_in_words() {
    let told = |error: WsError| error.message();
    assert_eq!(
        told(WsError::WebSocket(WebSocketError::Json("x".to_string()))),
        "websocket JSON error: x"
    );
    assert_eq!(
        told(WsError::Timeout(WebSocketTimeout::Pong)),
        "tiempo limite WebSocket agotado: Pong"
    );
    assert_eq!(
        told(WsError::Capacity(WebSocketCapacityError::MessageRate)),
        "capacidad WebSocket agotada: MessageRate"
    );
    assert_eq!(
        told(WsError::InvalidConfiguration("m".to_string())),
        "configuracion WebSocket no valida: m"
    );
    assert_eq!(
        told(WsError::InvalidClose { code: 1005, reason: "r".to_string() }),
        "cierre WebSocket no valido (1005): r"
    );
    assert_eq!(told(WsError::InvalidRoom("s".to_string())), "room WebSocket no valido: s");
    assert_eq!(told(WsError::RoomLimit), "limite de rooms WebSocket alcanzado");
    assert_eq!(
        told(WsError::ConnectionNotFound(WebSocketId(12))),
        "la conexion WebSocket 12 no existe en este runtime"
    );
    assert_eq!(told(WsError::Shutdown), "el runtime WebSocket se esta cerrando");
    assert_eq!(told(WsError::HandlerPanic), "el handler WebSocket termino con panic");
    assert_eq!(told(WsError::Closed), "la conexion WebSocket esta cerrada");

    assert_eq!(WsBrokerError::Unavailable.message(), "el broker WebSocket no esta disponible");
    assert_eq!(WsBrokerError::Timeout.message(), "el broker WebSocket agoto su tiempo limite");
    assert_eq!(
        WsBrokerError::Lagged(3).message(),
        "la suscripcion del broker WebSocket perdio 3 publicaciones"
    );
    assert_eq!(
        WsBrokerError::InvalidPublication("m".to_string()).message(),
        "publicacion de broker WebSocket no valida: m"
    );
    assert_eq!(
        WsBrokerError::SubscriptionClosed.message(),
        "la suscripcion del broker WebSocket se cerro"
    );
    assert_eq!(AdmissionError::IpCapacity.reason(), "ip_capacity");
    assert_eq!(AdmissionError::Shutdown.reason(), "shutdown");
}

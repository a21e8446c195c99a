//! Rooms and broadcasts: whom a message is meant for, what becomes of it on this node,
//! and what is handed to the other nodes.

use vstd::prelude::*;

use super::broker::{
    NodeIds, PayloadView, PublicationView, TargetView, WsBrokerError, WsBrokerPayload,
    WsBrokerPublication, WsBrokerTarget, WsNodeId, WsPublicationId,
};
use super::driver::wrapping_next;
use super::error::WsError;
use super::runtime::{remembered, RuntimeHubConfig, RuntimeView, WebSocketCounters, WebSocketRuntimeHandle, saturating};
use super::socket::{byte_len, utf8_len, LocalEnqueueOutcome};
use super::types::{
    MessageView, PeerAddr, WebSocketConnectionSnapshot, WebSocketId, WebSocketLifecycleState,
    WebSocketMessage, WsRemotePublish,
};
use crate::text::{copy_opt, copy_texts, has_char, opt, own_texts, str_views, views};
use crate::text_set::{sorted, TextSet};
use crate::time::Duration;

verus! {

pub const DEFAULT_MAX_ROOMS_PER_CONNECTION: usize = 32;

pub const DEFAULT_MAX_ROOM_NAME_BYTES: usize = 128;

pub const DEFAULT_BROADCAST_CONCURRENCY: usize = 64;

/// Two seconds.
pub const DEFAULT_BROKER_OPERATION_NANOS: u128 = 2_000_000_000;

pub const MAX_BROKER_ROUTE_BYTES: usize = 1024;

pub const MAX_BROKER_PAYLOAD_BYTES: usize = 16_777_216;

/// The limits of a hub, and the node it is.
#[derive(Clone, Copy, Debug)]
pub struct WsHub {
    pub config: RuntimeHubConfig,
}

/// Builds a hub.
#[derive(Clone, Copy, Debug)]
pub struct WsHubBuilder {
    pub max_rooms_per_connection: usize,
    pub max_room_name_bytes: usize,
    pub broadcast_concurrency: usize,
    pub broker_operation_timeout: Duration,
    pub has_broker: bool,
    pub node_id: Option<WsNodeId>,
}

/// The connections on one route.
#[derive(Clone, Debug)]
pub struct WsRoute {
    pub route: String,
}

/// Whom a broadcast is meant for.
#[derive(Clone, Debug)]
pub struct WsTarget {
    pub route: Option<String>,
    pub rooms: Vec<String>,
    pub all_in_scope: bool,
    pub excluded: Vec<u64>,
    pub publish_remote: bool,
}

/// A target as contracts speak of it.
#[verifier::ext_equal]
pub struct WsTargetView {
    pub route: Option<Seq<char>>,
    pub rooms: Seq<Seq<char>>,
    pub all_in_scope: bool,
    pub excluded: Seq<u64>,
    pub publish_remote: bool,
}

impl View for WsTarget {
    type V = WsTargetView;

    open spec fn view(&self) -> WsTargetView {
        WsTargetView {
            route: opt(self.route),
            rooms: views(self.rooms@),
            all_in_scope: self.all_in_scope,
            excluded: self.excluded@,
            publish_remote: self.publish_remote,
        }
    }
}

impl WsTarget {
    /// Whether rooms are only meant together with a route.
    pub open spec fn wf(&self) -> bool {
        self.route is None ==> self.all_in_scope
    }
}

/// A connection of this process.
#[derive(Clone, Debug)]
pub struct WsLocalSocket {
    pub snapshot: WebSocketConnectionSnapshot,
}

/// What became of a broadcast.
#[derive(Clone, Copy, Debug, PartialEq, Eq, Structural)]
pub struct WsBroadcastReport {
    pub matched: usize,
    pub enqueued: usize,
    pub rejected: usize,
    pub disconnected: usize,
    pub remote: WsRemotePublish,
}

/// Why a broadcast failed.
#[derive(Debug)]
pub enum WsBroadcastError {
    InvalidMessage,
    InvalidRoom(String),
    Broker { source: WsBrokerError, local_report: WsBroadcastReport },
    Json(String),
}

/// How a publication to the broker went.
#[derive(Debug)]
pub enum PublishOutcome {
    Published,
    Failed(WsBrokerError),
    TimedOut,
}

/// Whether a name can be that of a room or a route of a publication.
pub open spec fn valid_name(name: Seq<char>, max_bytes: usize) -> bool {
    name.len() > 0 && !name.contains('\0') && utf8_len(name) <= max_bytes
}

/// Whether the rooms of `r` are those of `list`, each once and in order.
pub open spec fn normalized(list: Seq<Seq<char>>, r: Seq<Seq<char>>) -> bool {
    sorted(r) && forall|x: Seq<char>| r.contains(x) <==> list.contains(x)
}

/// The rooms, each once and in order.
pub fn normalize_rooms(rooms: &Vec<String>) -> (r: Vec<String>)
    ensures
        normalized(views(rooms@), views(r@)),
{
    TextSet::from_list(rooms).items
}

/// Refuses a route that a publication can not have.
pub fn validate_broker_route(route: &str) -> (r: Result<(), WsBrokerError>)
    ensures
        match r {
            Ok(_) => valid_name(route@, MAX_BROKER_ROUTE_BYTES),
            Err(e) => !valid_name(route@, MAX_BROKER_ROUTE_BYTES) && refused(
                e,
                "la ruta del broker WebSocket no es valida"@,
            ),
        },
{
    if route.is_empty() || has_char(route, '\0') || byte_len(route) > MAX_BROKER_ROUTE_BYTES {
        return Err(
            WsBrokerError::InvalidPublication(
                "la ruta del broker WebSocket no es valida".to_owned(),
            ),
        );
    }
    Ok(())
}

/// Refuses a room that a publication can not have.
pub fn validate_broker_room(room: &str, max_bytes: usize) -> (r: Result<(), WsBrokerError>)
    ensures
        match r {
            Ok(_) => valid_name(room@, max_bytes),
            Err(e) => !valid_name(room@, max_bytes) && refused(
                e,
                "una room del broker WebSocket no es valida"@,
            ),
        },
{
    if room.is_empty() || has_char(room, '\0') || byte_len(room) > max_bytes {
        return Err(
            WsBrokerError::InvalidPublication(
                "una room del broker WebSocket no es valida".to_owned(),
            ),
        );
    }
    Ok(())
}

/// Whether an error refuses a publication with a message.
pub open spec fn refused(e: WsBrokerError, message: Seq<char>) -> bool {
    e matches WsBrokerError::InvalidPublication(m) && m@ == message
}

/// The length of a payload in bytes.
pub open spec fn payload_len(p: PayloadView) -> nat {
    match p {
        PayloadView::Text(s) => utf8_len(s),
        PayloadView::Binary(b) => b.len(),
    }
}

/// What is wrong with a publication, where anything is.
pub open spec fn publication_fault(config: RuntimeHubConfig, p: PublicationView) -> Option<
    Seq<char>,
> {
    if p.target matches TargetView::RouteRooms { route, .. } && !valid_name(
        route,
        MAX_BROKER_ROUTE_BYTES,
    ) {
        Some("la ruta del broker WebSocket no es valida"@)
    } else if p.target matches TargetView::RouteRooms { rooms, .. } && (rooms.len() == 0
        || rooms.len() > config.max_rooms_per_connection) {
        Some("el destino de rooms debe incluir una cantidad valida"@)
    } else if p.target matches TargetView::RouteRooms { rooms, .. } && exists|i: int|
        0 <= i < rooms.len() && !valid_name(#[trigger] rooms[i], config.max_room_name_bytes) {
        Some("una room del broker WebSocket no es valida"@)
    } else if p.target matches TargetView::RouteAll { route } && !valid_name(
        route,
        MAX_BROKER_ROUTE_BYTES,
    ) {
        Some("la ruta del broker WebSocket no es valida"@)
    } else if payload_len(p.payload) > MAX_BROKER_PAYLOAD_BYTES {
        Some("el payload supera el limite del broker WebSocket"@)
    } else {
        None
    }
}

/// The target that a publication is delivered to. It goes no further than this node.
pub open spec fn delivery_target(t: TargetView, rooms: Seq<Seq<char>>) -> WsTargetView {
    match t {
        TargetView::RouteRooms { route, .. } => WsTargetView {
            route: Some(route),
            rooms,
            all_in_scope: false,
            excluded: Seq::empty(),
            publish_remote: false,
        },
        TargetView::RouteAll { route } => WsTargetView {
            route: Some(route),
            rooms: Seq::empty(),
            all_in_scope: true,
            excluded: Seq::empty(),
            publish_remote: false,
        },
        TargetView::AllRoutes => WsTargetView {
            route: None,
            rooms: Seq::empty(),
            all_in_scope: true,
            excluded: Seq::empty(),
            publish_remote: false,
        },
    }
}

/// The message that a payload makes.
pub open spec fn payload_message(p: PayloadView) -> MessageView {
    match p {
        PayloadView::Text(s) => MessageView::Text(s),
        PayloadView::Binary(b) => MessageView::Binary(b),
    }
}

/// What is done with a publication of the broker.
#[derive(Clone, Copy, Debug, PartialEq, Eq, Structural)]
pub enum PublicationVerdict {
    /// It is this node's own.
    Own,
    /// It is refused.
    Invalid,
    /// It was seen before.
    Duplicate,
    /// It is delivered on this node.
    Deliver,
}

/// What is done with a publication, by what the runtime has seen.
pub open spec fn verdict(v: RuntimeView, p: PublicationView) -> PublicationVerdict {
    if p.origin == v.hub.node_id {
        PublicationVerdict::Own
    } else if publication_fault(v.hub, p) is Some {
        PublicationVerdict::Invalid
    } else if v.seen.contains((p.origin, p.id)) {
        PublicationVerdict::Duplicate
    } else {
        PublicationVerdict::Deliver
    }
}

impl WsHub {
    /// A builder with the default limits.
    pub fn builder() -> (r: WsHubBuilder)
        ensures
            r == WsHubBuilder::defaults(),
    {
        WsHubBuilder::new()
    }

    /// The hub with the default limits.
    pub fn local(ids: &mut NodeIds) -> (r: WsHub)
        ensures
            r.config == (RuntimeHubConfig {
                max_rooms_per_connection: DEFAULT_MAX_ROOMS_PER_CONNECTION,
                max_room_name_bytes: DEFAULT_MAX_ROOM_NAME_BYTES,
                broadcast_concurrency: DEFAULT_BROADCAST_CONCURRENCY,
                broker_operation_timeout: Duration { nanos: DEFAULT_BROKER_OPERATION_NANOS },
                has_broker: false,
                node_id: WsNodeId(old(ids).next),
            }),
            final(ids).next == wrapping_next(old(ids).next),
    {
        let node_id: WsNodeId = ids.allocate_node_id();
        WsHub {
            config: RuntimeHubConfig {
                max_rooms_per_connection: DEFAULT_MAX_ROOMS_PER_CONNECTION,
                max_room_name_bytes: DEFAULT_MAX_ROOM_NAME_BYTES,
                broadcast_concurrency: DEFAULT_BROADCAST_CONCURRENCY,
                broker_operation_timeout: Duration { nanos: DEFAULT_BROKER_OPERATION_NANOS },
                has_broker: false,
                node_id,
            },
        }
    }

    /// A runtime with the limits of the hub.
    pub fn runtime(&self) -> (r: WebSocketRuntimeHandle)
        ensures
            r.wf(),
            r@ == RuntimeView::fresh(self.config),
    {
        WebSocketRuntimeHandle::local_with_hub_config(self.config)
    }

    /// The hub of a runtime.
    pub fn from_runtime(runtime: &WebSocketRuntimeHandle) -> (r: WsHub)
        ensures
            r.config == runtime@.hub,
    {
        WsHub { config: runtime.hub_config() }
    }

    /// The connections on a route.
    pub fn route(&self, route: &str) -> (r: WsRoute)
        ensures
            r.route@ == route@,
    {
        WsRoute { route: route.to_owned() }
    }

    /// Every connection.
    pub fn all(&self) -> (r: WsTarget)
        ensures
            r.wf(),
            r@ == (WsTargetView {
                route: None,
                rooms: Seq::empty(),
                all_in_scope: true,
                excluded: Seq::empty(),
                publish_remote: true,
            }),
    {
        let r: WsTarget = WsTarget {
            route: None,
            rooms: Vec::new(),
            all_in_scope: true,
            excluded: Vec::new(),
            publish_remote: true,
        };
        assert(r@.rooms =~= Seq::empty());
        r
    }

    /// One connection, where its driver can be reached.
    pub fn local_socket(runtime: &WebSocketRuntimeHandle, id: WebSocketId) -> (r: Option<
        WsLocalSocket,
    >)
        ensures
            match r {
                Some(s) => runtime@.has(id.0) && runtime@.conn(id.0).registered && s.snapshot@
                    == super::runtime::shown(runtime@.conn(id.0)),
                None => !runtime@.has(id.0) || !runtime@.conn(id.0).registered,
            },
    {
        match runtime.local_socket(id) {
            Some(snapshot) => Some(WsLocalSocket { snapshot }),
            None => None,
        }
    }

    /// How many connections there are.
    pub fn local_connection_count(runtime: &WebSocketRuntimeHandle) -> (r: usize)
        ensures
            r == runtime@.conns.len(),
    {
        runtime.connections.len()
    }

    /// The node of the hub.
    pub fn node_id(&self) -> (r: WsNodeId)
        ensures
            r == self.config.node_id,
    {
        self.config.node_id
    }

    /// Refuses a publication that no node should have made.
    pub fn validate_broker_publication(&self, publication: &WsBrokerPublication) -> (r: Result<
        (),
        WsBrokerError,
    >)
        ensures
            match publication_fault(self.config, publication@) {
                None => r is Ok,
                Some(message) => r matches Err(e) && refused(e, message),
            },
    {
        match &publication.target {
            WsBrokerTarget::RouteRooms { route, rooms } => {
                if let Err(e) = validate_broker_route(route.as_str()) {
                    return Err(e);
                }
                if rooms.len() == 0 || rooms.len() > self.config.max_rooms_per_connection {
                    return Err(
                        WsBrokerError::InvalidPublication(
                            "el destino de rooms debe incluir una cantidad valida".to_owned(),
                        ),
                    );
                }
                let mut i: usize = 0;
                while i < rooms.len()
                    invariant
                        i <= rooms.len(),
                        rooms.len() > 0,
                        rooms.len() <= self.config.max_rooms_per_connection,
                        valid_name(route@, MAX_BROKER_ROUTE_BYTES),
                        publication@.target == (TargetView::RouteRooms {
                            route: route@,
                            rooms: views(rooms@),
                        }),
                        forall|j: int|
                            0 <= j < i ==> valid_name(
                                #[trigger] views(rooms@)[j],
                                self.config.max_room_name_bytes,
                            ),
                    decreases rooms.len() - i,
                {
                    if let Err(e) = validate_broker_room(
                        rooms[i].as_str(),
                        self.config.max_room_name_bytes,
                    ) {
                        assert(!valid_name(
                            views(rooms@)[i as int],
                            self.config.max_room_name_bytes,
                        ));
                        return Err(e);
                    }
                    i += 1;
                }
            },
            WsBrokerTarget::RouteAll { route } => {
                if let Err(e) = validate_broker_route(route.as_str()) {
                    return Err(e);
                }
            },
            WsBrokerTarget::AllRoutes => {},
        }
        let length: usize = match &publication.payload {
            WsBrokerPayload::Text(text) => byte_len(text.as_str()),
            WsBrokerPayload::Binary(bytes) => bytes.len(),
        };
        if length > MAX_BROKER_PAYLOAD_BYTES {
            return Err(
                WsBrokerError::InvalidPublication(
                    "el payload supera el limite del broker WebSocket".to_owned(),
                ),
            );
        }
        Ok(())
    }

    /// To whom a publication is delivered on this node, and as which message.
    pub fn deliver_broker_publication(publication: WsBrokerPublication) -> (r: (
        WsTarget,
        WebSocketMessage,
    ))
        ensures
            r.0.wf(),
            r.0@ == delivery_target(publication@.target, r.0@.rooms),
            publication@.target matches TargetView::RouteRooms { rooms, .. } ==> normalized(
                rooms,
                r.0@.rooms,
            ),
            r.1@ == payload_message(publication@.payload),
    {
        let message: WebSocketMessage = match publication.payload {
            WsBrokerPayload::Text(text) => WebSocketMessage::Text(text),
            WsBrokerPayload::Binary(bytes) => WebSocketMessage::Binary(bytes),
        };
        let target: WsTarget = match publication.target {
            WsBrokerTarget::RouteRooms { route, rooms } => WsTarget {
                route: Some(route),
                rooms: normalize_rooms(&rooms),
                all_in_scope: false,
                excluded: Vec::new(),
                publish_remote: false,
            },
            WsBrokerTarget::RouteAll { route } => WsTarget {
                route: Some(route),
                rooms: Vec::new(),
                all_in_scope: true,
                excluded: Vec::new(),
                publish_remote: false,
            },
            WsBrokerTarget::AllRoutes => WsTarget {
                route: None,
                rooms: Vec::new(),
                all_in_scope: true,
                excluded: Vec::new(),
                publish_remote: false,
            },
        };
        assert(views(Seq::<String>::empty()) =~= Seq::empty());
        (target, message)
    }

    /// Decides what is done with a publication of the broker, and takes note of it.
    pub fn handle_broker_publication(
        runtime: &mut WebSocketRuntimeHandle,
        publication: &WsBrokerPublication,
    ) -> (r: PublicationVerdict)
        requires
            old(runtime).wf(),
        ensures
            final(runtime).wf(),
            r == verdict(old(runtime)@, publication@),
            final(runtime)@ == (match r {
                PublicationVerdict::Own | PublicationVerdict::Duplicate => old(runtime)@,
                PublicationVerdict::Invalid => RuntimeView {
                    counters: WebSocketCounters {
                        broker_errors: saturating(old(runtime)@.counters.broker_errors, 1),
                        ..old(runtime)@.counters
                    },
                    ..old(runtime)@
                },
                PublicationVerdict::Deliver => RuntimeView {
                    seen: remembered(
                        old(runtime)@.seen,
                        (publication@.origin, publication@.id),
                    ),
                    ..old(runtime)@
                },
            }),
    {
        let hub: WsHub = WsHub::from_runtime(runtime);
        if publication.origin == hub.config.node_id {
            return PublicationVerdict::Own;
        }
        if hub.validate_broker_publication(publication).is_err() {
            runtime.record_broker_error();
            return PublicationVerdict::Invalid;
        }
        if !runtime.mark_publication_seen(publication.origin, publication.id) {
            return PublicationVerdict::Duplicate;
        }
        PublicationVerdict::Deliver
    }
}

impl WsLocalSocket {
    /// The connection's id.
    pub fn id(&self) -> (r: WebSocketId)
        ensures
            r == self.snapshot.id,
    {
        self.snapshot.id
    }

    /// The connection's route.
    pub fn route(&self) -> (r: &str)
        ensures
            r@ == self.snapshot.route@,
    {
        self.snapshot.route.as_str()
    }

    /// The address of the peer.
    pub fn remote_addr(&self) -> (r: Option<PeerAddr>)
        ensures
            r == self.snapshot.remote_addr,
    {
        self.snapshot.remote_addr
    }

    /// The subprotocol of the connection.
    pub fn protocol(&self) -> (r: Option<String>)
        ensures
            r == self.snapshot.protocol,
    {
        copy_opt(&self.snapshot.protocol)
    }

    /// When the connection was opened, in nanoseconds since the Unix epoch.
    pub fn opened_at(&self) -> (r: u128)
        ensures
            r == self.snapshot.opened_at,
    {
        self.snapshot.opened_at
    }

    /// The rooms of the connection.
    pub fn rooms(&self) -> (r: &Vec<String>)
        ensures
            *r == self.snapshot.rooms,
    {
        &self.snapshot.rooms
    }

    /// Where the connection stands in its life.
    pub fn lifecycle(&self) -> (r: WebSocketLifecycleState)
        ensures
            r == self.snapshot.lifecycle,
    {
        self.snapshot.lifecycle
    }
}

impl WsRoute {
    /// The connections in one room.
    pub fn to(&self, room: &str) -> (r: WsTarget)
        ensures
            r.wf(),
            r@ == (WsTargetView {
                route: Some(self.route@),
                rooms: seq![room@],
                all_in_scope: false,
                excluded: Seq::empty(),
                publish_remote: true,
            }),
    {
        let mut list: Vec<String> = Vec::new();
        list.push(room.to_owned());
        let r: WsTarget = WsTarget {
            route: Some(self.route.clone()),
            rooms: list,
            all_in_scope: false,
            excluded: Vec::new(),
            publish_remote: true,
        };
        assert(r@.rooms =~= seq![room@]);
        r
    }

    /// The connections in any of some rooms.
    pub fn to_many(&self, rooms: &[&str]) -> (r: WsTarget)
        ensures
            r.wf(),
            normalized(str_views(rooms@), r@.rooms),
            r@ == (WsTargetView {
                route: Some(self.route@),
                rooms: r@.rooms,
                all_in_scope: false,
                excluded: Seq::empty(),
                publish_remote: true,
            }),
    {
        let list: Vec<String> = own_texts(rooms);
        WsTarget {
            route: Some(self.route.clone()),
            rooms: normalize_rooms(&list),
            all_in_scope: false,
            excluded: Vec::new(),
            publish_remote: true,
        }
    }

    /// The connections on the route.
    pub fn all(&self) -> (r: WsTarget)
        ensures
            r.wf(),
            r@ == (WsTargetView {
                route: Some(self.route@),
                rooms: Seq::empty(),
                all_in_scope: true,
                excluded: Seq::empty(),
                publish_remote: true,
            }),
    {
        let r: WsTarget = WsTarget {
            route: Some(self.route.clone()),
            rooms: Vec::new(),
            all_in_scope: true,
            excluded: Vec::new(),
            publish_remote: true,
        };
        assert(r@.rooms =~= Seq::empty());
        r
    }

    /// How many connections are in a room of the route.
    pub fn local_room_size(&self, runtime: &WebSocketRuntimeHandle, room: &str) -> (r: usize)
        requires
            runtime.wf(),
        ensures
            r == super::runtime::total(
                runtime@.conns,
                super::runtime::in_room(self.route@, room@),
            ),
    {
        runtime.local_room_size(self.route.as_str(), room)
    }
}

/// How many outcomes are of a kind.
pub open spec fn tallied(s: Seq<LocalEnqueueOutcome>, kind: LocalEnqueueOutcome) -> nat
    decreases s.len(),
{
    if s.len() == 0 {
        0
    } else {
        tallied(s.drop_last(), kind) + (if s.last() == kind {
            1nat
        } else {
            0
        })
    }
}

/// Every outcome is of one of the three kinds.
pub proof fn lemma_tallied(s: Seq<LocalEnqueueOutcome>)
    ensures
        tallied(s, LocalEnqueueOutcome::Enqueued) + tallied(s, LocalEnqueueOutcome::Rejected)
            + tallied(s, LocalEnqueueOutcome::Disconnected) == s.len(),
    decreases s.len(),
{
    if s.len() > 0 {
        lemma_tallied(s.drop_last());
    }
}

/// The address of a broadcast for the other nodes.
pub open spec fn remote_target(t: WsTargetView) -> TargetView {
    match t.route {
        Some(route) => if t.all_in_scope {
            TargetView::RouteAll { route }
        } else {
            TargetView::RouteRooms { route, rooms: t.rooms }
        },
        None => TargetView::AllRoutes,
    }
}

/// The payload that a message makes for the other nodes.
pub open spec fn message_payload(m: MessageView) -> Option<PayloadView> {
    match m {
        MessageView::Text(s) => Some(PayloadView::Text(s)),
        MessageView::Binary(b) => Some(PayloadView::Binary(b)),
        _ => None,
    }
}

/// A copy of the bytes.
fn copy_bytes(b: &Vec<u8>) -> (r: Vec<u8>)
    ensures
        r@ == b@,
{
    let mut r: Vec<u8> = Vec::new();
    let mut i: usize = 0;
    while i < b.len()
        invariant
            i <= b.len(),
            r@ == b@.take(i as int),
        decreases b.len() - i,
    {
        r.push(b[i]);
        assert(b@.take(i + 1) =~= b@.take(i as int).push(b@[i as int]));
        i += 1;
    }
    assert(b@.take(b@.len() as int) =~= b@);
    r
}

/// The payload that a message makes for the other nodes.
pub fn broker_payload(message: &WebSocketMessage) -> (r: Option<WsBrokerPayload>)
    ensures
        match r {
            Some(p) => message_payload(message@) == Some(p@),
            None => message_payload(message@) is None,
        },
{
    match message {
        WebSocketMessage::Text(text) => Some(WsBrokerPayload::Text(text.clone())),
        WebSocketMessage::Binary(bytes) => Some(WsBrokerPayload::Binary(copy_bytes(bytes))),
        _ => None,
    }
}

impl WsTarget {
    /// The target without a connection.
    pub fn except(self, id: WebSocketId) -> (r: WsTarget)
        ensures
            self.wf() ==> r.wf(),
            r@ == (WsTargetView { excluded: self@.excluded.push(id.0), ..self@ }),
    {
        let mut excluded: Vec<u64> = self.excluded;
        excluded.push(id.0);
        WsTarget {
            route: self.route,
            rooms: self.rooms,
            all_in_scope: self.all_in_scope,
            excluded,
            publish_remote: self.publish_remote,
        }
    }

    /// Whether a message can be broadcast to the target: it carries application data,
    /// and every room has a name that a room can have. The first that has not is told.
    pub fn send(&self, hub: &WsHub, message: &WebSocketMessage) -> (r: Result<
        (),
        WsBroadcastError,
    >)
        ensures
            !message@.is_application() ==> r == Err::<(), WsBroadcastError>(
                WsBroadcastError::InvalidMessage,
            ),
            message@.is_application() ==> match r {
                Ok(_) => forall|i: int|
                    0 <= i < self@.rooms.len() ==> valid_name(
                        #[trigger] self@.rooms[i],
                        hub.config.max_room_name_bytes,
                    ),
                Err(e) => e matches WsBroadcastError::InvalidRoom(name) && exists|k: int|
                    0 <= k < self@.rooms.len() && name@ == #[trigger] self@.rooms[k]
                        && !valid_name(self@.rooms[k], hub.config.max_room_name_bytes)
                        && forall|i: int|
                        0 <= i < k ==> valid_name(
                            #[trigger] self@.rooms[i],
                            hub.config.max_room_name_bytes,
                        ),
            },
    {
        if !message.is_text() && !message.is_binary() {
            return Err(WsBroadcastError::InvalidMessage);
        }
        let mut i: usize = 0;
        while i < self.rooms.len()
            invariant
                i <= self.rooms.len(),
                message@.is_application(),
                forall|j: int|
                    0 <= j < i ==> valid_name(
                        #[trigger] self@.rooms[j],
                        hub.config.max_room_name_bytes,
                    ),
            decreases self.rooms.len() - i,
        {
            let room: &String = &self.rooms[i];
            assert(self@.rooms[i as int] == room@);
            if room.as_str().is_empty() || has_char(room.as_str(), '\0') || byte_len(
                room.as_str(),
            ) > hub.config.max_room_name_bytes {
                return Err(WsBroadcastError::InvalidRoom(room.clone()));
            }
            i += 1;
        }
        Ok(())
    }

    /// Counts what became of the message for each recipient.
    pub fn send_local(outcomes: &Vec<LocalEnqueueOutcome>) -> (r: WsBroadcastReport)
        ensures
            r.matched == outcomes@.len(),
            r.enqueued == tallied(outcomes@, LocalEnqueueOutcome::Enqueued),
            r.rejected == tallied(outcomes@, LocalEnqueueOutcome::Rejected),
            r.disconnected == tallied(outcomes@, LocalEnqueueOutcome::Disconnected),
            r.remote == WsRemotePublish::NotConfigured,
            r.matched == r.enqueued + r.rejected + r.disconnected,
    {
        let mut enqueued: usize = 0;
        let mut rejected: usize = 0;
        let mut disconnected: usize = 0;
        let mut i: usize = 0;
        assert(outcomes@.take(0) =~= Seq::empty());
        while i < outcomes.len()
            invariant
                i <= outcomes.len(),
                enqueued == tallied(outcomes@.take(i as int), LocalEnqueueOutcome::Enqueued),
                rejected == tallied(outcomes@.take(i as int), LocalEnqueueOutcome::Rejected),
                disconnected == tallied(
                    outcomes@.take(i as int),
                    LocalEnqueueOutcome::Disconnected,
                ),
            decreases outcomes.len() - i,
        {
            proof {
                let s = outcomes@.take(i + 1);
                assert(s.drop_last() =~= outcomes@.take(i as int));
                assert(s.last() == outcomes@[i as int]);
                lemma_tallied(outcomes@.take(i as int));
            }
            match outcomes[i] {
                LocalEnqueueOutcome::Enqueued => {
                    enqueued = enqueued + 1;
                },
                LocalEnqueueOutcome::Rejected => {
                    rejected = rejected + 1;
                },
                LocalEnqueueOutcome::Disconnected => {
                    disconnected = disconnected + 1;
                },
            }
            i += 1;
        }
        proof {
            assert(outcomes@.take(outcomes@.len() as int) =~= outcomes@);
            lemma_tallied(outcomes@);
        }
        WsBroadcastReport {
            matched: outcomes.len(),
            enqueued,
            rejected,
            disconnected,
            remote: WsRemotePublish::NotConfigured,
        }
    }

    /// The address of the broadcast for the other nodes.
    pub fn broker_target(&self) -> (r: WsBrokerTarget)
        requires
            self.wf(),
        ensures
            r@ == remote_target(self@),
    {
        match &self.route {
            Some(route) => if self.all_in_scope {
                WsBrokerTarget::RouteAll { route: route.clone() }
            } else {
                WsBrokerTarget::RouteRooms { route: route.clone(), rooms: copy_texts(&self.rooms) }
            },
            None => WsBrokerTarget::AllRoutes,
        }
    }

    /// What is handed to the other nodes, where anything is: the target goes beyond
    /// this node and the hub has a broker.
    pub fn publication(
        &self,
        runtime: &mut WebSocketRuntimeHandle,
        message: &WebSocketMessage,
    ) -> (r: Option<WsBrokerPublication>)
        requires
            self.wf(),
            old(runtime).wf(),
            message@.is_application(),
        ensures
            final(runtime).wf(),
            r is Some <==> self@.publish_remote && old(runtime)@.hub.has_broker,
            r matches Some(p) ==> p@ == (PublicationView {
                id: WsPublicationId(old(runtime)@.next_publication_id),
                origin: old(runtime)@.hub.node_id,
                target: remote_target(self@),
                payload: message_payload(message@)->0,
            }),
            final(runtime)@ == (RuntimeView {
                next_publication_id: if r is Some {
                    wrapping_next(old(runtime)@.next_publication_id)
                } else {
                    old(runtime)@.next_publication_id
                },
                ..old(runtime)@
            }),
    {
        let hub: RuntimeHubConfig = runtime.hub_config();
        if !self.publish_remote || !hub.has_broker {
            return None;
        }
        match broker_payload(message) {
            Some(payload) => {
                let id: WsPublicationId = runtime.next_publication_id();
                Some(WsBrokerPublication::new(id, hub.node_id, self.broker_target(), payload))
            },
            None => None,
        }
    }

    /// What a broadcast reports once its publication has gone one way or the other. The
    /// local report is kept even where the broker fails.
    pub fn settle(report: WsBroadcastReport, outcome: PublishOutcome) -> (r: Result<
        WsBroadcastReport,
        WsBroadcastError,
    >)
        ensures
            match outcome {
                PublishOutcome::Published => r == Ok::<WsBroadcastReport, WsBroadcastError>(
                    WsBroadcastReport { remote: WsRemotePublish::Published, ..report },
                ),
                PublishOutcome::Failed(e) => r == Err::<WsBroadcastReport, WsBroadcastError>(
                    WsBroadcastError::Broker { source: e, local_report: report },
                ),
                PublishOutcome::TimedOut => r == Err::<WsBroadcastReport, WsBroadcastError>(
                    WsBroadcastError::Broker {
                        source: WsBrokerError::Timeout,
                        local_report: report,
                    },
                ),
            },
    {
        match outcome {
            PublishOutcome::Published => Ok(
                WsBroadcastReport {
                    matched: report.matched,
                    enqueued: report.enqueued,
                    rejected: report.rejected,
                    disconnected: report.disconnected,
                    remote: WsRemotePublish::Published,
                },
            ),
            PublishOutcome::Failed(e) => Err(
                WsBroadcastError::Broker { source: e, local_report: report },
            ),
            PublishOutcome::TimedOut => Err(
                WsBroadcastError::Broker { source: WsBrokerError::Timeout, local_report: report },
            ),
        }
    }
}

impl WsHubBuilder {
    /// The builder with the default limits, as contracts speak of it.
    pub open spec fn defaults() -> WsHubBuilder {
        WsHubBuilder {
            max_rooms_per_connection: DEFAULT_MAX_ROOMS_PER_CONNECTION,
            max_room_name_bytes: DEFAULT_MAX_ROOM_NAME_BYTES,
            broadcast_concurrency: DEFAULT_BROADCAST_CONCURRENCY,
            broker_operation_timeout: Duration { nanos: DEFAULT_BROKER_OPERATION_NANOS },
            has_broker: false,
            node_id: None,
        }
    }

    /// A builder with the default limits.
    pub fn new() -> (r: WsHubBuilder)
        ensures
            r == WsHubBuilder::defaults(),
    {
        WsHubBuilder {
            max_rooms_per_connection: DEFAULT_MAX_ROOMS_PER_CONNECTION,
            max_room_name_bytes: DEFAULT_MAX_ROOM_NAME_BYTES,
            broadcast_concurrency: DEFAULT_BROADCAST_CONCURRENCY,
            broker_operation_timeout: Duration { nanos: DEFAULT_BROKER_OPERATION_NANOS },
            has_broker: false,
            node_id: None,
        }
    }

    /// Caps the rooms that one connection is in.
    pub fn max_rooms_per_connection(self, max_rooms: usize) -> (r: WsHubBuilder)
        ensures
            r == (WsHubBuilder { max_rooms_per_connection: max_rooms, ..self }),
    {
        WsHubBuilder { max_rooms_per_connection: max_rooms, ..self }
    }

    /// Caps the length of a room's name, in bytes.
    pub fn max_room_name_bytes(self, max_bytes: usize) -> (r: WsHubBuilder)
        ensures
            r == (WsHubBuilder { max_room_name_bytes: max_bytes, ..self }),
    {
        WsHubBuilder { max_room_name_bytes: max_bytes, ..self }
    }

    /// How many recipients of a broadcast are served at a time.
    pub fn broadcast_concurrency(self, concurrency: usize) -> (r: WsHubBuilder)
        ensures
            r == (WsHubBuilder { broadcast_concurrency: concurrency, ..self }),
    {
        WsHubBuilder { broadcast_concurrency: concurrency, ..self }
    }

    /// How long the broker may take for one operation.
    pub fn broker_operation_timeout(self, timeout: Duration) -> (r: WsHubBuilder)
        ensures
            r == (WsHubBuilder { broker_operation_timeout: timeout, ..self }),
    {
        WsHubBuilder { broker_operation_timeout: timeout, ..self }
    }

    /// The hub has a broker.
    pub fn broker(self) -> (r: WsHubBuilder)
        ensures
            r == (WsHubBuilder { has_broker: true, ..self }),
    {
        WsHubBuilder { has_broker: true, ..self }
    }

    /// The node that the hub is.
    pub fn node_id(self, node_id: WsNodeId) -> (r: WsHubBuilder)
        ensures
            r == (WsHubBuilder { node_id: Some(node_id), ..self }),
    {
        WsHubBuilder { node_id: Some(node_id), ..self }
    }

    /// Whether a limit is zero.
    pub open spec fn has_zero_limit(self) -> bool {
        self.max_rooms_per_connection == 0 || self.max_room_name_bytes == 0
            || self.broadcast_concurrency == 0 || self.broker_operation_timeout.nanos == 0
    }

    /// The hub, unless a limit is zero. Where no node was given it is the next one.
    pub fn build(self, ids: &mut NodeIds) -> (r: Result<WsHub, WsError>)
        ensures
            self.has_zero_limit() ==> (r matches Err(WsError::InvalidConfiguration(m)) && m@
                == "los limites del hub WebSocket deben ser mayores que cero"@) && *final(ids)
                == *old(ids),
            !self.has_zero_limit() ==> (r matches Ok(hub) && hub.config == (RuntimeHubConfig {
                max_rooms_per_connection: self.max_rooms_per_connection,
                max_room_name_bytes: self.max_room_name_bytes,
                broadcast_concurrency: self.broadcast_concurrency,
                broker_operation_timeout: self.broker_operation_timeout,
                has_broker: self.has_broker,
                node_id: match self.node_id {
                    Some(id) => id,
                    None => WsNodeId(old(ids).next),
                },
            })) && final(ids).next == (if self.node_id is None {
                wrapping_next(old(ids).next)
            } else {
                old(ids).next
            }),
    {
        if self.max_rooms_per_connection == 0 || self.max_room_name_bytes == 0
            || self.broadcast_concurrency == 0 || self.broker_operation_timeout.is_zero() {
            return Err(
                WsError::InvalidConfiguration(
                    "los limites del hub WebSocket deben ser mayores que cero".to_owned(),
                ),
            );
        }
        let node_id: WsNodeId = match self.node_id {
            Some(id) => id,
            None => ids.allocate_node_id(),
        };
        Ok(
            WsHub {
                config: RuntimeHubConfig {
                    max_rooms_per_connection: self.max_rooms_per_connection,
                    max_room_name_bytes: self.max_room_name_bytes,
                    broadcast_concurrency: self.broadcast_concurrency,
                    broker_operation_timeout: self.broker_operation_timeout,
                    has_broker: self.has_broker,
                    node_id,
                },
            },
        )
    }
}

impl Default for WsHubBuilder {
    fn default() -> (r: Self)
        ensures
            r == WsHubBuilder::defaults(),
    {
        WsHubBuilder::new()
    }
}

/// A broadcast that one node makes and another receives reaches the same rooms there:
/// the address that goes out is the one that is delivered to, on the other node alone.
pub proof fn law_publication_keeps_its_address(t: WsTarget, rooms: Seq<Seq<char>>)
    requires
        t.wf(),
        sorted(t@.rooms),
        t@.all_in_scope ==> t@.rooms == Seq::<Seq<char>>::empty(),
        !t@.all_in_scope ==> normalized(t@.rooms, rooms),
    ensures
        delivery_target(remote_target(t@), rooms) == (WsTargetView {
            excluded: Seq::empty(),
            publish_remote: false,
            ..t@
        }),
{
    if !t@.all_in_scope {
        crate::text_set::lemma_sorted_unique(rooms, t@.rooms);
    }
}

/// A publication is delivered at most once while it is remembered: the second time it
/// is a duplicate.
pub proof fn law_publication_is_delivered_once(v: RuntimeView, p: PublicationView)
    requires
        verdict(v, p) == PublicationVerdict::Deliver,
    ensures
        verdict(
            RuntimeView { seen: remembered(v.seen, (p.origin, p.id)), ..v },
            p,
        ) == PublicationVerdict::Duplicate,
{
    let now = remembered(v.seen, (p.origin, p.id));
    assert(now[now.len() - 1] == (p.origin, p.id));
}

/// A node never delivers its own publications.
pub proof fn law_own_publication_is_ignored(v: RuntimeView, p: PublicationView)
    requires
        p.origin == v.hub.node_id,
    ensures
        verdict(v, p) == PublicationVerdict::Own,
{
}

/// A publication is delivered exactly where it comes from another node, nothing is wrong
/// with it, and it was not seen before.
pub proof fn law_new_publications_are_delivered(v: RuntimeView, p: PublicationView)
    ensures
        verdict(v, p) == PublicationVerdict::Deliver <==> p.origin != v.hub.node_id
            && publication_fault(v.hub, p) is None && !v.seen.contains((p.origin, p.id)),
        verdict(v, p) == PublicationVerdict::Duplicate <==> p.origin != v.hub.node_id
            && publication_fault(v.hub, p) is None && v.seen.contains((p.origin, p.id)),
        verdict(v, p) == PublicationVerdict::Invalid <==> p.origin != v.hub.node_id
            && publication_fault(v.hub, p) is Some,
        verdict(v, p) == PublicationVerdict::Own <==> p.origin == v.hub.node_id,
{
}

/// A publication is in order exactly where its route has a name of up to 1024 bytes, its
/// rooms are as many as a connection may be in and have names of up to the limit, and its
/// payload has up to sixteen mebibytes.
pub proof fn law_publications_in_order(config: RuntimeHubConfig, p: PublicationView)
    ensures
        p.target matches TargetView::RouteRooms { route, rooms } ==> (publication_fault(config, p)
            is None <==> route.len() > 0 && !route.contains('\0') && utf8_len(route)
            <= 1024 && 0 < rooms.len() <= config.max_rooms_per_connection && (
        forall|i: int|
            0 <= i < rooms.len() ==> (#[trigger] rooms[i]).len() > 0 && !rooms[i].contains('\0')
                && utf8_len(rooms[i]) <= config.max_room_name_bytes) && payload_len(p.payload)
            <= 16_777_216),
        p.target matches TargetView::RouteAll { route } ==> (publication_fault(config, p) is None
            <==> route.len() > 0 && !route.contains('\0') && utf8_len(route)
            <= 1024 && payload_len(p.payload) <= 16_777_216),
        p.target is AllRoutes ==> (publication_fault(config, p) is None <==> payload_len(p.payload)
            <= 16_777_216),
        p.payload matches PayloadView::Text(s) ==> payload_len(p.payload) == utf8_len(s),
        p.payload matches PayloadView::Binary(b) ==> payload_len(p.payload) == b.len(),
{
    if let TargetView::RouteRooms { route, rooms } = p.target {
        if publication_fault(config, p) is None {
            assert forall|i: int| 0 <= i < rooms.len() implies (#[trigger] rooms[i]).len() > 0
                && !rooms[i].contains('\0') && utf8_len(rooms[i]) <= config.max_room_name_bytes by {
                assert(valid_name(rooms[i], config.max_room_name_bytes));
            }
        }
    }
}

/// What one node sends another node delivers: the same message to the same address.
pub proof fn law_messages_cross_nodes_as_they_are(m: MessageView, t: WsTargetView)
    ensures
        m is Text || m is Binary ==> message_payload(m) is Some && payload_message(
            message_payload(m)->0,
        ) == m,
        m is Ping || m is Pong || m is Close ==> message_payload(m) is None,
        t.route is None ==> remote_target(t) is AllRoutes,
        t.route matches Some(r) ==> (t.all_in_scope ==> remote_target(t) == (TargetView::RouteAll {
            route: r,
        })),
        t.route matches Some(r) ==> (!t.all_in_scope ==> remote_target(t)
            == (TargetView::RouteRooms { route: r, rooms: t.rooms })),
        forall|rooms: Seq<Seq<char>>|
            !(#[trigger] delivery_target(remote_target(t), rooms)).publish_remote
                && delivery_target(remote_target(t), rooms).excluded.len() == 0,
{
}

/// Each recipient is counted once, as what became of the message for it.
pub proof fn law_outcomes_are_counted(s: Seq<LocalEnqueueOutcome>, x: LocalEnqueueOutcome)
    ensures
        tallied(Seq::empty(), x) == 0,
        forall|k: LocalEnqueueOutcome| #[trigger]
            tallied(s.push(x), k) == tallied(s, k) + (if k == x {
                1nat
            } else {
                0
            }),
{
    assert(s.push(x).drop_last() =~= s);
}

/// Names of rooms are told once each, whatever order and however often they were given.
pub proof fn law_normalized_rooms_are_the_same_rooms(
    a: Seq<Seq<char>>,
    b: Seq<Seq<char>>,
    r: Seq<Seq<char>>,
    q: Seq<Seq<char>>,
)
    requires
        normalized(a, r),
        normalized(b, q),
        forall|x: Seq<char>| a.contains(x) <==> b.contains(x),
    ensures
        r == q,
        r.no_duplicates(),
{
    crate::text_set::lemma_sorted_unique(r, q);
    crate::text_set::lemma_sorted_distinct(r);
}

/// A hub is refused exactly where one of its limits is zero.
pub proof fn law_hubs_have_limits(b: WsHubBuilder)
    ensures
        !b.has_zero_limit() <==> b.max_rooms_per_connection > 0 && b.max_room_name_bytes > 0
            && b.broadcast_concurrency > 0 && b.broker_operation_timeout.nanos > 0,
{
}

/// Where nothing else is said a hub allows 32 rooms with names of 128 bytes, sends to 64
/// connections at once, and gives its broker two seconds; it has no broker of its own.
pub proof fn law_hubs_have_defaults()
    ensures
        WsHubBuilder::defaults().max_rooms_per_connection == 32,
        WsHubBuilder::defaults().max_room_name_bytes == 128,
        WsHubBuilder::defaults().broadcast_concurrency == 64,
        WsHubBuilder::defaults().broker_operation_timeout.nanos == 2_000_000_000,
        !WsHubBuilder::defaults().has_broker,
        WsHubBuilder::defaults().node_id is None,
        !WsHubBuilder::defaults().has_zero_limit(),
{
}

/// A publication that is refused is refused as such, and told why.
pub proof fn law_refused_publications_are_told_why(e: WsBrokerError, message: Seq<char>)
    ensures
        refused(e, message) ==> e is InvalidPublication && e.text()
            == "publicacion de broker WebSocket no valida: "@ + message,
        (e matches WsBrokerError::InvalidPublication(m) && m@ == message) ==> refused(e, message),
{
}

/// A publication that is not in order is told the first thing that is wrong with it.
pub proof fn law_faults_of_publications_are_told(config: RuntimeHubConfig, p: PublicationView)
    ensures
        p.target matches TargetView::RouteRooms { route, rooms } ==> {
            let named = route.len() > 0 && !route.contains('\0') && utf8_len(route) <= 1024;
            let some = 0 < rooms.len() <= config.max_rooms_per_connection;
            &&& !named ==> publication_fault(config, p) == Some(
                "la ruta del broker WebSocket no es valida"@,
            )
            &&& named && !some ==> publication_fault(config, p) == Some(
                "el destino de rooms debe incluir una cantidad valida"@,
            )
            &&& named && some && payload_len(p.payload) <= 16_777_216 && publication_fault(
                config,
                p,
            ) is Some ==> publication_fault(config, p) == Some(
                "una room del broker WebSocket no es valida"@,
            )
        },
        p.target matches TargetView::RouteAll { route } ==> (route.len() == 0 || route.contains(
            '\0',
        ) || utf8_len(route) > 1024 ==> publication_fault(config, p) == Some(
            "la ruta del broker WebSocket no es valida"@,
        )),
        p.target is AllRoutes && payload_len(p.payload) > 16_777_216 ==> publication_fault(config, p)
            == Some("el payload supera el limite del broker WebSocket"@),
{
}

} // verus!

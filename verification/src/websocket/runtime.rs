//! The connections of a process: admission, rooms, counters, and shutdown.
//!
//! `WebSocketRuntimeHandle` is the state that the tasks of a process share behind a
//! lock. Its indexes over the connections are kept in step with them.

use vstd::prelude::*;

use super::broker::{WsNodeId, WsPublicationId};
use super::config::{str_opt, ConfigView, ResolvedWebSocketConfig};
use super::error::WsError;
use super::index::{Counts, RoomIndex};
use super::socket::{byte_len, close_fault, utf8_len, validate_close};
use super::types::{
    IpAddress, PeerAddr, WebSocketConnectionSnapshot, WebSocketId, WebSocketLifecycleState,
    WebSocketStats,
};
use crate::text::{copy_opt, has_char, opt, same, views};
use crate::text_set::{sorted, TextSet};
use crate::time::Duration;

verus! {

/// How many publications a node remembers to have seen.
pub const MAX_SEEN_PUBLICATIONS: usize = 4096;

/// Why a connection is not admitted.
#[derive(Clone, Copy, Debug, PartialEq, Eq, Structural)]
pub enum AdmissionError {
    Shutdown,
    ProcessCapacity,
    RouteCapacity,
    IpCapacity,
}

impl AdmissionError {
    /// The name of the reason, as contracts speak of it.
    pub open spec fn spec_reason(self) -> Seq<char> {
        match self {
            AdmissionError::Shutdown => "shutdown"@,
            AdmissionError::ProcessCapacity => "process_capacity"@,
            AdmissionError::RouteCapacity => "route_capacity"@,
            AdmissionError::IpCapacity => "ip_capacity"@,
        }
    }

    /// The name of the reason.
    pub fn reason(self) -> (r: &'static str)
        ensures
            r@ == self.spec_reason(),
    {
        match self {
            AdmissionError::Shutdown => "shutdown",
            AdmissionError::ProcessCapacity => "process_capacity",
            AdmissionError::RouteCapacity => "route_capacity",
            AdmissionError::IpCapacity => "ip_capacity",
        }
    }
}

/// A connection of the process.
#[derive(Debug)]
pub struct ConnectionEntry {
    pub id: u64,
    pub route: String,
    pub remote_addr: Option<PeerAddr>,
    pub protocol: Option<String>,
    pub opened_at: u128,
    pub close_timeout: Duration,
    pub max_rooms_per_connection: usize,
    pub max_room_name_bytes: usize,
    pub rooms: TextSet,
    pub lifecycle: WebSocketLifecycleState,
    /// Whether the connection's driver can be reached.
    pub registered: bool,
    pub forced_shutdown_observed: bool,
}

/// A connection as contracts speak of it.
#[verifier::ext_equal]
pub struct ConnView {
    pub id: u64,
    pub route: Seq<char>,
    pub remote_addr: Option<PeerAddr>,
    pub protocol: Option<Seq<char>>,
    pub opened_at: u128,
    pub close_timeout: Duration,
    pub max_rooms_per_connection: usize,
    pub max_room_name_bytes: usize,
    pub rooms: Seq<Seq<char>>,
    pub lifecycle: WebSocketLifecycleState,
    pub registered: bool,
    pub forced_shutdown_observed: bool,
}

impl View for ConnectionEntry {
    type V = ConnView;

    open spec fn view(&self) -> ConnView {
        ConnView {
            id: self.id,
            route: self.route@,
            remote_addr: self.remote_addr,
            protocol: opt(self.protocol),
            opened_at: self.opened_at,
            close_timeout: self.close_timeout,
            max_rooms_per_connection: self.max_rooms_per_connection,
            max_room_name_bytes: self.max_room_name_bytes,
            rooms: self.rooms@,
            lifecycle: self.lifecycle,
            registered: self.registered,
            forced_shutdown_observed: self.forced_shutdown_observed,
        }
    }
}

/// What a runtime has counted.
#[derive(Clone, Copy, Debug, PartialEq, Eq, Structural)]
pub struct WebSocketCounters {
    pub accepted_connections: u64,
    pub rejected_connections: u64,
    pub closed_connections: u64,
    pub messages_received: u64,
    pub messages_sent: u64,
    pub bytes_received: u64,
    pub bytes_sent: u64,
    pub saturated_sends: u64,
    pub heartbeat_timeouts: u64,
    pub room_joins: u64,
    pub room_leaves: u64,
    pub local_broadcasts: u64,
    pub partial_broadcasts: u64,
    pub broker_publications: u64,
    pub broker_errors: u64,
}

/// The limits of a hub, and the node it is.
#[derive(Clone, Copy, Debug, PartialEq, Eq, Structural)]
pub struct RuntimeHubConfig {
    pub max_rooms_per_connection: usize,
    pub max_room_name_bytes: usize,
    pub broadcast_concurrency: usize,
    pub broker_operation_timeout: Duration,
    pub has_broker: bool,
    pub node_id: WsNodeId,
}

/// The rooms of a route that a connection has joined or left.
#[derive(Debug)]
pub struct RoomChange {
    pub route: String,
    pub rooms: Vec<String>,
}

/// One recipient of a broadcast, and whether it can be reached.
#[derive(Clone, Copy, Debug, PartialEq, Eq, Structural)]
pub struct LocalBroadcastRecipient {
    pub id: WebSocketId,
    pub registered: bool,
}

/// The connections of a process and what it has counted.
#[derive(Debug)]
pub struct WebSocketRuntimeHandle {
    pub accepting: bool,
    pub next_id: u64,
    pub next_publication_id: u64,
    pub broker_started: bool,
    pub connections: Vec<ConnectionEntry>,
    pub route_counts: Counts<String>,
    pub ip_counts: Counts<IpAddress>,
    pub rooms: RoomIndex,
    pub broker_connected: bool,
    pub seen_publications: Vec<(WsNodeId, WsPublicationId)>,
    pub counters: WebSocketCounters,
    pub hub: RuntimeHubConfig,
}

/// A runtime as contracts speak of it: its connections in the order of their ids, and
/// the publications it has seen, the oldest first.
#[verifier::ext_equal]
pub struct RuntimeView {
    pub accepting: bool,
    pub next_id: u64,
    pub next_publication_id: u64,
    pub broker_started: bool,
    pub conns: Seq<ConnView>,
    pub broker_connected: bool,
    pub seen: Seq<(WsNodeId, WsPublicationId)>,
    pub counters: WebSocketCounters,
    pub hub: RuntimeHubConfig,
}

/// The views of a sequence of connections.
pub open spec fn conn_views(s: Seq<ConnectionEntry>) -> Seq<ConnView> {
    Seq::new(s.len(), |i: int| s[i]@)
}

impl View for WebSocketRuntimeHandle {
    type V = RuntimeView;

    open spec fn view(&self) -> RuntimeView {
        RuntimeView {
            accepting: self.accepting,
            next_id: self.next_id,
            next_publication_id: self.next_publication_id,
            broker_started: self.broker_started,
            conns: conn_views(self.connections@),
            broker_connected: self.broker_connected,
            seen: self.seen_publications@,
            counters: self.counters,
            hub: self.hub,
        }
    }
}

/// How many connections have a property.
pub open spec fn total(c: Seq<ConnView>, p: spec_fn(ConnView) -> bool) -> nat
    decreases c.len(),
{
    if c.len() == 0 {
        0
    } else {
        total(c.drop_last(), p) + (if p(c.last()) {
            1nat
        } else {
            0
        })
    }
}

/// The ids of the connections that have a property, in order.
pub open spec fn ids(c: Seq<ConnView>, p: spec_fn(ConnView) -> bool) -> Seq<u64>
    decreases c.len(),
{
    if c.len() == 0 {
        Seq::empty()
    } else if p(c.last()) {
        ids(c.drop_last(), p).push(c.last().id)
    } else {
        ids(c.drop_last(), p)
    }
}

/// The IP address of an optional peer.
pub open spec fn ip_of(addr: Option<PeerAddr>) -> Option<IpAddress> {
    match addr {
        Some(a) => Some(a.ip),
        None => None,
    }
}

/// That a connection is on a route.
pub open spec fn on_route(route: Seq<char>) -> spec_fn(ConnView) -> bool {
    |v: ConnView| v.route == route
}

/// That a connection comes from an IP address.
pub open spec fn from_ip(ip: IpAddress) -> spec_fn(ConnView) -> bool {
    |v: ConnView| ip_of(v.remote_addr) == Some(ip)
}

/// That a connection is in a room of a route.
pub open spec fn in_room(route: Seq<char>, room: Seq<char>) -> spec_fn(ConnView) -> bool {
    |v: ConnView| v.route == route && v.rooms.contains(room)
}

/// That a connection is meant by a broadcast: on the route, if one is given, and in one
/// of the rooms, unless everyone in scope is meant; and not excluded.
pub open spec fn addressed(
    route: Option<Seq<char>>,
    rooms: Seq<Seq<char>>,
    all_in_scope: bool,
    excluded: Seq<u64>,
) -> spec_fn(ConnView) -> bool {
    |v: ConnView|
        {
            &&& !excluded.contains(v.id)
            &&& if all_in_scope {
                route is None || route == Some(v.route)
            } else {
                route == Some(v.route) && exists|i: int|
                    0 <= i < rooms.len() && v.rooms.contains(#[trigger] rooms[i])
            }
        }
}

/// Whether some connection with an id has a property.
pub open spec fn some_conn(c: Seq<ConnView>, p: spec_fn(ConnView) -> bool, id: u64) -> bool {
    exists|i: int| 0 <= i < c.len() && p(#[trigger] c[i]) && c[i].id == id
}

/// The position of the connection with an id, or the number of connections.
pub open spec fn place(c: Seq<ConnView>, id: u64) -> int
    decreases c.len(),
{
    if c.len() == 0 || c[0].id == id {
        0
    } else {
        1 + place(c.skip(1), id)
    }
}

/// The rooms, with their routes, in which there is a connection.
pub open spec fn occupied(c: Seq<ConnView>) -> Set<(Seq<char>, Seq<char>)> {
    Set::new(|k: (Seq<char>, Seq<char>)| exists|i: int|
        0 <= i < c.len() && (#[trigger] c[i]).route == k.0 && c[i].rooms.contains(k.1))
}

/// Whether a name can be that of a room.
pub open spec fn valid_room(room: Seq<char>, max_bytes: usize) -> bool {
    room.len() > 0 && !room.contains('\0') && utf8_len(room) <= max_bytes
}

/// What holds of each connection.
pub open spec fn conn_ok(v: ConnView) -> bool {
    &&& sorted(v.rooms)
    &&& v.rooms.len() <= v.max_rooms_per_connection
    &&& forall|i: int|
        0 <= i < v.rooms.len() ==> valid_room(#[trigger] v.rooms[i], v.max_room_name_bytes)
}

/// What holds of the connections together.
pub open spec fn conns_ok(c: Seq<ConnView>, next_id: u64) -> bool {
    &&& forall|i: int, j: int| 0 <= i < j < c.len() ==> (#[trigger] c[i]).id < (#[trigger] c[j]).id
    &&& forall|i: int| 0 <= i < c.len() ==> (#[trigger] c[i]).id < next_id && conn_ok(c[i])
}

/// A count that stops at its largest value.
pub open spec fn saturating(n: u64, more: nat) -> u64 {
    if n + more > u64::MAX {
        u64::MAX
    } else {
        (n + more) as u64
    }
}

/// The smaller of two limits.
pub open spec fn lesser(a: usize, b: usize) -> usize {
    if a < b {
        a
    } else {
        b
    }
}

impl RuntimeView {
    /// A runtime without connections.
    pub open spec fn fresh(hub: RuntimeHubConfig) -> RuntimeView {
        RuntimeView {
            accepting: true,
            next_id: 1,
            next_publication_id: 1,
            broker_started: false,
            conns: Seq::empty(),
            broker_connected: false,
            seen: Seq::empty(),
            counters: WebSocketCounters {
                accepted_connections: 0,
                rejected_connections: 0,
                closed_connections: 0,
                messages_received: 0,
                messages_sent: 0,
                bytes_received: 0,
                bytes_sent: 0,
                saturated_sends: 0,
                heartbeat_timeouts: 0,
                room_joins: 0,
                room_leaves: 0,
                local_broadcasts: 0,
                partial_broadcasts: 0,
                broker_publications: 0,
                broker_errors: 0,
            },
            hub,
        }
    }

    /// Whether the counters that never stop have room for one more.
    pub open spec fn can_count(self) -> bool {
        &&& self.next_id < u64::MAX
        &&& self.counters.accepted_connections < u64::MAX
        &&& self.counters.rejected_connections < u64::MAX
        &&& self.counters.closed_connections < u64::MAX
        &&& self.counters.saturated_sends < u64::MAX
        &&& self.counters.heartbeat_timeouts < u64::MAX
    }

    /// Why a connection would not be admitted now: the runtime shuts down, or the
    /// process, the route or the IP address has as many connections as it may have.
    pub open spec fn refusal(
        self,
        route: Seq<char>,
        remote_addr: Option<PeerAddr>,
        c: ConfigView,
    ) -> Option<AdmissionError> {
        if !self.accepting {
            Some(AdmissionError::Shutdown)
        } else if c.process_max_connections matches Some(limit) && self.conns.len() >= limit {
            Some(AdmissionError::ProcessCapacity)
        } else if c.route_max_connections matches Some(limit) && total(
            self.conns,
            on_route(route),
        ) >= limit {
            Some(AdmissionError::RouteCapacity)
        } else if remote_addr matches Some(a) && c.max_connections_per_ip matches Some(limit)
            && total(self.conns, from_ip(a.ip)) >= limit {
            Some(AdmissionError::IpCapacity)
        } else {
            None
        }
    }

    /// The runtime with one more connection, which has the next id.
    pub open spec fn with_connection(
        self,
        route: Seq<char>,
        remote_addr: Option<PeerAddr>,
        protocol: Option<Seq<char>>,
        c: ConfigView,
        now: u128,
    ) -> RuntimeView {
        RuntimeView {
            next_id: (self.next_id + 1) as u64,
            conns: self.conns.push(
                ConnView {
                    id: self.next_id,
                    route,
                    remote_addr,
                    protocol,
                    opened_at: now,
                    close_timeout: c.close_timeout,
                    max_rooms_per_connection: lesser(
                        c.max_rooms_per_connection,
                        self.hub.max_rooms_per_connection,
                    ),
                    max_room_name_bytes: lesser(
                        c.max_room_name_bytes,
                        self.hub.max_room_name_bytes,
                    ),
                    rooms: Seq::empty(),
                    lifecycle: WebSocketLifecycleState::Connecting,
                    registered: false,
                    forced_shutdown_observed: false,
                },
            ),
            counters: WebSocketCounters {
                accepted_connections: (self.counters.accepted_connections + 1) as u64,
                ..self.counters
            },
            ..self
        }
    }

    /// Whether the process has a connection with an id.
    pub open spec fn has(self, id: u64) -> bool {
        place(self.conns, id) < self.conns.len()
    }

    /// The connection with an id.
    pub open spec fn conn(self, id: u64) -> ConnView {
        self.conns[place(self.conns, id)]
    }

    /// The runtime with another connection in the place of the one with the same id.
    pub open spec fn with_conn(self, v: ConnView) -> RuntimeView {
        RuntimeView { conns: self.conns.update(place(self.conns, v.id), v), ..self }
    }

    /// The runtime without a connection.
    pub open spec fn without(self, id: u64) -> RuntimeView {
        RuntimeView {
            conns: self.conns.remove(place(self.conns, id)),
            counters: WebSocketCounters {
                room_leaves: saturating(self.counters.room_leaves, self.conn(id).rooms.len()),
                closed_connections: (self.counters.closed_connections + 1) as u64,
                ..self.counters
            },
            ..self
        }
    }

    /// What the runtime has counted.
    pub open spec fn stats(self) -> WebSocketStats {
        WebSocketStats {
            active_connections: self.conns.len() as usize,
            accepted_connections: self.counters.accepted_connections,
            rejected_connections: self.counters.rejected_connections,
            closed_connections: self.counters.closed_connections,
            messages_received: self.counters.messages_received,
            messages_sent: self.counters.messages_sent,
            bytes_received: self.counters.bytes_received,
            bytes_sent: self.counters.bytes_sent,
            saturated_sends: self.counters.saturated_sends,
            heartbeat_timeouts: self.counters.heartbeat_timeouts,
            active_rooms: occupied(self.conns).len() as usize,
            room_joins: self.counters.room_joins,
            room_leaves: self.counters.room_leaves,
            local_broadcasts: self.counters.local_broadcasts,
            partial_broadcasts: self.counters.partial_broadcasts,
            broker_publications: self.counters.broker_publications,
            broker_errors: self.counters.broker_errors,
            broker_connected: self.broker_connected,
        }
    }

    /// Whether a room may not be joined by a connection.
    pub open spec fn bad_room(self, id: u64, rooms: Seq<Seq<char>>, room: Seq<char>) -> bool {
        rooms.contains(room) && !valid_room(room, self.conn(id).max_room_name_bytes)
    }
}

impl WebSocketRuntimeHandle {
    /// Whether the connections are sound and the indexes agree with them.
    pub open spec fn wf(&self) -> bool {
        &&& conns_ok(self@.conns, self.next_id)
        &&& self.route_counts.wf()
        &&& forall|r: Seq<char>| #[trigger]
            self.route_counts.count(r) == total(self@.conns, on_route(r))
        &&& self.ip_counts.wf()
        &&& forall|a: IpAddress| #[trigger]
            self.ip_counts.count(a) == total(self@.conns, from_ip(a))
        &&& self.rooms.wf()
        &&& forall|r: Seq<char>, m: Seq<char>, x: u64| #[trigger]
            self.rooms.holds(r, m, x) == some_conn(self@.conns, in_room(r, m), x)
        &&& self.seen_publications@.len() <= MAX_SEEN_PUBLICATIONS
        &&& self.seen_publications@.no_duplicates()
    }
}

proof fn lemma_total_push(c: Seq<ConnView>, v: ConnView, p: spec_fn(ConnView) -> bool)
    ensures
        total(c.push(v), p) == total(c, p) + (if p(v) {
            1nat
        } else {
            0
        }),
{
    assert(c.push(v).drop_last() =~= c);
}

proof fn lemma_total_remove(c: Seq<ConnView>, i: int, p: spec_fn(ConnView) -> bool)
    requires
        0 <= i < c.len(),
    ensures
        total(c.remove(i), p) + (if p(c[i]) {
            1nat
        } else {
            0
        }) == total(c, p),
    decreases c.len(),
{
    if i == c.len() - 1 {
        assert(c.remove(i) =~= c.drop_last());
    } else {
        lemma_total_remove(c.drop_last(), i, p);
        assert(c.remove(i).drop_last() =~= c.drop_last().remove(i));
        assert(c.remove(i).last() == c.last());
    }
}

proof fn lemma_total_update(c: Seq<ConnView>, i: int, v: ConnView, p: spec_fn(ConnView) -> bool)
    requires
        0 <= i < c.len(),
        p(v) == p(c[i]),
    ensures
        total(c.update(i, v), p) == total(c, p),
    decreases c.len(),
{
    if i == c.len() - 1 {
        assert(c.update(i, v).drop_last() =~= c.drop_last());
    } else {
        lemma_total_update(c.drop_last(), i, v, p);
        assert(c.update(i, v).drop_last() =~= c.drop_last().update(i, v));
        assert(c.update(i, v).last() == c.last());
    }
}

proof fn lemma_total_bound(c: Seq<ConnView>, p: spec_fn(ConnView) -> bool)
    ensures
        total(c, p) <= c.len(),
    decreases c.len(),
{
    if c.len() > 0 {
        lemma_total_bound(c.drop_last(), p);
    }
}

proof fn lemma_ids(c: Seq<ConnView>, next_id: u64, p: spec_fn(ConnView) -> bool)
    requires
        conns_ok(c, next_id),
    ensures
        ids(c, p).len() == total(c, p),
        ids(c, p).no_duplicates(),
        forall|x: u64| #[trigger] ids(c, p).contains(x) <==> some_conn(c, p, x),
        forall|i: int, j: int| 0 <= i < j < ids(c, p).len() ==> ids(c, p)[i] < ids(c, p)[j],
    decreases c.len(),
{
    if c.len() > 0 {
        let d = c.drop_last();
        assert(conns_ok(d, next_id));
        lemma_ids(d, next_id, p);
        let s = ids(d, p);
        assert forall|i: int| 0 <= i < s.len() implies s[i] < c.last().id by {
            assert(s.contains(s[i]));
            let k = choose|k: int| 0 <= k < d.len() && p(#[trigger] d[k]) && d[k].id == s[i];
            assert(c[k].id < c[c.len() - 1].id);
        }
        let t = ids(c, p);
        assert forall|x: u64| #[trigger] t.contains(x) <==> some_conn(c, p, x) by {
            if t.contains(x) {
                let k = choose|k: int| 0 <= k < t.len() && t[k] == x;
                if k < s.len() {
                    assert(s[k] == x);
                    assert(s.contains(x));
                    let m = choose|m: int| 0 <= m < d.len() && p(#[trigger] d[m]) && d[m].id == x;
                    assert(p(c[m]) && c[m].id == x);
                } else {
                    assert(p(c[c.len() - 1]) && c[c.len() - 1].id == x);
                }
            }
            if some_conn(c, p, x) {
                let m = choose|m: int| 0 <= m < c.len() && p(#[trigger] c[m]) && c[m].id == x;
                if m < d.len() {
                    assert(p(d[m]) && d[m].id == x);
                    assert(some_conn(d, p, x));
                    assert(s.contains(x));
                    let k = choose|k: int| 0 <= k < s.len() && s[k] == x;
                    assert(t[k] == x);
                } else {
                    assert(t[t.len() - 1] == x);
                }
            }
        }
    }
}

/// The place of an id is where it stands, or the end.
proof fn lemma_place(c: Seq<ConnView>, id: u64)
    ensures
        0 <= place(c, id) <= c.len(),
        place(c, id) < c.len() ==> c[place(c, id)].id == id,
        forall|i: int| 0 <= i < place(c, id) ==> (#[trigger] c[i]).id != id,
    decreases c.len(),
{
    if c.len() > 0 && c[0].id != id {
        lemma_place(c.skip(1), id);
        assert forall|i: int| 0 <= i < place(c, id) implies (#[trigger] c[i]).id != id by {
            if i > 0 {
                assert(c.skip(1)[i - 1] == c[i]);
            }
        }
    }
}

proof fn lemma_place_is(c: Seq<ConnView>, id: u64, k: int)
    requires
        0 <= k <= c.len(),
        k < c.len() ==> c[k].id == id,
        forall|i: int| 0 <= i < k ==> (#[trigger] c[i]).id != id,
    ensures
        place(c, id) == k,
{
    lemma_place(c, id);
    let f = place(c, id);
    if f < k {
        assert(c[f].id != id);
    } else if k < f {
        assert(c[k].id != id);
    }
}

/// A connection that was just admitted is there, and giving it back leaves the others.
pub proof fn lemma_admitted(
    v: RuntimeView,
    route: Seq<char>,
    remote_addr: Option<PeerAddr>,
    protocol: Option<Seq<char>>,
    c: ConfigView,
    now: u128,
)
    requires
        conns_ok(v.conns, v.next_id),
    ensures
        v.with_connection(route, remote_addr, protocol, c, now).has(v.next_id),
        v.with_connection(route, remote_addr, protocol, c, now).without(v.next_id).conns == v.conns,
{
    let w = v.with_connection(route, remote_addr, protocol, c, now);
    let k = v.conns.len() as int;
    assert forall|i: int| 0 <= i < k implies (#[trigger] w.conns[i]).id != v.next_id by {
        assert(w.conns[i] == v.conns[i]);
    }
    lemma_place_is(w.conns, v.next_id, k);
    assert(w.without(v.next_id).conns =~= v.conns);
}

proof fn lemma_same_members(a: Seq<u64>, b: Seq<u64>)
    requires
        a.no_duplicates(),
        b.no_duplicates(),
        forall|x: u64| a.contains(x) <==> b.contains(x),
    ensures
        a.len() == b.len(),
{
    a.unique_seq_to_set();
    b.unique_seq_to_set();
    assert(a.to_set() =~= b.to_set());
}


/// The smaller of two limits.
fn smaller(a: usize, b: usize) -> (r: usize)
    ensures
        r == lesser(a, b),
{
    if a < b {
        a
    } else {
        b
    }
}

/// Whether a limit is set and reached.
fn reached(limit: Option<usize>, count: usize) -> (r: bool)
    ensures
        r == (limit matches Some(n) && count >= n),
{
    match limit {
        Some(n) => count >= n,
        None => false,
    }
}

/// Refuses a name that can not be that of a room.
pub fn validate_room(room: &str, max_room_name_bytes: usize) -> (r: Result<(), WsError>)
    ensures
        match r {
            Ok(_) => valid_room(room@, max_room_name_bytes),
            Err(e) => !valid_room(room@, max_room_name_bytes) && (e matches WsError::InvalidRoom(
                name,
            ) && name@ == room@),
        },
{
    if room.is_empty() || has_char(room, '\0') || byte_len(room) > max_room_name_bytes {
        Err(WsError::InvalidRoom(room.to_owned()))
    } else {
        Ok(())
    }
}

impl WebSocketRuntimeHandle {
    /// A runtime with the limits of a hub.
    pub fn local_with_hub_config(hub: RuntimeHubConfig) -> (r: WebSocketRuntimeHandle)
        ensures
            r.wf(),
            r@ == RuntimeView::fresh(hub),
    {
        let r: WebSocketRuntimeHandle = WebSocketRuntimeHandle {
            accepting: true,
            next_id: 1,
            next_publication_id: 1,
            broker_started: false,
            connections: Vec::new(),
            route_counts: Counts::new(),
            ip_counts: Counts::new(),
            rooms: RoomIndex::new(),
            broker_connected: false,
            seen_publications: Vec::new(),
            counters: WebSocketCounters {
                accepted_connections: 0,
                rejected_connections: 0,
                closed_connections: 0,
                messages_received: 0,
                messages_sent: 0,
                bytes_received: 0,
                bytes_sent: 0,
                saturated_sends: 0,
                heartbeat_timeouts: 0,
                room_joins: 0,
                room_leaves: 0,
                local_broadcasts: 0,
                partial_broadcasts: 0,
                broker_publications: 0,
                broker_errors: 0,
            },
            hub,
        };
        assert(r@.conns =~= Seq::empty());
        r
    }

    /// A runtime with the default limits, as the node that is given.
    pub fn local(node_id: WsNodeId) -> (r: WebSocketRuntimeHandle)
        ensures
            r.wf(),
            r@ == RuntimeView::fresh(
                RuntimeHubConfig {
                    max_rooms_per_connection: 32,
                    max_room_name_bytes: 128,
                    broadcast_concurrency: 64,
                    broker_operation_timeout: Duration { nanos: 2_000_000_000 },
                    has_broker: false,
                    node_id,
                },
            ),
    {
        WebSocketRuntimeHandle::local_with_hub_config(
            RuntimeHubConfig {
                max_rooms_per_connection: 32,
                max_room_name_bytes: 128,
                broadcast_concurrency: 64,
                broker_operation_timeout: Duration { nanos: 2_000_000_000 },
                has_broker: false,
                node_id,
            },
        )
    }

    /// Where the connection with an id stands, or the number of connections.
    fn find(&self, id: u64) -> (k: usize)
        ensures
            k == place(self@.conns, id),
            k <= self.connections.len(),
            k < self.connections.len() ==> self.connections@[k as int].id == id,
    {
        let mut k: usize = 0;
        while k < self.connections.len() && self.connections[k].id != id
            invariant
                k <= self.connections.len(),
                forall|i: int| 0 <= i < k ==> (#[trigger] self@.conns[i]).id != id,
            decreases self.connections.len() - k,
        {
            assert(self@.conns[k as int].id == self.connections@[k as int].id);
            k += 1;
        }
        proof {
            if k < self.connections.len() {
                assert(self@.conns[k as int].id == self.connections@[k as int].id);
            }
            lemma_place_is(self@.conns, id, k as int);
        }
        k
    }

    /// Whether the counters that never stop have room for one more.
    pub fn has_room_to_count(&self) -> (r: bool)
        ensures
            r == self@.can_count(),
    {
        self.next_id < u64::MAX && self.counters.accepted_connections < u64::MAX
            && self.counters.rejected_connections < u64::MAX && self.counters.closed_connections
            < u64::MAX && self.counters.saturated_sends < u64::MAX
            && self.counters.heartbeat_timeouts < u64::MAX
    }

    /// Admits a connection, or says why not.
    pub fn admit_connection(
        &mut self,
        route: &str,
        remote_addr: Option<PeerAddr>,
        protocol: Option<&str>,
        config: &ResolvedWebSocketConfig,
        now: u128,
    ) -> (r: Result<WebSocketId, AdmissionError>)
        requires
            old(self).wf(),
            old(self)@.can_count(),
        ensures
            final(self).wf(),
            match old(self)@.refusal(route@, remote_addr, config@) {
                Some(e) => r == Err::<WebSocketId, AdmissionError>(e) && final(self)@ == (
                RuntimeView {
                    counters: WebSocketCounters {
                        rejected_connections: (old(self)@.counters.rejected_connections + 1) as u64,
                        ..old(self)@.counters
                    },
                    ..old(self)@
                }),
                None => r == Ok::<WebSocketId, AdmissionError>(WebSocketId(old(self)@.next_id))
                    && final(self)@ == old(self)@.with_connection(
                    route@,
                    remote_addr,
                    str_opt(protocol),
                    config@,
                    now,
                ),
            },
    {
        let route_key: String = route.to_owned();
        let refusal: Option<AdmissionError> = if !self.accepting {
            Some(AdmissionError::Shutdown)
        } else if reached(config.process_max_connections, self.connections.len()) {
            Some(AdmissionError::ProcessCapacity)
        } else if reached(config.route_max_connections, self.route_counts.get(&route_key)) {
            Some(AdmissionError::RouteCapacity)
        } else {
            match remote_addr {
                Some(addr) => if reached(
                    config.max_connections_per_ip,
                    self.ip_counts.get(&addr.ip),
                ) {
                    Some(AdmissionError::IpCapacity)
                } else {
                    None
                },
                None => None,
            }
        };
        if let Some(e) = refusal {
            self.counters.rejected_connections = self.counters.rejected_connections + 1;
            return Err(e);
        }
        let ghost was = self@;
        let id: u64 = self.next_id;
        self.next_id = id + 1;
        let protocol: Option<String> = match protocol {
            Some(p) => Some(p.to_owned()),
            None => None,
        };
        let entry: ConnectionEntry = ConnectionEntry {
            id,
            route: route_key.clone(),
            remote_addr,
            protocol,
            opened_at: now,
            close_timeout: config.close_timeout,
            max_rooms_per_connection: smaller(
                config.max_rooms_per_connection,
                self.hub.max_rooms_per_connection,
            ),
            max_room_name_bytes: smaller(
                config.max_room_name_bytes,
                self.hub.max_room_name_bytes,
            ),
            rooms: TextSet::new(),
            lifecycle: WebSocketLifecycleState::Connecting,
            registered: false,
            forced_shutdown_observed: false,
        };
        let ghost v = entry@;
        self.connections.push(entry);
        let n: usize = self.connections.len();
        proof {
            assert(self@.conns =~= was.conns.push(v));
            lemma_total_bound(was.conns, on_route(route@));
            if remote_addr is Some {
                lemma_total_bound(was.conns, from_ip(remote_addr->0.ip));
            }
        }
        self.route_counts.increment_count(&route_key);
        if let Some(addr) = remote_addr {
            self.ip_counts.increment_count(&addr.ip);
        }
        self.counters.accepted_connections = self.counters.accepted_connections + 1;
        proof {
            let c = self@.conns;
            assert(conns_ok(c, self.next_id));
            assert forall|r: Seq<char>| #[trigger]
                self.route_counts.count(r) == total(c, on_route(r)) by {
                lemma_total_push(was.conns, v, on_route(r));
            }
            assert forall|a: IpAddress| #[trigger]
                self.ip_counts.count(a) == total(c, from_ip(a)) by {
                lemma_total_push(was.conns, v, from_ip(a));
            }
            assert forall|r: Seq<char>, m: Seq<char>, x: u64| #[trigger]
                self.rooms.holds(r, m, x) == some_conn(c, in_room(r, m), x) by {
                if some_conn(was.conns, in_room(r, m), x) {
                    let i = choose|i: int|
                        0 <= i < was.conns.len() && in_room(r, m)(#[trigger] was.conns[i])
                            && was.conns[i].id == x;
                    assert(in_room(r, m)(c[i]) && c[i].id == x);
                }
                if some_conn(c, in_room(r, m), x) {
                    let i = choose|i: int|
                        0 <= i < c.len() && in_room(r, m)(#[trigger] c[i]) && c[i].id == x;
                    assert(i < was.conns.len());
                    assert(in_room(r, m)(was.conns[i]) && was.conns[i].id == x);
                }
            }
        }
        Ok(WebSocketId(id))
    }

    /// The indexes still agree once one connection is gone.
    proof fn lemma_released(&self, was: WebSocketRuntimeHandle, k: int)
        requires
            was.wf(),
            0 <= k < was@.conns.len(),
            self@.conns == was@.conns.remove(k),
            self.next_id == was.next_id,
            self.seen_publications == was.seen_publications,
            self.route_counts.wf(),
            forall|r: Seq<char>| #[trigger]
                self.route_counts.count(r) == (if r == was@.conns[k].route
                    && was.route_counts.count(r) > 0 {
                    was.route_counts.count(r) - 1
                } else {
                    was.route_counts.count(r) as int
                }),
            self.ip_counts.wf(),
            forall|a: IpAddress| #[trigger]
                self.ip_counts.count(a) == (if ip_of(was@.conns[k].remote_addr) == Some(a)
                    && was.ip_counts.count(a) > 0 {
                    was.ip_counts.count(a) - 1
                } else {
                    was.ip_counts.count(a) as int
                }),
            self.rooms.wf(),
            forall|r: Seq<char>, m: Seq<char>, x: u64| #[trigger]
                self.rooms.holds(r, m, x) <==> was.rooms.holds(r, m, x) && !(r
                    == was@.conns[k].route && x == was@.conns[k].id
                    && was@.conns[k].rooms.contains(m)),
        ensures
            self.wf(),
    {

        let c = self@.conns;
        let old_c = was@.conns;
        assert forall|i: int| 0 <= i < c.len() implies #[trigger] c[i] == old_c[if i < k {
            i
        } else {
            i + 1
        }] by {}
        assert(conns_ok(c, self.next_id));
        assert forall|r: Seq<char>| #[trigger]
            self.route_counts.count(r) == total(c, on_route(r)) by {
            lemma_total_remove(old_c, k as int, on_route(r));
            assert(was.route_counts.count(r) == total(old_c, on_route(r)));
        }
        assert forall|a: IpAddress| #[trigger]
            self.ip_counts.count(a) == total(c, from_ip(a)) by {
            lemma_total_remove(old_c, k as int, from_ip(a));
            assert(was.ip_counts.count(a) == total(old_c, from_ip(a)));
        }
        assert forall|r: Seq<char>, m: Seq<char>, x: u64| #[trigger]
            self.rooms.holds(r, m, x) == some_conn(c, in_room(r, m), x) by {
            assert(was.rooms.holds(r, m, x) == some_conn(old_c, in_room(r, m), x));
            if some_conn(c, in_room(r, m), x) {
                let i = choose|i: int|
                    0 <= i < c.len() && in_room(r, m)(#[trigger] c[i]) && c[i].id == x;
                let j = if i < k { i } else { i + 1 };
                assert(in_room(r, m)(old_c[j]) && old_c[j].id == x);
                if j < k {
                    assert(old_c[j].id < old_c[k as int].id);
                } else {
                    assert(old_c[k as int].id < old_c[j].id);
                }
            }
            if self.rooms.holds(r, m, x) {
                let j = choose|j: int|
                    0 <= j < old_c.len() && in_room(r, m)(#[trigger] old_c[j]) && old_c[j].id
                        == x;
                assert(j != k);
                let i = if j < k { j } else { j - 1 };
                assert(in_room(r, m)(c[i]) && c[i].id == x);
            }
        }
    }

    /// Takes a connection that has ended out of the runtime, and says which rooms it
    /// was in.
    pub fn release(&mut self, id: WebSocketId) -> (r: Option<RoomChange>)
        requires
            old(self).wf(),
            old(self)@.counters.closed_connections < u64::MAX,
        ensures
            final(self).wf(),
            !old(self)@.has(id.0) ==> r is None && final(self)@ == old(self)@,
            old(self)@.has(id.0) ==> {
                &&& final(self)@ == old(self)@.without(id.0)
                &&& r matches Some(change)
                &&& change.route@ == old(self)@.conn(id.0).route
                &&& views(change.rooms@) == old(self)@.conn(id.0).rooms
            },
    {
        let k: usize = self.find(id.0);
        if k >= self.connections.len() {
            return None;
        }
        let ghost was = *self;
        let entry: ConnectionEntry = self.connections.remove(k);
        let ghost v = entry@;
        proof {
            assert(was@.conns[k as int] == v);
            assert(self@.conns =~= was@.conns.remove(k as int));
        }
        self.route_counts.decrement_count(&entry.route);
        if let Some(addr) = entry.remote_addr {
            self.ip_counts.decrement_count(&addr.ip);
        }
        let rooms: Vec<String> = entry.rooms.to_list();
        self.rooms.remove_room_memberships(entry.route.as_str(), id.0, &rooms);
        self.counters.room_leaves = self.counters.room_leaves.saturating_add(rooms.len() as u64);
        self.counters.closed_connections = self.counters.closed_connections + 1;
        proof {
            assert(views(rooms@) == v.rooms);
            self.lemma_released(was, k as int);
        }
        Some(RoomChange { route: entry.route, rooms })
    }
}


/// How many rooms a connection is in after it has joined more.
pub open spec fn joined_count(rooms: Seq<Seq<char>>, more: Seq<Seq<char>>) -> nat {
    rooms.to_set().union(more.to_set()).len()
}

proof fn lemma_joined_count(
    rooms: Seq<Seq<char>>,
    more: Seq<Seq<char>>,
    additions: Seq<Seq<char>>,
)
    requires
        sorted(rooms),
        sorted(additions),
        forall|x: Seq<char>| additions.contains(x) <==> more.contains(x) && !rooms.contains(x),
    ensures
        joined_count(rooms, more) == rooms.len() + additions.len(),
{
    crate::text_set::lemma_sorted_distinct(rooms);
    crate::text_set::lemma_sorted_distinct(additions);
    rooms.unique_seq_to_set();
    additions.unique_seq_to_set();
    assert(rooms.to_set().union(more.to_set()) =~= rooms.to_set().union(additions.to_set()));
    assert(rooms.to_set().disjoint(additions.to_set()));
    vstd::seq_lib::seq_to_set_is_finite(rooms);
    vstd::seq_lib::seq_to_set_is_finite(additions);
    vstd::set_lib::lemma_set_disjoint_lens(rooms.to_set(), additions.to_set());
}

impl WebSocketRuntimeHandle {
    /// The indexes still agree once one connection is in other rooms.
    proof fn lemma_rooms_changed(&self, was: WebSocketRuntimeHandle, k: int, v: ConnView)
        requires
            was.wf(),
            0 <= k < was@.conns.len(),
            self@.conns == was@.conns.update(k, v),
            v.id == was@.conns[k].id,
            v.route == was@.conns[k].route,
            v.remote_addr == was@.conns[k].remote_addr,
            conn_ok(v),
            self.next_id == was.next_id,
            self.route_counts == was.route_counts,
            self.ip_counts == was.ip_counts,
            self.seen_publications == was.seen_publications,
            self.rooms.wf(),
            forall|r: Seq<char>, m: Seq<char>, x: u64| #[trigger]
                self.rooms.holds(r, m, x) == (if r == v.route && x == v.id {
                    v.rooms.contains(m)
                } else {
                    was.rooms.holds(r, m, x)
                }),
        ensures
            self.wf(),
    {
        let c = self@.conns;
        let old_c = was@.conns;
        assert(conns_ok(c, self.next_id)) by {
            assert forall|i: int, j: int| 0 <= i < j < c.len() implies (#[trigger] c[i]).id < (
            #[trigger] c[j]).id by {
                assert(old_c[i].id < old_c[j].id);
            }
        }
        assert forall|r: Seq<char>| #[trigger]
            self.route_counts.count(r) == total(c, on_route(r)) by {
            lemma_total_update(old_c, k, v, on_route(r));
            assert(was.route_counts.count(r) == total(old_c, on_route(r)));
        }
        assert forall|a: IpAddress| #[trigger] self.ip_counts.count(a) == total(c, from_ip(a)) by {
            lemma_total_update(old_c, k, v, from_ip(a));
            assert(was.ip_counts.count(a) == total(old_c, from_ip(a)));
        }
        assert forall|r: Seq<char>, m: Seq<char>, x: u64| #[trigger]
            self.rooms.holds(r, m, x) == some_conn(c, in_room(r, m), x) by {
            assert(was.rooms.holds(r, m, x) == some_conn(old_c, in_room(r, m), x));
            if some_conn(c, in_room(r, m), x) {
                let i = choose|i: int|
                    0 <= i < c.len() && in_room(r, m)(#[trigger] c[i]) && c[i].id == x;
                if i != k {
                    assert(in_room(r, m)(old_c[i]) && old_c[i].id == x);
                    if i < k {
                        assert(old_c[i].id < old_c[k].id);
                    } else {
                        assert(old_c[k].id < old_c[i].id);
                    }
                }
            }
            if self.rooms.holds(r, m, x) {
                if r == v.route && x == v.id {
                    assert(in_room(r, m)(c[k]) && c[k].id == x);
                } else {
                    let j = choose|j: int|
                        0 <= j < old_c.len() && in_room(r, m)(#[trigger] old_c[j]) && old_c[j].id
                            == x;
                    assert(in_room(r, m)(c[j]) && c[j].id == x);
                }
            }
        }
    }

    /// Which rooms a connection is in, by the index and by its own list.
    proof fn lemma_own_rooms(&self, k: int, m: Seq<char>)
        requires
            self.wf(),
            0 <= k < self@.conns.len(),
        ensures
            self.rooms.holds(self@.conns[k].route, m, self@.conns[k].id)
                == self@.conns[k].rooms.contains(m),
    {
        let c = self@.conns;
        let (r, x) = (c[k].route, c[k].id);
        assert(self.rooms.holds(r, m, x) == some_conn(c, in_room(r, m), x));
        if some_conn(c, in_room(r, m), x) {
            let i = choose|i: int|
                0 <= i < c.len() && in_room(r, m)(#[trigger] c[i]) && c[i].id == x;
            if i < k {
                assert(c[i].id < c[k].id);
            } else if k < i {
                assert(c[k].id < c[i].id);
            }
        }
        if c[k].rooms.contains(m) {
            assert(in_room(r, m)(c[k]) && c[k].id == x);
        }
    }

    /// Puts a connection into rooms: all of them, or none. Says which ones are new to
    /// it.
    pub fn join(&mut self, id: WebSocketId, rooms: &Vec<String>) -> (r: Result<RoomChange, WsError>)
        requires
            old(self).wf(),
        ensures
            final(self).wf(),
            r is Err ==> final(self)@ == old(self)@,
            !old(self)@.has(id.0) ==> r == Err::<RoomChange, WsError>(
                WsError::ConnectionNotFound(id),
            ),
            old(self)@.has(id.0) ==> {
                let v = old(self)@.conn(id.0);
                let bad = exists|x: Seq<char>| old(self)@.bad_room(id.0, views(rooms@), x);
                let full = joined_count(v.rooms, views(rooms@)) > v.max_rooms_per_connection;
                &&& bad ==> (r matches Err(WsError::InvalidRoom(name)) && old(self)@.bad_room(
                    id.0,
                    views(rooms@),
                    name@,
                ) && forall|x: Seq<char>| #[trigger]
                    old(self)@.bad_room(id.0, views(rooms@), x) ==> !crate::text::before(x, name@))
                &&& !bad && full ==> r == Err::<RoomChange, WsError>(WsError::RoomLimit)
                &&& !bad && !full ==> {
                    &&& r matches Ok(change)
                    &&& change.route@ == v.route
                    &&& sorted(views(change.rooms@))
                    &&& forall|x: Seq<char>|
                        views(change.rooms@).contains(x) <==> views(rooms@).contains(x)
                            && !v.rooms.contains(x)
                    &&& sorted(final(self)@.conn(id.0).rooms)
                    &&& forall|x: Seq<char>|
                        final(self)@.conn(id.0).rooms.contains(x) <==> v.rooms.contains(x)
                            || views(rooms@).contains(x)
                    &&& final(self)@ == (RuntimeView {
                        counters: WebSocketCounters {
                            room_joins: saturating(
                                old(self)@.counters.room_joins,
                                change.rooms@.len(),
                            ),
                            ..old(self)@.counters
                        },
                        ..old(self)@.with_conn(
                            ConnView { rooms: final(self)@.conn(id.0).rooms, ..v },
                        )
                    })
                }
            },
    {
        let k: usize = self.find(id.0);
        if k >= self.connections.len() {
            return Err(WsError::ConnectionNotFound(id));
        }
        let ghost was = *self;
        let ghost v = was@.conns[k as int];
        assert(v == self.connections@[k as int]@);
        let requested: TextSet = TextSet::from_list(rooms);
        let max_bytes: usize = self.connections[k].max_room_name_bytes;
        let mut i: usize = 0;
        while i < requested.items.len()
            invariant
                i <= requested.items.len(),
                requested.wf(),
                *self == was,
                was.wf(),
                max_bytes == v.max_room_name_bytes,
                v == was@.conn(id.0),
                was@.has(id.0),
                forall|x: Seq<char>| requested@.contains(x) <==> views(rooms@).contains(x),
                forall|j: int| 0 <= j < i ==> valid_room(#[trigger] requested@[j], max_bytes),
            decreases requested.items.len() - i,
        {
            assert(requested@[i as int] == requested.items@[i as int]@);
            match validate_room(requested.items[i].as_str(), max_bytes) {
                Ok(_) => {},
                Err(e) => {
                    proof {
                        let name = requested@[i as int];
                        assert(requested@.contains(name));
                        assert(was@.bad_room(id.0, views(rooms@), name));
                        assert forall|x: Seq<char>| #[trigger]
                            was@.bad_room(
                                id.0,
                                views(rooms@),
                                x,
                            ) implies !crate::text::before(x, name) by {
                            assert(requested@.contains(x));
                            let j = choose|j: int| 0 <= j < requested@.len() && requested@[j] == x;
                            if j == i {
                                crate::text_set::lemma_before_irreflexive(name);
                            } else if j > i {
                                assert(crate::text::before(name, x));
                                if crate::text::before(x, name) {
                                    crate::text_set::lemma_before_transitive(name, x, name);
                                    crate::text_set::lemma_before_irreflexive(name);
                                }
                            }
                        }
                    }
                    return Err(e);
                },
            }
            i += 1;
        }
        proof {
            assert forall|x: Seq<char>| !was@.bad_room(id.0, views(rooms@), x) by {
                if views(rooms@).contains(x) {
                    assert(requested@.contains(x));
                    let j = choose|j: int| 0 <= j < requested@.len() && requested@[j] == x;
                    assert(valid_room(requested@[j], max_bytes));
                }
            }
        }
        let additions: TextSet = requested.difference(&self.connections[k].rooms);
        proof {
            lemma_joined_count(v.rooms, views(rooms@), additions@);
        }
        if additions.items.len() > self.connections[k].max_rooms_per_connection
            - self.connections[k].rooms.items.len() {
            return Err(WsError::RoomLimit);
        }
        let route: String = self.connections[k].route.clone();
        let mut j: usize = 0;
        let mut mine: TextSet = TextSet { items: self.connections[k].rooms.to_list() };
        while j < additions.items.len()
            invariant
                j <= additions.items.len(),
                additions.wf(),
                mine.wf(),
                mine@.len() == v.rooms.len() + j,
                forall|x: Seq<char>|
                    additions@.contains(x) <==> views(rooms@).contains(x) && !v.rooms.contains(x),
                forall|x: Seq<char>|
                    mine@.contains(x) <==> v.rooms.contains(x) || additions@.take(
                        j as int,
                    ).contains(x),
                was.wf(),
                0 <= k < was@.conns.len(),
                v == was@.conns[k as int],
                v.id == id.0,
                route@ == v.route,
                self.connections == was.connections,
                self.next_id == was.next_id,
                self.route_counts == was.route_counts,
                self.ip_counts == was.ip_counts,
                self.seen_publications == was.seen_publications,
                self.counters == was.counters,
                self.accepting == was.accepting,
                self.next_publication_id == was.next_publication_id,
                self.broker_started == was.broker_started,
                self.broker_connected == was.broker_connected,
                self.hub == was.hub,
                self.rooms.wf(),
                forall|r: Seq<char>, m: Seq<char>, x: u64| #[trigger]
                    self.rooms.holds(r, m, x) <==> was.rooms.holds(r, m, x) || (r == v.route && x
                        == v.id && additions@.take(j as int).contains(m)),
            decreases additions.items.len() - j,
        {
            let ghost seen = additions@.take(j as int);
            let ghost name = additions@[j as int];
            let ghost index = self.rooms;
            let ghost held = mine@;
            proof {
                assert(name == additions.items@[j as int]@);
                assert(additions@.contains(name));
                was.lemma_own_rooms(k as int, name);
                crate::text_set::lemma_sorted_distinct(additions@);
                assert(!seen.contains(name)) by {
                    if seen.contains(name) {
                        let a = choose|a: int| 0 <= a < seen.len() && seen[a] == name;
                        assert(additions@[a] == additions@[j as int]);
                    }
                }
                assert(!index.holds(v.route, name, v.id));
            }
            self.rooms.add_member(route.as_str(), additions.items[j].as_str(), id.0);
            let _new: bool = mine.insert(additions.items[j].clone());
            proof {
                let all = additions@.take(j + 1);
                assert(all =~= seen.push(name));
                assert forall|m: Seq<char>| all.contains(m) <==> seen.contains(m) || m == name by {
                    if all.contains(m) {
                        let a = choose|a: int| 0 <= a < all.len() && all[a] == m;
                        if a < j {
                            assert(seen[a] == m);
                        }
                    }
                    if seen.contains(m) {
                        let a = choose|a: int| 0 <= a < seen.len() && seen[a] == m;
                        assert(all[a] == m);
                    }
                    if m == name {
                        assert(all[j as int] == m);
                    }
                }
                assert forall|r: Seq<char>, m: Seq<char>, x: u64| #[trigger]
                    self.rooms.holds(r, m, x) <==> was.rooms.holds(r, m, x) || (r == v.route && x
                        == v.id && all.contains(m)) by {
                    let old_members = index.members(r, m);
                    let new_members = self.rooms.members(r, m);
                    assert(index.holds(r, m, x) <==> was.rooms.holds(r, m, x) || (r == v.route && x
                        == v.id && seen.contains(m)));
                    if r == v.route && m == name {
                        assert(new_members == old_members.push(id.0));
                        if new_members.contains(x) {
                            let a = choose|a: int|
                                0 <= a < new_members.len() && new_members[a] == x;
                            if a < old_members.len() {
                                assert(old_members[a] == x);
                            }
                        }
                        if old_members.contains(x) {
                            let a = choose|a: int|
                                0 <= a < old_members.len() && old_members[a] == x;
                            assert(new_members[a] == x);
                        }
                        if x == id.0 {
                            assert(new_members[old_members.len() as int] == x);
                        }
                    }
                }
            }
            j += 1;
        }
        let count: usize = additions.items.len();
        let changed: Vec<String> = additions.to_list();
        let ghost new_rooms = mine@;
        self.connections[k].rooms = mine;
        self.counters.room_joins = self.counters.room_joins.saturating_add(count as u64);
        proof {
            assert(additions@.take(additions@.len() as int) =~= additions@);
            let w = ConnView { rooms: new_rooms, ..v };
            assert(self@.conns =~= was@.conns.update(k as int, w));
            assert forall|a: int| 0 <= a < new_rooms.len() implies valid_room(
                #[trigger] new_rooms[a],
                max_bytes,
            ) by {
                let x = new_rooms[a];
                assert(new_rooms.contains(x));
                if v.rooms.contains(x) {
                    let b = choose|b: int| 0 <= b < v.rooms.len() && v.rooms[b] == x;
                    assert(conn_ok(was@.conns[k as int]));
                } else {
                    assert(!was@.bad_room(id.0, views(rooms@), x));
                }
            }
            assert forall|r: Seq<char>, m: Seq<char>, x: u64| #[trigger]
                self.rooms.holds(r, m, x) == (if r == w.route && x == w.id {
                    w.rooms.contains(m)
                } else {
                    was.rooms.holds(r, m, x)
                }) by {
                if r == w.route && x == w.id {
                    was.lemma_own_rooms(k as int, m);
                }
            }
            self.lemma_rooms_changed(was, k as int, w);
            assert forall|a: int| 0 <= a < k implies (#[trigger] self@.conns[a]).id != id.0 by {
                assert(was@.conns[a].id < was@.conns[k as int].id);
            }
            lemma_place_is(self@.conns, id.0, k as int);
        }
        Ok(RoomChange { route, rooms: changed })
    }
}


/// A snapshot as contracts speak of it.
#[verifier::ext_equal]
pub struct SnapshotView {
    pub id: u64,
    pub route: Seq<char>,
    pub remote_addr: Option<PeerAddr>,
    pub protocol: Option<Seq<char>>,
    pub opened_at: u128,
    pub rooms: Seq<Seq<char>>,
    pub lifecycle: WebSocketLifecycleState,
}

impl View for WebSocketConnectionSnapshot {
    type V = SnapshotView;

    open spec fn view(&self) -> SnapshotView {
        SnapshotView {
            id: self.id.0,
            route: self.route@,
            remote_addr: self.remote_addr,
            protocol: opt(self.protocol),
            opened_at: self.opened_at,
            rooms: views(self.rooms@),
            lifecycle: self.lifecycle,
        }
    }
}

/// What a snapshot shows of a connection.
pub open spec fn shown(v: ConnView) -> SnapshotView {
    SnapshotView {
        id: v.id,
        route: v.route,
        remote_addr: v.remote_addr,
        protocol: v.protocol,
        opened_at: v.opened_at,
        rooms: v.rooms,
        lifecycle: v.lifecycle,
    }
}

/// What a snapshot shows of a connection.
fn snapshot(entry: &ConnectionEntry) -> (r: WebSocketConnectionSnapshot)
    ensures
        r@ == shown(entry@),
{
    WebSocketConnectionSnapshot {
        id: WebSocketId(entry.id),
        route: entry.route.clone(),
        remote_addr: entry.remote_addr,
        protocol: copy_opt(&entry.protocol),
        opened_at: entry.opened_at,
        rooms: entry.rooms.to_list(),
        lifecycle: entry.lifecycle,
    }
}

/// The longest of the times that the connections wait for a peer's Close.
pub open spec fn longest_close(c: Seq<ConnView>) -> u128
    decreases c.len(),
{
    if c.len() == 0 {
        0
    } else if longest_close(c.drop_last()) < c.last().close_timeout.nanos {
        c.last().close_timeout.nanos
    } else {
        longest_close(c.drop_last())
    }
}

/// That a connection can be reached and was not forced to end before.
pub open spec fn can_be_forced() -> spec_fn(ConnView) -> bool {
    |v: ConnView| v.registered && !v.forced_shutdown_observed
}

/// A connection that is forced to end where it can be.
pub open spec fn forced(v: ConnView) -> ConnView {
    ConnView {
        forced_shutdown_observed: v.forced_shutdown_observed || v.registered,
        ..v
    }
}

/// The publications that are remembered once one more was seen: the latest ones.
pub open spec fn remembered(
    seen: Seq<(WsNodeId, WsPublicationId)>,
    key: (WsNodeId, WsPublicationId),
) -> Seq<(WsNodeId, WsPublicationId)> {
    if seen.len() < MAX_SEEN_PUBLICATIONS {
        seen.push(key)
    } else {
        seen.skip(1).push(key)
    }
}

impl WebSocketRuntimeHandle {
    /// Takes a connection out of rooms, and says which of them it was in.
    pub fn leave(&mut self, id: WebSocketId, rooms: &Vec<String>) -> (r: Result<
        RoomChange,
        WsError,
    >)
        requires
            old(self).wf(),
        ensures
            final(self).wf(),
            !old(self)@.has(id.0) ==> r == Err::<RoomChange, WsError>(
                WsError::ConnectionNotFound(id),
            ) && final(self)@ == old(self)@,
            old(self)@.has(id.0) ==> {
                let v = old(self)@.conn(id.0);
                &&& r matches Ok(change)
                &&& change.route@ == v.route
                &&& sorted(views(change.rooms@))
                &&& forall|x: Seq<char>|
                    views(change.rooms@).contains(x) <==> views(rooms@).contains(x)
                        && v.rooms.contains(x)
                &&& sorted(final(self)@.conn(id.0).rooms)
                &&& forall|x: Seq<char>|
                    final(self)@.conn(id.0).rooms.contains(x) <==> v.rooms.contains(x) && !views(
                        rooms@,
                    ).contains(x)
                &&& final(self)@ == (RuntimeView {
                    counters: WebSocketCounters {
                        room_leaves: saturating(
                            old(self)@.counters.room_leaves,
                            change.rooms@.len(),
                        ),
                        ..old(self)@.counters
                    },
                    ..old(self)@.with_conn(
                        ConnView { rooms: final(self)@.conn(id.0).rooms, ..v },
                    )
                })
            },
    {
        let k: usize = self.find(id.0);
        if k >= self.connections.len() {
            return Err(WsError::ConnectionNotFound(id));
        }
        let ghost was = *self;
        let ghost v = was@.conns[k as int];
        assert(v == self.connections@[k as int]@);
        let requested: TextSet = TextSet::from_list(rooms);
        let removals: TextSet = requested.intersection(&self.connections[k].rooms);
        let rest: TextSet = self.connections[k].rooms.difference(&requested);
        let gone: Vec<String> = removals.to_list();
        let ghost left = rest@;
        let route: String = self.connections[k].route.clone();
        self.rooms.remove_room_memberships(route.as_str(), id.0, &gone);
        self.connections[k].rooms = rest;
        self.counters.room_leaves = self.counters.room_leaves.saturating_add(gone.len() as u64);
        proof {
            let w = ConnView { rooms: left, ..v };
            assert(self@.conns =~= was@.conns.update(k as int, w));
            lemma_subset_ok(v, left);
            assert forall|r: Seq<char>, m: Seq<char>, x: u64| #[trigger]
                self.rooms.holds(r, m, x) == (if r == w.route && x == w.id {
                    w.rooms.contains(m)
                } else {
                    was.rooms.holds(r, m, x)
                }) by {
                if r == w.route && x == w.id {
                    was.lemma_own_rooms(k as int, m);
                }
            }
            self.lemma_rooms_changed(was, k as int, w);
            self.lemma_place_kept(was, k as int);
        }
        Ok(RoomChange { route, rooms: gone })
    }

    /// The place of a connection is the same after it was changed.
    proof fn lemma_place_kept(&self, was: WebSocketRuntimeHandle, k: int)
        requires
            was.wf(),
            0 <= k < was@.conns.len(),
            self@.conns.len() == was@.conns.len(),
            forall|i: int| 0 <= i < was@.conns.len() ==> (#[trigger] self@.conns[i]).id
                == was@.conns[i].id,
        ensures
            place(self@.conns, was@.conns[k].id) == k,
            place(was@.conns, was@.conns[k].id) == k,
    {
        assert forall|a: int| 0 <= a < k implies (#[trigger] self@.conns[a]).id
            != was@.conns[k].id by {
            assert(was@.conns[a].id < was@.conns[k].id);
        }
        assert forall|a: int| 0 <= a < k implies (#[trigger] was@.conns[a]).id
            != was@.conns[k].id by {
            assert(was@.conns[a].id < was@.conns[k].id);
        }
        lemma_place_is(self@.conns, was@.conns[k].id, k);
        lemma_place_is(was@.conns, was@.conns[k].id, k);
    }

    /// Takes a connection out of all its rooms, and says which they were.
    pub fn leave_all(&mut self, id: WebSocketId) -> (r: Result<RoomChange, WsError>)
        requires
            old(self).wf(),
        ensures
            final(self).wf(),
            !old(self)@.has(id.0) ==> r == Err::<RoomChange, WsError>(
                WsError::ConnectionNotFound(id),
            ) && final(self)@ == old(self)@,
            old(self)@.has(id.0) ==> {
                let v = old(self)@.conn(id.0);
                &&& r matches Ok(change)
                &&& change.route@ == v.route
                &&& views(change.rooms@) == v.rooms
                &&& final(self)@ == (RuntimeView {
                    counters: WebSocketCounters {
                        room_leaves: saturating(old(self)@.counters.room_leaves, v.rooms.len()),
                        ..old(self)@.counters
                    },
                    ..old(self)@.with_conn(ConnView { rooms: Seq::empty(), ..v })
                })
            },
    {
        let k: usize = self.find(id.0);
        if k >= self.connections.len() {
            return Err(WsError::ConnectionNotFound(id));
        }
        let ghost was = *self;
        let ghost v = was@.conns[k as int];
        assert(v == self.connections@[k as int]@);
        let gone: Vec<String> = self.connections[k].rooms.to_list();
        let route: String = self.connections[k].route.clone();
        self.rooms.remove_room_memberships(route.as_str(), id.0, &gone);
        self.connections[k].rooms = TextSet::new();
        self.counters.room_leaves = self.counters.room_leaves.saturating_add(gone.len() as u64);
        proof {
            let w = ConnView { rooms: Seq::empty(), ..v };
            assert(self@.conns =~= was@.conns.update(k as int, w));
            assert forall|r: Seq<char>, m: Seq<char>, x: u64| #[trigger]
                self.rooms.holds(r, m, x) == (if r == w.route && x == w.id {
                    w.rooms.contains(m)
                } else {
                    was.rooms.holds(r, m, x)
                }) by {
                if r == w.route && x == w.id {
                    was.lemma_own_rooms(k as int, m);
                }
            }
            self.lemma_rooms_changed(was, k as int, w);
            self.lemma_place_kept(was, k as int);
        }
        Ok(RoomChange { route, rooms: gone })
    }

    /// The rooms of a connection, in order.
    pub fn rooms(&self, id: WebSocketId) -> (r: Option<Vec<String>>)
        requires
            self.wf(),
        ensures
            match r {
                Some(list) => self@.has(id.0) && views(list@) == self@.conn(id.0).rooms,
                None => !self@.has(id.0),
            },
    {
        let k: usize = self.find(id.0);
        if k < self.connections.len() {
            Some(self.connections[k].rooms.to_list())
        } else {
            None
        }
    }

    /// How many connections are in a room of a route.
    pub fn local_room_size(&self, route: &str, room: &str) -> (r: usize)
        requires
            self.wf(),
        ensures
            r == total(self@.conns, in_room(route@, room@)),
    {
        let r: usize = self.rooms.size(route, room);
        proof {
            let p = in_room(route@, room@);
            let members = self.rooms.members(route@, room@);
            lemma_ids(self@.conns, self.next_id, p);
            assert(members.no_duplicates()) by {
                if exists|i: int| self.rooms.at(i, route@, room@) {
                    let i = choose|i: int| self.rooms.at(i, route@, room@);
                    assert(self.rooms.entries@[i].members@.no_duplicates());
                }
            }
            assert forall|x: u64| members.contains(x) <==> ids(self@.conns, p).contains(x) by {
                assert(self.rooms.holds(route@, room@, x) == some_conn(self@.conns, p, x));
            }
            lemma_same_members(members, ids(self@.conns, p));
        }
        r
    }

    /// What the runtime has counted.
    pub fn stats(&self) -> (r: WebSocketStats)
        requires
            self.wf(),
        ensures
            r == self@.stats(),
    {
        proof {
            self.lemma_active_rooms();
        }
        WebSocketStats {
            active_connections: self.connections.len(),
            accepted_connections: self.counters.accepted_connections,
            rejected_connections: self.counters.rejected_connections,
            closed_connections: self.counters.closed_connections,
            messages_received: self.counters.messages_received,
            messages_sent: self.counters.messages_sent,
            bytes_received: self.counters.bytes_received,
            bytes_sent: self.counters.bytes_sent,
            saturated_sends: self.counters.saturated_sends,
            heartbeat_timeouts: self.counters.heartbeat_timeouts,
            active_rooms: self.rooms.entries.len(),
            room_joins: self.counters.room_joins,
            room_leaves: self.counters.room_leaves,
            local_broadcasts: self.counters.local_broadcasts,
            partial_broadcasts: self.counters.partial_broadcasts,
            broker_publications: self.counters.broker_publications,
            broker_errors: self.counters.broker_errors,
            broker_connected: self.broker_connected,
        }
    }

    proof fn lemma_active_rooms(&self)
        requires
            self.wf(),
        ensures
            occupied(self@.conns).len() == self.rooms.entries@.len(),
    {
        let e = self.rooms.entries@;
        let keys = Seq::new(e.len(), |i: int| (e[i].route@, e[i].room@));
        assert(keys.no_duplicates()) by {
            assert forall|i: int, j: int|
                0 <= i < keys.len() && 0 <= j < keys.len() && i != j implies keys[i] != keys[j] by {
                if i < j {
                    assert(e[i].route@ != e[j].route@ || e[i].room@ != e[j].room@);
                } else {
                    assert(e[j].route@ != e[i].route@ || e[j].room@ != e[i].room@);
                }
            }
        }
        let c = self@.conns;
        assert forall|k: (Seq<char>, Seq<char>)| keys.to_set().contains(k) <==> occupied(
            c,
        ).contains(k) by {
            if keys.contains(k) {
                let i = choose|i: int| 0 <= i < keys.len() && keys[i] == k;
                assert(self.rooms.at(i, k.0, k.1));
                let x = e[i].members@[0];
                self.rooms.lemma_members_at(i, k.0, k.1);
                assert(e[i].members@.contains(x));
                assert(self.rooms.holds(k.0, k.1, x) == some_conn(c, in_room(k.0, k.1), x));
                let m = choose|m: int|
                    0 <= m < c.len() && in_room(k.0, k.1)(#[trigger] c[m]) && c[m].id == x;
                assert(c[m].route == k.0 && c[m].rooms.contains(k.1));
            }
            if occupied(c).contains(k) {
                let m = choose|m: int|
                    0 <= m < c.len() && (#[trigger] c[m]).route == k.0 && c[m].rooms.contains(k.1);
                let x = c[m].id;
                assert(in_room(k.0, k.1)(c[m]) && c[m].id == x);
                assert(self.rooms.holds(k.0, k.1, x) == some_conn(c, in_room(k.0, k.1), x));
                let i = choose|i: int| self.rooms.at(i, k.0, k.1);
                assert(self.rooms.at(i, k.0, k.1)) by {
                    if !(exists|i: int| self.rooms.at(i, k.0, k.1)) {
                        assert(self.rooms.members(k.0, k.1) == Seq::<u64>::empty());
                    }
                }
                assert(keys[i] == k);
            }
        }
        assert(keys.to_set() =~= occupied(c));
        keys.unique_seq_to_set();
    }

    /// The connections, in the order of their ids.
    pub fn connections(&self) -> (r: Vec<WebSocketConnectionSnapshot>)
        ensures
            r@.len() == self@.conns.len(),
            forall|i: int| 0 <= i < r@.len() ==> (#[trigger] r@[i])@ == shown(self@.conns[i]),
    {
        let mut r: Vec<WebSocketConnectionSnapshot> = Vec::new();
        let mut i: usize = 0;
        while i < self.connections.len()
            invariant
                i <= self.connections.len(),
                r@.len() == i,
                forall|j: int| 0 <= j < i ==> (#[trigger] r@[j])@ == shown(self@.conns[j]),
            decreases self.connections.len() - i,
        {
            r.push(snapshot(&self.connections[i]));
            assert(self@.conns[i as int] == self.connections@[i as int]@);
            i += 1;
        }
        r
    }

    /// One connection.
    pub fn connection(&self, id: WebSocketId) -> (r: Option<WebSocketConnectionSnapshot>)
        ensures
            match r {
                Some(s) => self@.has(id.0) && s@ == shown(self@.conn(id.0)),
                None => !self@.has(id.0),
            },
    {
        let k: usize = self.find(id.0);
        if k < self.connections.len() {
            Some(snapshot(&self.connections[k]))
        } else {
            None
        }
    }

    /// One connection, where its driver can be reached.
    pub fn local_socket(&self, id: WebSocketId) -> (r: Option<WebSocketConnectionSnapshot>)
        ensures
            match r {
                Some(s) => self@.has(id.0) && self@.conn(id.0).registered && s@ == shown(
                    self@.conn(id.0),
                ),
                None => !self@.has(id.0) || !self@.conn(id.0).registered,
            },
    {
        let k: usize = self.find(id.0);
        if k < self.connections.len() && self.connections[k].registered {
            Some(snapshot(&self.connections[k]))
        } else {
            None
        }
    }

    /// The limits of the hub, and the node it is.
    pub fn hub_config(&self) -> (r: RuntimeHubConfig)
        ensures
            r == self@.hub,
    {
        self.hub
    }

    /// Whom a broadcast reaches: each once, in the order of the ids.
    pub fn select_broadcast_recipients(
        &self,
        route: &Option<String>,
        rooms: &Vec<String>,
        all_in_scope: bool,
        excluded: &Vec<u64>,
    ) -> (r: Vec<LocalBroadcastRecipient>)
        requires
            self.wf(),
        ensures
            Seq::new(r@.len(), |i: int| r@[i].id.0) == ids(
                self@.conns,
                addressed(opt(*route), views(rooms@), all_in_scope, excluded@),
            ),
            forall|i: int|
                0 <= i < r@.len() ==> self@.has((#[trigger] r@[i]).id.0) && r@[i].registered
                    == self@.conn(r@[i].id.0).registered,
    {
        let ghost p = addressed(opt(*route), views(rooms@), all_in_scope, excluded@);
        let mut r: Vec<LocalBroadcastRecipient> = Vec::new();
        let mut i: usize = 0;
        assert(self@.conns.take(0) =~= Seq::empty());
        assert(Seq::new(r@.len(), |j: int| r@[j].id.0) =~= Seq::<u64>::empty());
        while i < self.connections.len()
            invariant
                i <= self.connections.len(),
                self.wf(),
                p == addressed(opt(*route), views(rooms@), all_in_scope, excluded@),
                Seq::new(r@.len(), |j: int| r@[j].id.0) == ids(self@.conns.take(i as int), p),
                forall|j: int|
                    0 <= j < r@.len() ==> self@.has((#[trigger] r@[j]).id.0) && r@[j].registered
                        == self@.conn(r@[j].id.0).registered,
            decreases self.connections.len() - i,
        {
            let entry: &ConnectionEntry = &self.connections[i];
            let ghost v = self@.conns[i as int];
            assert(v == entry@);
            let on_the_route: bool = match route {
                Some(t) => same(t.as_str(), entry.route.as_str()),
                None => false,
            };
            let meant: bool = if all_in_scope {
                route.is_none() || on_the_route
            } else {
                on_the_route && in_one_of(&entry.rooms, rooms)
            };
            let ghost before_push = r@;
            let reached: bool = meant && !holds_id(excluded, entry.id);
            if reached {
                r.push(
                    LocalBroadcastRecipient {
                        id: WebSocketId(entry.id),
                        registered: entry.registered,
                    },
                );
            }
            proof {
                assert(reached == p(v));
                let c = self@.conns.take(i + 1);
                assert(c.drop_last() =~= self@.conns.take(i as int));
                assert(c.last() == v);
                let now = Seq::new(r@.len(), |j: int| r@[j].id.0);
                let then = Seq::new(before_push.len(), |j: int| before_push[j].id.0);
                if reached {
                    assert(now =~= then.push(v.id));
                    self.lemma_place_kept(*self, i as int);
                } else {
                    assert(now =~= then);
                }
            }
            i += 1;
        }
        assert(self@.conns.take(self@.conns.len() as int) =~= self@.conns);
        r
    }

    /// The indexes still agree once connections have changed in what they do not show.
    proof fn lemma_details_changed(&self, was: WebSocketRuntimeHandle)
        requires
            was.wf(),
            self@.conns.len() == was@.conns.len(),
            forall|i: int|
                0 <= i < was@.conns.len() ==> (#[trigger] self@.conns[i]).id == was@.conns[i].id
                    && self@.conns[i].route == was@.conns[i].route && self@.conns[i].remote_addr
                    == was@.conns[i].remote_addr && self@.conns[i].rooms == was@.conns[i].rooms
                    && self@.conns[i].max_rooms_per_connection
                    == was@.conns[i].max_rooms_per_connection && self@.conns[i].max_room_name_bytes
                    == was@.conns[i].max_room_name_bytes,
            self.next_id == was.next_id,
            self.route_counts == was.route_counts,
            self.ip_counts == was.ip_counts,
            self.rooms == was.rooms,
            self.seen_publications == was.seen_publications,
        ensures
            self.wf(),
    {
        let c = self@.conns;
        let o = was@.conns;
        assert forall|i: int, j: int| 0 <= i < j < c.len() implies (#[trigger] c[i]).id < (
        #[trigger] c[j]).id by {
            assert(o[i].id < o[j].id);
        }
        assert forall|i: int| 0 <= i < c.len() implies (#[trigger] c[i]).id < self.next_id
            && conn_ok(c[i]) by {
            assert(conn_ok(o[i]));
        }
        assert forall|r: Seq<char>| #[trigger]
            self.route_counts.count(r) == total(c, on_route(r)) by {
            lemma_total_same(o, c, on_route(r));
            assert(was.route_counts.count(r) == total(o, on_route(r)));
        }
        assert forall|a: IpAddress| #[trigger] self.ip_counts.count(a) == total(c, from_ip(a)) by {
            lemma_total_same(o, c, from_ip(a));
            assert(was.ip_counts.count(a) == total(o, from_ip(a)));
        }
        assert forall|r: Seq<char>, m: Seq<char>, x: u64| #[trigger]
            self.rooms.holds(r, m, x) == some_conn(c, in_room(r, m), x) by {
            assert(was.rooms.holds(r, m, x) == some_conn(o, in_room(r, m), x));
            if some_conn(o, in_room(r, m), x) {
                let i = choose|i: int|
                    0 <= i < o.len() && in_room(r, m)(#[trigger] o[i]) && o[i].id == x;
                assert(in_room(r, m)(c[i]) && c[i].id == x);
            }
            if some_conn(c, in_room(r, m), x) {
                let i = choose|i: int|
                    0 <= i < c.len() && in_room(r, m)(#[trigger] c[i]) && c[i].id == x;
                assert(in_room(r, m)(o[i]) && o[i].id == x);
            }
        }
    }

    /// Sets where a connection stands in its life.
    fn set_lifecycle(&mut self, id: u64, lifecycle: WebSocketLifecycleState) -> (found: bool)
        requires
            old(self).wf(),
        ensures
            final(self).wf(),
            found == old(self)@.has(id),
            final(self)@ == (if old(self)@.has(id) {
                old(self)@.with_conn(ConnView { lifecycle, ..old(self)@.conn(id) })
            } else {
                old(self)@
            }),
    {
        let k: usize = self.find(id);
        if k >= self.connections.len() {
            return false;
        }
        let ghost was = *self;
        self.connections[k].lifecycle = lifecycle;
        proof {
            assert(was.connections@[k as int]@ == was@.conns[k as int]);
            assert(self@.conns =~= was@.conns.update(
                k as int,
                ConnView { lifecycle, ..was@.conns[k as int] },
            ));
            self.lemma_details_changed(was);
        }
        true
    }

    /// Notes that the driver of a connection can be reached.
    pub fn register_driver(&mut self, id: WebSocketId) -> (found: bool)
        requires
            old(self).wf(),
        ensures
            final(self).wf(),
            found == old(self)@.has(id.0),
            final(self)@ == (if old(self)@.has(id.0) {
                old(self)@.with_conn(ConnView { registered: true, ..old(self)@.conn(id.0) })
            } else {
                old(self)@
            }),
    {
        let k: usize = self.find(id.0);
        if k >= self.connections.len() {
            return false;
        }
        let ghost was = *self;
        self.connections[k].registered = true;
        proof {
            assert(was.connections@[k as int]@ == was@.conns[k as int]);
            assert(self@.conns =~= was@.conns.update(
                k as int,
                ConnView { registered: true, ..was@.conns[k as int] },
            ));
            self.lemma_details_changed(was);
        }
        true
    }

    /// Notes that a connection is open.
    pub fn record_opened(&mut self, id: WebSocketId)
        requires
            old(self).wf(),
        ensures
            final(self).wf(),
            final(self)@ == (if old(self)@.has(id.0) {
                old(self)@.with_conn(
                    ConnView {
                        lifecycle: WebSocketLifecycleState::Open,
                        ..old(self)@.conn(id.0)
                    },
                )
            } else {
                old(self)@
            }),
    {
        let _found: bool = self.set_lifecycle(id.0, WebSocketLifecycleState::Open);
    }

    /// Notes that a connection is closing.
    pub fn record_closing(&mut self, id: WebSocketId)
        requires
            old(self).wf(),
        ensures
            final(self).wf(),
            final(self)@ == (if old(self)@.has(id.0) {
                old(self)@.with_conn(
                    ConnView {
                        lifecycle: WebSocketLifecycleState::Closing,
                        ..old(self)@.conn(id.0)
                    },
                )
            } else {
                old(self)@
            }),
    {
        let _found: bool = self.set_lifecycle(id.0, WebSocketLifecycleState::Closing);
    }

    /// Begins to close one connection, and says how long to wait for it.
    pub fn close(&mut self, id: WebSocketId, code: u16, reason: &str) -> (r: Result<
        Duration,
        WsError,
    >)
        requires
            old(self).wf(),
        ensures
            final(self).wf(),
            r is Err ==> final(self)@ == old(self)@,
            match close_fault(code, reason@) {
                Some(why) => r matches Err(WsError::InvalidClose { code: c, reason: m }) && c == code
                    && m@ == why,
                None => if old(self)@.has(id.0) {
                    &&& r == Ok::<Duration, WsError>(old(self)@.conn(id.0).close_timeout)
                    &&& final(self)@ == old(self)@.with_conn(
                        ConnView {
                            lifecycle: WebSocketLifecycleState::Closing,
                            ..old(self)@.conn(id.0)
                        },
                    )
                } else {
                    r == Err::<Duration, WsError>(WsError::ConnectionNotFound(id))
                },
            },
    {
        match validate_close(code, reason) {
            Err(e) => Err(e),
            Ok(_) => {
                let k: usize = self.find(id.0);
                if k >= self.connections.len() {
                    return Err(WsError::ConnectionNotFound(id));
                }
                let timeout: Duration = self.connections[k].close_timeout;
                let _found: bool = self.set_lifecycle(id.0, WebSocketLifecycleState::Closing);
                Ok(timeout)
            },
        }
    }

    /// Takes no further connections.
    pub fn stop_accepting(&mut self)
        requires
            old(self).wf(),
        ensures
            final(self).wf(),
            final(self)@ == (RuntimeView { accepting: false, ..old(self)@ }),
    {
        self.accepting = false;
    }

    /// Takes no further connections, and begins to close those there are.
    pub fn begin_shutdown(&mut self)
        requires
            old(self).wf(),
        ensures
            final(self).wf(),
            final(self)@ == (RuntimeView {
                accepting: false,
                conns: Seq::new(
                    old(self)@.conns.len(),
                    |i: int|
                        ConnView {
                            lifecycle: WebSocketLifecycleState::Closing,
                            ..old(self)@.conns[i]
                        },
                ),
                ..old(self)@
            }),
    {
        let ghost was = *self;
        self.accepting = false;
        let mut i: usize = 0;
        while i < self.connections.len()
            invariant
                i <= self.connections.len(),
                self@ == (RuntimeView { accepting: false, conns: self@.conns, ..was@ }),
                self.route_counts == was.route_counts,
                self.ip_counts == was.ip_counts,
                self.rooms == was.rooms,
                self.seen_publications == was.seen_publications,
                self@.conns.len() == was@.conns.len(),
                forall|j: int|
                    0 <= j < i ==> #[trigger] self@.conns[j] == (ConnView {
                        lifecycle: WebSocketLifecycleState::Closing,
                        ..was@.conns[j]
                    }),
                forall|j: int|
                    i <= j < was@.conns.len() ==> #[trigger] self@.conns[j] == was@.conns[j],
            decreases self.connections.len() - i,
        {
            let ghost prev = self@.conns;
            let ghost list = self.connections@;
            assert(prev[i as int] == list[i as int]@);
            self.connections[i].lifecycle = WebSocketLifecycleState::Closing;
            assert(self@.conns =~= prev.update(
                i as int,
                ConnView { lifecycle: WebSocketLifecycleState::Closing, ..prev[i as int] },
            ));
            i += 1;
        }
        proof {
            self.lemma_details_changed(was);
            assert(self@.conns =~= Seq::new(
                was@.conns.len(),
                |i: int|
                    ConnView { lifecycle: WebSocketLifecycleState::Closing, ..was@.conns[i] },
            ));
        }
    }

    /// How long a shutdown waits for the connections: as long as the longest of them
    /// waits for its peer.
    pub fn shutdown_grace_period(&self) -> (r: Duration)
        ensures
            r.nanos == longest_close(self@.conns),
    {
        let mut longest: u128 = 0;
        let mut i: usize = 0;
        assert(self@.conns.take(0) =~= Seq::empty());
        while i < self.connections.len()
            invariant
                i <= self.connections.len(),
                longest == longest_close(self@.conns.take(i as int)),
            decreases self.connections.len() - i,
        {
            let t: u128 = self.connections[i].close_timeout.nanos;
            proof {
                let c = self@.conns.take(i + 1);
                assert(c.drop_last() =~= self@.conns.take(i as int));
                assert(c.last() == self.connections@[i as int]@);
            }
            if longest < t {
                longest = t;
            }
            i += 1;
        }
        assert(self@.conns.take(self@.conns.len() as int) =~= self@.conns);
        Duration { nanos: longest }
    }

    /// Forces the connections to end that can be reached and were not forced before,
    /// and says which they are.
    pub fn abort_remaining(&mut self) -> (r: Vec<WebSocketId>)
        requires
            old(self).wf(),
        ensures
            final(self).wf(),
            Seq::new(r@.len(), |i: int| r@[i].0) == ids(old(self)@.conns, can_be_forced()),
            final(self)@ == (RuntimeView {
                conns: Seq::new(old(self)@.conns.len(), |i: int| forced(old(self)@.conns[i])),
                ..old(self)@
            }),
    {
        let ghost was = *self;
        let ghost p = can_be_forced();
        let mut r: Vec<WebSocketId> = Vec::new();
        let mut i: usize = 0;
        assert(was@.conns.take(0) =~= Seq::empty());
        assert(Seq::new(r@.len(), |j: int| r@[j].0) =~= Seq::<u64>::empty());
        while i < self.connections.len()
            invariant
                i <= self.connections.len(),
                p == can_be_forced(),
                self@ == (RuntimeView { conns: self@.conns, ..was@ }),
                self.route_counts == was.route_counts,
                self.ip_counts == was.ip_counts,
                self.rooms == was.rooms,
                self.seen_publications == was.seen_publications,
                self@.conns.len() == was@.conns.len(),
                forall|j: int| 0 <= j < i ==> #[trigger] self@.conns[j] == forced(was@.conns[j]),
                forall|j: int|
                    i <= j < was@.conns.len() ==> #[trigger] self@.conns[j] == was@.conns[j],
                Seq::new(r@.len(), |j: int| r@[j].0) == ids(was@.conns.take(i as int), p),
            decreases self.connections.len() - i,
        {
            let ghost prev = self@.conns;
            let ghost list = self.connections@;
            let ghost ids_before = r@;
            assert(prev[i as int] == list[i as int]@);
            let hit: bool = self.connections[i].registered
                && !self.connections[i].forced_shutdown_observed;
            if hit {
                r.push(WebSocketId(self.connections[i].id));
                self.connections[i].forced_shutdown_observed = true;
            }
            proof {
                let v = was@.conns[i as int];
                assert(hit == p(v));
                assert(self@.conns =~= prev.update(i as int, forced(v)));
                let c = was@.conns.take(i + 1);
                assert(c.drop_last() =~= was@.conns.take(i as int));
                assert(c.last() == v);
                let now = Seq::new(r@.len(), |j: int| r@[j].0);
                let then = Seq::new(ids_before.len(), |j: int| ids_before[j].0);
                if hit {
                    assert(now =~= then.push(v.id));
                } else {
                    assert(now =~= then);
                }
            }
            i += 1;
        }
        proof {
            assert(was@.conns.take(was@.conns.len() as int) =~= was@.conns);
            self.lemma_details_changed(was);
            assert(self@.conns =~= Seq::new(was@.conns.len(), |i: int| forced(was@.conns[i])));
        }
        r
    }

    /// Counts a message of a connection.
    pub fn record_message(&mut self, outbound: bool, bytes: usize)
        requires
            old(self).wf(),
        ensures
            final(self).wf(),
            final(self)@ == (RuntimeView {
                counters: if outbound {
                    WebSocketCounters {
                        messages_sent: saturating(old(self)@.counters.messages_sent, 1),
                        bytes_sent: saturating(old(self)@.counters.bytes_sent, bytes as nat),
                        ..old(self)@.counters
                    }
                } else {
                    WebSocketCounters {
                        messages_received: saturating(old(self)@.counters.messages_received, 1),
                        bytes_received: saturating(
                            old(self)@.counters.bytes_received,
                            bytes as nat,
                        ),
                        ..old(self)@.counters
                    }
                },
                ..old(self)@
            }),
    {
        let n: u64 = bytes as u64;
        if outbound {
            self.counters.messages_sent = self.counters.messages_sent.saturating_add(1);
            self.counters.bytes_sent = self.counters.bytes_sent.saturating_add(n);
        } else {
            self.counters.messages_received = self.counters.messages_received.saturating_add(1);
            self.counters.bytes_received = self.counters.bytes_received.saturating_add(n);
        }
    }

    /// Counts a send for which a queue had no room.
    pub fn record_saturated_send(&mut self)
        requires
            old(self).wf(),
            old(self)@.can_count(),
        ensures
            final(self).wf(),
            final(self)@ == (RuntimeView {
                counters: WebSocketCounters {
                    saturated_sends: (old(self)@.counters.saturated_sends + 1) as u64,
                    ..old(self)@.counters
                },
                ..old(self)@
            }),
    {
        self.counters.saturated_sends = self.counters.saturated_sends + 1;
    }

    /// Counts a Ping that was not answered in time.
    pub fn record_heartbeat_timeout(&mut self)
        requires
            old(self).wf(),
            old(self)@.can_count(),
        ensures
            final(self).wf(),
            final(self)@ == (RuntimeView {
                counters: WebSocketCounters {
                    heartbeat_timeouts: (old(self)@.counters.heartbeat_timeouts + 1) as u64,
                    ..old(self)@.counters
                },
                ..old(self)@
            }),
    {
        self.counters.heartbeat_timeouts = self.counters.heartbeat_timeouts + 1;
    }

    /// Counts a broadcast, and whether it did not reach everyone it was meant for.
    pub fn record_broadcast(&mut self, rejected: usize, disconnected: usize)
        requires
            old(self).wf(),
        ensures
            final(self).wf(),
            final(self)@ == (RuntimeView {
                counters: WebSocketCounters {
                    local_broadcasts: saturating(old(self)@.counters.local_broadcasts, 1),
                    partial_broadcasts: if rejected > 0 || disconnected > 0 {
                        saturating(old(self)@.counters.partial_broadcasts, 1)
                    } else {
                        old(self)@.counters.partial_broadcasts
                    },
                    ..old(self)@.counters
                },
                ..old(self)@
            }),
    {
        self.counters.local_broadcasts = self.counters.local_broadcasts.saturating_add(1);
        if rejected > 0 || disconnected > 0 {
            self.counters.partial_broadcasts = self.counters.partial_broadcasts.saturating_add(1);
        }
    }

    /// Counts a publication to the broker.
    pub fn record_broker_publication(&mut self)
        requires
            old(self).wf(),
        ensures
            final(self).wf(),
            final(self)@ == (RuntimeView {
                counters: WebSocketCounters {
                    broker_publications: saturating(old(self)@.counters.broker_publications, 1),
                    ..old(self)@.counters
                },
                ..old(self)@
            }),
    {
        self.counters.broker_publications = self.counters.broker_publications.saturating_add(1);
    }

    /// Counts a failure of the broker.
    pub fn record_broker_error(&mut self)
        requires
            old(self).wf(),
        ensures
            final(self).wf(),
            final(self)@ == (RuntimeView {
                counters: WebSocketCounters {
                    broker_errors: saturating(old(self)@.counters.broker_errors, 1),
                    ..old(self)@.counters
                },
                ..old(self)@
            }),
    {
        self.counters.broker_errors = self.counters.broker_errors.saturating_add(1);
    }

    /// Notes that the broker is connected, and says whether that is news.
    pub fn set_broker_connected(&mut self) -> (changed: bool)
        requires
            old(self).wf(),
        ensures
            final(self).wf(),
            changed == !old(self)@.broker_connected,
            final(self)@ == (RuntimeView { broker_connected: true, ..old(self)@ }),
    {
        let changed: bool = !self.broker_connected;
        self.broker_connected = true;
        changed
    }

    /// Notes that the broker is not connected.
    pub fn set_broker_disconnected(&mut self)
        requires
            old(self).wf(),
        ensures
            final(self).wf(),
            final(self)@ == (RuntimeView { broker_connected: false, ..old(self)@ }),
    {
        self.broker_connected = false;
    }

    /// Whether the broker is to be started: the hub has one, and it was not started.
    pub fn start_broker(&mut self) -> (start: bool)
        requires
            old(self).wf(),
        ensures
            final(self).wf(),
            start == (old(self)@.hub.has_broker && !old(self)@.broker_started),
            final(self)@ == (RuntimeView {
                broker_started: old(self)@.broker_started || old(self)@.hub.has_broker,
                ..old(self)@
            }),
    {
        if !self.hub.has_broker || self.broker_started {
            return false;
        }
        self.broker_started = true;
        true
    }

    /// The id for the next publication. After the last one the count starts again at
    /// zero.
    pub fn next_publication_id(&mut self) -> (r: WsPublicationId)
        requires
            old(self).wf(),
        ensures
            final(self).wf(),
            r.0 == old(self)@.next_publication_id,
            final(self)@ == (RuntimeView {
                next_publication_id: super::driver::wrapping_next(old(self)@.next_publication_id),
                ..old(self)@
            }),
    {
        let n: u64 = self.next_publication_id;
        self.next_publication_id = n.wrapping_add(1);
        WsPublicationId(n)
    }

    /// Remembers a publication, and says whether it was not among those remembered.
    /// Once as many are remembered as may be, the oldest is forgotten.
    pub fn mark_publication_seen(&mut self, origin: WsNodeId, id: WsPublicationId) -> (fresh: bool)
        requires
            old(self).wf(),
        ensures
            final(self).wf(),
            fresh == !old(self)@.seen.contains((origin, id)),
            final(self)@ == (if fresh {
                RuntimeView { seen: remembered(old(self)@.seen, (origin, id)), ..old(self)@ }
            } else {
                old(self)@
            }),
    {
        let ghost was = self.seen_publications@;
        let mut i: usize = 0;
        while i < self.seen_publications.len()
            invariant
                i <= self.seen_publications.len(),
                *self == *old(self),
                self.wf(),
                was == self.seen_publications@,
                forall|j: int| 0 <= j < i ==> #[trigger] was[j] != (origin, id),
            decreases self.seen_publications.len() - i,
        {
            let (node, publication): (WsNodeId, WsPublicationId) = self.seen_publications[i];
            if node == origin && publication == id {
                assert(was[i as int] == (origin, id));
                return false;
            }
            i += 1;
        }
        proof {
            assert(!was.contains((origin, id)));
        }
        if self.seen_publications.len() >= MAX_SEEN_PUBLICATIONS {
            let _oldest: (WsNodeId, WsPublicationId) = self.seen_publications.remove(0);
            assert(self.seen_publications@ =~= was.skip(1));
        }
        let ghost kept = self.seen_publications@;
        self.seen_publications.push((origin, id));
        proof {
            let now = self.seen_publications@;
            assert(now =~= remembered(was, (origin, id)));
            assert forall|a: int, b: int|
                0 <= a < now.len() && 0 <= b < now.len() && a != b implies now[a] != now[b] by {
                if a == kept.len() {
                    assert(was.contains(kept[b]));
                } else if b == kept.len() {
                    assert(was.contains(kept[a]));
                } else if was.len() >= MAX_SEEN_PUBLICATIONS {
                    assert(was[a + 1] != was[b + 1]);
                }
            }
        }
        true
    }
}

/// A connection that is in fewer rooms is still sound.
proof fn lemma_subset_ok(v: ConnView, left: Seq<Seq<char>>)
    requires
        conn_ok(v),
        sorted(left),
        forall|x: Seq<char>| left.contains(x) ==> v.rooms.contains(x),
    ensures
        conn_ok(ConnView { rooms: left, ..v }),
{
    crate::text_set::lemma_sorted_distinct(left);
    crate::text_set::lemma_sorted_distinct(v.rooms);
    left.unique_seq_to_set();
    v.rooms.unique_seq_to_set();
    vstd::seq_lib::seq_to_set_is_finite(v.rooms);
    assert(left.to_set().subset_of(v.rooms.to_set()));
    vstd::set_lib::lemma_len_subset(left.to_set(), v.rooms.to_set());
    assert forall|i: int| 0 <= i < left.len() implies valid_room(
        #[trigger] left[i],
        v.max_room_name_bytes,
    ) by {
        assert(left.contains(left[i]));
        let j = choose|j: int| 0 <= j < v.rooms.len() && v.rooms[j] == left[i];
        assert(valid_room(v.rooms[j], v.max_room_name_bytes));
    }
}

proof fn lemma_total_same(a: Seq<ConnView>, b: Seq<ConnView>, p: spec_fn(ConnView) -> bool)
    requires
        a.len() == b.len(),
        forall|i: int| 0 <= i < a.len() ==> p(#[trigger] a[i]) == p(b[i]),
    ensures
        total(a, p) == total(b, p),
    decreases a.len(),
{
    if a.len() > 0 {
        let (x, y) = (a.drop_last(), b.drop_last());
        assert forall|i: int| 0 <= i < x.len() implies p(#[trigger] x[i]) == p(y[i]) by {
            assert(p(a[i]) == p(b[i]));
        }
        lemma_total_same(x, y, p);
        assert(p(a[a.len() - 1]) == p(b[b.len() - 1]));
    }
}

/// Whether a connection is in one of the rooms.
fn in_one_of(held: &TextSet, rooms: &Vec<String>) -> (r: bool)
    requires
        held.wf(),
    ensures
        r == exists|i: int| 0 <= i < rooms@.len() && held@.contains(#[trigger] views(rooms@)[i]),
{
    let mut i: usize = 0;
    while i < rooms.len()
        invariant
            i <= rooms.len(),
            held.wf(),
            forall|j: int| 0 <= j < i ==> !held@.contains(#[trigger] views(rooms@)[j]),
        decreases rooms.len() - i,
    {
        if held.contains(rooms[i].as_str()) {
            assert(held@.contains(views(rooms@)[i as int]));
            return true;
        }
        i += 1;
    }
    false
}

/// Whether a list holds an id.
fn holds_id(list: &Vec<u64>, id: u64) -> (r: bool)
    ensures
        r == list@.contains(id),
{
    let mut i: usize = 0;
    while i < list.len()
        invariant
            i <= list.len(),
            forall|j: int| 0 <= j < i ==> list@[j] != id,
        decreases list.len() - i,
    {
        if list[i] == id {
            return true;
        }
        i += 1;
    }
    false
}


/// No more connections are admitted than the process, the route or the IP address may
/// have: a limit that held before an admission holds after it.
pub proof fn law_admission_keeps_limits(
    v: RuntimeView,
    route: Seq<char>,
    remote_addr: Option<PeerAddr>,
    protocol: Option<Seq<char>>,
    c: ConfigView,
    now: u128,
)
    requires
        v.refusal(route, remote_addr, c) is None,
    ensures
        ({
            let w = v.with_connection(route, remote_addr, protocol, c, now);
            &&& c.process_max_connections matches Some(limit) ==> w.conns.len() <= limit
            &&& c.route_max_connections matches Some(limit) ==> total(w.conns, on_route(route))
                <= limit
            &&& remote_addr matches Some(a) ==> (c.max_connections_per_ip matches Some(limit)
                ==> total(w.conns, from_ip(a.ip)) <= limit)
        }),
{
    let w = v.with_connection(route, remote_addr, protocol, c, now);
    lemma_total_push(v.conns, w.conns.last(), on_route(route));
    if remote_addr is Some {
        lemma_total_push(v.conns, w.conns.last(), from_ip(remote_addr->0.ip));
    }
}

/// Once a runtime takes no further connections every admission is refused for that.
pub proof fn law_shutdown_refuses(
    v: RuntimeView,
    route: Seq<char>,
    remote_addr: Option<PeerAddr>,
    c: ConfigView,
)
    requires
        !v.accepting,
    ensures
        v.refusal(route, remote_addr, c) == Some(AdmissionError::Shutdown),
{
}

impl RuntimeView {
    /// Whether every connection that was accepted is either there or counted as closed.
    pub open spec fn balanced(self) -> bool {
        self.counters.accepted_connections == self.conns.len() + self.counters.closed_connections
    }
}

/// Every connection that was accepted is either there or counted as closed: so it is at
/// the start, and so it stays through admissions and releases.
pub proof fn law_connections_are_accounted_for(
    v: RuntimeView,
    hub: RuntimeHubConfig,
    route: Seq<char>,
    remote_addr: Option<PeerAddr>,
    protocol: Option<Seq<char>>,
    c: ConfigView,
    now: u128,
    id: u64,
)
    ensures
        RuntimeView::fresh(hub).balanced(),
        v.balanced() && v.can_count() ==> v.with_connection(
            route,
            remote_addr,
            protocol,
            c,
            now,
        ).balanced(),
        v.balanced() && v.can_count() && v.has(id) ==> v.without(id).balanced(),
{
    lemma_place(v.conns, id);
}

/// A released connection is gone, with its rooms, and no other connection is touched.
pub proof fn law_release_removes_one_connection(r: WebSocketRuntimeHandle, id: u64, other: u64)
    requires
        r.wf(),
        r@.has(id),
    ensures
        !r@.without(id).has(id),
        other != id ==> r@.without(id).has(other) == r@.has(other),
        other != id && r@.has(other) ==> r@.without(id).conn(other) == r@.conn(other),
{
    let c = r@.conns;
    let k = place(c, id);
    lemma_place(c, id);
    let d = c.remove(k);
    assert forall|i: int| 0 <= i < d.len() implies #[trigger] d[i] == c[if i < k {
        i
    } else {
        i + 1
    }] by {}
    lemma_place(d, id);
    if place(d, id) < d.len() {
        let i = place(d, id);
        let j = if i < k { i } else { i + 1 };
        if j < k {
            assert(c[j].id < c[k].id);
        } else {
            assert(c[k].id < c[j].id);
        }
    }
    if other != id {
        lemma_place(c, other);
        lemma_place(d, other);
        let m = place(c, other);
        if m < c.len() {
            let n = if m < k { m } else { m - 1 };
            assert(d[n] == c[m]);
            assert forall|i: int| 0 <= i < n implies (#[trigger] d[i]).id != other by {
                let j = if i < k { i } else { i + 1 };
                assert(c[j].id < c[m].id);
            }
            lemma_place_is(d, other, n);
        } else if place(d, other) < d.len() {
            let i = place(d, other);
            let j = if i < k { i } else { i + 1 };
            assert(c[j].id == other);
        }
    }
}

/// Leaving the rooms that a join was news of gives back the rooms from before it.
pub proof fn law_leave_undoes_join(
    rooms: Seq<Seq<char>>,
    requested: Seq<Seq<char>>,
    news: Seq<Seq<char>>,
    joined: Seq<Seq<char>>,
    left: Seq<Seq<char>>,
)
    requires
        sorted(rooms),
        forall|x: Seq<char>|
            news.contains(x) <==> requested.contains(x) && !rooms.contains(x),
        sorted(joined),
        forall|x: Seq<char>|
            joined.contains(x) <==> rooms.contains(x) || requested.contains(x),
        sorted(left),
        forall|x: Seq<char>| left.contains(x) <==> joined.contains(x) && !news.contains(x),
    ensures
        left == rooms,
{
    crate::text_set::lemma_sorted_unique(left, rooms);
}

/// No connection is ever in more rooms than it may be, nor in one whose name is not
/// allowed, and the ceilings of the hub hold for every connection that it admits.
pub proof fn law_rooms_stay_within_limits(
    r: WebSocketRuntimeHandle,
    k: int,
    route: Seq<char>,
    addr: Option<PeerAddr>,
    protocol: Option<Seq<char>>,
    c: ConfigView,
    now: u128,
)
    requires
        r.wf(),
        0 <= k < r@.conns.len(),
    ensures
        r@.conns[k].rooms.len() <= r@.conns[k].max_rooms_per_connection,
        forall|i: int|
            0 <= i < r@.conns[k].rooms.len() ==> valid_room(
                #[trigger] r@.conns[k].rooms[i],
                r@.conns[k].max_room_name_bytes,
            ),
        r@.with_connection(route, addr, protocol, c, now).conns.last().max_rooms_per_connection
            <= r@.hub.max_rooms_per_connection,
        r@.with_connection(route, addr, protocol, c, now).conns.last().max_room_name_bytes
            <= r@.hub.max_room_name_bytes,
{
    assert(conn_ok(r@.conns[k]));
}

/// Joining the same rooms again changes nothing.
pub proof fn law_join_is_idempotent(
    rooms: Seq<Seq<char>>,
    requested: Seq<Seq<char>>,
    joined: Seq<Seq<char>>,
    again: Seq<Seq<char>>,
)
    requires
        sorted(joined),
        forall|x: Seq<char>|
            joined.contains(x) <==> rooms.contains(x) || requested.contains(x),
        sorted(again),
        forall|x: Seq<char>|
            again.contains(x) <==> joined.contains(x) || requested.contains(x),
    ensures
        again == joined,
{
    crate::text_set::lemma_sorted_unique(again, joined);
}

/// A broadcast reaches each recipient once, in the order of the ids, and only those it
/// is addressed to: the excluded are never among them.
pub proof fn law_recipients_are_distinct(
    r: WebSocketRuntimeHandle,
    route: Option<Seq<char>>,
    rooms: Seq<Seq<char>>,
    all_in_scope: bool,
    excluded: Seq<u64>,
)
    requires
        r.wf(),
    ensures
        ({
            let to = ids(r@.conns, addressed(route, rooms, all_in_scope, excluded));
            &&& forall|i: int, j: int| 0 <= i < j < to.len() ==> to[i] < to[j]
            &&& forall|i: int| 0 <= i < to.len() ==> !excluded.contains(#[trigger] to[i])
            &&& forall|x: u64| #[trigger]
                to.contains(x) <==> some_conn(
                    r@.conns,
                    addressed(route, rooms, all_in_scope, excluded),
                    x,
                )
        }),
{
    let p = addressed(route, rooms, all_in_scope, excluded);
    lemma_ids(r@.conns, r.next_id, p);
    let to = ids(r@.conns, p);
    assert forall|i: int| 0 <= i < to.len() implies !excluded.contains(#[trigger] to[i]) by {
        assert(to.contains(to[i]));
        assert(some_conn(r@.conns, p, to[i]));
    }
}

/// A publication that was just seen is remembered, and never more than a bounded number
/// of them.
pub proof fn law_seen_publications_are_bounded(
    seen: Seq<(WsNodeId, WsPublicationId)>,
    key: (WsNodeId, WsPublicationId),
)
    requires
        seen.len() <= MAX_SEEN_PUBLICATIONS,
    ensures
        remembered(seen, key).len() <= MAX_SEEN_PUBLICATIONS,
        remembered(seen, key).contains(key),
{
    let now = remembered(seen, key);
    assert(now[now.len() - 1] == key);
}

/// A broadcast reaches exactly the connections in its scope that are not excluded. One to
/// rooms reaches those that are on the very route and in at least one of the rooms there,
/// one to a route all that are on it, and one to all everyone.
pub proof fn law_broadcasts_reach_their_scope(
    r: WebSocketRuntimeHandle,
    route: Option<Seq<char>>,
    rooms: Seq<Seq<char>>,
    all_in_scope: bool,
    excluded: Seq<u64>,
    k: int,
)
    requires
        r.wf(),
        0 <= k < r@.conns.len(),
    ensures
        ({
            let to = ids(r@.conns, addressed(route, rooms, all_in_scope, excluded));
            let conn = r@.conns[k];
            &&& excluded.contains(conn.id) ==> !to.contains(conn.id)
            &&& route is Some && conn.route != route->0 ==> !to.contains(conn.id)
            &&& all_in_scope && route is None && !excluded.contains(conn.id) ==> to.contains(conn.id)
            &&& all_in_scope && route == Some(conn.route) && !excluded.contains(conn.id)
                ==> to.contains(conn.id)
            &&& !all_in_scope && route == Some(conn.route) && !excluded.contains(conn.id) ==> (
            to.contains(conn.id) <==> exists|i: int|
                0 <= i < rooms.len() && conn.rooms.contains(#[trigger] rooms[i]))
            &&& !all_in_scope && route is None ==> !to.contains(conn.id)
        }),
{
    let p = addressed(route, rooms, all_in_scope, excluded);
    let conn = r@.conns[k];
    lemma_ids(r@.conns, r.next_id, p);
    assert(ids(r@.conns, p).contains(conn.id) <==> some_conn(r@.conns, p, conn.id));
    assert(some_conn(r@.conns, p, conn.id) == p(conn)) by {
        if some_conn(r@.conns, p, conn.id) {
            let i = choose|i: int|
                0 <= i < r@.conns.len() && p(#[trigger] r@.conns[i]) && r@.conns[i].id == conn.id;
            if i < k {
                assert(r@.conns[i].id < r@.conns[k].id);
            } else if k < i {
                assert(r@.conns[k].id < r@.conns[i].id);
            }
        }
    }
}

/// What a broadcast to rooms reaches is what the index of rooms holds for them: the
/// members of the rooms on that route, without those that are excluded, and no one else.
pub proof fn law_broadcasts_reach_the_members(
    r: WebSocketRuntimeHandle,
    route: Seq<char>,
    rooms: Seq<Seq<char>>,
    excluded: Seq<u64>,
    x: u64,
)
    requires
        r.wf(),
    ensures
        ids(r@.conns, addressed(Some(route), rooms, false, excluded)).contains(x) <==> (
        !excluded.contains(x) && exists|i: int|
            0 <= i < rooms.len() && r.rooms.holds(route, #[trigger] rooms[i], x)),
{
    let p = addressed(Some(route), rooms, false, excluded);
    lemma_ids(r@.conns, r.next_id, p);
    let to = ids(r@.conns, p);
    if to.contains(x) {
        let k = choose|k: int|
            0 <= k < r@.conns.len() && p(#[trigger] r@.conns[k]) && r@.conns[k].id == x;
        let conn = r@.conns[k];
        let i = choose|i: int| 0 <= i < rooms.len() && conn.rooms.contains(#[trigger] rooms[i]);
        assert(in_room(route, rooms[i])(conn));
        assert(r.rooms.holds(route, rooms[i], x));
    }
    if !excluded.contains(x) && exists|i: int|
        0 <= i < rooms.len() && r.rooms.holds(route, #[trigger] rooms[i], x) {
        let i = choose|i: int| 0 <= i < rooms.len() && r.rooms.holds(route, #[trigger] rooms[i], x);
        let q = in_room(route, rooms[i]);
        assert(some_conn(r@.conns, q, x));
        let k = choose|k: int|
            0 <= k < r@.conns.len() && q(#[trigger] r@.conns[k]) && r@.conns[k].id == x;
        assert(p(r@.conns[k]));
        assert(some_conn(r@.conns, p, x));
    }
}

/// Connections are counted one by one.
pub proof fn law_connections_are_counted(c: Seq<ConnView>, v: ConnView, p: spec_fn(ConnView) -> bool)
    ensures
        total(Seq::empty(), p) == 0,
        total(c.push(v), p) == total(c, p) + (if p(v) {
            1nat
        } else {
            0
        }),
        ids(Seq::empty(), p).len() == 0,
        ids(c.push(v), p) == (if p(v) {
            ids(c, p).push(v.id)
        } else {
            ids(c, p)
        }),
{
    assert(c.push(v).drop_last() =~= c);
}

/// A connection is admitted exactly where the runtime takes connections and neither the
/// process, nor the route, nor the address has as many as it may have. Of several reasons
/// to refuse it the first of these is told.
pub proof fn law_admission_is_refused_at_the_limits(
    v: RuntimeView,
    route: Seq<char>,
    addr: Option<PeerAddr>,
    c: ConfigView,
)
    ensures
        v.refusal(route, addr, c) is None <==> v.accepting && (c.process_max_connections matches
            Some(n) ==> v.conns.len() < n) && (c.route_max_connections matches Some(n) ==> total(
            v.conns,
            |x: ConnView| x.route == route,
        ) < n) && (addr matches Some(a) ==> (c.max_connections_per_ip matches Some(n) ==> total(
            v.conns,
            |x: ConnView| x.remote_addr is Some && x.remote_addr->0.ip == a.ip,
        ) < n)),
        v.accepting && (c.process_max_connections matches Some(n) && v.conns.len() >= n)
            ==> v.refusal(route, addr, c) == Some(AdmissionError::ProcessCapacity),
        v.refusal(route, addr, c) == Some(AdmissionError::RouteCapacity) ==> c.route_max_connections
            is Some,
        v.refusal(route, addr, c) == Some(AdmissionError::IpCapacity) ==> addr is Some
            && c.max_connections_per_ip is Some,
        addr is None ==> v.refusal(route, addr, c) != Some(AdmissionError::IpCapacity),
{
    let p = |x: ConnView| x.route == route;
    assert forall|i: int| 0 <= i < v.conns.len() implies p(#[trigger] v.conns[i]) == on_route(
        route,
    )(v.conns[i]) by {}
    lemma_total_agree(v.conns, p, on_route(route));
    if let Some(a) = addr {
        let q = |x: ConnView| x.remote_addr is Some && x.remote_addr->0.ip == a.ip;
        assert forall|i: int| 0 <= i < v.conns.len() implies q(#[trigger] v.conns[i]) == from_ip(
            a.ip,
        )(v.conns[i]) by {}
        lemma_total_agree(v.conns, q, from_ip(a.ip));
    }
}

proof fn lemma_total_agree(
    c: Seq<ConnView>,
    p: spec_fn(ConnView) -> bool,
    q: spec_fn(ConnView) -> bool,
)
    requires
        forall|i: int| 0 <= i < c.len() ==> p(#[trigger] c[i]) == q(c[i]),
    ensures
        total(c, p) == total(c, q),
    decreases c.len(),
{
    if c.len() > 0 {
        let d = c.drop_last();
        assert forall|i: int| 0 <= i < d.len() implies p(#[trigger] d[i]) == q(d[i]) by {
            assert(d[i] == c[i]);
        }
        lemma_total_agree(d, p, q);
        assert(p(c[c.len() - 1]) == q(c[c.len() - 1]));
    }
}

/// An admitted connection stands behind the others, with the next id, on its route, with its
/// address, its subprotocol and the moment it opened, in no room, and with the stricter of
/// its own limits and those of the hub. No other connection changes.
pub proof fn law_admitted_connections_stand_last(
    v: RuntimeView,
    route: Seq<char>,
    addr: Option<PeerAddr>,
    protocol: Option<Seq<char>>,
    c: ConfigView,
    now: u128,
)
    requires
        v.can_count(),
    ensures
        ({
            let w = v.with_connection(route, addr, protocol, c, now);
            let n = w.conns[v.conns.len() as int];
            &&& w.conns.len() == v.conns.len() + 1
            &&& forall|i: int|
                0 <= i < v.conns.len() ==> #[trigger] w.conns[i] == v.conns[i]
            &&& n.id == v.next_id && w.next_id == v.next_id + 1
            &&& n.route == route && n.remote_addr == addr && n.protocol == protocol
            &&& n.opened_at == now
            &&& n.close_timeout == c.close_timeout
            &&& n.rooms.len() == 0
            &&& n.lifecycle == WebSocketLifecycleState::Connecting
            &&& !n.registered && !n.forced_shutdown_observed
            &&& n.max_rooms_per_connection <= c.max_rooms_per_connection
                && n.max_rooms_per_connection <= v.hub.max_rooms_per_connection
            &&& n.max_rooms_per_connection == c.max_rooms_per_connection
                || n.max_rooms_per_connection == v.hub.max_rooms_per_connection
            &&& n.max_room_name_bytes <= c.max_room_name_bytes && n.max_room_name_bytes
                <= v.hub.max_room_name_bytes
            &&& n.max_room_name_bytes == c.max_room_name_bytes || n.max_room_name_bytes
                == v.hub.max_room_name_bytes
            &&& w.counters.accepted_connections == v.counters.accepted_connections + 1
            &&& w.counters.rejected_connections == v.counters.rejected_connections
            &&& w.accepting == v.accepting && w.hub == v.hub && w.seen == v.seen
        }),
{
}

/// A connection is found by its id.
pub proof fn law_connections_are_found_by_their_ids(r: WebSocketRuntimeHandle, k: int, id: u64)
    requires
        r.wf(),
    ensures
        0 <= k < r@.conns.len() ==> r@.has(r@.conns[k].id) && r@.conn(r@.conns[k].id)
            == r@.conns[k],
        (forall|i: int| 0 <= i < r@.conns.len() ==> (#[trigger] r@.conns[i]).id != id) ==> !r@.has(
            id,
        ),
{
    let c = r@.conns;
    if 0 <= k < c.len() {
        assert forall|i: int| 0 <= i < k implies (#[trigger] c[i]).id != c[k].id by {
            assert(c[i].id < c[k].id);
        }
        lemma_place_is(c, c[k].id, k);
    }
    lemma_place(c, id);
}

/// A name can be that of a room where it is not empty, has no zero character, and is no
/// longer in UTF-8 than it may be.
pub proof fn law_names_of_rooms(room: Seq<char>, max: usize)
    ensures
        valid_room(room, max) <==> room.len() > 0 && (forall|i: int|
            0 <= i < room.len() ==> #[trigger] room[i] != '\0') && vstd::utf8::encode_utf8(room).len()
            <= max,
{
    if forall|i: int| 0 <= i < room.len() ==> #[trigger] room[i] != '\0' {
        assert(!room.contains('\0'));
    }
    if !room.contains('\0') {
        assert forall|i: int| 0 <= i < room.len() implies #[trigger] room[i] != '\0' by {
            assert(room.contains(room[i]));
        }
    }
}

/// The longest time that a connection waits for its peer is what a shutdown waits for all.
pub proof fn law_shutdown_waits_for_the_longest(c: Seq<ConnView>, k: int)
    ensures
        0 <= k < c.len() ==> c[k].close_timeout.nanos <= longest_close(c),
        c.len() == 0 ==> longest_close(c) == 0,
        c.len() > 0 ==> exists|i: int|
            0 <= i < c.len() && (#[trigger] c[i]).close_timeout.nanos == longest_close(c),
    decreases c.len(),
{
    if c.len() > 0 {
        let d = c.drop_last();
        law_shutdown_waits_for_the_longest(d, k);
        assert(c[c.len() - 1] == c.last());
        if longest_close(d) < c.last().close_timeout.nanos {
            assert(c[c.len() - 1].close_timeout.nanos == longest_close(c));
        } else if d.len() > 0 {
            let i = choose|i: int|
                0 <= i < d.len() && (#[trigger] d[i]).close_timeout.nanos == longest_close(d);
            assert(c[i].close_timeout.nanos == longest_close(c));
        } else {
            assert(c[c.len() - 1].close_timeout.nanos == longest_close(c));
        }
    }
}

/// The latest publications are remembered, in their order: a new one goes to the end, and
/// where there are as many as may be the oldest is forgotten, and no other.
pub proof fn law_oldest_publication_is_forgotten(
    seen: Seq<(WsNodeId, WsPublicationId)>,
    key: (WsNodeId, WsPublicationId),
    i: int,
)
    ensures
        remembered(seen, key).last() == key,
        seen.len() < 4096 ==> remembered(seen, key).len() == seen.len() + 1,
        seen.len() >= 4096 ==> remembered(seen, key).len() == seen.len(),
        seen.len() < 4096 && 0 <= i < seen.len() ==> remembered(seen, key)[i]
            == seen[i],
        seen.len() >= 4096 && 1 <= i < seen.len() ==> remembered(seen, key)[i - 1]
            == seen[i],
{
}

/// What is told of a runtime is what it has counted.
pub proof fn law_stats_tell_the_counters(v: RuntimeView)
    ensures
        v.conns.len() <= usize::MAX ==> v.stats().active_connections == v.conns.len(),
        v.stats().accepted_connections == v.counters.accepted_connections,
        v.stats().rejected_connections == v.counters.rejected_connections,
        v.stats().closed_connections == v.counters.closed_connections,
        v.stats().messages_received == v.counters.messages_received,
        v.stats().messages_sent == v.counters.messages_sent,
        v.stats().bytes_received == v.counters.bytes_received,
        v.stats().bytes_sent == v.counters.bytes_sent,
        v.stats().saturated_sends == v.counters.saturated_sends,
        v.stats().heartbeat_timeouts == v.counters.heartbeat_timeouts,
        v.stats().room_joins == v.counters.room_joins,
        v.stats().room_leaves == v.counters.room_leaves,
        v.stats().local_broadcasts == v.counters.local_broadcasts,
        v.stats().partial_broadcasts == v.counters.partial_broadcasts,
        v.stats().broker_publications == v.counters.broker_publications,
        v.stats().broker_errors == v.counters.broker_errors,
        v.stats().broker_connected == v.broker_connected,
        forall|route: Seq<char>, room: Seq<char>| #[trigger]
            occupied(v.conns).contains((route, room)) <==> exists|i: int|
                0 <= i < v.conns.len() && (#[trigger] v.conns[i]).route == route
                    && v.conns[i].rooms.contains(room),
{
}

/// A released connection is counted as closed, and has left the rooms it was in.
pub proof fn law_release_is_counted(v: RuntimeView, id: u64)
    requires
        v.can_count(),
        v.has(id),
    ensures
        v.without(id).counters.closed_connections == v.counters.closed_connections + 1,
        v.counters.room_leaves + v.conn(id).rooms.len() <= u64::MAX ==> v.without(
            id,
        ).counters.room_leaves == v.counters.room_leaves + v.conn(id).rooms.len(),
        v.without(id).counters.accepted_connections == v.counters.accepted_connections,
        v.without(id).conns.len() == v.conns.len() - 1,
{
    lemma_place(v.conns, id);
}

/// Only connections that can be reached are forced to end, and each once.
pub proof fn law_connections_are_forced_once(v: ConnView)
    ensures
        can_be_forced()(v) <==> v.registered && !v.forced_shutdown_observed,
        !can_be_forced()(forced(v)),
        forced(v).id == v.id && forced(v).route == v.route && forced(v).rooms == v.rooms
            && forced(v).lifecycle == v.lifecycle && forced(v).registered == v.registered,
        !v.registered ==> forced(v) == v,
{
}

/// What is shown of a connection is what it is.
pub proof fn law_snapshots_show_connections(v: ConnView)
    ensures
        shown(v).id == v.id,
        shown(v).route == v.route,
        shown(v).remote_addr == v.remote_addr,
        shown(v).protocol == v.protocol,
        shown(v).opened_at == v.opened_at,
        shown(v).rooms == v.rooms,
        shown(v).lifecycle == v.lifecycle,
{
}

/// Counts go up by what is added, and stop at the largest number.
pub proof fn law_counts_stop_at_the_largest(n: u64, more: nat)
    ensures
        n + more <= u64::MAX ==> saturating(n, more) == n + more,
        n + more > u64::MAX ==> saturating(n, more) == u64::MAX,
{
}

/// A room counts once however often it is joined: one that the connection is in, or that
/// was named before, adds nothing, and any other adds one.
pub proof fn law_rooms_count_once(rooms: Seq<Seq<char>>, more: Seq<Seq<char>>, room: Seq<char>)
    requires
        rooms.no_duplicates(),
    ensures
        joined_count(rooms, Seq::empty()) == rooms.len(),
        rooms.contains(room) || more.contains(room) ==> joined_count(rooms, more.push(room))
            == joined_count(rooms, more),
        !rooms.contains(room) && !more.contains(room) ==> joined_count(rooms, more.push(room))
            == joined_count(rooms, more) + 1,
{
    let a = rooms.to_set();
    let b = more.to_set();
    assert(a.union(Seq::<Seq<char>>::empty().to_set()) =~= a);
    rooms.unique_seq_to_set();
    vstd::seq_lib::seq_to_set_is_finite(rooms);
    vstd::seq_lib::seq_to_set_is_finite(more);
    assert(more.push(room).to_set() =~= b.insert(room)) by {
        let all = more.push(room);
        assert forall|x: Seq<char>| b.insert(room).contains(x) implies all.contains(x) by {
            if x == room {
                assert(all[more.len() as int] == x);
            } else {
                let i = choose|i: int| 0 <= i < more.len() && more[i] == x;
                assert(all[i] == x);
            }
        }
        assert forall|x: Seq<char>| all.contains(x) implies b.insert(room).contains(x) by {
            let i = choose|i: int| 0 <= i < all.len() && all[i] == x;
            if i < more.len() {
                assert(more[i] == x);
            }
        }
    }
    assert(a.union(b.insert(room)) =~= a.union(b).insert(room));
}

/// The reasons for which connections are refused have names of their own.
pub proof fn law_reasons_have_their_names(e: AdmissionError)
    ensures
        e == AdmissionError::Shutdown ==> e.spec_reason() == "shutdown"@,
        e == AdmissionError::ProcessCapacity ==> e.spec_reason() == "process_capacity"@,
        e == AdmissionError::RouteCapacity ==> e.spec_reason() == "route_capacity"@,
        e == AdmissionError::IpCapacity ==> e.spec_reason() == "ip_capacity"@,
{
}

/// A new runtime takes connections, has none, has counted nothing, and numbers its first
/// connection and its first publication one.
pub proof fn law_fresh_runtimes_have_counted_nothing(hub: RuntimeHubConfig)
    ensures
        RuntimeView::fresh(hub).accepting,
        RuntimeView::fresh(hub).conns.len() == 0,
        RuntimeView::fresh(hub).next_id == 1,
        RuntimeView::fresh(hub).next_publication_id == 1,
        RuntimeView::fresh(hub).seen.len() == 0,
        !RuntimeView::fresh(hub).broker_started,
        !RuntimeView::fresh(hub).broker_connected,
        RuntimeView::fresh(hub).hub == hub,
        RuntimeView::fresh(hub).counters.accepted_connections == 0,
        RuntimeView::fresh(hub).counters.rejected_connections == 0,
        RuntimeView::fresh(hub).counters.closed_connections == 0,
        RuntimeView::fresh(hub).counters.messages_received == 0,
        RuntimeView::fresh(hub).counters.messages_sent == 0,
        RuntimeView::fresh(hub).counters.bytes_received == 0,
        RuntimeView::fresh(hub).counters.bytes_sent == 0,
        RuntimeView::fresh(hub).counters.saturated_sends == 0,
        RuntimeView::fresh(hub).counters.heartbeat_timeouts == 0,
        RuntimeView::fresh(hub).counters.room_joins == 0,
        RuntimeView::fresh(hub).counters.room_leaves == 0,
        RuntimeView::fresh(hub).counters.local_broadcasts == 0,
        RuntimeView::fresh(hub).counters.partial_broadcasts == 0,
        RuntimeView::fresh(hub).counters.broker_publications == 0,
        RuntimeView::fresh(hub).counters.broker_errors == 0,
{
}

} // verus!

//! What the WebSocket runtime exchanges with handlers and observers.

use vstd::prelude::*;

use super::broker::{WsBrokerErrorCategory, WsNodeId, WsPublicationId};

verus! {

/// Identifies one connection within a runtime.
#[derive(Clone, Copy, Debug, PartialEq, Eq, Hash, Structural)]
pub struct WebSocketId(pub u64);

/// A close frame: its status code and its reason.
#[derive(Debug)]
pub struct CloseFrame {
    pub code: u16,
    pub reason: String,
}

/// A message of a connection, in either direction.
#[derive(Clone, Debug)]
pub enum WebSocketMessage {
    Text(String),
    Binary(Vec<u8>),
    Ping(Vec<u8>),
    Pong(Vec<u8>),
    Close(Option<CloseFrame>),
}

/// A close frame as contracts speak of it.
#[verifier::ext_equal]
pub struct CloseFrameView {
    pub code: u16,
    pub reason: Seq<char>,
}

/// A message as contracts speak of it.
#[verifier::ext_equal]
pub enum MessageView {
    Text(Seq<char>),
    Binary(Seq<u8>),
    Ping(Seq<u8>),
    Pong(Seq<u8>),
    Close(Option<CloseFrameView>),
}

impl View for CloseFrame {
    type V = CloseFrameView;

    open spec fn view(&self) -> CloseFrameView {
        CloseFrameView { code: self.code, reason: self.reason@ }
    }
}

impl Clone for CloseFrame {
    fn clone(&self) -> (r: CloseFrame)
        ensures
            r == *self,
    {
        CloseFrame { code: self.code, reason: self.reason.clone() }
    }
}

/// The view of an optional close frame.
pub open spec fn frame_view(frame: Option<CloseFrame>) -> Option<CloseFrameView> {
    match frame {
        Some(f) => Some(f@),
        None => None,
    }
}

impl View for WebSocketMessage {
    type V = MessageView;

    open spec fn view(&self) -> MessageView {
        match *self {
            WebSocketMessage::Text(s) => MessageView::Text(s@),
            WebSocketMessage::Binary(b) => MessageView::Binary(b@),
            WebSocketMessage::Ping(b) => MessageView::Ping(b@),
            WebSocketMessage::Pong(b) => MessageView::Pong(b@),
            WebSocketMessage::Close(f) => MessageView::Close(frame_view(f)),
        }
    }
}

impl MessageView {
    /// Whether the message carries application data.
    pub open spec fn is_application(self) -> bool {
        self is Text || self is Binary
    }
}

impl WebSocketMessage {
    /// A text message.
    pub fn text(s: &str) -> (r: WebSocketMessage)
        ensures
            r@ == MessageView::Text(s@),
    {
        WebSocketMessage::Text(s.to_owned())
    }

    /// Whether the message is a text.
    pub fn is_text(&self) -> (r: bool)
        ensures
            r == (self@ is Text),
    {
        matches!(self, WebSocketMessage::Text(_))
    }

    /// Whether the message is binary.
    pub fn is_binary(&self) -> (r: bool)
        ensures
            r == (self@ is Binary),
    {
        matches!(self, WebSocketMessage::Binary(_))
    }

    /// Whether the message is a Ping.
    pub fn is_ping(&self) -> (r: bool)
        ensures
            r == (self@ is Ping),
    {
        matches!(self, WebSocketMessage::Ping(_))
    }

    /// Whether the message is a Pong.
    pub fn is_pong(&self) -> (r: bool)
        ensures
            r == (self@ is Pong),
    {
        matches!(self, WebSocketMessage::Pong(_))
    }

    /// Whether the message is a Close.
    pub fn is_close(&self) -> (r: bool)
        ensures
            r == (self@ is Close),
    {
        matches!(self, WebSocketMessage::Close(_))
    }
}

/// Who began to close a connection.
#[derive(Clone, Copy, Debug, PartialEq, Eq, Structural)]
pub enum WebSocketCloseInitiator {
    Local,
    Peer,
    Runtime,
    Timeout,
    ProtocolError,
    Handler,
}

/// How a connection was closed.
#[derive(Debug, PartialEq, Eq)]
pub struct WebSocketCloseInfo {
    pub code: u16,
    pub reason: String,
    pub initiator: WebSocketCloseInitiator,
    pub clean: bool,
}

/// How a connection was closed, as contracts speak of it.
#[verifier::ext_equal]
pub struct CloseInfoView {
    pub code: u16,
    pub reason: Seq<char>,
    pub initiator: WebSocketCloseInitiator,
    pub clean: bool,
}

impl View for WebSocketCloseInfo {
    type V = CloseInfoView;

    open spec fn view(&self) -> CloseInfoView {
        CloseInfoView {
            code: self.code,
            reason: self.reason@,
            initiator: self.initiator,
            clean: self.clean,
        }
    }
}

impl Clone for WebSocketCloseInfo {
    fn clone(&self) -> (r: WebSocketCloseInfo)
        ensures
            r == *self,
    {
        WebSocketCloseInfo {
            code: self.code,
            reason: self.reason.clone(),
            initiator: self.initiator,
            clean: self.clean,
        }
    }
}

/// Where a connection stands in its life.
#[derive(Clone, Copy, Debug, PartialEq, Eq, Structural)]
pub enum WebSocketLifecycleState {
    Connecting,
    Open,
    Closing,
}

/// The address of a peer: the bytes of its IP address, as a number, and its port.
#[derive(Clone, Copy, Debug, PartialEq, Eq, Structural)]
pub struct PeerAddr {
    pub ip: IpAddress,
    pub port: u16,
}

/// An IP address, as the number that its bytes make up.
#[derive(Clone, Copy, Debug, PartialEq, Eq, Structural)]
pub enum IpAddress {
    V4(u32),
    V6(u128),
}

/// A connection as it stood at one moment.
#[derive(Clone, Debug)]
pub struct WebSocketConnectionSnapshot {
    pub id: WebSocketId,
    pub route: String,
    pub remote_addr: Option<PeerAddr>,
    pub protocol: Option<String>,
    /// Nanoseconds since the Unix epoch.
    pub opened_at: u128,
    pub rooms: Vec<String>,
    pub lifecycle: WebSocketLifecycleState,
}

/// Counters of a runtime.
#[derive(Clone, Copy, Debug, PartialEq, Eq, Structural)]
pub struct WebSocketStats {
    pub active_connections: usize,
    pub accepted_connections: u64,
    pub rejected_connections: u64,
    pub closed_connections: u64,
    pub messages_received: u64,
    pub messages_sent: u64,
    pub bytes_received: u64,
    pub bytes_sent: u64,
    pub saturated_sends: u64,
    pub heartbeat_timeouts: u64,
    pub active_rooms: usize,
    pub room_joins: u64,
    pub room_leaves: u64,
    pub local_broadcasts: u64,
    pub partial_broadcasts: u64,
    pub broker_publications: u64,
    pub broker_errors: u64,
    pub broker_connected: bool,
}

/// What a runtime tells its observer. Message payloads are never part of it; a
/// message shows only its direction and its length in bytes.
#[allow(inconsistent_fields)]
#[derive(Clone, Copy, Debug)]
pub enum WebSocketObservation<'a> {
    Accepted { id: WebSocketId, route: &'a str },
    Rejected { route: &'a str, reason: &'a str },
    Opened { id: WebSocketId },
    Message { id: WebSocketId, outbound: bool, bytes: usize },
    QueueSaturated { id: WebSocketId, outbound: bool },
    HeartbeatTimeout { id: WebSocketId },
    Closed { id: WebSocketId, code: Option<u16>, clean: bool },
    HandlerFailed { id: WebSocketId },
    ForcedShutdown { id: WebSocketId },
    RoomJoined { id: WebSocketId, route: &'a str, room: &'a str },
    RoomLeft { id: WebSocketId, route: &'a str, room: &'a str },
    Broadcast {
        route: Option<&'a str>,
        room_count: usize,
        matched: usize,
        enqueued: usize,
        rejected: usize,
        disconnected: usize,
        remote: WsRemotePublish,
    },
    BrokerConnected { node: WsNodeId },
    BrokerDisconnected { node: WsNodeId, reason: WsBrokerErrorCategory },
    BrokerLagged { node: WsNodeId, skipped: u64 },
    BrokerInvalidPublication { origin: WsNodeId, publication: WsPublicationId },
}

/// Receives what a runtime observes. Implementations should return quickly.
pub trait WebSocketObserver {
    fn observe(&self, _event: &WebSocketObservation<'_>) {
    }
}

impl WebSocketObserver for () {

}

/// What became of a broadcast beyond this process.
#[derive(Clone, Copy, Debug, PartialEq, Eq, Structural)]
pub enum WsRemotePublish {
    NotConfigured,
    Published,
}

/// The kinds of a `WebSocketError`.
#[derive(Clone, Copy, Debug, PartialEq, Eq, Structural)]
pub enum WebSocketErrorCategory {
    Protocol,
    Json,
}

/// A named event with its data.
#[derive(Clone, Debug)]
pub struct WebSocketEvent<T> {
    pub event: String,
    pub data: T,
}

} // verus!

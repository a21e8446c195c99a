//! What can go wrong with a WebSocket connection.

use vstd::prelude::*;

use super::types::{WebSocketErrorCategory, WebSocketId};
use crate::text::{decimal, to_decimal};

verus! {

/// A failure of the protocol or of a JSON payload, with its description.
#[derive(Clone, Debug)]
pub enum WebSocketError {
    Protocol(String),
    Json(String),
}

impl WebSocketError {
    /// The description as contracts speak of it.
    pub open spec fn text(self) -> Seq<char> {
        match self {
            WebSocketError::Protocol(e) => "websocket protocol error: "@ + e@,
            WebSocketError::Json(e) => "websocket JSON error: "@ + e@,
        }
    }

    /// The kind of the error.
    pub fn category(&self) -> (r: WebSocketErrorCategory)
        ensures
            r == (match *self {
                WebSocketError::Protocol(_) => WebSocketErrorCategory::Protocol,
                WebSocketError::Json(_) => WebSocketErrorCategory::Json,
            }),
    {
        match self {
            WebSocketError::Protocol(_) => WebSocketErrorCategory::Protocol,
            WebSocketError::Json(_) => WebSocketErrorCategory::Json,
        }
    }

    /// The error in words.
    pub fn message(&self) -> (r: String)
        ensures
            r@ == self.text(),
    {
        match self {
            WebSocketError::Protocol(e) => "websocket protocol error: ".to_owned().concat(
                e.as_str(),
            ),
            WebSocketError::Json(e) => "websocket JSON error: ".to_owned().concat(e.as_str()),
        }
    }
}

/// Which time limit ran out.
#[derive(Clone, Copy, Debug, PartialEq, Eq, Structural)]
pub enum WebSocketTimeout {
    Send,
    Pong,
    Idle,
    Lifetime,
    Close,
    Shutdown,
    Broker,
}

impl WebSocketTimeout {
    /// The name of the limit.
    pub open spec fn spec_name(self) -> Seq<char> {
        match self {
            WebSocketTimeout::Send => "Send"@,
            WebSocketTimeout::Pong => "Pong"@,
            WebSocketTimeout::Idle => "Idle"@,
            WebSocketTimeout::Lifetime => "Lifetime"@,
            WebSocketTimeout::Close => "Close"@,
            WebSocketTimeout::Shutdown => "Shutdown"@,
            WebSocketTimeout::Broker => "Broker"@,
        }
    }

    /// The name of the limit.
    pub fn name(self) -> (r: &'static str)
        ensures
            r@ == self.spec_name(),
    {
        match self {
            WebSocketTimeout::Send => "Send",
            WebSocketTimeout::Pong => "Pong",
            WebSocketTimeout::Idle => "Idle",
            WebSocketTimeout::Lifetime => "Lifetime",
            WebSocketTimeout::Close => "Close",
            WebSocketTimeout::Shutdown => "Shutdown",
            WebSocketTimeout::Broker => "Broker",
        }
    }
}

/// Which capacity is used up.
#[derive(Clone, Copy, Debug, PartialEq, Eq, Structural)]
pub enum WebSocketCapacityError {
    InboundQueue,
    OutboundQueue,
    GlobalConnections,
    RouteConnections,
    IpConnections,
    MessageRate,
}

impl WebSocketCapacityError {
    /// The name of the capacity.
    pub open spec fn spec_name(self) -> Seq<char> {
        match self {
            WebSocketCapacityError::InboundQueue => "InboundQueue"@,
            WebSocketCapacityError::OutboundQueue => "OutboundQueue"@,
            WebSocketCapacityError::GlobalConnections => "GlobalConnections"@,
            WebSocketCapacityError::RouteConnections => "RouteConnections"@,
            WebSocketCapacityError::IpConnections => "IpConnections"@,
            WebSocketCapacityError::MessageRate => "MessageRate"@,
        }
    }

    /// The name of the capacity.
    pub fn name(self) -> (r: &'static str)
        ensures
            r@ == self.spec_name(),
    {
        match self {
            WebSocketCapacityError::InboundQueue => "InboundQueue",
            WebSocketCapacityError::OutboundQueue => "OutboundQueue",
            WebSocketCapacityError::GlobalConnections => "GlobalConnections",
            WebSocketCapacityError::RouteConnections => "RouteConnections",
            WebSocketCapacityError::IpConnections => "IpConnections",
            WebSocketCapacityError::MessageRate => "MessageRate",
        }
    }
}

/// A failure of an operation on a connection or a runtime.
#[derive(Clone, Debug)]
pub enum WsError {
    WebSocket(WebSocketError),
    Timeout(WebSocketTimeout),
    Capacity(WebSocketCapacityError),
    InvalidConfiguration(String),
    InvalidClose { code: u16, reason: String },
    InvalidRoom(String),
    RoomLimit,
    ConnectionNotFound(WebSocketId),
    Shutdown,
    HandlerPanic,
    Closed,
}

impl WsError {
    /// The error in words, as contracts speak of it.
    pub open spec fn text(self) -> Seq<char> {
        match self {
            WsError::WebSocket(e) => e.text(),
            WsError::Timeout(t) => "tiempo limite WebSocket agotado: "@ + t.spec_name(),
            WsError::Capacity(c) => "capacidad WebSocket agotada: "@ + c.spec_name(),
            WsError::InvalidConfiguration(m) => "configuracion WebSocket no valida: "@ + m@,
            WsError::InvalidClose { code, reason } => "cierre WebSocket no valido ("@ + decimal(
                code as nat,
            ) + "): "@ + reason@,
            WsError::InvalidRoom(r) => "room WebSocket no valido: "@ + r@,
            WsError::RoomLimit => "limite de rooms WebSocket alcanzado"@,
            WsError::ConnectionNotFound(id) => "la conexion WebSocket "@ + decimal(id.0 as nat)
                + " no existe en este runtime"@,
            WsError::Shutdown => "el runtime WebSocket se esta cerrando"@,
            WsError::HandlerPanic => "el handler WebSocket termino con panic"@,
            WsError::Closed => "la conexion WebSocket esta cerrada"@,
        }
    }

    /// The error in words.
    pub fn message(&self) -> (r: String)
        ensures
            r@ == self.text(),
    {
        match self {
            WsError::WebSocket(e) => e.message(),
            WsError::Timeout(t) => "tiempo limite WebSocket agotado: ".to_owned().concat(t.name()),
            WsError::Capacity(c) => "capacidad WebSocket agotada: ".to_owned().concat(c.name()),
            WsError::InvalidConfiguration(m) => "configuracion WebSocket no valida: ".to_owned().concat(
            m.as_str()),
            WsError::InvalidClose { code, reason } => "cierre WebSocket no valido (".to_owned().concat(
            to_decimal(*code as u64).as_str()).concat("): ").concat(reason.as_str()),
            WsError::InvalidRoom(r) => "room WebSocket no valido: ".to_owned().concat(r.as_str()),
            WsError::RoomLimit => "limite de rooms WebSocket alcanzado".to_owned(),
            WsError::ConnectionNotFound(id) => "la conexion WebSocket ".to_owned().concat(
                to_decimal(id.0).as_str(),
            ).concat(" no existe en este runtime"),
            WsError::Shutdown => "el runtime WebSocket se esta cerrando".to_owned(),
            WsError::HandlerPanic => "el handler WebSocket termino con panic".to_owned(),
            WsError::Closed => "la conexion WebSocket esta cerrada".to_owned(),
        }
    }
}

/// Every error says what it is about: the limit, the capacity, the name, the code or the
/// connection.
pub proof fn law_errors_say_what_they_are_about(e: WsError)
    ensures
        e matches WsError::Timeout(t) ==> e.text() == "tiempo limite WebSocket agotado: "@
            + t.spec_name(),
        e matches WsError::Capacity(c) ==> e.text() == "capacidad WebSocket agotada: "@
            + c.spec_name(),
        e matches WsError::InvalidConfiguration(m) ==> e.text()
            == "configuracion WebSocket no valida: "@ + m@,
        e matches WsError::InvalidClose { code, reason } ==> e.text()
            == "cierre WebSocket no valido ("@ + decimal(code as nat) + "): "@ + reason@,
        e matches WsError::InvalidRoom(r) ==> e.text() == "room WebSocket no valido: "@ + r@,
        e matches WsError::ConnectionNotFound(id) ==> e.text() == "la conexion WebSocket "@
            + decimal(id.0 as nat) + " no existe en este runtime"@,
        e matches WsError::WebSocket(WebSocketError::Protocol(m)) ==> e.text()
            == "websocket protocol error: "@ + m@,
        e matches WsError::WebSocket(WebSocketError::Json(m)) ==> e.text()
            == "websocket JSON error: "@ + m@,
        e is RoomLimit ==> e.text() == "limite de rooms WebSocket alcanzado"@,
        e is Shutdown ==> e.text() == "el runtime WebSocket se esta cerrando"@,
        e is HandlerPanic ==> e.text() == "el handler WebSocket termino con panic"@,
        e is Closed ==> e.text() == "la conexion WebSocket esta cerrada"@,
{
}

/// Limits of time and capacities are told by their names.
pub proof fn law_limits_are_told_by_name(t: WebSocketTimeout, c: WebSocketCapacityError)
    ensures
        t == WebSocketTimeout::Send ==> t.spec_name() == "Send"@,
        t == WebSocketTimeout::Pong ==> t.spec_name() == "Pong"@,
        t == WebSocketTimeout::Idle ==> t.spec_name() == "Idle"@,
        t == WebSocketTimeout::Lifetime ==> t.spec_name() == "Lifetime"@,
        t == WebSocketTimeout::Close ==> t.spec_name() == "Close"@,
        t == WebSocketTimeout::Shutdown ==> t.spec_name() == "Shutdown"@,
        t == WebSocketTimeout::Broker ==> t.spec_name() == "Broker"@,
        c == WebSocketCapacityError::InboundQueue ==> c.spec_name() == "InboundQueue"@,
        c == WebSocketCapacityError::OutboundQueue ==> c.spec_name() == "OutboundQueue"@,
        c == WebSocketCapacityError::GlobalConnections ==> c.spec_name() == "GlobalConnections"@,
        c == WebSocketCapacityError::RouteConnections ==> c.spec_name() == "RouteConnections"@,
        c == WebSocketCapacityError::IpConnections ==> c.spec_name() == "IpConnections"@,
        c == WebSocketCapacityError::MessageRate ==> c.spec_name() == "MessageRate"@,
{
}

} // verus!

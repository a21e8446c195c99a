//! What nodes exchange through a broker.

use vstd::prelude::*;

use crate::text::{decimal, to_decimal, views};

verus! {

/// Identifies a node among those that share a broker.
#[derive(Clone, Copy, Debug, PartialEq, Eq, Hash, Structural)]
pub struct WsNodeId(pub u64);

impl WsNodeId {
    /// The node with a number.
    pub fn new(value: u64) -> (r: WsNodeId)
        ensures
            r.0 == value,
    {
        WsNodeId(value)
    }

    /// The number of the node.
    pub fn get(self) -> (r: u64)
        ensures
            r == self.0,
    {
        self.0
    }
}

/// Identifies a publication among those of its node.
#[derive(Clone, Copy, Debug, PartialEq, Eq, Hash, Structural)]
pub struct WsPublicationId(pub u64);

impl WsPublicationId {
    /// The publication with a number.
    pub fn new(value: u64) -> (r: WsPublicationId)
        ensures
            r.0 == value,
    {
        WsPublicationId(value)
    }

    /// The number of the publication.
    pub fn get(self) -> (r: u64)
        ensures
            r == self.0,
    {
        self.0
    }
}

/// Hands out numbers for nodes, one after another.
#[derive(Debug)]
pub struct NodeIds {
    pub next: u64,
}

impl NodeIds {
    /// Numbers from one on.
    pub fn new() -> (r: NodeIds)
        ensures
            r.next == 1,
    {
        NodeIds { next: 1 }
    }

    /// The next number. After the last one the count starts again at zero.
    pub fn allocate_node_id(&mut self) -> (r: WsNodeId)
        ensures
            r.0 == old(self).next,
            final(self).next == (if old(self).next == u64::MAX {
                0
            } else {
                (old(self).next + 1) as u64
            }),
    {
        let id: u64 = self.next;
        self.next = id.wrapping_add(1);
        WsNodeId(id)
    }
}

/// To whom a publication is addressed.
#[derive(Clone, Debug, PartialEq, Eq)]
pub enum WsBrokerTarget {
    RouteRooms { route: String, rooms: Vec<String> },
    RouteAll { route: String },
    AllRoutes,
}

/// What a publication carries.
#[derive(Clone, Debug, PartialEq, Eq)]
pub enum WsBrokerPayload {
    Text(String),
    Binary(Vec<u8>),
}

/// A broadcast on its way from one node to the others.
#[derive(Clone, Debug, PartialEq, Eq)]
pub struct WsBrokerPublication {
    pub id: WsPublicationId,
    pub origin: WsNodeId,
    pub target: WsBrokerTarget,
    pub payload: WsBrokerPayload,
}

/// A target as contracts speak of it.
#[verifier::ext_equal]
pub enum TargetView {
    RouteRooms { route: Seq<char>, rooms: Seq<Seq<char>> },
    RouteAll { route: Seq<char> },
    AllRoutes,
}

/// A payload as contracts speak of it.
#[verifier::ext_equal]
pub enum PayloadView {
    Text(Seq<char>),
    Binary(Seq<u8>),
}

/// A publication as contracts speak of it.
#[verifier::ext_equal]
pub struct PublicationView {
    pub id: WsPublicationId,
    pub origin: WsNodeId,
    pub target: TargetView,
    pub payload: PayloadView,
}

impl View for WsBrokerTarget {
    type V = TargetView;

    open spec fn view(&self) -> TargetView {
        match *self {
            WsBrokerTarget::RouteRooms { route, rooms } => TargetView::RouteRooms {
                route: route@,
                rooms: views(rooms@),
            },
            WsBrokerTarget::RouteAll { route } => TargetView::RouteAll { route: route@ },
            WsBrokerTarget::AllRoutes => TargetView::AllRoutes,
        }
    }
}

impl View for WsBrokerPayload {
    type V = PayloadView;

    open spec fn view(&self) -> PayloadView {
        match *self {
            WsBrokerPayload::Text(s) => PayloadView::Text(s@),
            WsBrokerPayload::Binary(b) => PayloadView::Binary(b@),
        }
    }
}

impl View for WsBrokerPublication {
    type V = PublicationView;

    open spec fn view(&self) -> PublicationView {
        PublicationView {
            id: self.id,
            origin: self.origin,
            target: self.target@,
            payload: self.payload@,
        }
    }
}

impl WsBrokerPublication {
    /// A publication.
    pub fn new(
        id: WsPublicationId,
        origin: WsNodeId,
        target: WsBrokerTarget,
        payload: WsBrokerPayload,
    ) -> (r: WsBrokerPublication)
        ensures
            r == (WsBrokerPublication { id, origin, target, payload }),
    {
        WsBrokerPublication { id, origin, target, payload }
    }
}

/// A failure of a broker.
#[derive(Clone, Debug, PartialEq, Eq)]
pub enum WsBrokerError {
    Unavailable,
    Timeout,
    Lagged(u64),
    InvalidPublication(String),
    SubscriptionClosed,
}

/// The kinds of a `WsBrokerError`.
#[derive(Clone, Copy, Debug, PartialEq, Eq, Structural)]
pub enum WsBrokerErrorCategory {
    Unavailable,
    Timeout,
    Lagged,
    InvalidPublication,
    SubscriptionClosed,
}

impl WsBrokerError {
    /// The kind of the error, as contracts speak of it.
    pub open spec fn spec_category(self) -> WsBrokerErrorCategory {
        match self {
            WsBrokerError::Unavailable => WsBrokerErrorCategory::Unavailable,
            WsBrokerError::Timeout => WsBrokerErrorCategory::Timeout,
            WsBrokerError::Lagged(_) => WsBrokerErrorCategory::Lagged,
            WsBrokerError::InvalidPublication(_) => WsBrokerErrorCategory::InvalidPublication,
            WsBrokerError::SubscriptionClosed => WsBrokerErrorCategory::SubscriptionClosed,
        }
    }

    /// The error in words, as contracts speak of it.
    pub open spec fn text(self) -> Seq<char> {
        match self {
            WsBrokerError::Unavailable => "el broker WebSocket no esta disponible"@,
            WsBrokerError::Timeout => "el broker WebSocket agoto su tiempo limite"@,
            WsBrokerError::Lagged(n) => "la suscripcion del broker WebSocket perdio "@ + decimal(
                n as nat,
            ) + " publicaciones"@,
            WsBrokerError::InvalidPublication(m) => "publicacion de broker WebSocket no valida: "@
                + m@,
            WsBrokerError::SubscriptionClosed => "la suscripcion del broker WebSocket se cerro"@,
        }
    }

    /// The kind of the error.
    pub fn category(&self) -> (r: WsBrokerErrorCategory)
        ensures
            r == self.spec_category(),
    {
        match self {
            WsBrokerError::Unavailable => WsBrokerErrorCategory::Unavailable,
            WsBrokerError::Timeout => WsBrokerErrorCategory::Timeout,
            WsBrokerError::Lagged(_) => WsBrokerErrorCategory::Lagged,
            WsBrokerError::InvalidPublication(_) => WsBrokerErrorCategory::InvalidPublication,
            WsBrokerError::SubscriptionClosed => WsBrokerErrorCategory::SubscriptionClosed,
        }
    }

    /// The error in words.
    pub fn message(&self) -> (r: String)
        ensures
            r@ == self.text(),
    {
        match self {
            WsBrokerError::Unavailable => "el broker WebSocket no esta disponible".to_owned(),
            WsBrokerError::Timeout => "el broker WebSocket agoto su tiempo limite".to_owned(),
            WsBrokerError::Lagged(n) => "la suscripcion del broker WebSocket perdio ".to_owned().concat(
            to_decimal(*n).as_str()).concat(" publicaciones"),
            WsBrokerError::InvalidPublication(m) => "publicacion de broker WebSocket no valida: ".to_owned().concat(
            m.as_str()),
            WsBrokerError::SubscriptionClosed =>
                "la suscripcion del broker WebSocket se cerro".to_owned(),
        }
    }
}

/// A broker within the process, as far as it is open.
#[derive(Clone, Copy, Debug, PartialEq, Eq, Structural)]
pub struct InMemoryWsBroker {
    pub open: bool,
}

impl InMemoryWsBroker {
    /// A broker that is open.
    pub fn new() -> (r: InMemoryWsBroker)
        ensures
            r.open,
    {
        InMemoryWsBroker { open: true }
    }

    /// Closes the broker for good.
    pub fn close(&mut self)
        ensures
            !final(self).open,
    {
        self.open = false;
    }

    /// Whether a publication can be sent.
    pub fn publish(&self) -> (r: Result<(), WsBrokerError>)
        ensures
            self.open ==> r is Ok,
            !self.open ==> r == Err::<(), WsBrokerError>(WsBrokerError::Unavailable),
    {
        if self.open {
            Ok(())
        } else {
            Err(WsBrokerError::Unavailable)
        }
    }

    /// A subscription, which ends with the broker.
    pub fn subscribe(&self) -> (r: Result<BrokerFeed, WsBrokerError>)
        ensures
            self.open ==> (r matches Ok(feed) && !feed.terminated),
            !self.open ==> r == Err::<BrokerFeed, WsBrokerError>(
                WsBrokerError::SubscriptionClosed,
            ),
    {
        if self.open {
            Ok(BrokerFeed { terminated: false })
        } else {
            Err(WsBrokerError::SubscriptionClosed)
        }
    }
}

/// What came in for a subscription.
#[derive(Debug)]
pub enum Received {
    Publication(WsBrokerPublication),
    /// So many publications were lost.
    Lagged(u64),
    /// The broker was closed.
    Closed,
}

/// A subscription to the broker within the process.
#[derive(Clone, Copy, Debug, PartialEq, Eq, Structural)]
pub struct BrokerFeed {
    pub terminated: bool,
}

impl BrokerFeed {
    /// What a subscriber is given for what came in. Once the broker is closed the
    /// subscription is over; a loss of publications does not end it.
    pub fn take(&mut self, received: Received) -> (r: Result<WsBrokerPublication, WsBrokerError>)
        ensures
            match received {
                Received::Publication(p) => r == Ok::<WsBrokerPublication, WsBrokerError>(p),
                Received::Lagged(n) => r == Err::<WsBrokerPublication, WsBrokerError>(
                    WsBrokerError::Lagged(n),
                ),
                Received::Closed => r == Err::<WsBrokerPublication, WsBrokerError>(
                    WsBrokerError::SubscriptionClosed,
                ),
            },
            final(self).terminated == (old(self).terminated || received is Closed),
    {
        match received {
            Received::Publication(p) => Ok(p),
            Received::Lagged(n) => Err(WsBrokerError::Lagged(n)),
            Received::Closed => {
                self.terminated = true;
                Err(WsBrokerError::SubscriptionClosed)
            },
        }
    }
}

/// Each error of a broker is of its own kind, and says what happened; one that says how
/// many publications were missed says the number.
pub proof fn law_broker_errors_say_what_happened(e: WsBrokerError)
    ensures
        e is Unavailable ==> e.spec_category() == WsBrokerErrorCategory::Unavailable && e.text()
            == "el broker WebSocket no esta disponible"@,
        e is Timeout ==> e.spec_category() == WsBrokerErrorCategory::Timeout && e.text()
            == "el broker WebSocket agoto su tiempo limite"@,
        e matches WsBrokerError::Lagged(n) ==> e.spec_category() == WsBrokerErrorCategory::Lagged
            && e.text() == "la suscripcion del broker WebSocket perdio "@ + decimal(n as nat)
            + " publicaciones"@,
        e matches WsBrokerError::InvalidPublication(m) ==> e.spec_category()
            == WsBrokerErrorCategory::InvalidPublication && e.text()
            == "publicacion de broker WebSocket no valida: "@ + m@,
        e is SubscriptionClosed ==> e.spec_category() == WsBrokerErrorCategory::SubscriptionClosed
            && e.text() == "la suscripcion del broker WebSocket se cerro"@,
{
}

} // verus!

//! The life of one connection, as a state machine.
//!
//! The transport is driven from outside: `DriverState::step` takes what has happened
//! and says what to do next. Between two events of a connection at rest the machine
//! asks to wait; after a write, a close or a delivery it is told how that went.

use vstd::prelude::*;

use super::config::{ConfigView, ResolvedWebSocketConfig};
use super::types::{
    frame_view, CloseFrame, CloseFrameView, CloseInfoView, MessageView, WebSocketCloseInfo,
    WebSocketCloseInitiator, WebSocketMessage,
};
use crate::time::{later, since, Duration, Instant};

verus! {

/// How many control commands wait for a connection.
pub const CONTROL_CHANNEL_CAPACITY: usize = 8;

/// A command to a connection that goes before its messages.
#[derive(Debug)]
pub enum ControlCommand {
    Ping(Vec<u8>),
    Pong(Vec<u8>),
    Close(Option<CloseFrame>),
    Disconnect(Option<CloseFrame>),
}

/// What became of a message that was handed to the handler's queue.
#[derive(Clone, Copy, Debug, PartialEq, Eq, Structural)]
pub enum InboundDelivery {
    Delivered,
    ReceiverClosed,
    TimedOut,
}

/// A Ping of the connection's own that has no Pong yet.
#[derive(Clone, Copy, Debug, PartialEq, Eq, Structural)]
pub struct PendingPing {
    pub token: u64,
    pub sent_at: Instant,
}

/// What the machine is in the middle of.
#[derive(Clone, Copy, Debug, PartialEq, Eq, Structural)]
pub enum DriverPhase {
    Waiting,
    Writing,
    Pinging { token: u64 },
    Closing,
    Delivering,
    Finished,
}

/// What happens to a connection.
#[derive(Debug)]
pub enum DriverEvent {
    /// A control command arrived.
    Control(ControlCommand),
    /// No further control command can arrive.
    ControlEnded,
    /// The peer did not answer the Close in time.
    CloseDeadline,
    /// The peer did not answer the Ping in time.
    PongDeadline,
    /// The connection has reached its age limit.
    LifetimeDeadline,
    /// No application message came for too long.
    IdleDeadline,
    /// It is time for a Ping.
    PingDeadline,
    /// A message is to be sent.
    Outbound(WebSocketMessage),
    /// No further message can be asked to be sent.
    OutboundEnded,
    /// The peer sent a message.
    Incoming { message: WebSocketMessage, at: Instant },
    /// The transport reports that the connection is closed.
    IncomingClosed { reason: String },
    /// The peer sent a message over the size limit.
    IncomingTooLong,
    /// The transport failed.
    IncomingFailed { reason: String },
    /// The transport has ended.
    IncomingEnded,
    /// The handler has returned; `senders` senders are left.
    HandlerFinished { succeeded: bool, senders: usize },
    /// The number of senders changed, or can no longer change.
    SendersChanged { ended: bool, senders: usize },
    /// What was asked to be written was written.
    Written { at: Instant },
    /// What was asked to be delivered met this fate.
    Delivered(InboundDelivery),
    /// What was asked to be done on the transport failed.
    Failed { reason: String },
}

/// How a connection ended.
#[derive(Debug)]
pub struct DriverOutcome {
    pub close_info: WebSocketCloseInfo,
    pub handler_completed: bool,
}

/// What is to be done next.
#[derive(Debug)]
pub enum DriverAction {
    /// Wait for the next event.
    Wait,
    /// Write a message.
    Write(WebSocketMessage),
    /// Close the command queues; where `drain` is set write what they still hold;
    /// then write a Close frame.
    Close { frame: Option<CloseFrame>, drain: bool, heartbeat_timeout: bool },
    /// Where `flush` is set flush the transport; then hand the message to the
    /// handler, within the send timeout.
    Deliver { message: WebSocketMessage, flush: bool },
    /// The connection is over. Where `report` is set the handler is told the failure.
    Finish { outcome: DriverOutcome, report: bool },
}

/// An outcome as contracts speak of it.
#[verifier::ext_equal]
pub struct OutcomeView {
    pub close_info: CloseInfoView,
    pub handler_completed: bool,
}

/// An action as contracts speak of it.
#[verifier::ext_equal]
pub enum ActionView {
    Wait,
    Write(MessageView),
    Close { frame: Option<CloseFrameView>, drain: bool, heartbeat_timeout: bool },
    Deliver { message: MessageView, flush: bool },
    Finish { outcome: OutcomeView, report: bool },
}

impl View for DriverOutcome {
    type V = OutcomeView;

    open spec fn view(&self) -> OutcomeView {
        OutcomeView {
            close_info: self.close_info@,
            handler_completed: self.handler_completed,
        }
    }
}

impl View for DriverAction {
    type V = ActionView;

    open spec fn view(&self) -> ActionView {
        match *self {
            DriverAction::Wait => ActionView::Wait,
            DriverAction::Write(m) => ActionView::Write(m@),
            DriverAction::Close { frame, drain, heartbeat_timeout } => ActionView::Close {
                frame: frame_view(frame),
                drain,
                heartbeat_timeout,
            },
            DriverAction::Deliver { message, flush } => ActionView::Deliver {
                message: message@,
                flush,
            },
            DriverAction::Finish { outcome, report } => ActionView::Finish {
                outcome: outcome@,
                report,
            },
        }
    }
}

/// The state of a connection.
#[derive(Debug)]
pub struct DriverState {
    pub close_sent: bool,
    pub close_received: bool,
    pub close_info: Option<WebSocketCloseInfo>,
    pub close_deadline: Option<Instant>,
    pub pending_ping: Option<PendingPing>,
    pub last_inbound_frame: Instant,
    pub last_application_message: Instant,
    pub opened_at: Instant,
    pub next_ping_token: u64,
    pub message_window_started: Instant,
    pub message_count: u32,
    pub control_open: bool,
    pub outbound_open: bool,
    pub handler_completed: bool,
    pub phase: DriverPhase,
}

/// The state of a connection as contracts speak of it.
#[verifier::ext_equal]
pub struct DriverView {
    pub close_sent: bool,
    pub close_received: bool,
    pub close_info: Option<CloseInfoView>,
    pub close_deadline: Option<Instant>,
    pub pending_ping: Option<PendingPing>,
    pub last_inbound_frame: Instant,
    pub last_application_message: Instant,
    pub opened_at: Instant,
    pub next_ping_token: u64,
    pub message_window_started: Instant,
    pub message_count: u32,
    pub control_open: bool,
    pub outbound_open: bool,
    pub handler_completed: bool,
    pub phase: DriverPhase,
}

/// The view of an optional close info.
pub open spec fn info_view(info: Option<WebSocketCloseInfo>) -> Option<CloseInfoView> {
    match info {
        Some(i) => Some(i@),
        None => None,
    }
}

impl View for DriverState {
    type V = DriverView;

    open spec fn view(&self) -> DriverView {
        DriverView {
            close_sent: self.close_sent,
            close_received: self.close_received,
            close_info: info_view(self.close_info),
            close_deadline: self.close_deadline,
            pending_ping: self.pending_ping,
            last_inbound_frame: self.last_inbound_frame,
            last_application_message: self.last_application_message,
            opened_at: self.opened_at,
            next_ping_token: self.next_ping_token,
            message_window_started: self.message_window_started,
            message_count: self.message_count,
            control_open: self.control_open,
            outbound_open: self.outbound_open,
            handler_completed: self.handler_completed,
            phase: self.phase,
        }
    }
}

/// The eight bytes of a number, the most significant first.
pub open spec fn be_bytes(n: u64) -> Seq<u8> {
    seq![
        (n / 0x100_0000_0000_0000) as u8,
        (n / 0x1_0000_0000_0000 % 256) as u8,
        (n / 0x100_0000_0000 % 256) as u8,
        (n / 0x1_0000_0000 % 256) as u8,
        (n / 0x100_0000 % 256) as u8,
        (n / 0x1_0000 % 256) as u8,
        (n / 0x100 % 256) as u8,
        (n % 256) as u8,
    ]
}

/// The number after `n`, with the first one after the last.
pub open spec fn wrapping_next(n: u64) -> u64 {
    if n == u64::MAX {
        0
    } else {
        (n + 1) as u64
    }
}

/// How a close frame reads in a close info.
pub open spec fn info_of(
    frame: Option<CloseFrameView>,
    initiator: WebSocketCloseInitiator,
    clean: bool,
) -> CloseInfoView {
    match frame {
        Some(f) => CloseInfoView { code: f.code, reason: f.reason, initiator, clean },
        None => CloseInfoView { code: 1005, reason: Seq::empty(), initiator, clean },
    }
}

/// The info of a connection whose peer went away without a Close.
pub open spec fn peer_gone() -> CloseInfoView {
    CloseInfoView {
        code: 1006,
        reason: Seq::empty(),
        initiator: WebSocketCloseInitiator::Peer,
        clean: false,
    }
}

impl DriverView {
    /// A connection that was just opened.
    pub open spec fn fresh(now: Instant) -> DriverView {
        DriverView {
            close_sent: false,
            close_received: false,
            close_info: None,
            close_deadline: None,
            pending_ping: None,
            last_inbound_frame: now,
            last_application_message: now,
            opened_at: now,
            next_ping_token: 1,
            message_window_started: now,
            message_count: 0,
            control_open: true,
            outbound_open: true,
            handler_completed: false,
            phase: DriverPhase::Waiting,
        }
    }

    /// How the connection ended: cleanly exactly when Close went both ways.
    pub open spec fn outcome(self) -> OutcomeView {
        let info = match self.close_info {
            Some(i) => i,
            None => peer_gone(),
        };
        OutcomeView {
            close_info: CloseInfoView { clean: self.close_sent && self.close_received, ..info },
            handler_completed: self.handler_completed,
        }
    }

    /// The connection waits for what comes next.
    pub open spec fn waiting(self) -> (DriverView, ActionView) {
        (DriverView { phase: DriverPhase::Waiting, ..self }, ActionView::Wait)
    }

    /// The connection is over.
    pub open spec fn finished(self) -> (DriverView, ActionView) {
        (
            DriverView { phase: DriverPhase::Finished, ..self },
            ActionView::Finish { outcome: self.outcome(), report: false },
        )
    }

    /// The connection is over because the transport failed.
    pub open spec fn failed(self, reason: Seq<char>) -> (DriverView, ActionView) {
        (
            DriverView { phase: DriverPhase::Finished, ..self },
            ActionView::Finish {
                outcome: OutcomeView {
                    close_info: CloseInfoView {
                        code: 1006,
                        reason,
                        initiator: WebSocketCloseInitiator::ProtocolError,
                        clean: false,
                    },
                    handler_completed: false,
                },
                report: true,
            },
        )
    }

    /// The connection begins to close, unless its Close is out already.
    pub open spec fn closing(
        self,
        frame: Option<CloseFrameView>,
        initiator: WebSocketCloseInitiator,
        drain: bool,
        heartbeat_timeout: bool,
    ) -> (DriverView, ActionView) {
        let quiet = DriverView { control_open: false, outbound_open: false, ..self };
        if self.close_sent {
            quiet.waiting()
        } else {
            (
                DriverView {
                    close_info: Some(info_of(frame, initiator, false)),
                    phase: DriverPhase::Closing,
                    ..quiet
                },
                ActionView::Close { frame, drain, heartbeat_timeout },
            )
        }
    }

    /// The connection begins to close with a code and a reason of its own.
    pub open spec fn closing_with(
        self,
        code: u16,
        reason: Seq<char>,
        initiator: WebSocketCloseInitiator,
    ) -> (DriverView, ActionView) {
        self.closing(Some(CloseFrameView { code, reason }), initiator, false, false)
    }

    /// Whether one more application message at `now` is over the limit, and the state
    /// after it was counted. A window begins anew once it is over.
    pub open spec fn counted(self, c: ConfigView, now: Instant) -> (DriverView, bool) {
        match c.message_rate_limit {
            None => (self, false),
            Some(limit) => {
                let w = if since(now, self.message_window_started).nanos >= limit.interval.nanos {
                    DriverView { message_window_started: now, message_count: 0, ..self }
                } else {
                    self
                };
                if w.message_count >= limit.max_messages {
                    (w, true)
                } else {
                    (DriverView { message_count: (w.message_count + 1) as u32, ..w }, false)
                }
            },
        }
    }

    /// The state after a message of the peer that is let through.
    pub open spec fn taken(self, message: MessageView, at: Instant) -> DriverView {
        let v = if message.is_application() {
            DriverView { last_application_message: at, ..self }
        } else {
            self
        };
        let v = if message matches MessageView::Pong(payload) && v.pending_ping matches Some(p)
            && be_bytes(p.token) == payload {
            DriverView { pending_ping: None, ..v }
        } else {
            v
        };
        match message {
            MessageView::Close(frame) => DriverView {
                close_received: true,
                close_info: match v.close_info {
                    Some(i) => Some(i),
                    None => Some(info_of(frame, WebSocketCloseInitiator::Peer, true)),
                },
                close_sent: true,
                ..v
            },
            _ => v,
        }
    }

    /// A message of the peer at `at`.
    pub open spec fn received(
        self,
        c: ConfigView,
        message: MessageView,
        at: Instant,
    ) -> (DriverView, ActionView) {
        let v = DriverView { last_inbound_frame: at, ..self };
        let (w, exceeded) = if message.is_application() {
            v.counted(c, at)
        } else {
            (v, false)
        };
        if exceeded {
            w.closing_with(
                1008,
                "Limite de mensajes WebSocket excedido"@,
                WebSocketCloseInitiator::Runtime,
            )
        } else {
            (
                DriverView { phase: DriverPhase::Delivering, ..w.taken(message, at) },
                ActionView::Deliver { message, flush: message is Ping || message is Close },
            )
        }
    }

    /// What a written message leads to.
    pub open spec fn written(self, c: ConfigView, at: Instant) -> (DriverView, ActionView) {
        match self.phase {
            DriverPhase::Pinging { token } => DriverView {
                pending_ping: Some(PendingPing { token, sent_at: at }),
                ..self
            }.waiting(),
            DriverPhase::Closing => DriverView {
                close_sent: true,
                close_deadline: Some(later(at, c.close_timeout)),
                ..self
            }.waiting(),
            _ => self.waiting(),
        }
    }

    /// What the fate of a delivery leads to.
    pub open spec fn delivered(self, fate: InboundDelivery) -> (DriverView, ActionView) {
        if fate == InboundDelivery::TimedOut && !self.close_sent {
            self.closing_with(
                1013,
                "El handler WebSocket no consume mensajes a tiempo"@,
                WebSocketCloseInitiator::Runtime,
            )
        } else if self.close_received {
            self.finished()
        } else {
            self.waiting()
        }
    }

    /// What happens next, and what is to be done about it.
    pub open spec fn next(self, c: ConfigView, e: DriverEvent) -> (DriverView, ActionView) {
        match e {
            DriverEvent::Control(command) => if self.close_sent {
                self.waiting()
            } else {
                match command {
                    ControlCommand::Ping(p) => (
                        DriverView { phase: DriverPhase::Writing, ..self },
                        ActionView::Write(MessageView::Ping(p@)),
                    ),
                    ControlCommand::Pong(p) => (
                        DriverView { phase: DriverPhase::Writing, ..self },
                        ActionView::Write(MessageView::Pong(p@)),
                    ),
                    ControlCommand::Close(f) => self.closing(
                        frame_view(f),
                        WebSocketCloseInitiator::Local,
                        true,
                        false,
                    ),
                    ControlCommand::Disconnect(f) => self.closing(
                        frame_view(f),
                        WebSocketCloseInitiator::Runtime,
                        false,
                        false,
                    ),
                }
            },
            DriverEvent::ControlEnded => DriverView { control_open: false, ..self }.waiting(),
            DriverEvent::CloseDeadline => self.finished(),
            DriverEvent::PongDeadline => DriverView { pending_ping: None, ..self }.closing(
                Some(
                    CloseFrameView { code: 1001, reason: "Tiempo de espera de Pong agotado"@ },
                ),
                WebSocketCloseInitiator::Timeout,
                false,
                true,
            ),
            DriverEvent::LifetimeDeadline => self.closing_with(
                1001,
                "Duracion maxima de conexion agotada"@,
                WebSocketCloseInitiator::Timeout,
            ),
            DriverEvent::IdleDeadline => self.closing_with(
                1001,
                "Tiempo de inactividad agotado"@,
                WebSocketCloseInitiator::Timeout,
            ),
            DriverEvent::PingDeadline => (
                DriverView {
                    next_ping_token: wrapping_next(self.next_ping_token),
                    phase: DriverPhase::Pinging { token: self.next_ping_token },
                    ..self
                },
                ActionView::Write(MessageView::Ping(be_bytes(self.next_ping_token))),
            ),
            DriverEvent::Outbound(message) => (
                DriverView { phase: DriverPhase::Writing, ..self },
                ActionView::Write(message@),
            ),
            DriverEvent::OutboundEnded => DriverView { outbound_open: false, ..self }.waiting(),
            DriverEvent::Incoming { message, at } => self.received(c, message@, at),
            DriverEvent::IncomingClosed { reason } => if self.close_sent {
                DriverView { close_received: true, ..self }.finished()
            } else {
                self.failed(reason@)
            },
            DriverEvent::IncomingTooLong => self.closing_with(
                1009,
                "Mensaje WebSocket demasiado grande"@,
                WebSocketCloseInitiator::ProtocolError,
            ),
            DriverEvent::IncomingFailed { reason } => self.failed(reason@),
            DriverEvent::IncomingEnded => self.finished(),
            DriverEvent::HandlerFinished { succeeded, senders } => {
                let v = DriverView { handler_completed: true, ..self };
                if self.close_sent || (succeeded && senders > 0) {
                    v.waiting()
                } else if succeeded {
                    v.closing_with(1000, ""@, WebSocketCloseInitiator::Handler)
                } else {
                    v.closing_with(
                        1011,
                        "El handler WebSocket fallo"@,
                        WebSocketCloseInitiator::Handler,
                    )
                }
            },
            DriverEvent::SendersChanged { ended, senders } => if ended || senders == 0 {
                self.closing_with(1000, ""@, WebSocketCloseInitiator::Handler)
            } else {
                self.waiting()
            },
            DriverEvent::Written { at } => self.written(c, at),
            DriverEvent::Delivered(fate) => self.delivered(fate),
            DriverEvent::Failed { reason } => self.failed(reason@),
        }
    }

    /// Whether an event can come in this state.
    pub open spec fn accepts(self, e: DriverEvent) -> bool {
        match e {
            DriverEvent::Control(_) | DriverEvent::ControlEnded => self.phase is Waiting
                && self.control_open,
            DriverEvent::CloseDeadline => self.phase is Waiting && self.close_sent,
            DriverEvent::PongDeadline => self.phase is Waiting && !self.close_sent
                && self.pending_ping is Some,
            DriverEvent::PingDeadline => self.phase is Waiting && !self.close_sent
                && self.pending_ping is None,
            DriverEvent::LifetimeDeadline | DriverEvent::IdleDeadline => self.phase is Waiting
                && !self.close_sent,
            DriverEvent::Outbound(_) | DriverEvent::OutboundEnded => self.phase is Waiting
                && self.outbound_open && !self.close_sent,
            DriverEvent::Incoming { .. } | DriverEvent::IncomingClosed { .. }
            | DriverEvent::IncomingTooLong | DriverEvent::IncomingFailed { .. }
            | DriverEvent::IncomingEnded => self.phase is Waiting,
            DriverEvent::HandlerFinished { .. } => self.phase is Waiting
                && !self.handler_completed,
            DriverEvent::SendersChanged { .. } => self.phase is Waiting && self.handler_completed
                && !self.close_sent,
            DriverEvent::Written { .. } => self.phase is Writing || self.phase is Pinging
                || self.phase is Closing,
            DriverEvent::Delivered(_) => self.phase is Delivering,
            DriverEvent::Failed { .. } => self.phase is Writing || self.phase is Pinging
                || self.phase is Closing || self.phase is Delivering,
        }
    }

    /// When a Ping is due: an interval after the last frame, while none is pending.
    pub open spec fn ping_due(self, c: ConfigView) -> Option<Instant> {
        if self.pending_ping is Some {
            None
        } else {
            match c.ping_interval {
                Some(d) => Some(later(self.last_inbound_frame, d)),
                None => None,
            }
        }
    }

    /// When the Pong of the pending Ping is overdue.
    pub open spec fn pong_due(self, c: ConfigView) -> Option<Instant> {
        match self.pending_ping {
            Some(p) => Some(later(p.sent_at, c.pong_timeout)),
            None => None,
        }
    }

    /// When the connection has been idle for too long.
    pub open spec fn idle_due(self, c: ConfigView) -> Option<Instant> {
        match c.idle_timeout {
            Some(d) => Some(later(self.last_application_message, d)),
            None => None,
        }
    }

    /// When the connection has reached its age limit.
    pub open spec fn lifetime_due(self, c: ConfigView) -> Option<Instant> {
        match c.max_connection_lifetime {
            Some(d) => Some(later(self.opened_at, d)),
            None => None,
        }
    }
}

/// How a close frame reads in a close info.
pub fn close_info(
    frame: &Option<CloseFrame>,
    initiator: WebSocketCloseInitiator,
    clean: bool,
) -> (r: WebSocketCloseInfo)
    ensures
        r@ == info_of(frame_view(*frame), initiator, clean),
{
    match frame {
        Some(f) => WebSocketCloseInfo { code: f.code, reason: f.reason.clone(), initiator, clean },
        None => WebSocketCloseInfo { code: 1005, reason: String::new(), initiator, clean },
    }
}

/// The info of a connection whose peer went away without a Close.
pub fn peer_disconnect_info() -> (r: WebSocketCloseInfo)
    ensures
        r@ == peer_gone(),
{
    WebSocketCloseInfo {
        code: 1006,
        reason: String::new(),
        initiator: WebSocketCloseInitiator::Peer,
        clean: false,
    }
}

/// The eight bytes of a number, the most significant first.
pub fn ping_payload(n: u64) -> (r: Vec<u8>)
    ensures
        r@ == be_bytes(n),
{
    let mut r: Vec<u8> = Vec::new();
    r.push((n / 0x100_0000_0000_0000) as u8);
    r.push((n / 0x1_0000_0000_0000 % 256) as u8);
    r.push((n / 0x100_0000_0000 % 256) as u8);
    r.push((n / 0x1_0000_0000 % 256) as u8);
    r.push((n / 0x100_0000 % 256) as u8);
    r.push((n / 0x1_0000 % 256) as u8);
    r.push((n / 0x100 % 256) as u8);
    r.push((n % 256) as u8);
    r
}

/// Whether two byte strings are the same.
pub fn same_bytes(a: &Vec<u8>, b: &Vec<u8>) -> (r: bool)
    ensures
        r == (a@ == b@),
{
    if a.len() != b.len() {
        return false;
    }
    let mut i: usize = 0;
    while i < a.len()
        invariant
            i <= a.len(),
            a.len() == b.len(),
            forall|j: int| 0 <= j < i ==> a@[j] == b@[j],
        decreases a.len() - i,
    {
        if a[i] != b[i] {
            return false;
        }
        i += 1;
    }
    assert(a@ =~= b@);
    true
}

/// What a connection is told whose start was refused: the frame to write, and how the
/// connection ended.
pub fn rejected_start() -> (r: (CloseFrame, DriverOutcome))
    ensures
        r.0@ == (CloseFrameView { code: 1001, reason: "El servidor se esta cerrando"@ }),
        r.1@ == (OutcomeView {
            close_info: info_of(Some(r.0@), WebSocketCloseInitiator::Runtime, false),
            handler_completed: false,
        }),
{
    let frame: CloseFrame = CloseFrame {
        code: 1001,
        reason: "El servidor se esta cerrando".to_owned(),
    };
    let shown: Option<CloseFrame> = Some(frame.clone());
    let info: WebSocketCloseInfo = close_info(&shown, WebSocketCloseInitiator::Runtime, false);
    (frame, DriverOutcome { close_info: info, handler_completed: false })
}

/// What every connection is told where the runtime shuts down.
pub fn shutdown_frame() -> (r: CloseFrame)
    ensures
        r@ == (CloseFrameView { code: 1001, reason: "apagado del servidor"@ }),
{
    CloseFrame { code: 1001, reason: "apagado del servidor".to_owned() }
}

/// Whether a handler has to be stopped once its connection is over.
pub fn finish_handler(completed: bool, finished: bool) -> (abort: bool)
    ensures
        abort == (!completed && !finished),
{
    !completed && !finished
}

impl DriverState {
    /// A connection that was just opened.
    pub fn new(now: Instant) -> (r: DriverState)
        ensures
            r@ == DriverView::fresh(now),
    {
        DriverState {
            close_sent: false,
            close_received: false,
            close_info: None,
            close_deadline: None,
            pending_ping: None,
            last_inbound_frame: now,
            last_application_message: now,
            opened_at: now,
            next_ping_token: 1,
            message_window_started: now,
            message_count: 0,
            control_open: true,
            outbound_open: true,
            handler_completed: false,
            phase: DriverPhase::Waiting,
        }
    }

    /// How the connection ended.
    pub fn outcome(&self) -> (r: DriverOutcome)
        ensures
            r@ == self@.outcome(),
    {
        let clean: bool = self.close_sent && self.close_received;
        let info: WebSocketCloseInfo = match &self.close_info {
            Some(i) => WebSocketCloseInfo {
                code: i.code,
                reason: i.reason.clone(),
                initiator: i.initiator,
                clean,
            },
            None => {
                let gone: WebSocketCloseInfo = peer_disconnect_info();
                WebSocketCloseInfo {
                    code: gone.code,
                    reason: gone.reason,
                    initiator: gone.initiator,
                    clean,
                }
            },
        };
        DriverOutcome { close_info: info, handler_completed: self.handler_completed }
    }

    /// When a Ping is due.
    pub fn ping_deadline(&self, config: &ResolvedWebSocketConfig) -> (r: Option<Instant>)
        ensures
            r == self@.ping_due(config@),
    {
        if self.pending_ping.is_some() {
            None
        } else {
            match config.ping_interval {
                Some(d) => Some(self.last_inbound_frame.plus(d)),
                None => None,
            }
        }
    }

    /// When the Pong of the pending Ping is overdue.
    pub fn pong_deadline(&self, config: &ResolvedWebSocketConfig) -> (r: Option<Instant>)
        ensures
            r == self@.pong_due(config@),
    {
        match self.pending_ping {
            Some(p) => Some(p.sent_at.plus(config.pong_timeout)),
            None => None,
        }
    }

    /// When the connection has been idle for too long.
    pub fn idle_deadline(&self, config: &ResolvedWebSocketConfig) -> (r: Option<Instant>)
        ensures
            r == self@.idle_due(config@),
    {
        match config.idle_timeout {
            Some(d) => Some(self.last_application_message.plus(d)),
            None => None,
        }
    }

    /// When the connection has reached its age limit.
    pub fn lifetime_deadline(&self, config: &ResolvedWebSocketConfig) -> (r: Option<Instant>)
        ensures
            r == self@.lifetime_due(config@),
    {
        match config.max_connection_lifetime {
            Some(d) => Some(self.opened_at.plus(d)),
            None => None,
        }
    }

    /// Counts an application message and says whether it is over the limit.
    pub fn message_rate_exceeded(
        &mut self,
        config: &ResolvedWebSocketConfig,
        now: Instant,
    ) -> (r: bool)
        ensures
            (final(self)@, r) == old(self)@.counted(config@, now),
    {
        match config.message_rate_limit {
            None => false,
            Some(limit) => {
                if now.duration_since(self.message_window_started).nanos >= limit.interval.nanos {
                    self.message_window_started = now;
                    self.message_count = 0;
                }
                if self.message_count >= limit.max_messages {
                    true
                } else {
                    self.message_count = self.message_count + 1;
                    false
                }
            },
        }
    }

    /// Whether an event can come in this state.
    pub fn takes(&self, event: &DriverEvent) -> (r: bool)
        ensures
            r == self@.accepts(*event),
    {
        let waiting: bool = matches!(self.phase, DriverPhase::Waiting);
        let writing: bool = matches!(self.phase, DriverPhase::Writing | DriverPhase::Pinging { .. }
            | DriverPhase::Closing);
        let delivering: bool = matches!(self.phase, DriverPhase::Delivering);
        match event {
            DriverEvent::Control(_) => waiting && self.control_open,
            DriverEvent::ControlEnded => waiting && self.control_open,
            DriverEvent::CloseDeadline => waiting && self.close_sent,
            DriverEvent::PongDeadline => waiting && !self.close_sent
                && self.pending_ping.is_some(),
            DriverEvent::PingDeadline => waiting && !self.close_sent
                && self.pending_ping.is_none(),
            DriverEvent::LifetimeDeadline => waiting && !self.close_sent,
            DriverEvent::IdleDeadline => waiting && !self.close_sent,
            DriverEvent::Outbound(_) => waiting && self.outbound_open && !self.close_sent,
            DriverEvent::OutboundEnded => waiting && self.outbound_open && !self.close_sent,
            DriverEvent::Incoming { .. } => waiting,
            DriverEvent::IncomingClosed { .. } => waiting,
            DriverEvent::IncomingTooLong => waiting,
            DriverEvent::IncomingFailed { .. } => waiting,
            DriverEvent::IncomingEnded => waiting,
            DriverEvent::HandlerFinished { .. } => waiting && !self.handler_completed,
            DriverEvent::SendersChanged { .. } => waiting && self.handler_completed
                && !self.close_sent,
            DriverEvent::Written { .. } => writing,
            DriverEvent::Delivered(_) => delivering,
            DriverEvent::Failed { .. } => writing || delivering,
        }
    }

    /// Waits for what comes next.
    fn wait(&mut self) -> (r: DriverAction)
        ensures
            (final(self)@, r@) == old(self)@.waiting(),
    {
        self.phase = DriverPhase::Waiting;
        DriverAction::Wait
    }

    /// Ends the connection.
    fn finish(&mut self) -> (r: DriverAction)
        ensures
            (final(self)@, r@) == old(self)@.finished(),
    {
        let outcome: DriverOutcome = self.outcome();
        self.phase = DriverPhase::Finished;
        DriverAction::Finish { outcome, report: false }
    }

    /// Ends the connection because the transport failed.
    fn protocol_outcome(&mut self, reason: String) -> (r: DriverAction)
        ensures
            (final(self)@, r@) == old(self)@.failed(reason@),
    {
        self.phase = DriverPhase::Finished;
        DriverAction::Finish {
            outcome: DriverOutcome {
                close_info: WebSocketCloseInfo {
                    code: 1006,
                    reason,
                    initiator: WebSocketCloseInitiator::ProtocolError,
                    clean: false,
                },
                handler_completed: false,
            },
            report: true,
        }
    }

    /// Begins to close, unless the Close is out already.
    fn initiate_close(
        &mut self,
        frame: Option<CloseFrame>,
        initiator: WebSocketCloseInitiator,
        drain: bool,
        heartbeat_timeout: bool,
    ) -> (r: DriverAction)
        ensures
            (final(self)@, r@) == old(self)@.closing(
                frame_view(frame),
                initiator,
                drain,
                heartbeat_timeout,
            ),
    {
        self.control_open = false;
        self.outbound_open = false;
        if self.close_sent {
            return self.wait();
        }
        self.close_info = Some(close_info(&frame, initiator, false));
        self.phase = DriverPhase::Closing;
        DriverAction::Close { frame, drain, heartbeat_timeout }
    }

    /// Begins to close with a code and a reason of its own.
    fn close_with(
        &mut self,
        code: u16,
        reason: &str,
        initiator: WebSocketCloseInitiator,
    ) -> (r: DriverAction)
        ensures
            (final(self)@, r@) == old(self)@.closing_with(code, reason@, initiator),
    {
        let frame: CloseFrame = CloseFrame { code, reason: reason.to_owned() };
        self.initiate_close(Some(frame), initiator, false, false)
    }

    /// Takes a message of the peer.
    fn receive(
        &mut self,
        config: &ResolvedWebSocketConfig,
        message: WebSocketMessage,
        at: Instant,
    ) -> (r: DriverAction)
        ensures
            (final(self)@, r@) == old(self)@.received(config@, message@, at),
    {
        self.last_inbound_frame = at;
        if message.is_text() || message.is_binary() {
            if self.message_rate_exceeded(config, at) {
                return self.close_with(
                    1008,
                    "Limite de mensajes WebSocket excedido",
                    WebSocketCloseInitiator::Runtime,
                );
            }
            self.last_application_message = at;
        }
        if let WebSocketMessage::Pong(payload) = &message {
            if let Some(p) = self.pending_ping {
                let expected: Vec<u8> = ping_payload(p.token);
                if same_bytes(&expected, payload) {
                    self.pending_ping = None;
                }
            }
        }
        if let WebSocketMessage::Close(frame) = &message {
            self.close_received = true;
            if self.close_info.is_none() {
                self.close_info = Some(close_info(frame, WebSocketCloseInitiator::Peer, true));
            }
            self.close_sent = true;
        }
        self.phase = DriverPhase::Delivering;
        let flush: bool = message.is_ping() || message.is_close();
        DriverAction::Deliver { message, flush }
    }

    /// Goes on after a write.
    fn wrote(&mut self, config: &ResolvedWebSocketConfig, at: Instant) -> (r: DriverAction)
        ensures
            (final(self)@, r@) == old(self)@.written(config@, at),
    {
        match self.phase {
            DriverPhase::Pinging { token } => {
                self.pending_ping = Some(PendingPing { token, sent_at: at });
            },
            DriverPhase::Closing => {
                self.close_sent = true;
                self.close_deadline = Some(at.plus(config.close_timeout));
            },
            _ => {},
        }
        self.wait()
    }

    /// Takes what has happened and says what is to be done next.
    pub fn step(
        &mut self,
        config: &ResolvedWebSocketConfig,
        event: DriverEvent,
    ) -> (r: DriverAction)
        requires
            old(self)@.accepts(event),
        ensures
            (final(self)@, r@) == old(self)@.next(config@, event),
    {
        match event {
            DriverEvent::Control(command) => {
                if self.close_sent {
                    return self.wait();
                }
                match command {
                    ControlCommand::Ping(p) => {
                        self.phase = DriverPhase::Writing;
                        DriverAction::Write(WebSocketMessage::Ping(p))
                    },
                    ControlCommand::Pong(p) => {
                        self.phase = DriverPhase::Writing;
                        DriverAction::Write(WebSocketMessage::Pong(p))
                    },
                    ControlCommand::Close(f) => self.initiate_close(
                        f,
                        WebSocketCloseInitiator::Local,
                        true,
                        false,
                    ),
                    ControlCommand::Disconnect(f) => self.initiate_close(
                        f,
                        WebSocketCloseInitiator::Runtime,
                        false,
                        false,
                    ),
                }
            },
            DriverEvent::ControlEnded => {
                self.control_open = false;
                self.wait()
            },
            DriverEvent::CloseDeadline => self.finish(),
            DriverEvent::PongDeadline => {
                self.pending_ping = None;
                let frame: CloseFrame = CloseFrame {
                    code: 1001,
                    reason: "Tiempo de espera de Pong agotado".to_owned(),
                };
                self.initiate_close(Some(frame), WebSocketCloseInitiator::Timeout, false, true)
            },
            DriverEvent::LifetimeDeadline => self.close_with(
                1001,
                "Duracion maxima de conexion agotada",
                WebSocketCloseInitiator::Timeout,
            ),
            DriverEvent::IdleDeadline => self.close_with(
                1001,
                "Tiempo de inactividad agotado",
                WebSocketCloseInitiator::Timeout,
            ),
            DriverEvent::PingDeadline => {
                let token: u64 = self.next_ping_token;
                self.next_ping_token = token.wrapping_add(1);
                self.phase = DriverPhase::Pinging { token };
                DriverAction::Write(WebSocketMessage::Ping(ping_payload(token)))
            },
            DriverEvent::Outbound(message) => {
                self.phase = DriverPhase::Writing;
                DriverAction::Write(message)
            },
            DriverEvent::OutboundEnded => {
                self.outbound_open = false;
                self.wait()
            },
            DriverEvent::Incoming { message, at } => self.receive(config, message, at),
            DriverEvent::IncomingClosed { reason } => {
                if self.close_sent {
                    self.close_received = true;
                    self.finish()
                } else {
                    self.protocol_outcome(reason)
                }
            },
            DriverEvent::IncomingTooLong => self.close_with(
                1009,
                "Mensaje WebSocket demasiado grande",
                WebSocketCloseInitiator::ProtocolError,
            ),
            DriverEvent::IncomingFailed { reason } => self.protocol_outcome(reason),
            DriverEvent::IncomingEnded => self.finish(),
            DriverEvent::HandlerFinished { succeeded, senders } => {
                self.handler_completed = true;
                if self.close_sent || (succeeded && senders > 0) {
                    self.wait()
                } else if succeeded {
                    self.close_with(1000, "", WebSocketCloseInitiator::Handler)
                } else {
                    self.close_with(
                        1011,
                        "El handler WebSocket fallo",
                        WebSocketCloseInitiator::Handler,
                    )
                }
            },
            DriverEvent::SendersChanged { ended, senders } => {
                if ended || senders == 0 {
                    self.close_with(1000, "", WebSocketCloseInitiator::Handler)
                } else {
                    self.wait()
                }
            },
            DriverEvent::Written { at } => self.wrote(config, at),
            DriverEvent::Delivered(fate) => {
                if fate == InboundDelivery::TimedOut && !self.close_sent {
                    self.close_with(
                        1013,
                        "El handler WebSocket no consume mensajes a tiempo",
                        WebSocketCloseInitiator::Runtime,
                    )
                } else if self.close_received {
                    self.finish()
                } else {
                    self.wait()
                }
            },
            DriverEvent::Failed { reason } => self.protocol_outcome(reason),
        }
    }
}


impl DriverView {
    /// What holds of every state that a connection can be in.
    pub open spec fn sound(self, c: ConfigView) -> bool {
        &&& self.close_received ==> self.close_sent
        &&& self.phase is Closing ==> !self.close_sent && self.close_info is Some
            && !self.control_open && !self.outbound_open
        &&& self.phase is Writing || self.phase is Pinging ==> !self.close_sent
        &&& self.phase is Pinging ==> self.pending_ping is None
        &&& self.phase is Waiting ==> !self.close_received
        &&& self.close_sent ==> self.close_info is Some
        &&& self.close_sent && !self.close_received ==> !self.control_open && !self.outbound_open
            && self.close_deadline is Some
        &&& (c.message_rate_limit matches Some(limit) ==> self.message_count
            <= limit.max_messages)
    }

    /// Whether a sequence of events can come, one after the other.
    pub open spec fn can_run(self, c: ConfigView, es: Seq<DriverEvent>) -> bool
        decreases es.len(),
    {
        es.len() == 0 || (self.accepts(es[0]) && self.next(c, es[0]).0.can_run(c, es.skip(1)))
    }

    /// The state after a sequence of events.
    pub open spec fn run(self, c: ConfigView, es: Seq<DriverEvent>) -> DriverView
        decreases es.len(),
    {
        if es.len() == 0 {
            self
        } else {
            self.next(c, es[0]).0.run(c, es.skip(1))
        }
    }

    /// How many Close frames are asked for during a sequence of events.
    pub open spec fn closes(self, c: ConfigView, es: Seq<DriverEvent>) -> nat
        decreases es.len(),
    {
        if es.len() == 0 {
            0
        } else {
            let (v, a) = self.next(c, es[0]);
            (if a is Close {
                1nat
            } else {
                0
            }) + v.closes(c, es.skip(1))
        }
    }
}

/// A connection is in a sound state from its start on.
pub proof fn law_fresh_connection_is_sound(c: ConfigView, now: Instant)
    ensures
        DriverView::fresh(now).sound(c),
{
}

/// Every event leaves a connection in a sound state: a Close that came in is answered,
/// nothing is taken to be written once the Close is out, the command queues are closed
/// from then on, and no more application messages are counted than the limit allows.
pub proof fn law_step_keeps_sound(v: DriverView, c: ConfigView, e: DriverEvent)
    requires
        v.sound(c),
        v.accepts(e),
    ensures
        v.next(c, e).0.sound(c),
{
}

/// After any sequence of events a connection is in a sound state.
pub proof fn law_run_keeps_sound(v: DriverView, c: ConfigView, es: Seq<DriverEvent>)
    requires
        v.sound(c),
        v.can_run(c, es),
    ensures
        v.run(c, es).sound(c),
    decreases es.len(),
{
    if es.len() > 0 {
        law_step_keeps_sound(v, c, es[0]);
        law_run_keeps_sound(v.next(c, es[0]).0, c, es.skip(1));
    }
}

proof fn lemma_closes_bounded(v: DriverView, c: ConfigView, es: Seq<DriverEvent>)
    requires
        v.sound(c),
        v.can_run(c, es),
    ensures
        v.closes(c, es) <= 1,
        v.close_sent || v.phase is Closing || v.phase is Finished ==> v.closes(c, es) == 0,
    decreases es.len(),
{
    if es.len() > 0 {
        law_step_keeps_sound(v, c, es[0]);
        lemma_closes_bounded(v.next(c, es[0]).0, c, es.skip(1));
    }
}

/// Whatever happens to a connection, it writes at most one Close frame.
pub proof fn law_at_most_one_close(now: Instant, c: ConfigView, es: Seq<DriverEvent>)
    requires
        DriverView::fresh(now).can_run(c, es),
    ensures
        DriverView::fresh(now).closes(c, es) <= 1,
{
    lemma_closes_bounded(DriverView::fresh(now), c, es);
}

/// Once the Close is out nothing is written any more: neither messages nor Pings nor
/// another Close.
pub proof fn law_nothing_is_written_after_close(v: DriverView, c: ConfigView, e: DriverEvent)
    requires
        v.sound(c),
        v.accepts(e),
        v.close_sent,
    ensures
        !(v.next(c, e).1 is Write),
        !(v.next(c, e).1 is Close),
        v.next(c, e).0.close_sent,
{
}

/// A connection ends cleanly only if its Close went out and the peer's came in.
pub proof fn law_clean_close_goes_both_ways(v: DriverView, c: ConfigView, e: DriverEvent)
    requires
        v.sound(c),
        v.accepts(e),
        v.next(c, e).1 matches ActionView::Finish { outcome, .. } && outcome.close_info.clean,
    ensures
        v.next(c, e).0.close_sent && v.next(c, e).0.close_received,
{
}

/// An application message is handed to the handler only while the count of its window
/// is within the limit; the one that goes over it closes the connection instead.
pub proof fn law_rate_limit_holds(v: DriverView, c: ConfigView, message: MessageView, at: Instant)
    requires
        v.sound(c),
        message.is_application(),
        c.message_rate_limit is Some,
        !v.close_sent,
    ensures
        v.received(c, message, at).1 is Deliver ==> 1 <= v.received(c, message, at).0.message_count
            <= c.message_rate_limit->0.max_messages,
        !(v.received(c, message, at).1 is Deliver) ==> (v.received(c, message, at).1 matches
            ActionView::Close { frame: Some(f), .. } && f.code == 1008),
{
}

/// A Ping is sent only while none is pending, and its own Pong settles it.
pub proof fn law_matching_pong_settles_ping(v: DriverView, at: Instant, c: ConfigView)
    requires
        v.pending_ping is Some,
    ensures
        v.ping_due(c) is None,
        v.taken(MessageView::Pong(be_bytes(v.pending_ping->0.token)), at).pending_ping is None,
{
}

proof fn lemma_next_digit(a: int, b: int, k: int, m: int)
    requires
        0 <= a,
        0 <= b,
        0 < k,
        m == k * 256,
        a / m == b / m,
        a / k % 256 == b / k % 256,
    ensures
        a / k == b / k,
{
    vstd::arithmetic::div_mod::lemma_div_denominator(a, k, 256);
    vstd::arithmetic::div_mod::lemma_div_denominator(b, k, 256);
}

/// Different Pings carry different payloads.
pub proof fn law_ping_payloads_differ(a: u64, b: u64)
    requires
        be_bytes(a) == be_bytes(b),
    ensures
        a == b,
{
    let x = be_bytes(a);
    let y = be_bytes(b);
    let (p, q) = (a as int, b as int);
    assert(p / 0x100_0000_0000_0000 == q / 0x100_0000_0000_0000) by {
        assert(x[0] == y[0]);
    }
    assert(p / 0x1_0000_0000_0000 == q / 0x1_0000_0000_0000) by {
        assert(x[1] == y[1]);
        lemma_next_digit(p, q, 0x1_0000_0000_0000, 0x100_0000_0000_0000);
    }
    assert(p / 0x100_0000_0000 == q / 0x100_0000_0000) by {
        assert(x[2] == y[2]);
        lemma_next_digit(p, q, 0x100_0000_0000, 0x1_0000_0000_0000);
    }
    assert(p / 0x1_0000_0000 == q / 0x1_0000_0000) by {
        assert(x[3] == y[3]);
        lemma_next_digit(p, q, 0x1_0000_0000, 0x100_0000_0000);
    }
    assert(p / 0x100_0000 == q / 0x100_0000) by {
        assert(x[4] == y[4]);
        lemma_next_digit(p, q, 0x100_0000, 0x1_0000_0000);
    }
    assert(p / 0x1_0000 == q / 0x1_0000) by {
        assert(x[5] == y[5]);
        lemma_next_digit(p, q, 0x1_0000, 0x100_0000);
    }
    assert(p / 0x100 == q / 0x100) by {
        assert(x[6] == y[6]);
        lemma_next_digit(p, q, 0x100, 0x1_0000);
    }
    assert(p / 1 == q / 1) by {
        assert(x[7] == y[7]);
        lemma_next_digit(p, q, 1, 0x100);
    }
}

/// The moment a span after another, on a clock that stops at its last point.
pub open spec fn is_after(due: Option<Instant>, t: Instant, span: Option<Duration>) -> bool {
    match span {
        Some(d) => due matches Some(u) && (u.nanos == t.nanos + d.nanos || t.nanos + d.nanos
            > u128::MAX && u.nanos == u128::MAX),
        None => due is None,
    }
}

/// The deadlines of a connection that was just opened lie so far behind its opening as
/// the rules say, and no Pong is awaited.
pub proof fn law_fresh_deadlines(now: Instant, c: ConfigView)
    ensures
        is_after(DriverView::fresh(now).idle_due(c), now, c.idle_timeout),
        is_after(DriverView::fresh(now).lifetime_due(c), now, c.max_connection_lifetime),
        is_after(DriverView::fresh(now).ping_due(c), now, c.ping_interval),
        DriverView::fresh(now).pong_due(c) is None,
        DriverView::fresh(now).close_deadline is None,
{
}

/// An application message that is handed on puts the idle deadline off to the idle
/// timeout after it came. Nothing else does: neither control frames of the peer, nor
/// what is sent, nor a message over the limit.
pub proof fn law_messages_put_the_idle_deadline_off(v: DriverView, c: ConfigView, e: DriverEvent)
    requires
        v.accepts(e),
    ensures
        e matches DriverEvent::Incoming { message, at } ==> (v.next(c, e).1 is Deliver && (message
            is Text || message is Binary) ==> is_after(
            v.next(c, e).0.idle_due(c),
            at,
            c.idle_timeout,
        )),
        !(e matches DriverEvent::Incoming { message, .. } && v.next(c, e).1 is Deliver && (message
            is Text || message is Binary)) ==> v.next(c, e).0.idle_due(c) == v.idle_due(c),
{
}

/// Nothing puts off the end of a connection's life.
pub proof fn law_lifetime_is_never_put_off(v: DriverView, c: ConfigView, e: DriverEvent)
    requires
        v.accepts(e),
    ensures
        v.next(c, e).0.lifetime_due(c) == v.lifetime_due(c),
{
}

/// Every frame of the peer puts the next Ping off to the interval after it came, unless a
/// Pong is awaited, and nothing else does.
pub proof fn law_frames_put_the_next_ping_off(v: DriverView, c: ConfigView, e: DriverEvent)
    requires
        v.accepts(e),
        v.next(c, e).0.pending_ping is None,
    ensures
        e matches DriverEvent::Incoming { at, .. } ==> is_after(
            v.next(c, e).0.ping_due(c),
            at,
            c.ping_interval,
        ),
        !(e is Incoming) && v.pending_ping is None ==> v.next(c, e).0.ping_due(c) == v.ping_due(c),
{
}

/// A Ping that is due is written with eight bytes of its own. From the moment it is out
/// its Pong is awaited for the Pong timeout, and no other Ping is due. The Pong with the
/// same bytes ends that; a Pong with others, and any other message, does not.
pub proof fn law_pings_await_their_pong(
    v: DriverView,
    c: ConfigView,
    at: Instant,
    message: WebSocketMessage,
    then: Instant,
)
    requires
        v.accepts(DriverEvent::PingDeadline),
    ensures
        ({
            let (pinging, action) = v.next(c, DriverEvent::PingDeadline);
            let pinged = pinging.next(c, DriverEvent::Written { at }).0;
            let answered = pinged.next(c, DriverEvent::Incoming { message, at: then }).0;
            &&& action matches ActionView::Write(MessageView::Ping(payload))
            &&& payload.len() == 8
            &&& pinging.accepts(DriverEvent::Written { at })
            &&& is_after(pinged.pong_due(c), at, Some(c.pong_timeout))
            &&& pinged.ping_due(c) is None
            &&& pinged.accepts(DriverEvent::PongDeadline)
            &&& !pinged.accepts(DriverEvent::PingDeadline)
            &&& (message matches WebSocketMessage::Pong(p) && p@ == payload)
                ==> answered.pong_due(c) is None
            &&& !(message matches WebSocketMessage::Pong(p) && p@ == payload) ==> answered.pong_due(
                c,
            ) == pinged.pong_due(c)
        }),
{
}

/// No two of the Pings of a connection have the same bytes, one after the other.
pub proof fn law_next_ping_differs(v: DriverView, c: ConfigView)
    ensures
        v.next(c, DriverEvent::PingDeadline).1 matches ActionView::Write(MessageView::Ping(one))
            && v.next(c, DriverEvent::PingDeadline).0.next(c, DriverEvent::PingDeadline).1 matches
            ActionView::Write(MessageView::Ping(other)) && one != other,
{
    let w = v.next(c, DriverEvent::PingDeadline).0;
    if be_bytes(v.next_ping_token) == be_bytes(w.next_ping_token) {
        law_ping_payloads_differ(v.next_ping_token, w.next_ping_token);
    }
}

/// What the peer sends reaches the handler as it is, unless an application message goes
/// over the limit; Pings and Closes are answered first. What is to be sent is written as
/// it is.
pub proof fn law_messages_are_passed_on_as_they_are(v: DriverView, c: ConfigView, e: DriverEvent)
    requires
        v.accepts(e),
    ensures
        e matches DriverEvent::Incoming { message, .. } ==> (v.next(c, e).1 matches
            ActionView::Deliver { message: m, flush } ==> m == message@ && flush == (message is Ping
            || message is Close)),
        e matches DriverEvent::Incoming { message, .. } ==> (c.message_rate_limit is None
            || message is Ping || message is Pong || message is Close ==> v.next(c, e).1
            is Deliver),
        e matches DriverEvent::Outbound(message) ==> v.next(c, e).1 == ActionView::Write(message@),
        e matches DriverEvent::Control(ControlCommand::Ping(p)) ==> !v.close_sent ==> v.next(
            c,
            e,
        ).1 == ActionView::Write(MessageView::Ping(p@)),
        e matches DriverEvent::Control(ControlCommand::Pong(p)) ==> !v.close_sent ==> v.next(
            c,
            e,
        ).1 == ActionView::Write(MessageView::Pong(p@)),
        v.next(c, e).1 is Deliver ==> e is Incoming,
        v.next(c, e).1 is Write ==> e is Outbound || e is Control || e is PingDeadline,
{
}

/// Whether a connection begins to close with a frame of its own.
pub open spec fn begins_to_close(
    r: (DriverView, ActionView),
    code: u16,
    reason: Seq<char>,
    initiator: WebSocketCloseInitiator,
    heartbeat: bool,
) -> bool {
    &&& r.1 matches ActionView::Close { frame: Some(f), drain, heartbeat_timeout }
    &&& f.code == code && f.reason == reason && !drain && heartbeat_timeout == heartbeat
    &&& r.0.phase is Closing
    &&& r.0.close_info matches Some(i) && i.code == code && i.reason == reason && i.initiator
        == initiator
    &&& !r.0.control_open && !r.0.outbound_open
}

/// A connection that has not closed yet closes with the code and the reason of what went
/// wrong, and remembers who began it.
pub proof fn law_faults_close_with_their_code(v: DriverView, c: ConfigView, e: DriverEvent)
    requires
        v.accepts(e),
        !v.close_sent,
    ensures
        e is PongDeadline ==> begins_to_close(
            v.next(c, e),
            1001,
            "Tiempo de espera de Pong agotado"@,
            WebSocketCloseInitiator::Timeout,
            true,
        ),
        e is IdleDeadline ==> begins_to_close(
            v.next(c, e),
            1001,
            "Tiempo de inactividad agotado"@,
            WebSocketCloseInitiator::Timeout,
            false,
        ),
        e is LifetimeDeadline ==> begins_to_close(
            v.next(c, e),
            1001,
            "Duracion maxima de conexion agotada"@,
            WebSocketCloseInitiator::Timeout,
            false,
        ),
        e is IncomingTooLong ==> begins_to_close(
            v.next(c, e),
            1009,
            "Mensaje WebSocket demasiado grande"@,
            WebSocketCloseInitiator::ProtocolError,
            false,
        ),
        e == DriverEvent::Delivered(InboundDelivery::TimedOut) ==> begins_to_close(
            v.next(c, e),
            1013,
            "El handler WebSocket no consume mensajes a tiempo"@,
            WebSocketCloseInitiator::Runtime,
            false,
        ),
        e matches DriverEvent::HandlerFinished { succeeded, .. } ==> !succeeded ==> begins_to_close(
            v.next(c, e),
            1011,
            "El handler WebSocket fallo"@,
            WebSocketCloseInitiator::Handler,
            false,
        ),
        e matches DriverEvent::HandlerFinished { succeeded, senders } ==> (succeeded && senders == 0
            ==> begins_to_close(v.next(c, e), 1000, ""@, WebSocketCloseInitiator::Handler, false)),
        e matches DriverEvent::SendersChanged { ended, senders } ==> (ended || senders == 0
            ==> begins_to_close(v.next(c, e), 1000, ""@, WebSocketCloseInitiator::Handler, false)),
        e is Incoming && !(v.next(c, e).1 is Deliver) ==> begins_to_close(
            v.next(c, e),
            1008,
            "Limite de mensajes WebSocket excedido"@,
            WebSocketCloseInitiator::Runtime,
            false,
        ),
{
}

/// A connection goes on while its handler has ended well and there are still senders, and
/// while the delivery of a message did not take too long.
pub proof fn law_healthy_connections_go_on(v: DriverView, c: ConfigView, e: DriverEvent)
    requires
        v.accepts(e),
        !v.close_sent,
        !v.close_received,
        (e matches DriverEvent::HandlerFinished { succeeded, senders } && succeeded && senders > 0)
            || (e matches DriverEvent::SendersChanged { ended, senders } && !ended && senders > 0)
            || (e matches DriverEvent::Delivered(fate) && fate != InboundDelivery::TimedOut)
            || e is ControlEnded || e is OutboundEnded || (e is Written && !(v.phase is Closing)),
    ensures
        v.next(c, e).1 is Wait,
        v.next(c, e).0.phase is Waiting,
        !v.next(c, e).0.close_sent,
        v.next(c, e).0.close_info == v.close_info,
        e is HandlerFinished ==> v.next(c, e).0.handler_completed,
        e is ControlEnded ==> !v.next(c, e).0.control_open,
        e is OutboundEnded ==> !v.next(c, e).0.outbound_open,
        !(e is ControlEnded) ==> v.next(c, e).0.control_open == v.control_open,
        !(e is OutboundEnded) ==> v.next(c, e).0.outbound_open == v.outbound_open,
{
}

/// A connection that is told to close writes the frame that it was given. Where it was
/// asked to, what is queued goes before it; where it is cut off, it does not.
pub proof fn law_commands_to_close_are_followed(
    v: DriverView,
    c: ConfigView,
    frame: Option<CloseFrame>,
)
    requires
        v.accepts(DriverEvent::Control(ControlCommand::Close(frame))),
        !v.close_sent,
    ensures
        ({
            let asked = v.next(c, DriverEvent::Control(ControlCommand::Close(frame)));
            let cut = v.next(c, DriverEvent::Control(ControlCommand::Disconnect(frame)));
            let code = match frame {
                Some(f) => f.code,
                None => 1005u16,
            };
            &&& asked.1 == ActionView::Close {
                frame: frame_view(frame),
                drain: true,
                heartbeat_timeout: false,
            }
            &&& cut.1 == ActionView::Close {
                frame: frame_view(frame),
                drain: false,
                heartbeat_timeout: false,
            }
            &&& asked.0.close_info matches Some(i) && i.code == code && i.initiator
                == WebSocketCloseInitiator::Local
            &&& cut.0.close_info matches Some(i) && i.code == code && i.initiator
                == WebSocketCloseInitiator::Runtime
            &&& frame matches Some(f) ==> asked.0.close_info->0.reason == f.reason@
                && cut.0.close_info->0.reason == f.reason@
            &&& frame is None ==> asked.0.close_info->0.reason.len() == 0
                && cut.0.close_info->0.reason.len() == 0
            &&& asked.0.phase is Closing && cut.0.phase is Closing
        }),
{
}

/// Once its Close is out a connection waits for that of the peer as long as the close
/// timeout, and is over after that.
pub proof fn law_close_is_awaited_for_so_long(v: DriverView, c: ConfigView, at: Instant)
    requires
        v.phase is Closing,
    ensures
        ({
            let (w, action) = v.next(c, DriverEvent::Written { at });
            &&& action is Wait
            &&& w.close_sent
            &&& w.phase is Waiting
            &&& is_after(w.close_deadline, at, Some(c.close_timeout))
            &&& w.close_info == v.close_info
            &&& w.accepts(DriverEvent::CloseDeadline)
            &&& w.next(c, DriverEvent::CloseDeadline).1 is Finish
            &&& !w.accepts(DriverEvent::IdleDeadline) && !w.accepts(DriverEvent::LifetimeDeadline)
                && !w.accepts(DriverEvent::PingDeadline) && !w.accepts(DriverEvent::PongDeadline)
        }),
{
}

/// Who began to close, with which code and which reason, is settled by what comes first:
/// once the Close is out, or one has come in, nothing changes it.
pub proof fn law_first_close_settles_the_reason(v: DriverView, c: ConfigView, e: DriverEvent)
    requires
        v.sound(c),
        v.accepts(e),
        v.close_sent,
    ensures
        v.next(c, e).0.close_info == v.close_info,
        v.next(c, e).1 matches ActionView::Finish { outcome, report } ==> !report
            ==> outcome.close_info.code == v.close_info->0.code && outcome.close_info.reason
            == v.close_info->0.reason && outcome.close_info.initiator == v.close_info->0.initiator,
{
}

/// A Close of the peer that comes first is delivered and answered, and the connection is
/// over once it was delivered: cleanly, with the code and the reason of the peer.
pub proof fn law_close_of_the_peer_ends_the_connection(
    v: DriverView,
    c: ConfigView,
    frame: Option<CloseFrame>,
    at: Instant,
    fate: InboundDelivery,
)
    requires
        v.phase is Waiting,
        v.close_info is None,
    ensures
        ({
            let (w, action) = v.next(
                c,
                DriverEvent::Incoming { message: WebSocketMessage::Close(frame), at },
            );
            let (x, last) = w.next(c, DriverEvent::Delivered(fate));
            &&& action == ActionView::Deliver {
                message: MessageView::Close(frame_view(frame)),
                flush: true,
            }
            &&& w.close_received && w.close_sent
            &&& x.phase is Finished
            &&& last matches ActionView::Finish { outcome, report }
            &&& !report
            &&& outcome.close_info.clean
            &&& outcome.close_info.initiator == WebSocketCloseInitiator::Peer
            &&& outcome.handler_completed == v.handler_completed
            &&& frame matches Some(f) ==> outcome.close_info.code == f.code
                && outcome.close_info.reason == f.reason@
            &&& frame is None ==> outcome.close_info.code == 1005
                && outcome.close_info.reason.len() == 0
        }),
{
}

/// A connection whose peer goes away, or whose transport fails, is over. Without a Close
/// that is no clean end: its code is 1006, and a failure is told with its reason.
pub proof fn law_lost_connections_are_over(v: DriverView, c: ConfigView, e: DriverEvent)
    requires
        v.accepts(e),
        e is IncomingEnded || e is IncomingFailed || e is Failed || e is IncomingClosed,
    ensures
        v.next(c, e).0.phase is Finished,
        v.next(c, e).1 is Finish,
        v.next(c, e).1 matches ActionView::Finish { outcome, report } && {
            &&& e is IncomingEnded ==> !report && outcome.close_info.clean == (v.close_sent
                && v.close_received) && outcome.handler_completed == v.handler_completed
            &&& e is IncomingEnded && v.close_info is None ==> outcome.close_info.code == 1006
                && outcome.close_info.initiator == WebSocketCloseInitiator::Peer
            &&& e is IncomingClosed && v.close_sent ==> !report && outcome.close_info.clean
            &&& e is IncomingFailed || e is Failed || (e is IncomingClosed && !v.close_sent) ==> {
                &&& report
                &&& !outcome.close_info.clean
                &&& outcome.close_info.code == 1006
                &&& outcome.close_info.initiator == WebSocketCloseInitiator::ProtocolError
                &&& !outcome.handler_completed
            }
            &&& e matches DriverEvent::IncomingFailed { reason } ==> outcome.close_info.reason
                == reason@
            &&& e matches DriverEvent::Failed { reason } ==> outcome.close_info.reason == reason@
            &&& e matches DriverEvent::IncomingClosed { reason } ==> (!v.close_sent
                ==> outcome.close_info.reason == reason@)
        },
        forall|f: DriverEvent| !#[trigger] v.next(c, e).0.accepts(f),
{
}

/// The state after application messages at the given times were counted.
pub open spec fn after_messages(v: DriverView, c: ConfigView, times: Seq<Instant>) -> DriverView
    decreases times.len(),
{
    if times.len() == 0 {
        v
    } else {
        after_messages(v, c, times.drop_last()).counted(c, times.last()).0
    }
}

/// Of the messages in one window exactly the first are let through, as many as the limit
/// says, whatever came before: a window begins with the message that finds the last one
/// over, and lasts for the interval.
pub proof fn law_message_window_admits_the_first(
    v: DriverView,
    c: ConfigView,
    times: Seq<Instant>,
    at: Instant,
)
    requires
        c.message_rate_limit is Some,
        c.message_rate_limit->0.interval.nanos > 0,
        times.len() > 0 ==> times[0].nanos >= v.message_window_started.nanos
            + c.message_rate_limit->0.interval.nanos,
        times.len() == 0 ==> at.nanos >= v.message_window_started.nanos
            + c.message_rate_limit->0.interval.nanos,
        forall|i: int|
            0 <= i < times.len() ==> times[0].nanos <= (#[trigger] times[i]).nanos
                && times[i].nanos < times[0].nanos + c.message_rate_limit->0.interval.nanos,
        times.len() > 0 ==> times[0].nanos <= at.nanos && at.nanos < times[0].nanos
            + c.message_rate_limit->0.interval.nanos,
    ensures
        after_messages(v, c, times).counted(c, at).1 == (times.len()
            >= c.message_rate_limit->0.max_messages),
        times.len() > 0 ==> after_messages(v, c, times).message_window_started == times[0],
        times.len() > 0 ==> after_messages(v, c, times).message_count == (if times.len()
            < c.message_rate_limit->0.max_messages {
            times.len() as u32
        } else {
            c.message_rate_limit->0.max_messages
        }),
    decreases times.len(),
{
    if times.len() > 0 {
        let d = times.drop_last();
        if d.len() > 0 {
            assert(d[0] == times[0]);
            assert forall|i: int| 0 <= i < d.len() implies d[0].nanos <= (#[trigger] d[i]).nanos
                && d[i].nanos < d[0].nanos + c.message_rate_limit->0.interval.nanos by {
                assert(d[i] == times[i]);
            }
        }
        assert(times[times.len() - 1] == times.last());
        law_message_window_admits_the_first(v, c, d, times.last());
    }
}

/// An application message is delivered exactly where it is within the limit, and without
/// a limit always.
pub proof fn law_messages_within_the_limit_are_delivered(
    v: DriverView,
    c: ConfigView,
    message: WebSocketMessage,
    at: Instant,
)
    requires
        v.phase is Waiting,
        message is Text || message is Binary,
    ensures
        ({
            let (w, action) = v.next(c, DriverEvent::Incoming { message, at });
            &&& c.message_rate_limit is None ==> action is Deliver
            &&& action is Deliver <==> !v.counted(c, at).1
            &&& w.message_count == v.counted(c, at).0.message_count
            &&& w.message_window_started == v.counted(c, at).0.message_window_started
        }),
{
}

/// A connection that waits can meet everything that can happen to it: it takes what the
/// peer sends, and before its Close is out its deadlines, its commands and its messages.
pub proof fn law_waiting_connections_take_events(v: DriverView, e: DriverEvent)
    requires
        v.phase is Waiting,
    ensures
        e is Incoming || e is IncomingClosed || e is IncomingTooLong || e is IncomingFailed
            || e is IncomingEnded ==> v.accepts(e),
        (e is IdleDeadline || e is LifetimeDeadline) && !v.close_sent ==> v.accepts(e),
        e is PingDeadline && !v.close_sent && v.pending_ping is None ==> v.accepts(e),
        e is PongDeadline && !v.close_sent && v.pending_ping is Some ==> v.accepts(e),
        e is CloseDeadline && v.close_sent ==> v.accepts(e),
        (e is Control || e is ControlEnded) && v.control_open ==> v.accepts(e),
        (e is Outbound || e is OutboundEnded) && v.outbound_open && !v.close_sent ==> v.accepts(e),
        e is HandlerFinished && !v.handler_completed ==> v.accepts(e),
        e is SendersChanged && v.handler_completed && !v.close_sent ==> v.accepts(e),
{
}

/// A connection that was just opened takes commands and messages, has counted none, and
/// its handler is still at work.
pub proof fn law_fresh_connections_are_open(now: Instant)
    ensures
        DriverView::fresh(now).control_open,
        DriverView::fresh(now).outbound_open,
        !DriverView::fresh(now).handler_completed,
        !DriverView::fresh(now).close_sent,
        !DriverView::fresh(now).close_received,
        DriverView::fresh(now).close_info is None,
        DriverView::fresh(now).phase is Waiting,
        DriverView::fresh(now).message_count == 0,
        DriverView::fresh(now).message_window_started == now,
{
}

/// Once its Close is out a connection does nothing but wait for that of the peer: commands
/// and faults count for nothing any more, and that its handler ended is only noted.
pub proof fn law_closed_connections_only_wait(v: DriverView, c: ConfigView, e: DriverEvent)
    requires
        v.accepts(e),
        v.close_sent,
        !v.close_received,
        e is Control || e is ControlEnded || e is HandlerFinished || e is IncomingTooLong
            || e is Delivered,
    ensures
        v.next(c, e).1 is Wait,
        v.next(c, e).0.phase is Waiting,
        v.next(c, e).0.close_sent,
        !v.next(c, e).0.close_received,
        v.next(c, e).0.close_deadline == v.close_deadline,
        e is HandlerFinished ==> v.next(c, e).0.handler_completed,
        !(e is HandlerFinished) ==> v.next(c, e).0.handler_completed == v.handler_completed,
{
}

/// A connection that waited too long for the Close of the peer ends as what it was: cleanly
/// exactly where Close went both ways, and with what became of its handler.
pub proof fn law_ends_tell_what_became_of_the_connection(v: DriverView, c: ConfigView)
    requires
        v.accepts(DriverEvent::CloseDeadline),
    ensures
        v.next(c, DriverEvent::CloseDeadline).1 matches ActionView::Finish { outcome, report } && {
            &&& !report
            &&& outcome.close_info.clean == v.close_received
            &&& outcome.handler_completed == v.handler_completed
            &&& v.close_info matches Some(i) ==> outcome.close_info.code == i.code
                && outcome.close_info.reason == i.reason && outcome.close_info.initiator
                == i.initiator
        },
        v.next(c, DriverEvent::CloseDeadline).0.phase is Finished,
{
}

} // verus!

//! What a handler's end of a connection decides: where a message goes, what a full
//! queue leads to, and which closes are allowed.

use vstd::prelude::*;
use vstd::utf8::encode_utf8;

use super::config::BackpressurePolicy;
use super::driver::ControlCommand;
use super::error::{WebSocketCapacityError, WebSocketError, WebSocketTimeout, WsError};
use super::types::{
    CloseFrame, CloseFrameView, CloseInfoView, MessageView, WebSocketCloseInfo,
    WebSocketCloseInitiator, WebSocketMessage,
};

verus! {

/// Whether a handler may close a connection with a code.
pub open spec fn valid_close_code(code: u16) -> bool {
    1000 <= code <= 1003 || 1007 <= code <= 1013 || 3000 <= code <= 4999
}

/// What is wrong with a close, if anything is: the code comes before the reason.
pub open spec fn close_fault(code: u16, reason: Seq<char>) -> Option<Seq<char>> {
    if !valid_close_code(code) {
        Some("codigo de cierre reservado o no asignado"@)
    } else if utf8_len(reason) > 123 {
        Some("la razon de cierre supera 123 bytes UTF-8"@)
    } else {
        None
    }
}

/// The length of a text in UTF-8.
pub open spec fn utf8_len(s: Seq<char>) -> nat {
    encode_utf8(s).len()
}

/// The length of a text in UTF-8.
pub fn byte_len(s: &str) -> (r: usize)
    ensures
        r == utf8_len(s@),
{
    s.as_bytes().len()
}

/// Refuses codes that are reserved or not assigned, and reasons over 123 bytes.
pub fn validate_close(code: u16, reason: &str) -> (r: Result<(), WsError>)
    ensures
        match r {
            Ok(_) => close_fault(code, reason@) is None,
            Err(e) => e matches WsError::InvalidClose { code: c, reason: m } && c == code
                && close_fault(code, reason@) == Some(m@),
        },
{
    let valid: bool = (1000 <= code && code <= 1003) || (1007 <= code && code <= 1013) || (3000
        <= code && code <= 4999);
    if !valid {
        return Err(
            WsError::InvalidClose {
                code,
                reason: "codigo de cierre reservado o no asignado".to_owned(),
            },
        );
    }
    if byte_len(reason) > 123 {
        return Err(
            WsError::InvalidClose {
                code,
                reason: "la razon de cierre supera 123 bytes UTF-8".to_owned(),
            },
        );
    }
    Ok(())
}

/// The queue that a message goes to.
#[derive(Debug)]
pub enum Routed {
    Control(ControlCommand),
    Application(WebSocketMessage),
}

/// Pings, Pongs and Closes go to the control queue, ahead of the messages.
pub fn route_message(message: WebSocketMessage) -> (r: Routed)
    ensures
        r == (match message {
            WebSocketMessage::Ping(p) => Routed::Control(ControlCommand::Ping(p)),
            WebSocketMessage::Pong(p) => Routed::Control(ControlCommand::Pong(p)),
            WebSocketMessage::Close(f) => Routed::Control(ControlCommand::Close(f)),
            m => Routed::Application(m),
        }),
{
    match message {
        WebSocketMessage::Ping(p) => Routed::Control(ControlCommand::Ping(p)),
        WebSocketMessage::Pong(p) => Routed::Control(ControlCommand::Pong(p)),
        WebSocketMessage::Close(f) => Routed::Control(ControlCommand::Close(f)),
        m => Routed::Application(m),
    }
}

/// The command that closes a connection with a code and a reason.
pub fn close_command(code: u16, reason: &str) -> (r: Result<ControlCommand, WsError>)
    ensures
        match r {
            Ok(c) => close_fault(code, reason@) is None && (c matches ControlCommand::Close(Some(f))
                && f@ == (CloseFrameView { code, reason: reason@ })),
            Err(e) => e matches WsError::InvalidClose { code: c, reason: m } && c == code
                && close_fault(code, reason@) == Some(m@),
        },
{
    match validate_close(code, reason) {
        Ok(_) => Ok(ControlCommand::Close(Some(CloseFrame { code, reason: reason.to_owned() }))),
        Err(e) => Err(e),
    }
}

/// How an attempt to put a message into the outbound queue went.
#[derive(Clone, Copy, Debug, PartialEq, Eq, Structural)]
pub enum QueueAttempt {
    Sent,
    Full,
    Closed,
    TimedOut,
}

/// What an attempt leads to.
#[derive(Debug)]
pub struct SendVerdict {
    pub result: Result<(), WsError>,
    /// Whether the attempt counts as a saturated send.
    pub saturated: bool,
    /// The frame to disconnect a slow peer with.
    pub disconnect: Option<CloseFrame>,
}

/// Whether a policy waits for room in the queue, up to the send timeout.
pub fn waits_for_room(policy: BackpressurePolicy) -> (r: bool)
    ensures
        r == (policy == BackpressurePolicy::Wait),
{
    policy == BackpressurePolicy::Wait
}

/// The verdict on an attempt under a policy.
pub open spec fn verdict_fits(policy: BackpressurePolicy, attempt: QueueAttempt, v: SendVerdict) -> bool {
    &&& v.saturated == (attempt == QueueAttempt::Full || attempt == QueueAttempt::TimedOut)
    &&& v.disconnect is Some <==> attempt == QueueAttempt::Full && policy
        == BackpressurePolicy::Disconnect
    &&& v.disconnect matches Some(f) ==> f@ == (CloseFrameView {
        code: 1013,
        reason: "Cliente WebSocket demasiado lento"@,
    })
    &&& match attempt {
        QueueAttempt::Sent => v.result is Ok,
        QueueAttempt::Full => v.result == Err::<(), WsError>(
            WsError::Capacity(WebSocketCapacityError::OutboundQueue),
        ),
        QueueAttempt::Closed => v.result == Err::<(), WsError>(WsError::Closed),
        QueueAttempt::TimedOut => v.result == Err::<(), WsError>(
            WsError::Timeout(WebSocketTimeout::Send),
        ),
    }
}

/// What an attempt to queue an application message leads to.
pub fn send_application(policy: BackpressurePolicy, attempt: QueueAttempt) -> (r: SendVerdict)
    ensures
        verdict_fits(policy, attempt, r),
{
    match attempt {
        QueueAttempt::Sent => SendVerdict { result: Ok(()), saturated: false, disconnect: None },
        QueueAttempt::Closed => SendVerdict {
            result: Err(WsError::Closed),
            saturated: false,
            disconnect: None,
        },
        QueueAttempt::TimedOut => SendVerdict {
            result: Err(WsError::Timeout(WebSocketTimeout::Send)),
            saturated: true,
            disconnect: None,
        },
        QueueAttempt::Full => SendVerdict {
            result: Err(WsError::Capacity(WebSocketCapacityError::OutboundQueue)),
            saturated: true,
            disconnect: if policy == BackpressurePolicy::Disconnect {
                Some(
                    CloseFrame {
                        code: 1013,
                        reason: "Cliente WebSocket demasiado lento".to_owned(),
                    },
                )
            } else {
                None
            },
        },
    }
}

/// What a broadcast counts a recipient as.
#[derive(Clone, Copy, Debug, PartialEq, Eq, Structural)]
pub enum LocalEnqueueOutcome {
    Enqueued,
    Rejected,
    Disconnected,
}

/// What a broadcast counts the result of a send as: a closed connection, and one that
/// is disconnected for being slow, count as disconnected.
pub fn enqueue(policy: BackpressurePolicy, result: &Result<(), WsError>) -> (r: LocalEnqueueOutcome)
    ensures
        r == (match *result {
            Ok(_) => LocalEnqueueOutcome::Enqueued,
            Err(WsError::Closed) => LocalEnqueueOutcome::Disconnected,
            Err(WsError::Capacity(_)) => if policy == BackpressurePolicy::Disconnect {
                LocalEnqueueOutcome::Disconnected
            } else {
                LocalEnqueueOutcome::Rejected
            },
            Err(_) => LocalEnqueueOutcome::Rejected,
        }),
{
    match result {
        Ok(_) => LocalEnqueueOutcome::Enqueued,
        Err(WsError::Closed) => LocalEnqueueOutcome::Disconnected,
        Err(WsError::Capacity(_)) => if policy == BackpressurePolicy::Disconnect {
            LocalEnqueueOutcome::Disconnected
        } else {
            LocalEnqueueOutcome::Rejected
        },
        Err(_) => LocalEnqueueOutcome::Rejected,
    }
}

/// The error that callers of a socket see: its own, or another one as a failure of the
/// protocol, described as the transport describes one of input or output.
pub fn compatibility_error(error: WsError) -> (r: WebSocketError)
    ensures
        match error {
            WsError::WebSocket(e) => r == e,
            other => r matches WebSocketError::Protocol(m) && m@ == "IO error: "@ + other.text(),
        },
{
    match error {
        WsError::WebSocket(e) => e,
        other => WebSocketError::Protocol(
            "IO error: ".to_owned().concat(other.message().as_str()),
        ),
    }
}

/// The data of a message that can carry JSON, or `None` for another message.
pub fn json_data(message: WebSocketMessage) -> (r: Option<Vec<u8>>)
    ensures
        match message@ {
            MessageView::Text(s) => r matches Some(b) && b@ == encode_utf8(s),
            MessageView::Binary(d) => r matches Some(b) && b@ == d,
            _ => r is None,
        },
{
    match message {
        WebSocketMessage::Text(s) => Some(s.as_str().as_bytes_vec()),
        WebSocketMessage::Binary(b) => Some(b),
        _ => None,
    }
}

/// The info of a connection whose driver ended without one.
pub fn unpublished_close() -> (r: WebSocketCloseInfo)
    ensures
        r@ == (CloseInfoView {
            code: 1006,
            reason: "El driver WebSocket termino sin publicar el cierre"@,
            initiator: WebSocketCloseInitiator::ProtocolError,
            clean: false,
        }),
{
    WebSocketCloseInfo {
        code: 1006,
        reason: "El driver WebSocket termino sin publicar el cierre".to_owned(),
        initiator: WebSocketCloseInitiator::ProtocolError,
        clean: false,
    }
}

/// A handler may close with the codes that are assigned to it, and with those that are free
/// to use; those that are reserved it may not. A reason has 123 bytes at most.
pub proof fn law_closes_that_are_allowed(code: u16, reason: Seq<char>)
    ensures
        close_fault(code, reason) is None <==> (code == 1000 || code == 1001 || code == 1002 || code
            == 1003 || 1007 <= code <= 1013 || 3000 <= code <= 4999) && encode_utf8(reason).len()
            <= 123,
        code == 1004 || code == 1005 || code == 1006 || code < 1000 || code == 1014 || code == 1015
            || 1016 <= code <= 2999 || code >= 5000 ==> close_fault(code, reason) == Some(
            "codigo de cierre reservado o no asignado"@,
        ),
{
}

/// A message that is queued is no failure. Where the queue is full it is refused and counted
/// under each policy that does not wait, and the peer is disconnected under one alone; where
/// waiting took too long it is counted too, and a closed connection is told.
pub proof fn law_full_queues_are_told(policy: BackpressurePolicy, a: QueueAttempt, v: SendVerdict)
    requires
        verdict_fits(policy, a, v),
    ensures
        v.result is Ok <==> a == QueueAttempt::Sent,
        v.saturated <==> a == QueueAttempt::Full || a == QueueAttempt::TimedOut,
        v.disconnect is Some <==> a == QueueAttempt::Full && policy
            == BackpressurePolicy::Disconnect,
        v.disconnect matches Some(f) ==> f.code == 1013 && f.reason@
            == "Cliente WebSocket demasiado lento"@,
        a == QueueAttempt::Closed ==> v.result == Err::<(), WsError>(WsError::Closed),
        a == QueueAttempt::Full ==> v.result == Err::<(), WsError>(
            WsError::Capacity(WebSocketCapacityError::OutboundQueue),
        ),
        a == QueueAttempt::TimedOut ==> v.result == Err::<(), WsError>(
            WsError::Timeout(WebSocketTimeout::Send),
        ),
{
}

/// A reason that is too long is told so, where the code is in order.
pub proof fn law_long_reasons_are_told(code: u16, reason: Seq<char>)
    ensures
        1000 <= code <= 1003 || 1007 <= code <= 1013 || 3000 <= code <= 4999 ==> (encode_utf8(
            reason,
        ).len() > 123 ==> close_fault(code, reason) == Some(
            "la razon de cierre supera 123 bytes UTF-8"@,
        )),
{
}

} // verus!

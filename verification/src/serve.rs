//! The loop that takes connections in, until it is told to stop.

use vstd::prelude::*;

use crate::time::Duration;

verus! {

/// What the loop is at.
#[derive(Clone, Copy, Debug, PartialEq, Eq, Structural)]
pub enum ServeState {
    /// It takes connections in.
    Accepting,
    /// It waits for those that are still open.
    Draining,
    /// It is over.
    Stopped,
}

/// What happens to the loop.
#[derive(Clone, Copy, Debug, PartialEq, Eq, Structural)]
pub enum ServeEvent {
    /// A connection came in.
    Accepted,
    /// A connection could not be taken in.
    AcceptFailed,
    /// The server is told to stop.
    ShutdownRequested,
    /// The last connection has ended.
    Drained,
    /// The time to wait for connections is over.
    DrainTimedOut,
}

/// What the loop does.
#[derive(Clone, Copy, Debug, PartialEq, Eq, Structural)]
pub enum ServeAction {
    /// Serves the connection that came in.
    Serve,
    /// Says what went wrong, and waits that long before it goes on.
    Pause(Duration),
    /// Closes the listener, and waits for connections that long at most.
    Drain(Duration),
    /// Ends.
    Finish,
    /// Says that connections were still open, and ends.
    FinishLate,
    /// Does nothing.
    Rest,
}

/// How long the loop pauses after a connection could not be taken in.
pub const PAUSE_MILLIS: u64 = 5;

/// How long the loop waits for connections that are still open.
pub const DRAIN_SECS: u64 = 10;

impl ServeState {
    /// What an event leads to, as contracts speak of it.
    pub open spec fn next(self, event: ServeEvent) -> (ServeState, ServeAction) {
        match (self, event) {
            (ServeState::Accepting, ServeEvent::Accepted) => (self, ServeAction::Serve),
            (ServeState::Accepting, ServeEvent::AcceptFailed) => (
                self,
                ServeAction::Pause(Duration { nanos: 5_000_000 }),
            ),
            (ServeState::Accepting, ServeEvent::ShutdownRequested) => (
                ServeState::Draining,
                ServeAction::Drain(Duration { nanos: 10_000_000_000 }),
            ),
            (ServeState::Draining, ServeEvent::Drained) => (
                ServeState::Stopped,
                ServeAction::Finish,
            ),
            (ServeState::Draining, ServeEvent::DrainTimedOut) => (
                ServeState::Stopped,
                ServeAction::FinishLate,
            ),
            _ => (self, ServeAction::Rest),
        }
    }

    /// What an event leads to.
    pub fn step(self, event: ServeEvent) -> (r: (ServeState, ServeAction))
        ensures
            r == self.next(event),
    {
        match (self, event) {
            (ServeState::Accepting, ServeEvent::Accepted) => (self, ServeAction::Serve),
            (ServeState::Accepting, ServeEvent::AcceptFailed) => (
                self,
                ServeAction::Pause(Duration::from_millis(PAUSE_MILLIS)),
            ),
            (ServeState::Accepting, ServeEvent::ShutdownRequested) => (
                ServeState::Draining,
                ServeAction::Drain(Duration::from_secs(DRAIN_SECS)),
            ),
            (ServeState::Draining, ServeEvent::Drained) => (
                ServeState::Stopped,
                ServeAction::Finish,
            ),
            (ServeState::Draining, ServeEvent::DrainTimedOut) => (
                ServeState::Stopped,
                ServeAction::FinishLate,
            ),
            _ => (self, ServeAction::Rest),
        }
    }
}

/// The state after events.
pub open spec fn after_all(from: ServeState, events: Seq<ServeEvent>) -> ServeState
    decreases events.len(),
{
    if events.len() == 0 {
        from
    } else {
        after_all(from, events.drop_last()).next(events.last()).0
    }
}

/// Connections that cannot be taken in never end the loop: until it is told to stop it
/// serves every connection that comes in.
pub proof fn law_failed_connections_do_not_stop_the_server(
    events: Seq<ServeEvent>,
)
    requires
        forall|i: int|
            0 <= i < events.len() ==> #[trigger] events[i] != ServeEvent::ShutdownRequested,
    ensures
        after_all(ServeState::Accepting, events) == ServeState::Accepting,
        after_all(ServeState::Accepting, events).next(ServeEvent::Accepted).1
            == ServeAction::Serve,
    decreases events.len(),
{
    if events.len() > 0 {
        let d = events.drop_last();
        assert forall|i: int| 0 <= i < d.len() implies #[trigger] d[i]
            != ServeEvent::ShutdownRequested by {
            assert(d[i] == events[i]);
        }
        law_failed_connections_do_not_stop_the_server(d);
        assert(events[events.len() - 1] == events.last());
    }
}

/// Once it was told to stop, the loop serves no further connection, whatever happens.
pub proof fn law_nothing_is_served_after_shutdown(
    before: Seq<ServeEvent>,
    more: Seq<ServeEvent>,
)
    ensures
        ({
            let all = before.push(ServeEvent::ShutdownRequested) + more;
            let s = after_all(ServeState::Accepting, all);
            s != ServeState::Accepting && forall|e: ServeEvent| (#[trigger] s.next(e)).1
                != ServeAction::Serve
        }),
    decreases more.len(),
{
    let told = before.push(ServeEvent::ShutdownRequested);
    let all = told + more;
    if more.len() == 0 {
        assert(all =~= told);
        assert(told.drop_last() =~= before);
    } else {
        law_nothing_is_served_after_shutdown(before, more.drop_last());
        assert(all.drop_last() =~= told + more.drop_last());
    }
}

/// The loop pauses for five milliseconds after a connection could not be taken in, and
/// waits ten seconds at most for those that are open once it is told to stop. It ends when
/// they have, or when that time is over, which it says.
pub proof fn law_loop_waits_for_so_long(e: ServeEvent)
    ensures
        ServeState::Accepting.next(ServeEvent::AcceptFailed) == (
            ServeState::Accepting,
            ServeAction::Pause(Duration { nanos: 5_000_000 }),
        ),
        ServeState::Accepting.next(ServeEvent::ShutdownRequested) == (
            ServeState::Draining,
            ServeAction::Drain(Duration { nanos: 10_000_000_000 }),
        ),
        ServeState::Draining.next(ServeEvent::Drained) == (
            ServeState::Stopped,
            ServeAction::Finish,
        ),
        ServeState::Draining.next(ServeEvent::DrainTimedOut) == (
            ServeState::Stopped,
            ServeAction::FinishLate,
        ),
        e != ServeEvent::Drained && e != ServeEvent::DrainTimedOut ==> ServeState::Draining.next(e)
            == (ServeState::Draining, ServeAction::Rest),
        ServeState::Stopped.next(e) == (ServeState::Stopped, ServeAction::Rest),
{
}

} // verus!

//! How a node stays subscribed to its broker, as a state machine.
//!
//! `BrokerSupervisor::step` takes what has happened and says what is to be done next.
//! After a failure it waits before it subscribes again, longer each time up to a bound.

use vstd::prelude::*;

use super::broker::{WsBrokerError, WsBrokerErrorCategory};
use crate::time::Duration;

verus! {

/// The first wait, in nanoseconds: a hundred milliseconds.
pub const FIRST_RETRY_NANOS: u128 = 100_000_000;

/// The longest wait, in nanoseconds: a second.
pub const LONGEST_RETRY_NANOS: u128 = 1_000_000_000;

/// What a supervisor is in the middle of.
#[derive(Clone, Copy, Debug, PartialEq, Eq, Structural)]
pub enum SupervisorPhase {
    Subscribing,
    Listening,
    Retrying,
    Stopped,
}

/// What happens to a subscription.
#[derive(Debug)]
pub enum SupervisorEvent {
    /// The runtime shuts down.
    Shutdown,
    /// The subscription was made.
    Subscribed,
    /// The subscription was refused.
    SubscribeFailed(WsBrokerError),
    /// The subscription was not made in time.
    SubscribeTimedOut,
    /// A publication came in.
    Publication,
    /// The subscription reports a failure.
    StreamFailed(WsBrokerError),
    /// The subscription has ended.
    StreamEnded,
    /// The wait is over.
    RetryElapsed { shutdown: bool },
}

/// What is to be done next.
#[derive(Clone, Copy, Debug, PartialEq, Eq, Structural)]
pub enum SupervisorAction {
    Subscribe,
    Listen,
    Retry { after: Duration },
    Stop,
}

/// What is to be done next, and what the runtime is told.
#[derive(Clone, Copy, Debug, PartialEq, Eq, Structural)]
pub struct SupervisorStep {
    pub action: SupervisorAction,
    /// The broker is connected.
    pub connected: bool,
    /// A failure is to be counted.
    pub failed: bool,
    /// How many publications were missed.
    pub lagged: Option<u64>,
    /// The broker is not connected, and why.
    pub disconnected: Option<WsBrokerErrorCategory>,
}

/// Keeps a node subscribed to its broker.
#[derive(Clone, Copy, Debug, PartialEq, Eq, Structural)]
pub struct BrokerSupervisor {
    pub retry_delay: Duration,
    pub phase: SupervisorPhase,
}

/// How many publications an error says were missed.
pub open spec fn missed(e: WsBrokerError) -> Option<u64> {
    match e {
        WsBrokerError::Lagged(n) => Some(n),
        _ => None,
    }
}

/// Twice the wait, up to the bound.
pub open spec fn longer(d: Duration) -> Duration {
    Duration {
        nanos: if 2 * d.nanos > LONGEST_RETRY_NANOS {
            LONGEST_RETRY_NANOS
        } else {
            (2 * d.nanos) as u128
        },
    }
}

/// A step that tells the runtime nothing.
pub open spec fn plain(action: SupervisorAction) -> SupervisorStep {
    SupervisorStep { action, connected: false, failed: false, lagged: None, disconnected: None }
}

impl BrokerSupervisor {
    /// Whether an event can come in this state.
    pub open spec fn accepts(self, e: SupervisorEvent) -> bool {
        match e {
            SupervisorEvent::Shutdown => !(self.phase is Stopped),
            SupervisorEvent::Subscribed | SupervisorEvent::SubscribeFailed(_)
            | SupervisorEvent::SubscribeTimedOut => self.phase is Subscribing,
            SupervisorEvent::Publication | SupervisorEvent::StreamFailed(_)
            | SupervisorEvent::StreamEnded => self.phase is Listening,
            SupervisorEvent::RetryElapsed { .. } => self.phase is Retrying,
        }
    }

    /// The supervisor in another phase.
    pub open spec fn in_phase(self, phase: SupervisorPhase) -> BrokerSupervisor {
        BrokerSupervisor { phase, ..self }
    }

    /// What an error of the broker leads to.
    pub open spec fn broken(self, e: WsBrokerError) -> (BrokerSupervisor, SupervisorStep) {
        (
            self.in_phase(SupervisorPhase::Retrying),
            SupervisorStep {
                failed: true,
                lagged: missed(e),
                disconnected: Some(e.spec_category()),
                ..plain(SupervisorAction::Retry { after: self.retry_delay })
            },
        )
    }

    /// What happens next, and what is to be done about it.
    pub open spec fn next(self, e: SupervisorEvent) -> (BrokerSupervisor, SupervisorStep) {
        match e {
            SupervisorEvent::Shutdown => (
                self.in_phase(SupervisorPhase::Stopped),
                SupervisorStep {
                    disconnected: if self.phase is Retrying {
                        None
                    } else {
                        Some(WsBrokerErrorCategory::SubscriptionClosed)
                    },
                    ..plain(SupervisorAction::Stop)
                },
            ),
            SupervisorEvent::Subscribed => (
                BrokerSupervisor {
                    retry_delay: Duration { nanos: FIRST_RETRY_NANOS },
                    phase: SupervisorPhase::Listening,
                },
                SupervisorStep { connected: true, ..plain(SupervisorAction::Listen) },
            ),
            SupervisorEvent::SubscribeFailed(err) => self.broken(err),
            SupervisorEvent::SubscribeTimedOut => self.broken(WsBrokerError::Timeout),
            SupervisorEvent::Publication => (self, plain(SupervisorAction::Listen)),
            SupervisorEvent::StreamFailed(err) => self.broken(err),
            SupervisorEvent::StreamEnded => (
                self.in_phase(SupervisorPhase::Retrying),
                SupervisorStep {
                    disconnected: Some(WsBrokerErrorCategory::SubscriptionClosed),
                    ..plain(SupervisorAction::Retry { after: self.retry_delay })
                },
            ),
            SupervisorEvent::RetryElapsed { shutdown } => if shutdown {
                (self.in_phase(SupervisorPhase::Stopped), plain(SupervisorAction::Stop))
            } else {
                (
                    BrokerSupervisor {
                        retry_delay: longer(self.retry_delay),
                        phase: SupervisorPhase::Subscribing,
                    },
                    plain(SupervisorAction::Subscribe),
                )
            },
        }
    }

    /// Whether the wait is within its bounds.
    pub open spec fn bounded(self) -> bool {
        FIRST_RETRY_NANOS <= self.retry_delay.nanos <= LONGEST_RETRY_NANOS
    }

    /// A supervisor that is about to subscribe.
    pub fn new() -> (r: BrokerSupervisor)
        ensures
            r == (BrokerSupervisor {
                retry_delay: Duration { nanos: FIRST_RETRY_NANOS },
                phase: SupervisorPhase::Subscribing,
            }),
            r.bounded(),
    {
        BrokerSupervisor {
            retry_delay: Duration { nanos: FIRST_RETRY_NANOS },
            phase: SupervisorPhase::Subscribing,
        }
    }

    /// Whether an event can come in this state.
    pub fn takes(&self, event: &SupervisorEvent) -> (r: bool)
        ensures
            r == self.accepts(*event),
    {
        match event {
            SupervisorEvent::Shutdown => !matches!(self.phase, SupervisorPhase::Stopped),
            SupervisorEvent::Subscribed => matches!(self.phase, SupervisorPhase::Subscribing),
            SupervisorEvent::SubscribeFailed(_) => matches!(self.phase, SupervisorPhase::Subscribing),
            SupervisorEvent::SubscribeTimedOut => matches!(self.phase, SupervisorPhase::Subscribing),
            SupervisorEvent::Publication => matches!(self.phase, SupervisorPhase::Listening),
            SupervisorEvent::StreamFailed(_) => matches!(self.phase, SupervisorPhase::Listening),
            SupervisorEvent::StreamEnded => matches!(self.phase, SupervisorPhase::Listening),
            SupervisorEvent::RetryElapsed { .. } => matches!(self.phase, SupervisorPhase::Retrying),
        }
    }

    /// Waits after an error of the broker.
    fn wait_after(&mut self, error: &WsBrokerError) -> (r: SupervisorStep)
        ensures
            (*final(self), r) == old(self).broken(*error),
    {
        self.phase = SupervisorPhase::Retrying;
        let lagged: Option<u64> = match error {
            WsBrokerError::Lagged(n) => Some(*n),
            _ => None,
        };
        SupervisorStep {
            action: SupervisorAction::Retry { after: self.retry_delay },
            connected: false,
            failed: true,
            lagged,
            disconnected: Some(error.category()),
        }
    }

    /// Takes what has happened and says what is to be done next.
    pub fn step(&mut self, event: SupervisorEvent) -> (r: SupervisorStep)
        requires
            old(self).accepts(event),
            old(self).bounded(),
        ensures
            (*final(self), r) == old(self).next(event),
            final(self).bounded(),
    {
        match event {
            SupervisorEvent::Shutdown => {
                let retrying: bool = matches!(self.phase, SupervisorPhase::Retrying);
                self.phase = SupervisorPhase::Stopped;
                SupervisorStep {
                    action: SupervisorAction::Stop,
                    connected: false,
                    failed: false,
                    lagged: None,
                    disconnected: if retrying {
                        None
                    } else {
                        Some(WsBrokerErrorCategory::SubscriptionClosed)
                    },
                }
            },
            SupervisorEvent::Subscribed => {
                self.retry_delay = Duration { nanos: FIRST_RETRY_NANOS };
                self.phase = SupervisorPhase::Listening;
                SupervisorStep {
                    action: SupervisorAction::Listen,
                    connected: true,
                    failed: false,
                    lagged: None,
                    disconnected: None,
                }
            },
            SupervisorEvent::SubscribeFailed(err) => self.wait_after(&err),
            SupervisorEvent::SubscribeTimedOut => self.wait_after(&WsBrokerError::Timeout),
            SupervisorEvent::Publication => SupervisorStep {
                action: SupervisorAction::Listen,
                connected: false,
                failed: false,
                lagged: None,
                disconnected: None,
            },
            SupervisorEvent::StreamFailed(err) => self.wait_after(&err),
            SupervisorEvent::StreamEnded => {
                self.phase = SupervisorPhase::Retrying;
                SupervisorStep {
                    action: SupervisorAction::Retry { after: self.retry_delay },
                    connected: false,
                    failed: false,
                    lagged: None,
                    disconnected: Some(WsBrokerErrorCategory::SubscriptionClosed),
                }
            },
            SupervisorEvent::RetryElapsed { shutdown } => {
                if shutdown {
                    self.phase = SupervisorPhase::Stopped;
                    SupervisorStep {
                        action: SupervisorAction::Stop,
                        connected: false,
                        failed: false,
                        lagged: None,
                        disconnected: None,
                    }
                } else {
                    let doubled: u128 = self.retry_delay.nanos * 2;
                    self.retry_delay = Duration {
                        nanos: if doubled > LONGEST_RETRY_NANOS {
                            LONGEST_RETRY_NANOS
                        } else {
                            doubled
                        },
                    };
                    self.phase = SupervisorPhase::Subscribing;
                    SupervisorStep {
                        action: SupervisorAction::Subscribe,
                        connected: false,
                        failed: false,
                        lagged: None,
                        disconnected: None,
                    }
                }
            },
        }
    }
}

/// A stopped supervisor stays stopped: no event can come any more.
pub proof fn law_stopped_supervisor_rests(s: BrokerSupervisor, e: SupervisorEvent)
    requires
        s.phase is Stopped,
    ensures
        !s.accepts(e),
{
}

/// Between two subscriptions a supervisor always waits, and never longer than a second.
pub proof fn law_retry_waits_are_bounded(s: BrokerSupervisor, e: SupervisorEvent)
    requires
        s.bounded(),
        s.accepts(e),
        s.next(e).1.action matches SupervisorAction::Retry { .. },
    ensures
        s.next(e).1.action matches SupervisorAction::Retry { after } && FIRST_RETRY_NANOS
            <= after.nanos <= LONGEST_RETRY_NANOS,
        s.next(e).0.phase is Retrying,
{
}

/// A broken subscription is counted, told with its kind, and tried again after the wait;
/// where publications were missed it is told how many. One that just ends is told, but is
/// no failure.
pub proof fn law_broken_subscriptions_are_tried_again(s: BrokerSupervisor, e: SupervisorEvent)
    requires
        s.accepts(e),
    ensures
        e matches SupervisorEvent::SubscribeFailed(err) ==> s.next(e).1.disconnected == Some(
            err.spec_category(),
        ),
        e matches SupervisorEvent::StreamFailed(err) ==> s.next(e).1.disconnected == Some(
            err.spec_category(),
        ),
        e is SubscribeTimedOut ==> s.next(e).1.disconnected == Some(WsBrokerErrorCategory::Timeout),
        e is SubscribeFailed || e is StreamFailed || e is SubscribeTimedOut ==> s.next(e).1.failed,
        e is StreamEnded ==> !s.next(e).1.failed && s.next(e).1.disconnected == Some(
            WsBrokerErrorCategory::SubscriptionClosed,
        ),
        e is SubscribeFailed || e is StreamFailed || e is SubscribeTimedOut || e is StreamEnded ==> {
            &&& s.next(e).1.action == SupervisorAction::Retry { after: s.retry_delay }
            &&& s.next(e).0.phase is Retrying
            &&& s.next(e).0.retry_delay == s.retry_delay
            &&& !s.next(e).1.connected
        },
        (e matches SupervisorEvent::StreamFailed(WsBrokerError::Lagged(n)) ==> s.next(e).1.lagged
            == Some(n)),
        (e matches SupervisorEvent::SubscribeFailed(WsBrokerError::Lagged(n)) ==> s.next(e).1.lagged
            == Some(n)),
        e is StreamEnded || e is Publication || e is Subscribed || e is SubscribeTimedOut ==> s.next(
            e,
        ).1.lagged is None,
{
}

/// Each wait is twice the one before, up to a second, and once a subscription was made the
/// first wait is a tenth of a second again.
pub proof fn law_waits_double_until_subscribed(s: BrokerSupervisor, e: SupervisorEvent)
    requires
        s.accepts(e),
    ensures
        e == (SupervisorEvent::RetryElapsed { shutdown: false }) ==> {
            &&& s.next(e).1.action == SupervisorAction::Subscribe
            &&& s.next(e).0.phase is Subscribing
            &&& 2 * s.retry_delay.nanos <= 1_000_000_000 ==> s.next(e).0.retry_delay.nanos == 2
                * s.retry_delay.nanos
            &&& 2 * s.retry_delay.nanos > 1_000_000_000 ==> s.next(e).0.retry_delay.nanos
                == 1_000_000_000
        },
        e is Subscribed ==> {
            &&& s.next(e).1.action == SupervisorAction::Listen
            &&& s.next(e).1.connected
            &&& !s.next(e).1.failed
            &&& s.next(e).1.disconnected is None
            &&& s.next(e).0.phase is Listening
            &&& s.next(e).0.retry_delay.nanos == 100_000_000
        },
        e is Publication ==> s.next(e).0 == s && s.next(e).1.action == SupervisorAction::Listen
            && !s.next(e).1.failed && !s.next(e).1.connected && s.next(e).1.disconnected is None,
{
}

/// A shutdown stops the supervisor wherever it is, and is told unless that was told
/// already.
pub proof fn law_shutdown_stops_the_supervisor(s: BrokerSupervisor, e: SupervisorEvent)
    requires
        s.accepts(e),
        e is Shutdown || e == (SupervisorEvent::RetryElapsed { shutdown: true }),
    ensures
        s.next(e).0.phase is Stopped,
        s.next(e).1.action == SupervisorAction::Stop,
        !s.next(e).1.failed,
        !s.next(e).1.connected,
        s.phase is Retrying ==> s.next(e).1.disconnected is None,
        !(s.phase is Retrying) ==> s.next(e).1.disconnected == Some(
            WsBrokerErrorCategory::SubscriptionClosed,
        ),
{
}

/// A supervisor can meet what belongs to what it is at, and a shutdown until it stops.
pub proof fn law_supervisors_take_their_events(s: BrokerSupervisor, e: SupervisorEvent)
    ensures
        e is Shutdown && !(s.phase is Stopped) ==> s.accepts(e),
        s.phase is Subscribing && (e is Subscribed || e is SubscribeFailed || e is SubscribeTimedOut)
            ==> s.accepts(e),
        s.phase is Listening && (e is Publication || e is StreamFailed || e is StreamEnded)
            ==> s.accepts(e),
        s.phase is Retrying && e is RetryElapsed ==> s.accepts(e),
{
}

} // verus!

//! Convergence monitoring: the decisions that each per-server poll task and
//! the monitor as a whole take, as functions from state and event to next
//! state and action. Running the tasks, the timers and the network is the
//! caller's part.
use vstd::prelude::*;

use crate::name::Name;
use crate::record::WireRecord;
use crate::update::{expectation_type, satisfied, Expectation};
use crate::util::{contains_address, holds_address, IpAddress, SocketAddress};

verus! {

/// The port DNS servers listen on.
pub const DNS_PORT: u16 = 53;

/// Monitoring settings: the zone whose authoritative servers are polled,
/// the entry to query, what it should hold, the addresses not to poll, the
/// wait between polls and the deadline for all servers, in microseconds,
/// and whether to report every poll.
#[derive(Debug, Clone)]
pub struct Monitor {
    pub zone: Name,
    pub entry: Name,
    pub interval_us: u64,
    pub timeout_us: u64,
    pub verbose: bool,
    pub exclude: Vec<IpAddress>,
    pub expectation: Expectation,
}

/// Where the poll task of one server stands.
#[derive(Debug, Clone, Copy)]
pub enum ServerState {
    /// The server's address is being looked up.
    Resolving,
    /// The server at this address is being polled.
    Polling(SocketAddress),
    /// The server serves what was expected.
    Converged,
    /// The server's address is excluded from monitoring.
    Excluded,
    /// The server's address could not be found.
    Failed,
}

/// What a poll task learns from the outside.
#[derive(Debug, Clone)]
pub enum ServerEvent {
    /// The first address of the server, if the lookup found any.
    Resolved(Option<IpAddress>),
    /// The answer records of a query to the server.
    Answered(Vec<WireRecord>),
    /// A query to the server failed.
    QueryFailed,
}

/// What a poll task does next.
#[derive(Debug, Clone, Copy)]
pub enum ServerAction {
    /// Query the server at this address now.
    Query(SocketAddress),
    /// Wait this many microseconds, then query the server at this address.
    QueryAfter(SocketAddress, u64),
    /// The task is done and has succeeded.
    Finish,
    /// The task is done and has failed.
    Fail,
    /// The event does not apply to the state; nothing to do.
    Ignore,
}

/// How the monitor as a whole stands.
#[derive(Debug, Clone, Copy, PartialEq, Eq, Structural)]
pub enum MonitorStatus {
    /// Some servers are still being polled and the deadline has not passed.
    Pending,
    /// Every server serves what was expected or is excluded.
    Converged,
    /// Some server's address could not be found.
    Failed,
    /// The deadline passed before every server converged.
    TimedOut,
}

/// The next state and action of a poll task.
pub open spec fn step_spec(m: Monitor, s: ServerState, e: ServerEvent) -> (ServerState, ServerAction) {
    match (s, e) {
        (ServerState::Resolving, ServerEvent::Resolved(None)) => (ServerState::Failed, ServerAction::Fail),
        (ServerState::Resolving, ServerEvent::Resolved(Some(ip))) => if holds_address(m.exclude@, ip) {
            (ServerState::Excluded, ServerAction::Finish)
        } else {
            (
                ServerState::Polling(SocketAddress { ip, port: DNS_PORT }),
                ServerAction::Query(SocketAddress { ip, port: DNS_PORT }),
            )
        },
        (ServerState::Polling(a), ServerEvent::Answered(rrs)) => if satisfied(m.expectation, rrs@) {
            (ServerState::Converged, ServerAction::Finish)
        } else {
            (ServerState::Polling(a), ServerAction::QueryAfter(a, m.interval_us))
        },
        (ServerState::Polling(a), ServerEvent::QueryFailed) => (
            ServerState::Polling(a),
            ServerAction::QueryAfter(a, m.interval_us),
        ),
        _ => (s, ServerAction::Ignore),
    }
}

/// A task in this state is done and has succeeded.
pub open spec fn finished(s: ServerState) -> bool {
    s is Converged || s is Excluded
}

/// How the monitor stands, given the states of all its tasks and the time
/// elapsed since monitoring began.
pub open spec fn status_spec(states: Seq<ServerState>, elapsed_us: u64, timeout_us: u64) -> MonitorStatus {
    if exists|i: int| 0 <= i < states.len() && (#[trigger] states[i]) is Failed {
        MonitorStatus::Failed
    } else if forall|i: int| 0 <= i < states.len() ==> finished(#[trigger] states[i]) {
        MonitorStatus::Converged
    } else if elapsed_us >= timeout_us {
        MonitorStatus::TimedOut
    } else {
        MonitorStatus::Pending
    }
}

impl Monitor {
    /// The query each task sends: the entry, and the type of the expectation.
    pub fn query(&self) -> (r: (&Name, u16))
        ensures
            r.0 == &self.entry,
            r.1 == expectation_type(self.expectation),
    {
        (&self.entry, self.expectation.record_type())
    }

    /// The next state and action of a poll task in `state` on `event`. An
    /// excluded address is never polled. A failed query is retried, like an
    /// unmet expectation, only after the interval.
    pub fn step(&self, state: &ServerState, event: &ServerEvent) -> (r: (ServerState, ServerAction))
        ensures
            r == step_spec(*self, *state, *event),
    {
        match (state, event) {
            (ServerState::Resolving, ServerEvent::Resolved(None)) => (ServerState::Failed, ServerAction::Fail),
            (ServerState::Resolving, ServerEvent::Resolved(Some(ip))) => {
                if contains_address(&self.exclude, ip) {
                    (ServerState::Excluded, ServerAction::Finish)
                } else {
                    let a = SocketAddress { ip: *ip, port: DNS_PORT };
                    (ServerState::Polling(a), ServerAction::Query(a))
                }
            },
            (ServerState::Polling(a), ServerEvent::Answered(rrs)) => {
                if self.expectation.satisfied_by(rrs.as_slice()) {
                    (ServerState::Converged, ServerAction::Finish)
                } else {
                    (ServerState::Polling(*a), ServerAction::QueryAfter(*a, self.interval_us))
                }
            },
            (ServerState::Polling(a), ServerEvent::QueryFailed) => (
                ServerState::Polling(*a),
                ServerAction::QueryAfter(*a, self.interval_us),
            ),
            _ => (*state, ServerAction::Ignore),
        }
    }

    /// How the monitor stands: failed as soon as one task has failed, done
    /// once every task has succeeded, else timed out once the deadline has
    /// passed.
    pub fn status(&self, states: &Vec<ServerState>, elapsed_us: u64) -> (r: MonitorStatus)
        ensures
            r == status_spec(states@, elapsed_us, self.timeout_us),
    {
        let mut all_done = true;
        let mut i: usize = 0;
        while i < states.len()
            invariant
                i <= states@.len(),
                forall|j: int| 0 <= j < i ==> !((#[trigger] states@[j]) is Failed),
                all_done == forall|j: int| 0 <= j < i ==> finished(#[trigger] states@[j]),
            decreases states@.len() - i,
        {
            match states[i] {
                ServerState::Failed => {
                    return MonitorStatus::Failed;
                },
                ServerState::Converged => {},
                ServerState::Excluded => {},
                _ => {
                    all_done = false;
                },
            }
            i = i + 1;
        }
        if all_done {
            MonitorStatus::Converged
        } else if elapsed_us >= self.timeout_us {
            MonitorStatus::TimedOut
        } else {
            MonitorStatus::Pending
        }
    }
}

/// A server whose address is excluded is never polled: its task succeeds
/// as soon as the address is known. And an excluded server never keeps the
/// monitor from success: once every other server has converged, the
/// monitor has, whatever the time.
pub proof fn lemma_excluded_never_blocks(
    m: Monitor,
    ip: IpAddress,
    states: Seq<ServerState>,
    i: int,
    elapsed_us: u64,
)
    requires
        holds_address(m.exclude@, ip),
        0 <= i < states.len(),
        states[i] == step_spec(m, ServerState::Resolving, ServerEvent::Resolved(Some(ip))).0,
        forall|j: int| 0 <= j < states.len() && j != i ==> finished(#[trigger] states[j]),
    ensures
        step_spec(m, ServerState::Resolving, ServerEvent::Resolved(Some(ip))) == (
            ServerState::Excluded,
            ServerAction::Finish,
        ),
        status_spec(states, elapsed_us, m.timeout_us) == MonitorStatus::Converged,
{
    assert(forall|j: int| 0 <= j < states.len() ==> finished(#[trigger] states[j]));
}

/// A polled server whose answer meets the expectation converges at once;
/// one whose answer does not, or whose query failed, is queried again after
/// the interval, so a change reaches the monitor within one interval of the
/// server serving it.
pub proof fn lemma_poll_outcomes(m: Monitor, a: SocketAddress, rrs: Vec<WireRecord>)
    ensures
        satisfied(m.expectation, rrs@) ==> step_spec(m, ServerState::Polling(a), ServerEvent::Answered(rrs)) == (
            ServerState::Converged,
            ServerAction::Finish,
        ),
        !satisfied(m.expectation, rrs@) ==> step_spec(m, ServerState::Polling(a), ServerEvent::Answered(rrs)) == (
            ServerState::Polling(a),
            ServerAction::QueryAfter(a, m.interval_us),
        ),
        step_spec(m, ServerState::Polling(a), ServerEvent::QueryFailed) == (
            ServerState::Polling(a),
            ServerAction::QueryAfter(a, m.interval_us),
        ),
{
}

/// The monitor succeeds only when every task has succeeded.
pub proof fn lemma_converged_needs_all(states: Seq<ServerState>, elapsed_us: u64, timeout_us: u64)
    ensures
        status_spec(states, elapsed_us, timeout_us) == MonitorStatus::Converged <==> forall|i: int|
            0 <= i < states.len() ==> finished(#[trigger] states[i]),
{
    if forall|i: int| 0 <= i < states.len() ==> finished(#[trigger] states[i]) {
        assert(!exists|i: int| 0 <= i < states.len() && (#[trigger] states[i]) is Failed) by {
            if exists|i: int| 0 <= i < states.len() && (#[trigger] states[i]) is Failed {
                let i = choose|i: int| 0 <= i < states.len() && (#[trigger] states[i]) is Failed;
                assert(finished(states[i]));
            }
        }
    }
}

} // verus!

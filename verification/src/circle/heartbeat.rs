//! A follower watching its leader: it connects to the leader, sends it a
//! heartbeat each second while it is still a follower, and asks for an
//! election when the leader cannot be reached.

use vstd::prelude::*;
use crate::circle::state::State;

verus! {

/// What the node running the watch reports back.
#[derive(Clone, Debug, PartialEq, Eq)]
pub enum WatchEvent {
    /// A connection to the leader was made.
    Connected,
    /// No connection to the leader could be made.
    ConnectFailed,
    /// This is the node's current state.
    Observed(State),
    /// The leader answered the heartbeat, with this success flag.
    Answered(bool),
    /// The heartbeat request failed.
    CallFailed,
    /// The pause between heartbeats is over.
    Rested,
}

/// What the node running the watch does next.
#[derive(Clone, Copy, Debug, PartialEq, Eq, Structural)]
pub enum WatchAction {
    /// Connect to the leader.
    Connect,
    /// Look up the node's current state.
    Observe,
    /// Send the leader a heartbeat.
    SendHeartbeat,
    /// Pause for a second.
    Rest,
    /// The watch is over; if `call_election`, tell the election worker that
    /// an election is due.
    Stop { call_election: bool },
}

/// Where a watch stands.
#[derive(Clone, Copy, Debug, PartialEq, Eq, Structural)]
pub enum WatchPhase {
    Connecting,
    Observing,
    Calling,
    Resting,
    Stopped { call_election: bool },
}

/// The action that a watch in phase `p` is waiting on.
pub open spec fn pending_action(p: WatchPhase) -> WatchAction {
    match p {
        WatchPhase::Connecting => WatchAction::Connect,
        WatchPhase::Observing => WatchAction::Observe,
        WatchPhase::Calling => WatchAction::SendHeartbeat,
        WatchPhase::Resting => WatchAction::Rest,
        WatchPhase::Stopped { call_election } => WatchAction::Stop { call_election },
    }
}

/// The phase that a watch in phase `p` moves to on event `e`. An event that
/// the phase does not wait for changes nothing.
pub open spec fn watch_transition(p: WatchPhase, e: WatchEvent) -> WatchPhase {
    match (p, e) {
        (WatchPhase::Connecting, WatchEvent::Connected) => WatchPhase::Observing,
        (WatchPhase::Connecting, WatchEvent::ConnectFailed) => WatchPhase::Stopped {
            call_election: true,
        },
        (WatchPhase::Observing, WatchEvent::Observed(s)) => match s {
            State::Follower(_) => WatchPhase::Calling,
            _ => WatchPhase::Stopped { call_election: false },
        },
        (WatchPhase::Calling, WatchEvent::Answered(_)) => WatchPhase::Resting,
        (WatchPhase::Calling, WatchEvent::CallFailed) => WatchPhase::Stopped {
            call_election: true,
        },
        (WatchPhase::Resting, WatchEvent::Rested) => WatchPhase::Connecting,
        _ => p,
    }
}

/// A follower's watch over its leader.
pub struct HeartbeatWatch {
    phase: WatchPhase,
}

impl HeartbeatWatch {
    pub closed spec fn phase(&self) -> WatchPhase {
        self.phase
    }

    /// A new watch, which starts by connecting to the leader.
    pub fn new() -> (r: (HeartbeatWatch, WatchAction))
        ensures
            r.0.phase() == WatchPhase::Connecting,
            r.1 == WatchAction::Connect,
    {
        (HeartbeatWatch { phase: WatchPhase::Connecting }, WatchAction::Connect)
    }

    /// Takes in what happened and says what to do next.
    pub fn step(&mut self, event: WatchEvent) -> (r: WatchAction)
        ensures
            final(self).phase() == watch_transition(old(self).phase(), event),
            r == pending_action(final(self).phase()),
    {
        let next = match (self.phase, &event) {
            (WatchPhase::Connecting, WatchEvent::Connected) => WatchPhase::Observing,
            (WatchPhase::Connecting, WatchEvent::ConnectFailed) => WatchPhase::Stopped {
                call_election: true,
            },
            (WatchPhase::Observing, WatchEvent::Observed(s)) => match s {
                State::Follower(_) => WatchPhase::Calling,
                _ => WatchPhase::Stopped { call_election: false },
            },
            (WatchPhase::Calling, WatchEvent::Answered(_)) => WatchPhase::Resting,
            (WatchPhase::Calling, WatchEvent::CallFailed) => WatchPhase::Stopped {
                call_election: true,
            },
            (WatchPhase::Resting, WatchEvent::Rested) => WatchPhase::Connecting,
            (p, _) => p,
        };
        self.phase = next;
        match next {
            WatchPhase::Connecting => WatchAction::Connect,
            WatchPhase::Observing => WatchAction::Observe,
            WatchPhase::Calling => WatchAction::SendHeartbeat,
            WatchPhase::Resting => WatchAction::Rest,
            WatchPhase::Stopped { call_election } => WatchAction::Stop { call_election },
        }
    }
}

/// Where a watch that started in phase `p` stands after the events `evs`.
pub open spec fn run_watch(p: WatchPhase, evs: Seq<WatchEvent>) -> WatchPhase
    decreases evs.len(),
{
    if evs.len() == 0 {
        p
    } else {
        watch_transition(run_watch(p, evs.drop_last()), evs.last())
    }
}

/// Whether the event reports that the leader could not be reached.
pub open spec fn leader_unreachable(e: WatchEvent) -> bool {
    e == WatchEvent::ConnectFailed || e == WatchEvent::CallFailed
}

/// Whether the event reports that the node no longer follows a leader.
pub open spec fn no_longer_following(e: WatchEvent) -> bool {
    e matches WatchEvent::Observed(s) && !(s is Follower)
}

/// A watch asks for an election only after the leader could not be
/// reached, and ends without one only after the node stopped following.
pub proof fn lemma_watch_stops_for_a_reason(evs: Seq<WatchEvent>)
    ensures
        run_watch(WatchPhase::Connecting, evs) == (WatchPhase::Stopped { call_election: true })
            ==> exists|k: int| 0 <= k < evs.len() && leader_unreachable(#[trigger] evs[k]),
        run_watch(WatchPhase::Connecting, evs) == (WatchPhase::Stopped { call_election: false })
            ==> exists|k: int| 0 <= k < evs.len() && no_longer_following(#[trigger] evs[k]),
    decreases evs.len(),
{
    if evs.len() > 0 {
        let prior = evs.drop_last();
        lemma_watch_stops_for_a_reason(prior);
        let p1 = run_watch(WatchPhase::Connecting, prior);
        if p1 is Stopped {
            if exists|k: int| 0 <= k < prior.len() && leader_unreachable(#[trigger] prior[k]) {
                let k = choose|k: int| 0 <= k < prior.len() && leader_unreachable(#[trigger] prior[k]);
                assert(evs[k] == prior[k]);
            }
            if exists|k: int| 0 <= k < prior.len() && no_longer_following(#[trigger] prior[k]) {
                let k = choose|k: int| 0 <= k < prior.len() && no_longer_following(#[trigger] prior[k]);
                assert(evs[k] == prior[k]);
            }
        } else {
            let last = evs[evs.len() - 1];
            assert(last == evs.last());
            if run_watch(WatchPhase::Connecting, evs) is Stopped {
                assert(leader_unreachable(last) || no_longer_following(last));
            }
        }
    }
}

/// A watch gets ready to send a heartbeat only right after it observed
/// that the node follows a leader.
pub proof fn lemma_heartbeat_only_for_followers(p: WatchPhase, e: WatchEvent)
    ensures
        watch_transition(p, e) == WatchPhase::Calling && p != WatchPhase::Calling ==> (
        e matches WatchEvent::Observed(State::Follower(_))),
{
}

/// Observing that the node is a leader or a candidate ends the watch,
/// without calling an election.
pub proof fn lemma_non_follower_stops_quietly(s: State)
    ensures
        !(s is Follower) ==> watch_transition(WatchPhase::Observing, WatchEvent::Observed(s))
            == (WatchPhase::Stopped { call_election: false }),
        s is Follower ==> watch_transition(WatchPhase::Observing, WatchEvent::Observed(s))
            == WatchPhase::Calling,
{
}

/// A leader that cannot be reached, at connecting or at the heartbeat,
/// ends the watch with a call for an election.
pub proof fn lemma_unreachable_leader_calls_election()
    ensures
        watch_transition(WatchPhase::Connecting, WatchEvent::ConnectFailed) == (WatchPhase::Stopped {
            call_election: true,
        }),
        watch_transition(WatchPhase::Calling, WatchEvent::CallFailed) == (WatchPhase::Stopped {
            call_election: true,
        }),
{
}

} // verus!

//! A follower of the bully algorithm keeping watch on its leader: every
//! five seconds it checks its mail, then sends the leader a heartbeat. A
//! challenge or an announcement in the mail, or a leader that cannot be
//! reached, ends the watch, and the node holds a new election.

use vstd::prelude::*;
use crate::text::Word;
use crate::bully::{Message, asks_for_election, calls_for_election, service_address, peer_address};

verus! {

/// What the node keeping watch reports back.
#[derive(Clone, Debug, PartialEq, Eq)]
pub enum WatchEvent {
    /// The pause is over.
    Rested,
    /// The mail was checked: the message found, or none.
    Mail(Option<Message>),
    /// A connection to the leader was made.
    Connected,
    /// No connection to the leader could be made.
    ConnectFailed,
    /// The heartbeat was written and the answer read (whatever came of it).
    Exchanged,
}

/// What the node keeping watch does next.
#[derive(Clone, Debug, PartialEq, Eq)]
pub enum WatchAction {
    /// Pause for five seconds.
    Rest,
    /// Look for a message from the listener without waiting.
    CheckMail,
    /// Connect to the leader's election service at this address.
    Connect(String),
    /// Write this word to the leader and read its answer.
    Exchange(Word),
    /// The watch is over: hold a new election.
    Stop,
}

/// Where a watch stands.
#[derive(Clone, Copy, Debug, PartialEq, Eq, Structural)]
pub enum WatchPhase {
    Resting,
    CheckingMail,
    Connecting,
    Exchanging,
    Stopped,
}

/// The phase after event `e` in phase `p`. An event that the phase does not
/// wait for changes nothing.
pub open spec fn watch_transition(p: WatchPhase, e: WatchEvent) -> WatchPhase {
    match (p, e) {
        (WatchPhase::Resting, WatchEvent::Rested) => WatchPhase::CheckingMail,
        (WatchPhase::CheckingMail, WatchEvent::Mail(m)) => match m {
            Some(msg) => if asks_for_election(msg) {
                WatchPhase::Stopped
            } else {
                WatchPhase::Connecting
            },
            None => WatchPhase::Connecting,
        },
        (WatchPhase::Connecting, WatchEvent::Connected) => WatchPhase::Exchanging,
        (WatchPhase::Connecting, WatchEvent::ConnectFailed) => WatchPhase::Stopped,
        (WatchPhase::Exchanging, WatchEvent::Exchanged) => WatchPhase::Resting,
        _ => p,
    }
}

/// A follower's watch over the leader at `leader`.
pub struct LeaderWatch {
    address: String,
    phase: WatchPhase,
}

impl LeaderWatch {
    /// The address of the leader's election service.
    pub closed spec fn address(&self) -> Seq<char> {
        self.address@
    }

    pub closed spec fn phase(&self) -> WatchPhase {
        self.phase
    }

    /// Whether `a` is what a watch in this state waits to do.
    pub open spec fn pending(&self, a: WatchAction) -> bool {
        match self.phase() {
            WatchPhase::Resting => a == WatchAction::Rest,
            WatchPhase::CheckingMail => a == WatchAction::CheckMail,
            WatchPhase::Connecting => a matches WatchAction::Connect(addr) && addr@
                == self.address(),
            WatchPhase::Exchanging => a == WatchAction::Exchange(Word::Heartbeat),
            WatchPhase::Stopped => a == WatchAction::Stop,
        }
    }

    fn action(&self) -> (a: WatchAction)
        ensures
            self.pending(a),
    {
        match self.phase {
            WatchPhase::Resting => WatchAction::Rest,
            WatchPhase::CheckingMail => WatchAction::CheckMail,
            WatchPhase::Connecting => WatchAction::Connect(self.address.clone()),
            WatchPhase::Exchanging => WatchAction::Exchange(Word::Heartbeat),
            WatchPhase::Stopped => WatchAction::Stop,
        }
    }

    /// Starts watching the leader at address `leader`, with a pause.
    pub fn new(leader: &String) -> (r: (LeaderWatch, WatchAction))
        ensures
            r.0.address() == service_address(leader@),
            r.0.phase() == WatchPhase::Resting,
            r.1 == WatchAction::Rest,
    {
        (LeaderWatch { address: peer_address(leader), phase: WatchPhase::Resting }, WatchAction::Rest)
    }

    /// Takes in what happened and says what to do next.
    pub fn step(&mut self, event: WatchEvent) -> (a: WatchAction)
        ensures
            final(self).address() == old(self).address(),
            final(self).phase() == watch_transition(old(self).phase(), event),
            final(self).pending(a),
    {
        let next = match (self.phase, &event) {
            (WatchPhase::Resting, WatchEvent::Rested) => WatchPhase::CheckingMail,
            (WatchPhase::CheckingMail, WatchEvent::Mail(m)) => match m {
                Some(msg) => if calls_for_election(msg) {
                    WatchPhase::Stopped
                } else {
                    WatchPhase::Connecting
                },
                None => WatchPhase::Connecting,
            },
            (WatchPhase::Connecting, WatchEvent::Connected) => WatchPhase::Exchanging,
            (WatchPhase::Connecting, WatchEvent::ConnectFailed) => WatchPhase::Stopped,
            (WatchPhase::Exchanging, WatchEvent::Exchanged) => WatchPhase::Resting,
            (p, _) => p,
        };
        self.phase = next;
        self.action()
    }
}

/// Where a watch that started in phase `p` stands after the events `evs`.
pub open spec fn run_watch(p: WatchPhase, evs: Seq<WatchEvent>) -> WatchPhase
    decreases evs.len(),
{
    if evs.len() == 0 {
        p
    } else {
        watch_transition(run_watch(p, evs.drop_last()), evs.last())
    }
}

/// Whether the event is a reason to end the watch: the leader could not be
/// reached, or the mail held a challenge or an announcement.
pub open spec fn ends_watch(e: WatchEvent) -> bool {
    ||| e == WatchEvent::ConnectFailed
    ||| e matches WatchEvent::Mail(Some(m)) && asks_for_election(m)
}

/// A follower stops watching its leader, and holds a new election, only
/// when the leader could not be reached or another node called for an
/// election or announced itself; heartbeats in the mail do not stop it.
pub proof fn lemma_watch_stops_for_a_reason(evs: Seq<WatchEvent>)
    ensures
        run_watch(WatchPhase::Resting, evs) == WatchPhase::Stopped ==> exists|k: int|
            0 <= k < evs.len() && ends_watch(#[trigger] evs[k]),
    decreases evs.len(),
{
    if evs.len() > 0 {
        let prior = evs.drop_last();
        lemma_watch_stops_for_a_reason(prior);
        if run_watch(WatchPhase::Resting, prior) == WatchPhase::Stopped {
            let k = choose|k: int| 0 <= k < prior.len() && ends_watch(#[trigger] prior[k]);
            assert(evs[k] == prior[k]);
        } else if run_watch(WatchPhase::Resting, evs) == WatchPhase::Stopped {
            let last = evs[evs.len() - 1];
            assert(last == evs.last());
            assert(ends_watch(last));
        }
    }
}

/// Checking the mail ends the watch exactly on a challenge or on any
/// coordinator announcement; a heartbeat or an empty mailbox lets it go on
/// to contact the leader.
pub proof fn lemma_mail_decides_the_watch(m: Option<Message>)
    ensures
        m matches Some(Message::Election) ==> watch_transition(
            WatchPhase::CheckingMail,
            WatchEvent::Mail(m),
        ) == WatchPhase::Stopped,
        m matches Some(Message::Coordinator(_)) ==> watch_transition(
            WatchPhase::CheckingMail,
            WatchEvent::Mail(m),
        ) == WatchPhase::Stopped,
        (m is None || m matches Some(Message::Heartbeat)) ==> watch_transition(
            WatchPhase::CheckingMail,
            WatchEvent::Mail(m),
        ) == WatchPhase::Connecting,
{
}

/// A leader that cannot be reached ends the watch.
pub proof fn lemma_unreachable_leader_ends_watch()
    ensures
        watch_transition(WatchPhase::Connecting, WatchEvent::ConnectFailed) == WatchPhase::Stopped,
{
}

} // verus!

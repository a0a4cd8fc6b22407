//! One election of the bully algorithm, as seen by the node that holds it.
//!
//! The node challenges every node numbered above it in turn: it connects,
//! sends ELECTION and reads the answer, noting whether it said OK. Once all
//! have been challenged, the node waits for an announcement of who leads if
//! any of them answered OK. If none did, the node leads: it connects to
//! every other node in turn, those above it and then those below it, and
//! sends COORDINATOR.

use vstd::prelude::*;
use crate::text::{Word, word_text, received_text, carries};
use crate::bully::{Message, State, service_address, peer_address};

verus! {

/// What the node running an election reports back.
#[derive(Clone, Debug, PartialEq, Eq)]
pub enum ElectionEvent {
    /// A connection was made.
    Connected,
    /// No connection could be made.
    ConnectFailed,
    /// The word was written; this many bytes went out.
    Wrote(usize),
    /// Writing failed.
    WriteFailed,
    /// These bytes were read (none when the peer closed the connection).
    Read(Vec<u8>),
    /// Reading failed.
    ReadFailed,
    /// The listener passed on this message.
    Mail(Message),
}

/// What the node running an election does next.
#[derive(Clone, Debug, PartialEq, Eq)]
pub enum ElectionAction {
    /// Connect to the election service at this address.
    Connect(String),
    /// Write this word on the connection.
    Send(Word),
    /// Read the answer on the connection.
    Receive,
    /// Pause for a second, then wait for the listener's next message.
    AwaitMail,
    /// The election is over with this result.
    Finish(State),
}

/// Which part of one exchange with a peer is under way.
#[derive(Clone, Copy, Debug, PartialEq, Eq, Structural)]
pub enum Stage {
    Connect,
    Write,
    Read,
}

/// Where an election stands.
#[derive(Clone, Copy, Debug, PartialEq, Eq, Structural)]
pub enum ElectionPhase {
    /// Challenging the `index`-th node numbered above this one.
    Challenging { index: usize, stage: Stage },
    /// A node above answered: waiting to hear who leads.
    Awaiting,
    /// Announcing to the `index`-th other node: those numbered above this
    /// one come first, then those numbered below.
    Announcing { index: usize, stage: Stage },
    /// The election is over.
    Done,
}

/// Where the announcements to the `n` other nodes start, or end, from the
/// `i`-th on.
pub open spec fn announce_from(n: nat, i: int) -> ElectionPhase {
    if i < n {
        ElectionPhase::Announcing { index: i as usize, stage: Stage::Connect }
    } else {
        ElectionPhase::Done
    }
}

/// Where the challenges go on from the `i`-th higher node; once none is
/// left, the wait for an announcement if a node above answered OK, or else
/// the announcements.
pub open spec fn challenge_from(hl: nat, ll: nat, i: int, answered: bool) -> ElectionPhase {
    if i < hl {
        ElectionPhase::Challenging { index: i as usize, stage: Stage::Connect }
    } else if answered {
        ElectionPhase::Awaiting
    } else {
        announce_from(hl + ll, 0)
    }
}

/// Whether `bytes` is a nonempty answer that says OK.
pub open spec fn says_ok(bytes: Seq<u8>) -> bool {
    bytes.len() > 0 && received_text(bytes) == word_text(Word::Accepted)
}

/// Whether a node above has answered OK, after event `e` in phase `p`.
pub open spec fn next_answered(p: ElectionPhase, answered: bool, e: ElectionEvent) -> bool {
    answered || (p matches ElectionPhase::Challenging { stage: Stage::Read, .. }
        && e matches ElectionEvent::Read(bytes) && says_ok(bytes@))
}

/// The phase after event `e` in phase `p`, for a node with `hl` nodes above
/// it and `ll` below. An event that the phase does not wait for changes
/// nothing.
pub open spec fn next_phase(
    hl: nat,
    ll: nat,
    p: ElectionPhase,
    answered: bool,
    e: ElectionEvent,
) -> ElectionPhase {
    let now_answered = next_answered(p, answered, e);
    match p {
        ElectionPhase::Challenging { index, stage } => match (stage, e) {
            (Stage::Connect, ElectionEvent::Connected) => ElectionPhase::Challenging {
                index,
                stage: Stage::Write,
            },
            (Stage::Connect, ElectionEvent::ConnectFailed) => challenge_from(
                hl,
                ll,
                index + 1,
                now_answered,
            ),
            (Stage::Write, ElectionEvent::Wrote(n)) => if n != 0 {
                ElectionPhase::Challenging { index, stage: Stage::Read }
            } else {
                challenge_from(hl, ll, index + 1, now_answered)
            },
            (Stage::Write, ElectionEvent::WriteFailed) => challenge_from(
                hl,
                ll,
                index + 1,
                now_answered,
            ),
            (Stage::Read, ElectionEvent::Read(_)) => challenge_from(hl, ll, index + 1, now_answered),
            (Stage::Read, ElectionEvent::ReadFailed) => challenge_from(
                hl,
                ll,
                index + 1,
                now_answered,
            ),
            _ => p,
        },
        ElectionPhase::Awaiting => match e {
            ElectionEvent::Mail(Message::Coordinator(_)) => ElectionPhase::Done,
            _ => p,
        },
        ElectionPhase::Announcing { index, stage } => match (stage, e) {
            (Stage::Connect, ElectionEvent::Connected) => ElectionPhase::Announcing {
                index,
                stage: Stage::Write,
            },
            (Stage::Connect, ElectionEvent::ConnectFailed) => announce_from(hl + ll, index + 1),
            (Stage::Write, ElectionEvent::Wrote(n)) => if n != 0 {
                ElectionPhase::Announcing { index, stage: Stage::Read }
            } else {
                announce_from(hl + ll, index + 1)
            },
            (Stage::Write, ElectionEvent::WriteFailed) => announce_from(hl + ll, index + 1),
            (Stage::Read, ElectionEvent::Read(_)) => announce_from(hl + ll, index + 1),
            (Stage::Read, ElectionEvent::ReadFailed) => announce_from(hl + ll, index + 1),
            _ => p,
        },
        ElectionPhase::Done => p,
    }
}

/// The result after event `e` in phase `p`, which held result `r`: the
/// announced leader once the awaited announcement comes, this node once the
/// last announcement is made.
pub open spec fn next_result(
    hl: nat,
    ll: nat,
    p: ElectionPhase,
    answered: bool,
    r: Option<State>,
    e: ElectionEvent,
) -> Option<State> {
    match (p, e) {
        (ElectionPhase::Awaiting, ElectionEvent::Mail(Message::Coordinator(leader))) => Some(
            State::Follower(leader),
        ),
        _ => if p != ElectionPhase::Done && next_phase(hl, ll, p, answered, e)
            == ElectionPhase::Done {
            Some(State::Leader)
        } else {
            r
        },
    }
}

/// One election held by one node.
pub struct BullyElection {
    higher: Vec<(String, u32)>,
    lower: Vec<(String, u32)>,
    others: Vec<(String, u32)>,
    progress: (ElectionPhase, bool, Option<State>),
}

impl BullyElection {
    /// The nodes numbered above this one, in the order they are challenged.
    pub closed spec fn higher(&self) -> Seq<(String, u32)> {
        self.higher@
    }

    /// The nodes numbered below this one.
    pub closed spec fn lower(&self) -> Seq<(String, u32)> {
        self.lower@
    }

    pub closed spec fn phase(&self) -> ElectionPhase {
        self.progress.0
    }

    /// Whether a node above has answered OK.
    pub closed spec fn answered(&self) -> bool {
        self.progress.1
    }

    /// How the election ended, once it has.
    pub closed spec fn result(&self) -> Option<State> {
        self.progress.2
    }

    #[verifier::type_invariant]
    spec fn well_formed(&self) -> bool {
        &&& self.others@ == self.higher@ + self.lower@
        &&& self.progress.0 matches ElectionPhase::Challenging { index, .. } ==> index
            < self.higher@.len()
        &&& self.progress.0 matches ElectionPhase::Announcing { index, .. } ==> index
            < self.others@.len()
        &&& (self.progress.0 == ElectionPhase::Done) == (self.progress.2 is Some)
    }

    /// Whether `a` is what an election in this state waits to do.
    pub open spec fn pending(&self, a: ElectionAction) -> bool {
        match self.phase() {
            ElectionPhase::Challenging { index, stage } => match stage {
                Stage::Connect => a matches ElectionAction::Connect(addr) && addr@
                    == service_address(self.higher()[index as int].0@),
                Stage::Write => a == ElectionAction::Send(Word::Election),
                Stage::Read => a == ElectionAction::Receive,
            },
            ElectionPhase::Awaiting => a == ElectionAction::AwaitMail,
            ElectionPhase::Announcing { index, stage } => match stage {
                Stage::Connect => a matches ElectionAction::Connect(addr) && addr@
                    == service_address((self.higher() + self.lower())[index as int].0@),
                Stage::Write => a == ElectionAction::Send(Word::Coordinator),
                Stage::Read => a == ElectionAction::Receive,
            },
            ElectionPhase::Done => a == ElectionAction::Finish(self.result()->Some_0),
        }
    }

    /// The action that this election waits to do.
    fn action(&self) -> (a: ElectionAction)
        ensures
            self.pending(a),
    {
        proof { use_type_invariant(self); }
        match self.progress.0 {
            ElectionPhase::Challenging { index, stage } => match stage {
                Stage::Connect => ElectionAction::Connect(peer_address(&self.higher[index].0)),
                Stage::Write => ElectionAction::Send(Word::Election),
                Stage::Read => ElectionAction::Receive,
            },
            ElectionPhase::Awaiting => ElectionAction::AwaitMail,
            ElectionPhase::Announcing { index, stage } => match stage {
                Stage::Connect => ElectionAction::Connect(peer_address(&self.others[index].0)),
                Stage::Write => ElectionAction::Send(Word::Coordinator),
                Stage::Read => ElectionAction::Receive,
            },
            ElectionPhase::Done => match &self.progress.2 {
                Some(s) => ElectionAction::Finish(s.duplicate()),
                None => {
                    assert(false);
                    ElectionAction::AwaitMail
                },
            },
        }
    }

    /// Starts an election among the given nodes: the first challenge, or,
    /// with no node above, the first announcement; with no other node at all
    /// the election is over at once and this node leads.
    pub fn new(higher: Vec<(String, u32)>, lower: Vec<(String, u32)>) -> (r: (
        BullyElection,
        ElectionAction,
    ))
        ensures
            r.0.higher() == higher@,
            r.0.lower() == lower@,
            r.0.phase() == challenge_from(higher@.len(), lower@.len(), 0, false),
            !r.0.answered(),
            r.0.result() == start_result(higher@.len(), lower@.len()),
            r.0.pending(r.1),
    {
        let mut others: Vec<(String, u32)> = Vec::new();
        let mut i: usize = 0;
        while i < higher.len()
            invariant
                i <= higher@.len(),
                others@ == higher@.take(i as int),
            decreases higher@.len() - i,
        {
            others.push((higher[i].0.clone(), higher[i].1));
            assert(others@ =~= higher@.take(i + 1));
            i = i + 1;
        }
        let mut j: usize = 0;
        while j < lower.len()
            invariant
                j <= lower@.len(),
                others@ == higher@ + lower@.take(j as int),
            decreases lower@.len() - j,
        {
            proof {
                assert(higher@.take(higher@.len() as int) =~= higher@);
            }
            others.push((lower[j].0.clone(), lower[j].1));
            assert(others@ =~= higher@ + lower@.take(j + 1));
            j = j + 1;
        }
        assert(higher@.take(higher@.len() as int) =~= higher@);
        assert(lower@.take(lower@.len() as int) =~= lower@);
        let phase = if higher.len() > 0 {
            ElectionPhase::Challenging { index: 0, stage: Stage::Connect }
        } else if others.len() > 0 {
            ElectionPhase::Announcing { index: 0, stage: Stage::Connect }
        } else {
            ElectionPhase::Done
        };
        let result = if others.len() == 0 {
            Some(State::Leader)
        } else {
            None
        };
        let e = BullyElection { higher, lower, others, progress: (phase, false, result) };
        let a = e.action();
        (e, a)
    }

    /// Takes in what happened and says what to do next.
    pub fn step(&mut self, event: ElectionEvent) -> (a: ElectionAction)
        ensures
            final(self).higher() == old(self).higher(),
            final(self).lower() == old(self).lower(),
            final(self).phase() == next_phase(
                old(self).higher().len(),
                old(self).lower().len(),
                old(self).phase(),
                old(self).answered(),
                event,
            ),
            final(self).answered() == next_answered(old(self).phase(), old(self).answered(), event),
            final(self).result() == next_result(
                old(self).higher().len(),
                old(self).lower().len(),
                old(self).phase(),
                old(self).answered(),
                old(self).result(),
                event,
            ),
            final(self).pending(a),
    {
        proof { use_type_invariant(&*self); }
        let hl = self.higher.len();
        let n = self.others.len();
        let current = self.progress.0;
        let answered = self.progress.1;
        let (phase, now_answered, result) = match current {
            ElectionPhase::Challenging { index, stage } => {
                let ok = match (stage, &event) {
                    (Stage::Read, ElectionEvent::Read(bytes)) => bytes.len() > 0 && carries(
                        bytes.as_slice(),
                        Word::Accepted,
                    ),
                    _ => false,
                };
                let now_answered = answered || ok;
                let next = if index + 1 < hl {
                    ElectionPhase::Challenging { index: index + 1, stage: Stage::Connect }
                } else if now_answered {
                    ElectionPhase::Awaiting
                } else if n > 0 {
                    ElectionPhase::Announcing { index: 0, stage: Stage::Connect }
                } else {
                    ElectionPhase::Done
                };
                let p = match (stage, &event) {
                    (Stage::Connect, ElectionEvent::Connected) => ElectionPhase::Challenging {
                        index,
                        stage: Stage::Write,
                    },
                    (Stage::Connect, ElectionEvent::ConnectFailed) => next,
                    (Stage::Write, ElectionEvent::Wrote(n)) => if *n != 0 {
                        ElectionPhase::Challenging { index, stage: Stage::Read }
                    } else {
                        next
                    },
                    (Stage::Write, ElectionEvent::WriteFailed) => next,
                    (Stage::Read, ElectionEvent::Read(_)) => next,
                    (Stage::Read, ElectionEvent::ReadFailed) => next,
                    _ => current,
                };
                let r = if p == ElectionPhase::Done {
                    Some(State::Leader)
                } else {
                    None
                };
                (p, now_answered, r)
            },
            ElectionPhase::Awaiting => match &event {
                ElectionEvent::Mail(Message::Coordinator(leader)) => (
                    ElectionPhase::Done,
                    answered,
                    Some(State::Follower(leader.clone())),
                ),
                _ => (ElectionPhase::Awaiting, answered, None),
            },
            ElectionPhase::Announcing { index, stage } => {
                let next = if index + 1 < n {
                    ElectionPhase::Announcing { index: index + 1, stage: Stage::Connect }
                } else {
                    ElectionPhase::Done
                };
                let p = match (stage, &event) {
                    (Stage::Connect, ElectionEvent::Connected) => ElectionPhase::Announcing {
                        index,
                        stage: Stage::Write,
                    },
                    (Stage::Connect, ElectionEvent::ConnectFailed) => next,
                    (Stage::Write, ElectionEvent::Wrote(n)) => if *n != 0 {
                        ElectionPhase::Announcing { index, stage: Stage::Read }
                    } else {
                        next
                    },
                    (Stage::Write, ElectionEvent::WriteFailed) => next,
                    (Stage::Read, ElectionEvent::Read(_)) => next,
                    (Stage::Read, ElectionEvent::ReadFailed) => next,
                    _ => current,
                };
                let r = if p == ElectionPhase::Done {
                    Some(State::Leader)
                } else {
                    None
                };
                (p, answered, r)
            },
            ElectionPhase::Done => (
                ElectionPhase::Done,
                answered,
                match &self.progress.2 {
                    Some(s) => Some(s.duplicate()),
                    None => None,
                },
            ),
        };
        self.progress = (phase, now_answered, result);
        self.action()
    }
}

/// The result an election starts with: decided only when there is no other
/// node at all.
pub open spec fn start_result(hl: nat, ll: nat) -> Option<State> {
    if hl == 0 && ll == 0 {
        Some(State::Leader)
    } else {
        None
    }
}

/// Where an election that started with phase `p`, answer flag `a` and
/// result `r` stands after the events `evs`, in order.
pub open spec fn run_election(
    hl: nat,
    ll: nat,
    p: ElectionPhase,
    a: bool,
    r: Option<State>,
    evs: Seq<ElectionEvent>,
) -> (ElectionPhase, bool, Option<State>)
    decreases evs.len(),
{
    if evs.len() == 0 {
        (p, a, r)
    } else {
        let (p1, a1, r1) = run_election(hl, ll, p, a, r, evs.drop_last());
        let e = evs.last();
        (next_phase(hl, ll, p1, a1, e), next_answered(p1, a1, e), next_result(hl, ll, p1, a1, r1, e))
    }
}

/// Where the election of a node with `hl` nodes above and `ll` below it
/// stands after the events `evs`.
pub open spec fn election_after(hl: nat, ll: nat, evs: Seq<ElectionEvent>) -> (
    ElectionPhase,
    bool,
    Option<State>,
) {
    run_election(hl, ll, challenge_from(hl, ll, 0, false), false, start_result(hl, ll), evs)
}

/// Whether the node has given way to another: it waits for an announcement
/// or follows the announced leader.
pub open spec fn deferred(p: ElectionPhase, r: Option<State>) -> bool {
    p == ElectionPhase::Awaiting || r matches Some(State::Follower(_))
}

/// Whether the event is a nonempty answer saying OK.
pub open spec fn is_ok_answer(e: ElectionEvent) -> bool {
    e matches ElectionEvent::Read(bytes) && says_ok(bytes@)
}

/// Whether the `k`-th event of `evs` is an OK answer to one of this node's
/// challenges: it was read while the election stood waiting for the
/// answer of a node above.
pub open spec fn challenge_answered(hl: nat, ll: nat, evs: Seq<ElectionEvent>, k: int) -> bool {
    &&& election_after(hl, ll, evs.take(k)).0 matches ElectionPhase::Challenging {
        stage: Stage::Read,
        ..
    }
    &&& is_ok_answer(evs[k])
}

/// If no node above answers OK to its challenge, the node wins: it never
/// gives way, and if the election ends, it ends with this node leading.
/// OK answers read at any other time (such as those to its own
/// announcements) do not count. Put the other way: a node gives way only
/// after a node it challenged answered OK.
pub proof fn lemma_no_answer_then_leader(hl: nat, ll: nat, evs: Seq<ElectionEvent>)
    ensures
        ({
            let (p, a, r) = election_after(hl, ll, evs);
            (forall|k: int| 0 <= k < evs.len() ==> !#[trigger] challenge_answered(hl, ll, evs, k))
                ==> {
                &&& !a
                &&& p != ElectionPhase::Awaiting
                &&& (r is None || r == Some(State::Leader))
            }
        }),
    decreases evs.len(),
{
    if evs.len() > 0 {
        let prior = evs.drop_last();
        lemma_no_answer_then_leader(hl, ll, prior);
        let (p1, a1, r1) = election_after(hl, ll, prior);
        let (p, a, r) = election_after(hl, ll, evs);
        let e = evs.last();
        assert(p == next_phase(hl, ll, p1, a1, e));
        assert(a == next_answered(p1, a1, e));
        assert(r == next_result(hl, ll, p1, a1, r1, e));
        if forall|k: int| 0 <= k < evs.len() ==> !#[trigger] challenge_answered(hl, ll, evs, k) {
            assert forall|k: int| 0 <= k < prior.len() implies !#[trigger] challenge_answered(
                hl,
                ll,
                prior,
                k,
            ) by {
                assert(prior.take(k) =~= evs.take(k));
                assert(prior[k] == evs[k]);
                assert(!challenge_answered(hl, ll, evs, k));
            }
            assert(evs.take(evs.len() - 1) =~= prior);
            assert(evs[evs.len() - 1] == e);
            assert(!challenge_answered(hl, ll, evs, evs.len() - 1));
        }
    }
}

proof fn lemma_answer_invariant(hl: nat, ll: nat, evs: Seq<ElectionEvent>)
    ensures
        ({
            let (p, a, r) = election_after(hl, ll, evs);
            &&& (exists|k: int| 0 <= k < evs.len() && #[trigger] challenge_answered(hl, ll, evs, k))
                ==> a
            &&& p is Challenging ==> r is None
            &&& a ==> {
                &&& !(p is Announcing)
                &&& r != Some(State::Leader)
                &&& (p is Challenging || p == ElectionPhase::Awaiting || (p == ElectionPhase::Done
                    && r matches Some(State::Follower(_))))
            }
        }),
    decreases evs.len(),
{
    if evs.len() > 0 {
        let prior = evs.drop_last();
        lemma_answer_invariant(hl, ll, prior);
        let (p1, a1, r1) = election_after(hl, ll, prior);
        let (p, a, r) = election_after(hl, ll, evs);
        let e = evs.last();
        assert(p == next_phase(hl, ll, p1, a1, e));
        assert(a == next_answered(p1, a1, e));
        assert(r == next_result(hl, ll, p1, a1, r1, e));
        if exists|k: int| 0 <= k < evs.len() && #[trigger] challenge_answered(hl, ll, evs, k) {
            let k = choose|k: int| 0 <= k < evs.len() && #[trigger] challenge_answered(hl, ll, evs, k);
            if k < prior.len() {
                assert(prior.take(k) =~= evs.take(k));
                assert(prior[k] == evs[k]);
                assert(challenge_answered(hl, ll, prior, k));
            } else {
                assert(evs.take(k) =~= prior);
                assert(evs[k] == e);
            }
        }
    } else {
        assert(evs.take(0) =~= evs);
    }
}

/// Once a node that this node challenged answers OK, this node never
/// leads: it goes on challenging, then waits for the announcement, and the
/// election can only end with it following the announced leader.
pub proof fn lemma_answer_then_follower(hl: nat, ll: nat, evs: Seq<ElectionEvent>, k: int)
    requires
        0 <= k < evs.len(),
        challenge_answered(hl, ll, evs, k),
    ensures
        ({
            let (p, a, r) = election_after(hl, ll, evs);
            &&& !(p is Announcing)
            &&& r != Some(State::Leader)
            &&& (p is Challenging || p == ElectionPhase::Awaiting || (p == ElectionPhase::Done
                && r matches Some(State::Follower(_))))
        }),
{
    lemma_answer_invariant(hl, ll, evs);
}

/// Reading an OK to the challenge of the last node above ends the
/// challenges in the wait for an announcement, whatever the other nodes
/// answered.
pub proof fn lemma_last_answer_then_wait(hl: nat, ll: nat, answered: bool, bytes: Vec<u8>)
    requires
        0 < hl <= usize::MAX,
        says_ok(bytes@),
    ensures
        next_phase(
            hl,
            ll,
            ElectionPhase::Challenging { index: (hl - 1) as usize, stage: Stage::Read },
            answered,
            ElectionEvent::Read(bytes),
        ) == ElectionPhase::Awaiting,
{
}

/// A node with no node numbered above it never gives way: the highest
/// node always wins.
pub proof fn lemma_highest_node_never_defers(ll: nat, evs: Seq<ElectionEvent>)
    ensures
        ({
            let (p, a, r) = election_after(0, ll, evs);
            &&& !a
            &&& !deferred(p, r)
            &&& p is Announcing || p is Done
            &&& r is None || r == Some(State::Leader)
        }),
    decreases evs.len(),
{
    if evs.len() > 0 {
        lemma_highest_node_never_defers(ll, evs.drop_last());
    }
}

/// Whether, after some of the events `evs` (a prefix of them), the election
/// stood in phase `q`.
pub open spec fn reached(hl: nat, ll: nat, evs: Seq<ElectionEvent>, q: ElectionPhase) -> bool {
    exists|m: int| 0 <= m <= evs.len() && #[trigger] election_after(hl, ll, evs.take(m)).0 == q
}

proof fn lemma_reached_extends(hl: nat, ll: nat, evs: Seq<ElectionEvent>, q: ElectionPhase)
    requires
        evs.len() > 0,
        reached(hl, ll, evs.drop_last(), q),
    ensures
        reached(hl, ll, evs, q),
{
    let prior = evs.drop_last();
    let m = choose|m: int| 0 <= m <= prior.len() && #[trigger] election_after(hl, ll, prior.take(m)).0 == q;
    assert(prior.take(m) =~= evs.take(m));
}

/// The phase of connecting to the `j`-th node above, to challenge it.
pub open spec fn challenging(j: int) -> ElectionPhase {
    ElectionPhase::Challenging { index: j as usize, stage: Stage::Connect }
}

/// The phase of connecting to the `j`-th other node, to announce to it.
pub open spec fn announcing(j: int) -> ElectionPhase {
    ElectionPhase::Announcing { index: j as usize, stage: Stage::Connect }
}

/// Every node above is challenged, in order, before the challenges end,
/// whatever the answers; and a node that ends up leading has made ready to
/// announce its victory to every other node, in order, above and below it.
pub proof fn lemma_every_peer_approached(hl: nat, ll: nat, evs: Seq<ElectionEvent>)
    requires
        hl + ll <= usize::MAX,
    ensures
        ({
            let (p, a, r) = election_after(hl, ll, evs);
            &&& p matches ElectionPhase::Challenging { index, .. } ==> forall|j: int|
                0 <= j <= index ==> reached(hl, ll, evs, challenging(j))
            &&& !(p is Challenging) ==> forall|j: int|
                0 <= j < hl ==> reached(hl, ll, evs, challenging(j))
            &&& p matches ElectionPhase::Announcing { index, .. } ==> forall|j: int|
                0 <= j <= index ==> reached(hl, ll, evs, announcing(j))
            &&& r == Some(State::Leader) ==> forall|j: int|
                0 <= j < hl + ll ==> reached(hl, ll, evs, announcing(j))
        }),
    decreases evs.len(),
{
    let (p, a, r) = election_after(hl, ll, evs);
    if evs.len() == 0 {
        assert(evs.take(0) =~= evs);
    } else {
        let prior = evs.drop_last();
        let e = evs.last();
        lemma_every_peer_approached(hl, ll, prior);
        let (p1, a1, r1) = election_after(hl, ll, prior);
        assert(p == next_phase(hl, ll, p1, a1, e));
        assert(r == next_result(hl, ll, p1, a1, r1, e));
        assert(evs.take(evs.len() as int) =~= evs);
        assert(election_after(hl, ll, evs.take(evs.len() as int)).0 == p);
        assert forall|q: ElectionPhase| reached(hl, ll, prior, q) implies reached(hl, ll, evs, q) by {
            lemma_reached_extends(hl, ll, evs, q);
        }
    }
}

/// The phase after `k` failed connections in a row from the start of an
/// election: each one moves on to the next node, the challenges first and
/// then the announcements.
pub open spec fn phase_after_failures(hl: nat, ll: nat, k: int) -> ElectionPhase {
    if k < hl {
        challenge_from(hl, ll, k, false)
    } else {
        announce_from(hl + ll, k - hl)
    }
}

/// The events of `k` failed connections in a row.
pub open spec fn failed_connections(k: nat) -> Seq<ElectionEvent> {
    Seq::new(k, |i: int| ElectionEvent::ConnectFailed)
}

proof fn lemma_failures_walk_the_peers(hl: nat, ll: nat, k: nat)
    requires
        k <= hl + hl + ll,
        hl + ll <= usize::MAX,
    ensures
        election_after(hl, ll, failed_connections(k)).0 == phase_after_failures(hl, ll, k as int),
        !election_after(hl, ll, failed_connections(k)).1,
        k < hl + hl + ll ==> election_after(hl, ll, failed_connections(k)).2 is None,
        k == hl + hl + ll ==> election_after(hl, ll, failed_connections(k)).2 == Some(State::Leader),
    decreases k,
{
    if k > 0 {
        lemma_failures_walk_the_peers(hl, ll, (k - 1) as nat);
        assert(failed_connections(k).drop_last() =~= failed_connections((k - 1) as nat));
        assert(failed_connections(k).last() == ElectionEvent::ConnectFailed);
    } else {
        assert(failed_connections(0) =~= Seq::<ElectionEvent>::empty());
    }
}

/// When none of its peers can be reached, a node tries to challenge each
/// node above it once, then tries to announce to every other node once, and
/// leads.
pub proof fn lemma_all_peers_down_then_leader(hl: nat, ll: nat)
    requires
        hl + ll <= usize::MAX,
    ensures
        election_after(hl, ll, failed_connections(hl + hl + ll)) == (
            ElectionPhase::Done,
            false,
            Some(State::Leader),
        ),
{
    lemma_failures_walk_the_peers(hl, ll, hl + hl + ll);
}

} // verus!

//! What a node of the ring does with the election and coordinator messages
//! it is sent.

use std::sync::Arc;
use vstd::prelude::*;
use crate::ring::Ring;
use crate::circle::election::Message;

verus! {

/// The highest number in a nonempty list.
pub open spec fn highest(s: Seq<i32>) -> i32
    decreases s.len(),
{
    if s.len() <= 1 {
        s[0]
    } else {
        let m = highest(s.drop_last());
        if s.last() > m {
            s.last()
        } else {
            m
        }
    }
}

/// A message to pass on to the next node round the ring.
#[derive(Clone, Debug, PartialEq, Eq)]
pub enum Relay {
    /// An election, carrying the numbers of the nodes it has passed.
    Election(Vec<i32>),
    /// A coordinator announcement, carrying the election's list.
    Coordinator(Vec<i32>),
}

/// The answer to a message, and what follows from it.
#[derive(Clone, Debug, PartialEq, Eq)]
pub struct Reply {
    /// Whether the message was taken.
    pub success: bool,
    /// What to tell this node's election worker, if anything.
    pub notify: Option<Message>,
    /// What to pass on round the ring, if anything.
    pub forward: Option<Relay>,
}

/// A relay as the kind of message (`true` for a coordinator announcement)
/// and the list it carries.
pub open spec fn relay_view(f: Option<Relay>) -> Option<(bool, Seq<i32>)> {
    match f {
        None => None,
        Some(r) => Some(relay_parts(r)),
    }
}

/// A relay as the kind of message (`true` for a coordinator announcement)
/// and the list it carries.
pub open spec fn relay_parts(r: Relay) -> (bool, Seq<i32>) {
    match r {
        Relay::Election(list) => (false, list@),
        Relay::Coordinator(list) => (true, list@),
    }
}

impl Relay {
    /// A copy of this relay, with the same kind and list.
    pub fn duplicate(&self) -> (r: Relay)
        ensures
            relay_parts(r) == relay_parts(*self),
    {
        match self {
            Relay::Election(list) => {
                let copy = list.clone();
                assert(copy@ =~= list@);
                Relay::Election(copy)
            },
            Relay::Coordinator(list) => {
                let copy = list.clone();
                assert(copy@ =~= list@);
                Relay::Coordinator(copy)
            },
        }
    }
}

/// What node `me` passes on when it receives an election carrying `nodes`:
/// nothing for an empty list; a coordinator announcement with the same list
/// when the election started here; otherwise the election, with `me` added.
pub open spec fn election_relay(me: i32, nodes: Seq<i32>) -> Option<(bool, Seq<i32>)> {
    if nodes.len() == 0 {
        None
    } else if nodes[0] == me {
        Some((true, nodes))
    } else {
        Some((false, nodes.push(me)))
    }
}

/// What node `me` passes on when it receives a coordinator announcement
/// carrying `nodes`: the same announcement, unless it started here.
pub open spec fn coordinator_relay(me: i32, nodes: Seq<i32>) -> Option<(bool, Seq<i32>)> {
    if nodes.len() == 0 || nodes[0] == me {
        None
    } else {
        Some((true, nodes))
    }
}

/// The leader that a coordinator announcement names to node `me`.
pub open spec fn leader_notice(me: i32, nodes: Seq<i32>) -> Message {
    if highest(nodes) == me {
        Message::Leader
    } else {
        Message::Coordinator(highest(nodes))
    }
}

/// The handlers of a node's ring service.
pub struct CircleNodeService {
    node_id: i32,
    ring: Arc<Ring>,
}

impl CircleNodeService {
    /// The number of the node this service belongs to.
    pub closed spec fn node_id(&self) -> i32 {
        self.node_id
    }

    /// The ring the node belongs to.
    pub closed spec fn ring(&self) -> Ring {
        *self.ring
    }

    pub fn new(node_id: i32, ring: Arc<Ring>) -> (r: Self)
        ensures
            r.node_id() == node_id,
            r.ring() == *ring,
    {
        CircleNodeService { node_id, ring }
    }

    /// The ring the node belongs to, to pass messages on with.
    pub fn ring_handle(&self) -> (r: Arc<Ring>)
        ensures
            *r == self.ring(),
    {
        self.ring.clone()
    }

    /// An election message carrying `nodes`. The worker always hears of it.
    /// An empty list is refused. A list that this node started has been
    /// round the ring: it goes round again as a coordinator announcement.
    /// Otherwise this node adds its number and passes the election on.
    pub fn election(&self, nodes: Vec<i32>) -> (r: Reply)
        ensures
            r.notify == Some(Message::Election),
            r.success == (nodes@.len() > 0),
            relay_view(r.forward) == election_relay(self.node_id(), nodes@),
    {
        if nodes.len() == 0 {
            return Reply { success: false, notify: Some(Message::Election), forward: None };
        }
        let first = nodes[0];
        let mut nodes = nodes;
        let forward = if first == self.node_id {
            Relay::Coordinator(nodes)
        } else {
            nodes.push(self.node_id);
            Relay::Election(nodes)
        };
        Reply { success: true, notify: Some(Message::Election), forward: Some(forward) }
    }

    /// A heartbeat from a follower: always answered with success.
    pub fn heartbeat(&self) -> (r: bool)
        ensures
            r,
    {
        true
    }

    /// A coordinator announcement carrying `nodes`. An empty list is
    /// refused. Otherwise the worker learns the leader: the highest number
    /// on the list, which is this node itself or another. The announcement
    /// goes on round the ring until it is back at the node that started it.
    pub fn coordinator(&self, nodes: Vec<i32>) -> (r: Reply)
        ensures
            r.success == (nodes@.len() > 0),
            nodes@.len() == 0 ==> r.notify is None,
            nodes@.len() > 0 ==> r.notify == Some(leader_notice(self.node_id(), nodes@)),
            relay_view(r.forward) == coordinator_relay(self.node_id(), nodes@),
    {
        if nodes.len() == 0 {
            return Reply { success: false, notify: None, forward: None };
        }
        let top = highest_of(&nodes);
        let notify = if top == self.node_id {
            Message::Leader
        } else {
            Message::Coordinator(top)
        };
        let forward = if nodes[0] == self.node_id {
            None
        } else {
            Some(Relay::Coordinator(nodes))
        };
        Reply { success: true, notify: Some(notify), forward }
    }
}

/// The highest number in a nonempty list.
pub fn highest_of(nodes: &Vec<i32>) -> (r: i32)
    requires
        nodes@.len() > 0,
    ensures
        r == highest(nodes@),
{
    let mut best = nodes[0];
    let mut i: usize = 1;
    assert(nodes@.take(1).drop_last().len() == 0);
    while i < nodes.len()
        invariant
            1 <= i <= nodes@.len(),
            best == highest(nodes@.take(i as int)),
        decreases nodes@.len() - i,
    {
        assert(nodes@.take(i + 1).drop_last() =~= nodes@.take(i as int));
        if nodes[i] > best {
            best = nodes[i];
        }
        i = i + 1;
    }
    assert(nodes@.take(i as int) =~= nodes@);
    best
}

/// The highest number on a nonempty list is on the list, and no number on
/// it is higher.
pub proof fn lemma_highest_is_maximum(s: Seq<i32>)
    requires
        s.len() > 0,
    ensures
        s.contains(highest(s)),
        forall|i: int| 0 <= i < s.len() ==> s[i] <= highest(s),
    decreases s.len(),
{
    if s.len() > 1 {
        let t = s.drop_last();
        lemma_highest_is_maximum(t);
        let j = choose|j: int| 0 <= j < t.len() && t[j] == highest(t);
        assert(s[j] == t[j]);
        assert forall|i: int| 0 <= i < s.len() implies s[i] <= highest(s) by {
            if i < t.len() {
                assert(s[i] == t[i]);
            }
        }
    } else {
        assert(s[0] == highest(s));
    }
}

/// The number of the node that a leader notice names, seen from node `me`.
pub open spec fn named_leader(me: i32, m: Message) -> i32 {
    match m {
        Message::Leader => me,
        Message::Coordinator(k) => k,
        Message::Election => me,
    }
}

/// Every node that receives a coordinator announcement learns the same
/// leader: the highest number on its list.
pub proof fn lemma_nodes_agree_on_leader(a: i32, b: i32, nodes: Seq<i32>)
    requires
        nodes.len() > 0,
    ensures
        named_leader(a, leader_notice(a, nodes)) == highest(nodes),
        named_leader(a, leader_notice(a, nodes)) == named_leader(b, leader_notice(b, nodes)),
{
}

/// What the election started by node `start` carries after the nodes `path`
/// have passed it on, in order: `None` once it has stopped.
pub open spec fn relayed_election(start: i32, path: Seq<i32>) -> Option<(bool, Seq<i32>)>
    decreases path.len(),
{
    if path.len() == 0 {
        Some((false, seq![start]))
    } else {
        match relayed_election(start, path.drop_last()) {
            Some((false, list)) => election_relay(path.last(), list),
            _ => None,
        }
    }
}

/// An election goes round the ring collecting the number of every node it
/// passes; back at the node that started it, it turns into a coordinator
/// announcement with that list, and that announcement names the highest
/// number of all the nodes the election passed.
pub proof fn lemma_election_round_trip(start: i32, path: Seq<i32>)
    requires
        forall|i: int| 0 <= i < path.len() ==> path[i] != start,
    ensures
        relayed_election(start, path) == Some((false, seq![start] + path)),
        election_relay(start, seq![start] + path) == Some((true, seq![start] + path)),
        forall|i: int| 0 <= i < path.len() ==> path[i] <= highest(seq![start] + path),
        start <= highest(seq![start] + path),
    decreases path.len(),
{
    let list = seq![start] + path;
    if path.len() > 0 {
        let prior = path.drop_last();
        lemma_election_round_trip(start, prior);
        assert(seq![start] + prior + seq![path.last()] =~= list);
        assert((seq![start] + prior)[0] == start);
    }
    assert(list[0] == start);
    lemma_highest_is_maximum(list);
    assert forall|i: int| 0 <= i < path.len() implies path[i] <= highest(list) by {
        assert(list[i + 1] == path[i]);
    }
}

/// A coordinator announcement that this node did not start is always
/// passed on, with its list unchanged, wherever this node's number stands
/// on the list.
pub proof fn lemma_coordinator_passed_on(me: i32, nodes: Seq<i32>)
    requires
        nodes.len() > 0,
        nodes[0] != me,
    ensures
        coordinator_relay(me, nodes) == Some((true, nodes)),
{
}

/// A coordinator announcement goes no further than the node that started
/// the election.
pub proof fn lemma_coordinator_stops_at_start(nodes: Seq<i32>)
    requires
        nodes.len() > 0,
    ensures
        coordinator_relay(nodes[0], nodes) is None,
{
}

/// The announcement made at the end of an election round goes round the
/// whole ring: every node the election passed hands it on with the same
/// list, and it stops when it is back at the node that started the
/// election.
pub proof fn lemma_coordinator_round_trip(start: i32, path: Seq<i32>)
    requires
        forall|i: int| 0 <= i < path.len() ==> path[i] != start,
    ensures
        forall|i: int|
            0 <= i < path.len() ==> coordinator_relay(#[trigger] path[i], seq![start] + path) == Some(
                (true, seq![start] + path),
            ),
        coordinator_relay(start, seq![start] + path) is None,
{
    let list = seq![start] + path;
    assert(list[0] == start);
    assert forall|i: int| 0 <= i < path.len() implies coordinator_relay(
        #[trigger] path[i],
        list,
    ) == Some((true, list)) by {
        lemma_coordinator_passed_on(path[i], list);
    }
    lemma_coordinator_stops_at_start(list);
}

} // verus!

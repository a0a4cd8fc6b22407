//! What a node of the ring believes about leadership.

use vstd::prelude::*;

verus! {

/// A node's role.
#[derive(Clone, Debug, PartialEq, Eq)]
pub enum State {
    /// An election is under way.
    Candidate,
    /// The node at this address leads.
    Follower(String),
    /// This node leads.
    Leader,
}

/// What the main loop of a node does next.
#[derive(Clone, Debug, PartialEq, Eq)]
pub enum Duty {
    /// Watch the leader at this address with heartbeats; once that stops,
    /// start a new election.
    Monitor(String),
    /// Nothing to watch: wait and look again.
    Wait,
}

/// A follower watches its leader; a leader or a candidate waits.
pub fn next_duty(state: &State) -> (r: Duty)
    ensures
        match *state {
            State::Follower(leader) => r == Duty::Monitor(leader),
            _ => r == Duty::Wait,
        },
{
    match state {
        State::Follower(leader) => Duty::Monitor(leader.clone()),
        _ => Duty::Wait,
    }
}

/// The list that an election started by node `node_id` carries on its
/// first hop: just that node's number.
pub fn initial_election(node_id: i32) -> (r: Vec<i32>)
    ensures
        r@ == seq![node_id],
{
    let mut v: Vec<i32> = Vec::new();
    v.push(node_id);
    v
}

} // verus!

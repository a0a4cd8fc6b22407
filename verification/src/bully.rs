//! The bully algorithm. A node challenges every node with a higher number;
//! if one of them answers, it waits to hear who leads; if none does, it
//! leads and tells every other node so. Node numbers are the last fields of
//! their IPv4 addresses.

pub mod election;
pub mod watch;

use vstd::prelude::*;
use crate::address::{IdError, id_field, id_field_of, decimal_u32, parse_u32};
use crate::text::{Word, word_text, received_text, carries};

verus! {

/// The number of the node at address `p`: the fourth field of the address
/// read as a `u32`.
pub open spec fn bully_id(p: Seq<char>) -> Result<u32, IdError> {
    match id_field(p) {
        None => Err(IdError::WrongFormat),
        Some(f) => match decimal_u32(f) {
            Ok(v) => Ok(v),
            Err(e) => Err(IdError::InvalidNumber(e)),
        },
    }
}

/// The number of the node at address `p`: the fourth '.'-separated field of
/// `p`, read as a `u32`.
pub fn id(p: &str) -> (r: Result<u32, IdError>)
    ensures
        r == bully_id(p@),
{
    match id_field_of(p) {
        None => Err(IdError::WrongFormat),
        Some(f) => match parse_u32(&f) {
            Ok(v) => Ok(v),
            Err(e) => Err(IdError::InvalidNumber(e)),
        },
    }
}

/// The nodes that a list of addresses describes, each with its number, in
/// the order given; or the error of the first address that names no node.
pub open spec fn group_members(raw: Seq<String>) -> Result<Seq<(String, u32)>, IdError>
    decreases raw.len(),
{
    if raw.len() == 0 {
        Ok(Seq::empty())
    } else {
        match group_members(raw.drop_last()) {
            Err(e) => Err(e),
            Ok(ms) => match bully_id(raw.last()@) {
                Ok(k) => Ok(ms.push((raw.last(), k))),
                Err(e) => Err(e),
            },
        }
    }
}

/// The members numbered above `k`, in order.
pub open spec fn numbered_above(ms: Seq<(String, u32)>, k: u32) -> Seq<(String, u32)>
    decreases ms.len(),
{
    if ms.len() == 0 {
        Seq::empty()
    } else if ms.last().1 > k {
        numbered_above(ms.drop_last(), k).push(ms.last())
    } else {
        numbered_above(ms.drop_last(), k)
    }
}

/// The members numbered below `k`, in order.
pub open spec fn numbered_below(ms: Seq<(String, u32)>, k: u32) -> Seq<(String, u32)>
    decreases ms.len(),
{
    if ms.len() == 0 {
        Seq::empty()
    } else if ms.last().1 < k {
        numbered_below(ms.drop_last(), k).push(ms.last())
    } else {
        numbered_below(ms.drop_last(), k)
    }
}

/// The other members of the group, split by whether their number is above
/// or below this node's.
pub struct Peers {
    pub higher: Vec<(String, u32)>,
    pub lower: Vec<(String, u32)>,
}

/// Splits the group that `config` lists into the nodes numbered above and
/// below `node_id`, keeping the order of the list; nodes with this node's
/// own number are left out. Fails with the error of the first address that
/// names no node.
pub fn split_peers(node_id: u32, config: &Vec<String>) -> (r: Result<Peers, IdError>)
    ensures
        r is Ok <==> group_members(config@) is Ok,
        r matches Ok(p) ==> p.higher@ == numbered_above(group_members(config@)->Ok_0, node_id)
            && p.lower@ == numbered_below(group_members(config@)->Ok_0, node_id),
        r matches Err(e) ==> group_members(config@) == Err::<Seq<(String, u32)>, IdError>(e),
{
    let mut higher: Vec<(String, u32)> = Vec::new();
    let mut lower: Vec<(String, u32)> = Vec::new();
    let ghost mut members: Seq<(String, u32)> = Seq::empty();
    let mut i: usize = 0;
    while i < config.len()
        invariant
            i <= config@.len(),
            group_members(config@.take(i as int)) == Ok::<Seq<(String, u32)>, IdError>(members),
            higher@ == numbered_above(members, node_id),
            lower@ == numbered_below(members, node_id),
        decreases config@.len() - i,
    {
        let p = &config[i];
        assert(config@.take(i + 1).drop_last() =~= config@.take(i as int));
        assert(config@.take(i + 1).last() == config@[i as int]);
        let k = match id(p.as_str()) {
            Ok(k) => k,
            Err(e) => {
                proof {
                    assert(group_members(config@.take(i + 1)) == Err::<Seq<(String, u32)>, IdError>(e));
                    lemma_group_error_persists(config@, i + 1);
                }
                return Err(e);
            },
        };
        let ghost before = members;
        proof {
            members = members.push((*p, k));
            assert(members.drop_last() =~= before);
        }
        if k > node_id {
            higher.push((p.clone(), k));
        } else if k < node_id {
            lower.push((p.clone(), k));
        }
        i = i + 1;
    }
    assert(config@.take(i as int) =~= config@);
    Ok(Peers { higher, lower })
}

/// Once an address in the list names no node, the whole list is refused.
proof fn lemma_group_error_persists(raw: Seq<String>, n: int)
    requires
        0 < n <= raw.len(),
        group_members(raw.take(n)) is Err,
    ensures
        group_members(raw) == group_members(raw.take(n)),
    decreases raw.len() - n,
{
    if n == raw.len() {
        assert(raw.take(n) =~= raw);
    } else {
        assert(raw.take(n + 1).drop_last() =~= raw.take(n));
        lemma_group_error_persists(raw, n + 1);
    }
}

/// What a node's listener hands to the node's main loop.
#[derive(Clone, Debug, PartialEq, Eq)]
pub enum Message {
    /// A node with a lower number challenged this one.
    Election,
    /// The node at this address announced that it leads.
    Coordinator(String),
    /// The leader's watcher checked on this node.
    Heartbeat,
}

/// How an election ended for this node.
#[derive(Clone, Debug, PartialEq, Eq)]
pub enum State {
    /// The node at this address leads.
    Follower(String),
    /// This node leads.
    Leader,
}

impl State {
    /// A copy of this state.
    pub(crate) fn duplicate(&self) -> (r: State)
        ensures
            r == *self,
    {
        match self {
            State::Follower(leader) => State::Follower(leader.clone()),
            State::Leader => State::Leader,
        }
    }
}

/// A request that the listener recognised: the word to answer with and the
/// message to pass on.
#[derive(Clone, Debug, PartialEq, Eq)]
pub struct Incoming {
    pub reply: Word,
    pub message: Message,
}

/// Reads a request that the node at address `sender` sent: ELECTION is
/// answered OK and passed on as a challenge; COORDINATOR is answered OK and
/// passed on as the sender's announcement; HEARTBEAT is answered ALIVE.
/// Anything else is ignored. White space around the word does not count.
pub fn classify_request(received: &[u8], sender: String) -> (r: Option<Incoming>)
    ensures
        received_text(received@) == word_text(Word::Election) ==> r == Some(
            Incoming { reply: Word::Accepted, message: Message::Election },
        ),
        received_text(received@) == word_text(Word::Coordinator) ==> r == Some(
            Incoming { reply: Word::Accepted, message: Message::Coordinator(sender) },
        ),
        received_text(received@) == word_text(Word::Heartbeat) ==> r == Some(
            Incoming { reply: Word::Alive, message: Message::Heartbeat },
        ),
        received_text(received@) != word_text(Word::Election) && received_text(received@)
            != word_text(Word::Coordinator) && received_text(received@) != word_text(
            Word::Heartbeat,
        ) ==> r is None,
{
    if carries(received, Word::Election) {
        Some(Incoming { reply: Word::Accepted, message: Message::Election })
    } else if carries(received, Word::Coordinator) {
        Some(Incoming { reply: Word::Accepted, message: Message::Coordinator(sender) })
    } else if carries(received, Word::Heartbeat) {
        Some(Incoming { reply: Word::Alive, message: Message::Heartbeat })
    } else {
        None
    }
}

/// Whether a message makes a settled node hold a new election: a challenge
/// or another node's announcement does, a heartbeat does not.
pub open spec fn asks_for_election(m: Message) -> bool {
    match m {
        Message::Election => true,
        Message::Coordinator(_) => true,
        Message::Heartbeat => false,
    }
}

/// Whether `m` makes a leader, or a follower checking its mail, hold a new
/// election.
pub fn calls_for_election(m: &Message) -> (r: bool)
    ensures
        r == asks_for_election(*m),
{
    match m {
        Message::Election => true,
        Message::Coordinator(_) => true,
        Message::Heartbeat => false,
    }
}

/// The address of the election service on the node at `node`.
pub open spec fn service_address(node: Seq<char>) -> Seq<char> {
    node + seq![':', '5', '5', '5', '5']
}

/// The address of the election service on the node at `node`: the node's
/// address with port 5555.
pub fn peer_address(node: &String) -> (r: String)
    ensures
        r@ == service_address(node@),
{
    let mut a = node.clone();
    a.append(":5555");
    proof {
        reveal_strlit(":5555");
        assert(a@ =~= service_address(node@));
    }
    a
}

} // verus!

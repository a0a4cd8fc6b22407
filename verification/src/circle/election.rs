//! Passing election and coordinator messages round the ring, and the
//! worker that turns what a node hears into its state.

use tonic::transport::Endpoint;
use vstd::prelude::*;
use crate::ring::{Ring, first_position, last_named, successors_of};
use crate::circle::state::State;
use crate::circle::service::{Relay, relay_parts};

verus! {

/// What the message handlers tell the election worker.
#[derive(Clone, Copy, Debug, PartialEq, Eq, Structural)]
pub enum Message {
    /// An election passed through this node.
    Election,
    /// The node with this number leads.
    Coordinator(i32),
    /// This node leads.
    Leader,
}

/// How long, in nanoseconds, the worker ignores election notices after its
/// state last changed.
pub const ELECTION_QUIET_NANOS: u128 = 5_000_000_000;

/// The state that the worker moves to on `msg`, received `elapsed`
/// nanoseconds after its state last changed; `None` leaves the state (and
/// the time of the last change) as they are.
pub open spec fn worker_transition(ring: Ring, msg: Message, elapsed: u128) -> Option<State> {
    match msg {
        Message::Election => if elapsed > ELECTION_QUIET_NANOS {
            Some(State::Candidate)
        } else {
            None
        },
        Message::Coordinator(id) => match last_named(ring.members(), id) {
            Some(leader) => Some(State::Follower(leader)),
            None => None,
        },
        Message::Leader => Some(State::Leader),
    }
}

/// One turn of the election worker: the state to move to on `msg`, or
/// `None` to keep the current one. An election notice makes the node a
/// candidate unless the state changed within the quiet period; a
/// coordinator notice makes it follow the named node if the ring knows it;
/// a leader notice makes it leader.
pub fn election_worker_step(ring: &Ring, msg: Message, elapsed: u128) -> (r: Option<State>)
    ensures
        r == worker_transition(*ring, msg, elapsed),
{
    match msg {
        Message::Election => {
            if elapsed > ELECTION_QUIET_NANOS {
                Some(State::Candidate)
            } else {
                None
            }
        },
        Message::Coordinator(id) => match ring.get_by_id(id) {
            Some(leader) => Some(State::Follower(leader)),
            None => None,
        },
        Message::Leader => Some(State::Leader),
    }
}

#[verifier::external_type_specification]
#[verifier::external_body]
pub struct ExEndpoint(tonic::transport::Endpoint);

#[verifier::external_type_specification]
#[verifier::external_body]
pub struct ExTransportError(tonic::transport::Error);

/// Whether tonic accepts `uri` as the address of an endpoint.
pub uninterp spec fn accepts_endpoint_uri(uri: Seq<char>) -> bool;

/// The URI that tonic makes of the text `uri` when it accepts it: the text
/// as parsed, which need not be the text itself (a missing path becomes
/// "/", a fragment is dropped, the scheme's letter case is normalised).
pub uninterp spec fn endpoint_uri(uri: Seq<char>) -> Seq<char>;

/// The URI that an endpoint points at, as tonic holds it.
pub uninterp spec fn endpoint_target(e: Endpoint) -> Seq<char>;

/// The limits an endpoint puts on each request and on connecting, in
/// nanoseconds (`None`: no limit).
pub uninterp spec fn endpoint_limits(e: Endpoint) -> (Option<nat>, Option<nat>);

/// A number of seconds in nanoseconds.
pub open spec fn seconds(secs: nat) -> nat {
    secs * 1_000_000_000
}

/// `Endpoint::from_shared`. Trusted: it succeeds exactly when the text is a
/// URI that tonic accepts (`accepts_endpoint_uri`), and the endpoint then
/// points at the URI parsed from that text (`endpoint_uri`), with no limit
/// on requests or on connecting.
#[verifier::external_body]
fn endpoint_from_shared(uri: String) -> (r: Result<Endpoint, tonic::transport::Error>)
    ensures
        r is Ok == accepts_endpoint_uri(uri@),
        r matches Ok(e) ==> endpoint_target(e) == endpoint_uri(uri@) && endpoint_limits(e) == (
            None::<nat>,
            None::<nat>,
        ),
{
    Endpoint::from_shared(uri)
}

/// `Endpoint::timeout`. Trusted: the endpoint points where it did, limits
/// each request to `secs` seconds, and keeps its limit on connecting.
#[verifier::external_body]
fn endpoint_timeout(e: Endpoint, secs: u64) -> (r: Endpoint)
    ensures
        endpoint_target(r) == endpoint_target(e),
        endpoint_limits(r) == (Some(seconds(secs as nat)), endpoint_limits(e).1),
{
    e.timeout(std::time::Duration::from_secs(secs))
}

/// `Endpoint::connect_timeout`. Trusted: the endpoint points where it did,
/// limits connecting to `secs` seconds, and keeps its limit on requests.
#[verifier::external_body]
fn endpoint_connect_timeout(e: Endpoint, secs: u64) -> (r: Endpoint)
    ensures
        endpoint_target(r) == endpoint_target(e),
        endpoint_limits(r) == (endpoint_limits(e).0, Some(seconds(secs as nat))),
{
    e.connect_timeout(std::time::Duration::from_secs(secs))
}

/// The URI of the ring service on the node at address `node`.
pub open spec fn service_uri(node: Seq<char>) -> Seq<char> {
    seq!['h', 't', 't', 'p', ':', '/', '/'] + node + seq![':', '5', '0', '0', '5', '1']
}

/// Whether `e` is the endpoint that tonic makes of the URI of the ring
/// service on the node at address `node`, with a three-second limit on
/// connecting and on each request.
pub open spec fn service_endpoint_of(e: Endpoint, node: Seq<char>) -> bool {
    &&& endpoint_target(e) == endpoint_uri(service_uri(node))
    &&& endpoint_limits(e) == (Some(seconds(3)), Some(seconds(3)))
}

/// Why a message could not be passed on.
#[derive(Clone, Copy, Debug, PartialEq, Eq, Structural)]
pub enum ForwardError {
    /// The address of a successor does not make a valid URI.
    InvalidEndpoint,
    /// No successor took the message.
    NotTaken,
}

/// The endpoint of the ring service on the node at address `node`, with a
/// three-second limit on connecting and on each request.
pub fn service_endpoint(node: &String) -> (r: Result<Endpoint, ForwardError>)
    ensures
        r is Ok == accepts_endpoint_uri(service_uri(node@)),
        r matches Ok(e) ==> service_endpoint_of(e, node@),
        r matches Err(e) ==> e == ForwardError::InvalidEndpoint,
{
    let mut uri = "http://".to_owned();
    proof { reveal_strlit("http://"); }
    uri.append(node.as_str());
    uri.append(":50051");
    proof {
        reveal_strlit(":50051");
        assert(uri@ =~= service_uri(node@));
    }
    match endpoint_from_shared(uri) {
        Ok(e) => Ok(endpoint_connect_timeout(endpoint_timeout(e, 3), 3)),
        Err(_) => Err(ForwardError::InvalidEndpoint),
    }
}

/// How an attempt to hand a message to one successor went.
#[derive(Clone, Copy, Debug, PartialEq, Eq, Structural)]
pub enum Outcome {
    /// No connection could be made.
    Unreachable,
    /// The connection was made but the request failed.
    Failed,
    /// The successor answered, with this success flag.
    Answered(bool),
}

/// What to do next while passing a message on.
pub enum ForwardStep {
    /// Hand `request` to the successor at `node`, numbered `id`, through
    /// `endpoint`, then record how that went.
    Contact { node: String, id: i32, endpoint: Endpoint, request: Relay },
    /// Passing on is over, with this result.
    Finished(Result<(), ForwardError>),
}

/// Where passing on stands (successors tried, result) after recording
/// `o` with `len` successors: a successful answer ends it; anything else
/// moves on to the next successor; once over, or with no contact pending,
/// nothing changes.
pub open spec fn record_step(
    len: nat,
    pos: int,
    res: Option<Result<(), ForwardError>>,
    o: Outcome,
) -> (int, Option<Result<(), ForwardError>>) {
    if res is Some || pos >= len {
        (pos, res)
    } else if o == Outcome::Answered(true) {
        (pos, Some(Ok(())))
    } else {
        (pos + 1, None)
    }
}

/// Where passing on stands after recording the outcomes `os` in order,
/// starting with no successor tried.
pub open spec fn records(len: nat, os: Seq<Outcome>) -> (int, Option<Result<(), ForwardError>>)
    decreases os.len(),
{
    if os.len() == 0 {
        (0, None)
    } else {
        let (pos, res) = records(len, os.drop_last());
        record_step(len, pos, res, os.last())
    }
}

/// Passing on succeeds exactly through the first successor, in ring
/// order, that answers with success; until then every successor is tried
/// once, and when none is left passing on is not done.
pub proof fn lemma_first_taker_ends_forwarding(len: nat, os: Seq<Outcome>)
    ensures
        records(len, os).1 == Some(Ok::<(), ForwardError>(())) ==> {
            &&& 0 <= records(len, os).0 < len
            &&& records(len, os).0 < os.len()
            &&& os[records(len, os).0] == Outcome::Answered(true)
            &&& forall|i: int| 0 <= i < records(len, os).0 ==> os[i] != Outcome::Answered(true)
        },
        records(len, os).1 is None ==> {
            &&& records(len, os).0 == if os.len() < len { os.len() as int } else { len as int }
            &&& forall|i: int| 0 <= i < records(len, os).0 ==> os[i] != Outcome::Answered(true)
        },
        records(len, os).1 is None || records(len, os).1 == Some(Ok::<(), ForwardError>(())),
        0 <= records(len, os).0 <= os.len(),
    decreases os.len(),
{
    if os.len() > 0 {
        let prior = os.drop_last();
        lemma_first_taker_ends_forwarding(len, prior);
        let (pos, res) = records(len, prior);
        assert forall|i: int| 0 <= i < pos implies os[i] == prior[i] by {}
    }
}

/// Passing a message to the first successor round the ring that takes it:
/// the successors are tried in ring order, each once, until one answers
/// with success.
pub struct Forwarding {
    targets: Vec<(String, i32)>,
    request: Relay,
    position: usize,
    result: Option<Result<(), ForwardError>>,
}

impl Forwarding {
    /// The successors to try, in order.
    pub closed spec fn targets(&self) -> Seq<(String, i32)> {
        self.targets@
    }

    /// The message passed on: its kind (`true` for a coordinator
    /// announcement) and the list it carries.
    pub closed spec fn request(&self) -> (bool, Seq<i32>) {
        relay_parts(self.request)
    }

    /// How many successors have been tried without success.
    pub closed spec fn position(&self) -> int {
        self.position as int
    }

    /// The result, once passing on is over.
    pub closed spec fn result(&self) -> Option<Result<(), ForwardError>> {
        self.result
    }

    #[verifier::type_invariant]
    spec fn position_in_range(&self) -> bool {
        self.position <= self.targets@.len()
    }

    /// Starts passing `request` on from the node that `ring` belongs to.
    pub fn new(ring: &Ring, request: Relay) -> (r: Forwarding)
        requires
            first_position(ring.members(), ring.own_id()) is Some,
        ensures
            r.request() == relay_parts(request),
            r.targets() == successors_of(
                ring.members(),
                first_position(ring.members(), ring.own_id())->Some_0,
            ),
            r.position() == 0,
            r.result() is None,
    {
        Forwarding { targets: ring.fancy_iter(), request, position: 0, result: None }
    }

    /// The next thing to do: contact the next successor, or finish. Passing
    /// on fails with `NotTaken` once every successor has been tried, and
    /// with `InvalidEndpoint` as soon as a successor's address makes no URI.
    pub fn next_contact(&mut self) -> (r: ForwardStep)
        ensures
            final(self).targets() == old(self).targets(),
            final(self).request() == old(self).request(),
            final(self).position() == old(self).position(),
            old(self).result() matches Some(res) ==> r == ForwardStep::Finished(res)
                && final(self).result() == old(self).result(),
            old(self).result() is None && old(self).position() == old(self).targets().len() ==> {
                &&& r == ForwardStep::Finished(Err(ForwardError::NotTaken))
                &&& final(self).result() == Some(Err::<(), ForwardError>(ForwardError::NotTaken))
            },
            old(self).result() is None && old(self).position() < old(self).targets().len() ==> {
                let (node, id) = old(self).targets()[old(self).position()];
                if accepts_endpoint_uri(service_uri(node@)) {
                    &&& r matches ForwardStep::Contact { node: n, id: k, endpoint, request } && n
                        == node && k == id && service_endpoint_of(endpoint, node@) && relay_parts(
                        request,
                    ) == old(self).request()
                    &&& final(self).result() is None
                } else {
                    &&& r == ForwardStep::Finished(Err(ForwardError::InvalidEndpoint))
                    &&& final(self).result() == Some(
                        Err::<(), ForwardError>(ForwardError::InvalidEndpoint),
                    )
                }
            },
    {
        proof { use_type_invariant(&*self); }
        if let Some(res) = self.result {
            return ForwardStep::Finished(res);
        }
        if self.position >= self.targets.len() {
            self.result = Some(Err(ForwardError::NotTaken));
            return ForwardStep::Finished(Err(ForwardError::NotTaken));
        }
        let node = self.targets[self.position].0.clone();
        let id = self.targets[self.position].1;
        match service_endpoint(&node) {
            Ok(endpoint) => {
                let request = self.request.duplicate();
                ForwardStep::Contact { node, id, endpoint, request }
            },
            Err(e) => {
                self.result = Some(Err(e));
                ForwardStep::Finished(Err(e))
            },
        }
    }

    /// Records how the last contact went: a successful answer ends passing
    /// on; anything else moves on to the next successor.
    pub fn record(&mut self, outcome: Outcome)
        ensures
            final(self).targets() == old(self).targets(),
            final(self).request() == old(self).request(),
            (final(self).position(), final(self).result()) == record_step(
                old(self).targets().len(),
                old(self).position(),
                old(self).result(),
                outcome,
            ),
    {
        proof { use_type_invariant(&*self); }
        if self.result.is_some() || self.position >= self.targets.len() {
            return;
        }
        match outcome {
            Outcome::Answered(true) => {
                self.result = Some(Ok(()));
            },
            _ => {
                self.position = self.position + 1;
            },
        }
    }
}

/// An election notice makes the worker a candidate exactly when more than
/// five seconds have passed since its state last changed, however long ago
/// that was.
pub proof fn lemma_election_notice_after_quiet_period(ring: Ring, elapsed: u128)
    ensures
        elapsed > 5_000_000_000 ==> worker_transition(ring, Message::Election, elapsed) == Some(
            State::Candidate,
        ),
        elapsed <= 5_000_000_000 ==> worker_transition(ring, Message::Election, elapsed) is None,
{
}

/// Waiting longer never keeps an election notice from making the worker a
/// candidate.
pub proof fn lemma_election_notice_monotonic(ring: Ring, t: u128, u: u128)
    requires
        t <= u,
        worker_transition(ring, Message::Election, t) == Some(State::Candidate),
    ensures
        worker_transition(ring, Message::Election, u) == Some(State::Candidate),
{
}

/// A leader notice makes the worker leader at any time, and a coordinator
/// notice makes it follow the node the ring lists under that number.
pub proof fn lemma_leader_and_coordinator_notices(ring: Ring, id: i32, elapsed: u128)
    ensures
        worker_transition(ring, Message::Leader, elapsed) == Some(State::Leader),
        last_named(ring.members(), id) matches Some(n) ==> worker_transition(
            ring,
            Message::Coordinator(id),
            elapsed,
        ) == Some(State::Follower(n)),
{
}

} // verus!

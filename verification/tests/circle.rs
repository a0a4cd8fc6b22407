use leader_election::circle::election::{
    election_worker_step, service_endpoint, ForwardError, ForwardStep, Forwarding, Message, Outcome,
    ELECTION_QUIET_NANOS,
};
use tonic::transport::Endpoint;
use leader_election::circle::heartbeat::{HeartbeatWatch, WatchAction, WatchEvent};
use leader_election::circle::service::{highest_of, CircleNodeService, Relay};
use leader_election::circle::state::{initial_election, next_duty, Duty, State};
use leader_election::ring::Ring;

fn ring_of(own: &str, members: &[&str]) -> std::sync::Arc<Ring> {
    Ring::new(own.to_string(), members.iter().map(|s| s.to_string()).collect()).unwrap()
}

#[test]
fn election_from_another_node_is_passed_on_with_own_number() {
    let svc = CircleNodeService::new(3, ring_of("10.0.0.3", &["10.0.0.3"]));
    let r = svc.election(vec![1, 2]);
    assert!(r.success);
    assert_eq!(r.notify, Some(Message::Election));
    assert_eq!(r.forward, Some(Relay::Election(vec![1, 2, 3])));
}

#[test]
fn election_back_at_its_start_turns_into_coordinator() {
    let svc = CircleNodeService::new(1, ring_of("10.0.0.1", &["10.0.0.1"]));
    let r = svc.election(vec![1, 2, 3]);
    assert!(r.success);
    assert_eq!(r.forward, Some(Relay::Coordinator(vec![1, 2, 3])));
}

#[test]
fn empty_election_is_refused_but_still_heard() {
    let svc = CircleNodeService::new(1, ring_of("10.0.0.1", &["10.0.0.1"]));
    let r = svc.election(vec![]);
    assert!(!r.success);
    assert_eq!(r.notify, Some(Message::Election));
    assert_eq!(r.forward, None);
}

#[test]
fn coordinator_names_highest_number() {
    let svc = CircleNodeService::new(2, ring_of("10.0.0.2", &["10.0.0.2"]));
    let r = svc.coordinator(vec![1, 5, 2, 4]);
    assert!(r.success);
    assert_eq!(r.notify, Some(Message::Coordinator(5)));
    assert_eq!(r.forward, Some(Relay::Coordinator(vec![1, 5, 2, 4])));
}

#[test]
fn coordinator_tells_highest_node_it_leads() {
    let svc = CircleNodeService::new(5, ring_of("10.0.0.5", &["10.0.0.5"]));
    let r = svc.coordinator(vec![1, 5, 2]);
    assert_eq!(r.notify, Some(Message::Leader));
    assert_eq!(r.forward, Some(Relay::Coordinator(vec![1, 5, 2])));
}

#[test]
fn coordinator_stops_at_its_start() {
    let svc = CircleNodeService::new(1, ring_of("10.0.0.1", &["10.0.0.1"]));
    let r = svc.coordinator(vec![1, 3]);
    assert!(r.success);
    assert_eq!(r.notify, Some(Message::Coordinator(3)));
    assert_eq!(r.forward, None);
    let empty = svc.coordinator(vec![]);
    assert!(!empty.success);
    assert_eq!(empty.notify, None);
    assert_eq!(empty.forward, None);
}

#[test]
fn election_round_trip_elects_highest() {
    let ids = [4, 9, 2, 7];
    let services: Vec<CircleNodeService> = ids
        .iter()
        .map(|k| CircleNodeService::new(*k, ring_of(&format!("10.0.0.{k}"), &["10.0.0.1"])))
        .collect();
    let mut list = initial_election(4);
    let mut at = 1;
    loop {
        let r = services[at].election(list.clone());
        match r.forward {
            Some(Relay::Election(l)) => {
                list = l;
                at = (at + 1) % ids.len();
            }
            Some(Relay::Coordinator(l)) => {
                assert_eq!(at, 0);
                assert_eq!(l, vec![4, 9, 2, 7]);
                list = l;
                break;
            }
            None => panic!("election stopped"),
        }
    }
    for s in &services {
        let r = s.coordinator(list.clone());
        match r.notify {
            Some(Message::Leader) => assert_eq!(highest_of(&list), 9),
            Some(Message::Coordinator(k)) => assert_eq!(k, 9),
            other => panic!("unexpected {other:?}"),
        }
    }
}

#[test]
fn worker_ignores_elections_in_quiet_period() {
    let ring = ring_of("10.0.0.1", &["10.0.0.1", "10.0.0.2"]);
    assert_eq!(election_worker_step(&ring, Message::Election, ELECTION_QUIET_NANOS), None);
    assert_eq!(
        election_worker_step(&ring, Message::Election, ELECTION_QUIET_NANOS + 1),
        Some(State::Candidate)
    );
}

#[test]
fn worker_follows_known_coordinator_only() {
    let ring = ring_of("10.0.0.1", &["10.0.0.1", "10.0.0.2"]);
    assert_eq!(
        election_worker_step(&ring, Message::Coordinator(2), 0),
        Some(State::Follower("10.0.0.2".to_string()))
    );
    assert_eq!(election_worker_step(&ring, Message::Coordinator(8), 0), None);
    assert_eq!(election_worker_step(&ring, Message::Leader, 0), Some(State::Leader));
}

#[test]
fn duties_by_state() {
    assert_eq!(next_duty(&State::Follower("10.0.0.2".to_string())), Duty::Monitor("10.0.0.2".to_string()));
    assert_eq!(next_duty(&State::Leader), Duty::Wait);
    assert_eq!(next_duty(&State::Candidate), Duty::Wait);
    assert_eq!(initial_election(6), vec![6]);
}

#[test]
fn endpoint_of_valid_and_invalid_addresses() {
    let e: Endpoint = service_endpoint(&"10.0.0.2".to_string()).unwrap();
    assert_eq!(e.uri().scheme_str(), Some("http"));
    assert_eq!(e.uri().authority().map(|a| a.as_str()), Some("10.0.0.2:50051"));
    assert_eq!(service_endpoint(&"bad host".to_string()).err(), Some(ForwardError::InvalidEndpoint));
}

fn contacted(step: ForwardStep) -> Option<i32> {
    match step {
        ForwardStep::Contact { node, id, endpoint, request } => {
            assert_eq!(endpoint.uri().scheme_str(), Some("http"));
            assert_eq!(endpoint.uri().authority().map(|a| a.as_str().to_string()), Some(format!("{node}:50051")));
            assert_eq!(request, Relay::Election(vec![7, 8]));
            Some(id)
        }
        ForwardStep::Finished(_) => None,
    }
}

#[test]
fn forwarding_tries_successors_in_ring_order_until_one_takes() {
    let ring = ring_of("10.0.0.2", &["10.0.0.1", "10.0.0.2", "10.0.0.3", "10.0.0.4"]);
    let mut f = Forwarding::new(&ring, Relay::Election(vec![7, 8]));
    assert_eq!(contacted(f.next_contact()), Some(3));
    f.record(Outcome::Unreachable);
    assert_eq!(contacted(f.next_contact()), Some(4));
    f.record(Outcome::Answered(false));
    assert_eq!(contacted(f.next_contact()), Some(1));
    f.record(Outcome::Answered(true));
    match f.next_contact() {
        ForwardStep::Finished(r) => assert_eq!(r, Ok(())),
        _ => panic!("should be finished"),
    }
}

#[test]
fn forwarding_fails_when_no_one_takes() {
    let ring = ring_of("10.0.0.1", &["10.0.0.1", "10.0.0.2"]);
    let mut f = Forwarding::new(&ring, Relay::Election(vec![7, 8]));
    assert_eq!(contacted(f.next_contact()), Some(2));
    f.record(Outcome::Failed);
    match f.next_contact() {
        ForwardStep::Finished(r) => assert_eq!(r, Err(ForwardError::NotTaken)),
        _ => panic!("should be finished"),
    }
}

#[test]
fn forwarding_stops_on_invalid_address() {
    let ring = ring_of("10.0.0.1", &["10.0.0.1", "bad host.0.0.2", "10.0.0.3"]);
    let mut f = Forwarding::new(&ring, Relay::Election(vec![7, 8]));
    match f.next_contact() {
        ForwardStep::Finished(r) => assert_eq!(r, Err(ForwardError::InvalidEndpoint)),
        _ => panic!("should be finished"),
    }
}

#[test]
fn heartbeat_watch_runs_until_leader_unreachable() {
    let (mut w, a) = HeartbeatWatch::new();
    assert_eq!(a, WatchAction::Connect);
    assert_eq!(w.step(WatchEvent::Connected), WatchAction::Observe);
    assert_eq!(
        w.step(WatchEvent::Observed(State::Follower("10.0.0.5".to_string()))),
        WatchAction::SendHeartbeat
    );
    assert_eq!(w.step(WatchEvent::Answered(false)), WatchAction::Rest);
    assert_eq!(w.step(WatchEvent::Rested), WatchAction::Connect);
    assert_eq!(w.step(WatchEvent::Connected), WatchAction::Observe);
    assert_eq!(
        w.step(WatchEvent::Observed(State::Follower("10.0.0.5".to_string()))),
        WatchAction::SendHeartbeat
    );
    assert_eq!(w.step(WatchEvent::CallFailed), WatchAction::Stop { call_election: true });
    assert_eq!(w.step(WatchEvent::Rested), WatchAction::Stop { call_election: true });
}

#[test]
fn heartbeat_watch_ends_quietly_when_no_longer_following() {
    let (mut w, _) = HeartbeatWatch::new();
    assert_eq!(w.step(WatchEvent::Connected), WatchAction::Observe);
    assert_eq!(w.step(WatchEvent::Observed(State::Leader)), WatchAction::Stop { call_election: false });
    let (mut w, _) = HeartbeatWatch::new();
    assert_eq!(w.step(WatchEvent::ConnectFailed), WatchAction::Stop { call_election: true });
    let (mut w, _) = HeartbeatWatch::new();
    assert_eq!(w.step(WatchEvent::Rested), WatchAction::Connect);
}

#[test]
fn heartbeat_is_always_answered_with_success() {
    let svc = CircleNodeService::new(1, ring_of("10.0.0.1", &["10.0.0.1"]));
    assert!(svc.heartbeat());
}

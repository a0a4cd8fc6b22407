use leader_election::address::{IdError, NumberError};
use leader_election::bully::election::{BullyElection, ElectionAction, ElectionEvent};
use leader_election::bully::watch::{LeaderWatch, WatchAction, WatchEvent};
use leader_election::bully::{
    calls_for_election, classify_request, peer_address, split_peers, Incoming, Message, State,
};
use leader_election::text::Word;

fn names(v: &[&str]) -> Vec<String> {
    v.iter().map(|s| s.to_string()).collect()
}

fn peer(a: &str, k: u32) -> (String, u32) {
    (a.to_string(), k)
}

#[test]
fn peers_split_by_number_in_order() {
    let p = split_peers(
        3,
        &names(&["10.0.0.5", "10.0.0.1", "10.0.0.3", "10.0.0.4", "10.0.0.2"]),
    )
    .unwrap();
    assert_eq!(p.higher, vec![peer("10.0.0.5", 5), peer("10.0.0.4", 4)]);
    assert_eq!(p.lower, vec![peer("10.0.0.1", 1), peer("10.0.0.2", 2)]);
}

#[test]
fn peers_refused_on_bad_address() {
    assert_eq!(split_peers(1, &names(&["10.0.0.2", "10.0.0"])).err(), Some(IdError::WrongFormat));
    assert_eq!(split_peers(1, &names(&["10.0.0.z", "10.0.0"])).err(), Some(IdError::InvalidNumber(NumberError::InvalidDigit)));
}

#[test]
fn listener_answers_protocol_words() {
    assert_eq!(
        classify_request(b"ELECTION", "10.0.0.1".to_string()),
        Some(Incoming { reply: Word::Accepted, message: Message::Election })
    );
    assert_eq!(
        classify_request(b" COORDINATOR\r\n", "10.0.0.9".to_string()),
        Some(Incoming { reply: Word::Accepted, message: Message::Coordinator("10.0.0.9".to_string()) })
    );
    assert_eq!(
        classify_request(b"HEARTBEAT\n", "10.0.0.1".to_string()),
        Some(Incoming { reply: Word::Alive, message: Message::Heartbeat })
    );
    assert_eq!(classify_request(b"election", "10.0.0.1".to_string()), None);
    assert_eq!(classify_request(b"", "10.0.0.1".to_string()), None);
    assert_eq!(classify_request(b"OK", "10.0.0.1".to_string()), None);
}

#[test]
fn words_on_the_wire() {
    assert_eq!(Word::Election.text(), "ELECTION");
    assert_eq!(Word::Coordinator.text(), "COORDINATOR");
    assert_eq!(Word::Heartbeat.text(), "HEARTBEAT");
    assert_eq!(Word::Accepted.text(), "OK");
    assert_eq!(Word::Alive.text(), "ALIVE");
}

#[test]
fn settled_node_reacts_to_challenges_and_announcements() {
    assert!(calls_for_election(&Message::Election));
    assert!(calls_for_election(&Message::Coordinator("10.0.0.4".to_string())));
    assert!(!calls_for_election(&Message::Heartbeat));
    assert_eq!(peer_address(&"10.0.0.4".to_string()), "10.0.0.4:5555");
}

#[test]
fn lone_node_leads_at_once() {
    let (_, a) = BullyElection::new(vec![], vec![]);
    assert_eq!(a, ElectionAction::Finish(State::Leader));
}

#[test]
fn highest_node_announces_to_all_below() {
    let (mut e, a) = BullyElection::new(vec![], vec![peer("10.0.0.1", 1), peer("10.0.0.2", 2)]);
    assert_eq!(a, ElectionAction::Connect("10.0.0.1:5555".to_string()));
    assert_eq!(e.step(ElectionEvent::Connected), ElectionAction::Send(Word::Coordinator));
    assert_eq!(e.step(ElectionEvent::Wrote(11)), ElectionAction::Receive);
    assert_eq!(e.step(ElectionEvent::Read(b"OK".to_vec())), ElectionAction::Connect("10.0.0.2:5555".to_string()));
    assert_eq!(e.step(ElectionEvent::ConnectFailed), ElectionAction::Finish(State::Leader));
}

#[test]
fn node_defers_when_higher_answers_ok() {
    let (mut e, a) = BullyElection::new(
        vec![peer("10.0.0.8", 8), peer("10.0.0.9", 9)],
        vec![peer("10.0.0.1", 1)],
    );
    assert_eq!(a, ElectionAction::Connect("10.0.0.8:5555".to_string()));
    assert_eq!(e.step(ElectionEvent::ConnectFailed), ElectionAction::Connect("10.0.0.9:5555".to_string()));
    assert_eq!(e.step(ElectionEvent::Connected), ElectionAction::Send(Word::Election));
    assert_eq!(e.step(ElectionEvent::Wrote(8)), ElectionAction::Receive);
    assert_eq!(e.step(ElectionEvent::Read(b"OK\n".to_vec())), ElectionAction::AwaitMail);
    assert_eq!(e.step(ElectionEvent::Mail(Message::Heartbeat)), ElectionAction::AwaitMail);
    assert_eq!(e.step(ElectionEvent::Mail(Message::Election)), ElectionAction::AwaitMail);
    assert_eq!(
        e.step(ElectionEvent::Mail(Message::Coordinator("10.0.0.9".to_string()))),
        ElectionAction::Finish(State::Follower("10.0.0.9".to_string()))
    );
    assert_eq!(
        e.step(ElectionEvent::ConnectFailed),
        ElectionAction::Finish(State::Follower("10.0.0.9".to_string()))
    );
}

#[test]
fn node_leads_when_no_higher_answers_ok() {
    let (mut e, _) = BullyElection::new(
        vec![peer("10.0.0.8", 8), peer("10.0.0.9", 9)],
        vec![peer("10.0.0.1", 1)],
    );
    assert_eq!(e.step(ElectionEvent::Connected), ElectionAction::Send(Word::Election));
    assert_eq!(e.step(ElectionEvent::Wrote(0)), ElectionAction::Connect("10.0.0.9:5555".to_string()));
    assert_eq!(e.step(ElectionEvent::Connected), ElectionAction::Send(Word::Election));
    assert_eq!(e.step(ElectionEvent::Wrote(8)), ElectionAction::Receive);
    assert_eq!(e.step(ElectionEvent::Read(b"NO".to_vec())), ElectionAction::Connect("10.0.0.8:5555".to_string()));
    assert_eq!(e.step(ElectionEvent::Connected), ElectionAction::Send(Word::Coordinator));
    assert_eq!(e.step(ElectionEvent::Wrote(11)), ElectionAction::Receive);
    assert_eq!(e.step(ElectionEvent::ReadFailed), ElectionAction::Connect("10.0.0.9:5555".to_string()));
    assert_eq!(e.step(ElectionEvent::ConnectFailed), ElectionAction::Connect("10.0.0.1:5555".to_string()));
    assert_eq!(e.step(ElectionEvent::Connected), ElectionAction::Send(Word::Coordinator));
    assert_eq!(e.step(ElectionEvent::WriteFailed), ElectionAction::Finish(State::Leader));
}

#[test]
fn every_higher_node_is_challenged_even_after_ok() {
    let (mut e, a) = BullyElection::new(
        vec![peer("10.0.0.8", 8), peer("10.0.0.9", 9)],
        vec![peer("10.0.0.1", 1)],
    );
    assert_eq!(a, ElectionAction::Connect("10.0.0.8:5555".to_string()));
    assert_eq!(e.step(ElectionEvent::Connected), ElectionAction::Send(Word::Election));
    assert_eq!(e.step(ElectionEvent::Wrote(8)), ElectionAction::Receive);
    assert_eq!(e.step(ElectionEvent::Read(b"OK".to_vec())), ElectionAction::Connect("10.0.0.9:5555".to_string()));
    assert_eq!(e.step(ElectionEvent::ConnectFailed), ElectionAction::AwaitMail);
    assert_eq!(
        e.step(ElectionEvent::Mail(Message::Coordinator("10.0.0.8".to_string()))),
        ElectionAction::Finish(State::Follower("10.0.0.8".to_string()))
    );
}

#[test]
fn unexpected_events_change_nothing() {
    let (mut e, _) = BullyElection::new(vec![peer("10.0.0.8", 8)], vec![]);
    assert_eq!(e.step(ElectionEvent::Read(b"OK".to_vec())), ElectionAction::Connect("10.0.0.8:5555".to_string()));
    assert_eq!(e.step(ElectionEvent::Mail(Message::Election)), ElectionAction::Connect("10.0.0.8:5555".to_string()));
    assert_eq!(e.step(ElectionEvent::Connected), ElectionAction::Send(Word::Election));
    assert_eq!(e.step(ElectionEvent::Wrote(8)), ElectionAction::Receive);
    assert_eq!(e.step(ElectionEvent::Read(Vec::new())), ElectionAction::Connect("10.0.0.8:5555".to_string()));
    assert_eq!(e.step(ElectionEvent::ConnectFailed), ElectionAction::Finish(State::Leader));
}

#[test]
fn follower_watch_stops_on_challenge() {
    let (mut w, a) = LeaderWatch::new(&"10.0.0.9".to_string());
    assert_eq!(a, WatchAction::Rest);
    assert_eq!(w.step(WatchEvent::Rested), WatchAction::CheckMail);
    assert_eq!(w.step(WatchEvent::Mail(None)), WatchAction::Connect("10.0.0.9:5555".to_string()));
    assert_eq!(w.step(WatchEvent::Connected), WatchAction::Exchange(Word::Heartbeat));
    assert_eq!(w.step(WatchEvent::Exchanged), WatchAction::Rest);
    assert_eq!(w.step(WatchEvent::Rested), WatchAction::CheckMail);
    assert_eq!(
        w.step(WatchEvent::Mail(Some(Message::Heartbeat))),
        WatchAction::Connect("10.0.0.9:5555".to_string())
    );
    assert_eq!(w.step(WatchEvent::Connected), WatchAction::Exchange(Word::Heartbeat));
    assert_eq!(w.step(WatchEvent::Exchanged), WatchAction::Rest);
    assert_eq!(w.step(WatchEvent::Rested), WatchAction::CheckMail);
    assert_eq!(w.step(WatchEvent::Mail(Some(Message::Election))), WatchAction::Stop);
}

#[test]
fn follower_watch_stops_when_leader_unreachable() {
    let (mut w, _) = LeaderWatch::new(&"10.0.0.9".to_string());
    assert_eq!(w.step(WatchEvent::Rested), WatchAction::CheckMail);
    assert_eq!(
        w.step(WatchEvent::Mail(None)),
        WatchAction::Connect("10.0.0.9:5555".to_string())
    );
    assert_eq!(w.step(WatchEvent::ConnectFailed), WatchAction::Stop);
}

#[test]
fn ok_to_an_announcement_does_not_stop_the_leader() {
    let (mut e, _) = BullyElection::new(vec![peer("10.0.0.8", 8)], vec![peer("10.0.0.1", 1)]);
    assert_eq!(e.step(ElectionEvent::ConnectFailed), ElectionAction::Connect("10.0.0.8:5555".to_string()));
    assert_eq!(e.step(ElectionEvent::ConnectFailed), ElectionAction::Connect("10.0.0.1:5555".to_string()));
    assert_eq!(e.step(ElectionEvent::Connected), ElectionAction::Send(Word::Coordinator));
    assert_eq!(e.step(ElectionEvent::Wrote(11)), ElectionAction::Receive);
    assert_eq!(e.step(ElectionEvent::Read(b"OK".to_vec())), ElectionAction::Finish(State::Leader));
}

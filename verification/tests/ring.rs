use leader_election::address::{IdError, NumberError};
use leader_election::ring::Ring;

fn names(v: &[&str]) -> Vec<String> {
    v.iter().map(|s| s.to_string()).collect()
}

#[test]
fn new_ring_keeps_members_in_order() {
    let ring = Ring::new("10.0.0.2".to_string(), names(&["10.0.0.1", "10.0.0.2", "10.0.0.3"])).unwrap();
    assert_eq!(
        ring.fancy_iter(),
        vec![("10.0.0.3".to_string(), 3), ("10.0.0.1".to_string(), 1)]
    );
}

#[test]
fn new_ring_reports_own_address_error_first() {
    let r = Ring::new("10.0.0".to_string(), names(&["10.0.0.x"]));
    assert_eq!(r.err(), Some(IdError::WrongFormat));
}

#[test]
fn new_ring_reports_first_bad_member() {
    let r = Ring::new("10.0.0.1".to_string(), names(&["10.0.0.1", "10.0.0.y", "10.0"]));
    assert_eq!(r.err(), Some(IdError::InvalidNumber(NumberError::InvalidDigit)));
    let r = Ring::new("10.0.0.1".to_string(), names(&["10.0.0.1", "10.0", "10.0.0.y"]));
    assert_eq!(r.err(), Some(IdError::WrongFormat));
}

#[test]
fn fancy_iter_wraps_round() {
    let ring = Ring::new(
        "10.0.0.3".to_string(),
        names(&["10.0.0.1", "10.0.0.2", "10.0.0.3", "10.0.0.4", "10.0.0.5"]),
    )
    .unwrap();
    let order: Vec<i32> = ring.fancy_iter().into_iter().map(|(_, k)| k).collect();
    assert_eq!(order, vec![4, 5, 1, 2]);
}

#[test]
fn fancy_iter_of_first_and_last() {
    let all = names(&["10.0.0.1", "10.0.0.2", "10.0.0.3"]);
    let first = Ring::new("10.0.0.1".to_string(), all.clone()).unwrap();
    let order: Vec<i32> = first.fancy_iter().into_iter().map(|(_, k)| k).collect();
    assert_eq!(order, vec![2, 3]);
    let last = Ring::new("10.0.0.3".to_string(), all).unwrap();
    let order: Vec<i32> = last.fancy_iter().into_iter().map(|(_, k)| k).collect();
    assert_eq!(order, vec![1, 2]);
}

#[test]
fn fancy_iter_starts_after_first_member_with_own_number() {
    let ring = Ring::new(
        "192.168.0.2".to_string(),
        names(&["10.0.0.1", "10.0.0.2", "10.0.0.3", "10.1.1.2"]),
    )
    .unwrap();
    assert_eq!(ring.own_position(), Some(1));
    let order: Vec<String> = ring.fancy_iter().into_iter().map(|(n, _)| n).collect();
    assert_eq!(order, names(&["10.0.0.3", "10.1.1.2", "10.0.0.1"]));
}

#[test]
fn own_position_absent_when_not_a_member() {
    let ring = Ring::new("10.0.0.9".to_string(), names(&["10.0.0.1", "10.0.0.2"])).unwrap();
    assert_eq!(ring.own_position(), None);
}

#[test]
fn get_by_id_finds_last_member_with_number() {
    let ring = Ring::new(
        "10.0.0.1".to_string(),
        names(&["10.0.0.1", "10.0.0.2", "10.9.9.2"]),
    )
    .unwrap();
    assert_eq!(ring.get_by_id(1), Some("10.0.0.1".to_string()));
    assert_eq!(ring.get_by_id(2), Some("10.9.9.2".to_string()));
    assert_eq!(ring.get_by_id(7), None);
}

#[test]
fn empty_ring_knows_no_one() {
    let ring = Ring::new("10.0.0.1".to_string(), Vec::new()).unwrap();
    assert_eq!(ring.get_by_id(1), None);
    assert_eq!(ring.own_position(), None);
}

#[test]
fn successors_do_not_depend_on_where_the_list_starts() {
    let a = Ring::new("10.0.0.3".to_string(), names(&["10.0.0.1", "10.0.0.2", "10.0.0.3", "10.0.0.4"]))
        .unwrap();
    let b = Ring::new("10.0.0.3".to_string(), names(&["10.0.0.4", "10.0.0.1", "10.0.0.2", "10.0.0.3"]))
        .unwrap();
    assert_eq!(a.fancy_iter(), b.fancy_iter());
}

use leader_election::address::{id_field_of, parse_i32, parse_u32, IdError, NumberError};
use std::num::IntErrorKind;
use leader_election::bully;
use leader_election::ring::id;

fn chars(s: &str) -> Vec<char> {
    s.chars().collect()
}

#[test]
fn ring_id_reads_fourth_field() {
    assert_eq!(id("192.168.0.17"), Ok(17));
    assert_eq!(id("10.0.0.1"), Ok(1));
}

#[test]
fn ring_id_ignores_fields_after_the_fourth() {
    assert_eq!(id("1.2.3.4.5"), Ok(4));
}

#[test]
fn ring_id_needs_four_fields() {
    assert_eq!(id("10.0.0"), Err(IdError::WrongFormat));
    assert_eq!(id(""), Err(IdError::WrongFormat));
    assert_eq!(id("localhost"), Err(IdError::WrongFormat));
}

#[test]
fn ring_id_needs_a_number() {
    assert_eq!(id("10.0.0.x"), Err(IdError::InvalidNumber(NumberError::InvalidDigit)));
    assert_eq!(id("10.0.0."), Err(IdError::InvalidNumber(NumberError::Empty)));
    assert_eq!(id("10.0.0. 5"), Err(IdError::InvalidNumber(NumberError::InvalidDigit)));
    assert_eq!(id("10.0.0.-"), Err(IdError::InvalidNumber(NumberError::InvalidDigit)));
}

#[test]
fn ring_id_takes_signs_and_leading_zeros() {
    assert_eq!(id("10.0.0.-3"), Ok(-3));
    assert_eq!(id("10.0.0.+7"), Ok(7));
    assert_eq!(id("10.0.0.007"), Ok(7));
}

#[test]
fn ring_id_range_is_that_of_i32() {
    assert_eq!(id("10.0.0.2147483647"), Ok(i32::MAX));
    assert_eq!(id("10.0.0.-2147483648"), Ok(i32::MIN));
    assert_eq!(id("10.0.0.2147483648"), Err(IdError::InvalidNumber(NumberError::PosOverflow)));
    assert_eq!(id("10.0.0.-2147483649"), Err(IdError::InvalidNumber(NumberError::NegOverflow)));
    assert_eq!(
        id("10.0.0.99999999999999999999"),
        Err(IdError::InvalidNumber(NumberError::PosOverflow))
    );
    assert_eq!(id("10.0.0.99999999999x"), Err(IdError::InvalidNumber(NumberError::PosOverflow)));
    assert_eq!(id("10.0.0.999x"), Err(IdError::InvalidNumber(NumberError::InvalidDigit)));
}

#[test]
fn bully_id_is_unsigned() {
    assert_eq!(bully::id("192.168.0.255"), Ok(255));
    assert_eq!(bully::id("10.0.0.-3"), Err(IdError::InvalidNumber(NumberError::InvalidDigit)));
    assert_eq!(bully::id("10.0.0.+3"), Ok(3));
    assert_eq!(bully::id("10.0.0.4294967295"), Ok(u32::MAX));
    assert_eq!(bully::id("10.0.0.4294967296"), Err(IdError::InvalidNumber(NumberError::PosOverflow)));
    assert_eq!(bully::id("10.0"), Err(IdError::WrongFormat));
}

fn kind(e: NumberError) -> IntErrorKind {
    match e {
        NumberError::Empty => IntErrorKind::Empty,
        NumberError::InvalidDigit => IntErrorKind::InvalidDigit,
        NumberError::PosOverflow => IntErrorKind::PosOverflow,
        NumberError::NegOverflow => IntErrorKind::NegOverflow,
    }
}

#[test]
fn parsing_matches_std() {
    for s in ["0", "12", "-12", "+12", "", "+", "-", "1-2", "0012", "2147483647", "2147483648",
        "-2147483648", "-2147483649", "4294967295", "4294967296", " 1", "1 ", "١",
        "99999999999x", "-99999999999x", "4294967296x", "x99999999999", "+-1", "--1", "-0",
        "00000000000000000000000000042", "-00000000000000000000002147483648"] {
        assert_eq!(
            parse_i32(&chars(s)).map_err(kind),
            s.parse::<i32>().map_err(|e| e.kind().clone()),
            "i32 {s:?}"
        );
        assert_eq!(
            parse_u32(&chars(s)).map_err(kind),
            s.parse::<u32>().map_err(|e| e.kind().clone()),
            "u32 {s:?}"
        );
    }
}

#[test]
fn fourth_field_matches_split() {
    for s in ["a.b.c.d", "a.b.c", "...", "....", "a..b.c.d.e", "1.2.3.44", ""] {
        let expected: Option<Vec<char>> = s.split('.').nth(3).map(|f| f.chars().collect());
        assert_eq!(id_field_of(s), expected, "{s:?}");
    }
}

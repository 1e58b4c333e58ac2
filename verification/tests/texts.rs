use regex::Regex;
use stable_ledger::message::Message;
use stable_ledger::text::{
    decimal_text, is_email, is_hit, is_phone_number, join_username, make_username,
};

#[test]
fn numbers_are_written_in_decimal() {
    assert_eq!(decimal_text(0), "0");
    assert_eq!(decimal_text(7), "7");
    assert_eq!(decimal_text(10), "10");
    assert_eq!(decimal_text(1234567890), "1234567890");
    assert_eq!(decimal_text(100200), "100200");
    assert_eq!(decimal_text(u64::MAX), "18446744073709551615");
}

#[test]
fn a_user_name_is_the_names_in_lower_case() {
    assert_eq!(make_username("ALICE", "B"), "aliceb");
    assert_eq!(make_username("Ada", "Lovelace"), "adalovelac");
    assert_eq!(make_username("ÉMILE", "Zola"), "émilezola");
    assert_eq!(make_username("Maximiliane", "X"), "maximilian");
    assert_eq!(make_username("x", ""), "x");
}

#[test]
fn a_user_name_is_cut_after_ten_characters() {
    assert_eq!(join_username("abcde", "fghij"), "abcdefghij");
    assert_eq!(join_username("abcde", "fghijk"), "abcdefghij");
    assert_eq!(join_username("", ""), "");
    assert_eq!(join_username("ääääää", "öööööö"), "ääääääöööö");
    assert_eq!(join_username("Kept", "AsItIs"), "KeptAsItIs");
}

#[test]
fn an_email_address_has_a_local_part_a_domain_and_an_ending() {
    assert!(is_email("a@b.c"));
    assert!(is_email("alice@x.com"));
    assert!(is_email("first.last@sub.domain.org"));
    assert!(!is_email(""));
    assert!(!is_email("alice"));
    assert!(!is_email("alice@x"));
    assert!(!is_email("al ice@x.com"));
    assert!(!is_email("alice@x.com\n"));
    assert!(!is_email("a@b@c.d"));
}

#[test]
fn a_phone_number_has_two_to_fifteen_digits() {
    assert!(is_phone_number("12"));
    assert!(is_phone_number("+12"));
    assert!(is_phone_number("+4915112345678"));
    assert!(is_phone_number("123456789012345"));
    assert!(!is_phone_number("1"));
    assert!(!is_phone_number("012"));
    assert!(!is_phone_number("1234567890123456"));
    assert!(!is_phone_number("+49 151"));
    assert!(!is_phone_number(""));
}

#[test]
fn a_pattern_that_does_not_compile_matches_nothing() {
    assert!(is_hit(Ok(true)));
    assert!(!is_hit(Ok(false)));
    assert!(!is_hit(Err(Regex::new("(").unwrap_err())));
}

#[test]
fn a_message_hands_out_its_text() {
    assert_eq!(Message::Success("a".to_string()).text(), "a");
    assert_eq!(Message::Error("b".to_string()).text(), "b");
    assert_eq!(Message::NotFound("c".to_string()).text(), "c");
    assert_eq!(Message::InvalidPayload("d".to_string()).text(), "d");
    assert_eq!(Message::Unauthorized("e".to_string()).text(), "e");
}

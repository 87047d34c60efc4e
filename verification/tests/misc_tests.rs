use rustbits::counter::{Counter, Operation};
use rustbits::guessing::{parse_guess, pick_secret};
use rustbits::hello::hello_from_rust;
use rustbits::summary::{Deva, Summary};

#[test]
fn hello_says_hello() {
    assert_eq!(hello_from_rust(), "Hello");
}

#[test]
fn deva_summary_is_its_text() {
    let d = Deva { title: "T".to_string(), text: "body text".to_string() };
    assert_eq!(d.summarize(), "body text");
}

#[test]
fn counter_adds_and_subtracts() {
    let mut c = Counter { count: 10 };
    c.apply(&Operation::Add(5));
    assert_eq!(c.count, 15);
    c.apply(&Operation::Sub(15));
    assert_eq!(c.count, 0);
}

#[test]
fn counter_add_then_sub_restores() {
    let mut c = Counter { count: 77 };
    c.apply(&Operation::Add(1000));
    c.apply(&Operation::Sub(1000));
    assert_eq!(c.count, 77);
}

#[test]
fn counter_range_checks() {
    let c = Counter { count: 3 };
    assert!(!c.can_apply(&Operation::Sub(4)));
    assert!(c.can_apply(&Operation::Sub(3)));
    let m = Counter { count: u32::MAX - 1 };
    assert!(m.can_apply(&Operation::Add(1)));
    assert!(!m.can_apply(&Operation::Add(2)));
}

#[test]
fn secret_is_between_1_and_100() {
    for _ in 0..200 {
        let n = pick_secret();
        assert!((1..=100).contains(&n));
    }
}

#[test]
fn guesses_parse_like_u32_after_trimming() {
    assert_eq!(parse_guess("42\n"), Some(42));
    assert_eq!(parse_guess("  +7 \t"), Some(7));
    assert_eq!(parse_guess("4294967295"), Some(u32::MAX));
    assert_eq!(parse_guess("4294967296"), None);
    assert_eq!(parse_guess("-1"), None);
    assert_eq!(parse_guess("+"), None);
    assert_eq!(parse_guess(""), None);
    assert_eq!(parse_guess("  \n"), None);
    assert_eq!(parse_guess("1 2"), None);
    assert_eq!(parse_guess("\u{3000}12\u{a0}"), Some(12));
    assert_eq!(parse_guess("007"), Some(7));
    assert_eq!(parse_guess("5\n7\n"), None);
}

#[test]
fn guess_parsing_agrees_with_std() {
    for s in ["0", " 99 ", "abc", "+0", "++1", "12a", "99999999999", "\t100\r\n"] {
        assert_eq!(parse_guess(s), s.trim().parse::<u32>().ok());
    }
}

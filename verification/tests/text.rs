use bevy_light_field::text::{chars_of, decimal, parse_number, push_decimal};

#[test]
fn decimal_writes_digits_without_leading_zeros() {
    assert_eq!(decimal(0), "0");
    assert_eq!(decimal(7), "7");
    assert_eq!(decimal(10), "10");
    assert_eq!(decimal(1080), "1080");
    assert_eq!(decimal(usize::MAX), usize::MAX.to_string());
}

#[test]
fn push_decimal_adds_to_the_end() {
    let mut s = String::from("frame-");
    push_decimal(&mut s, 42);
    assert_eq!(s, "frame-42");
}

#[test]
fn parse_number_reads_digits() {
    assert_eq!(parse_number("0"), Some(0));
    assert_eq!(parse_number("007"), Some(7));
    assert_eq!(parse_number("+12"), Some(12));
    assert_eq!(parse_number("1234567890"), Some(1234567890));
    assert_eq!(parse_number(&usize::MAX.to_string()), Some(usize::MAX));
}

#[test]
fn parse_number_rejects_what_is_no_number() {
    assert_eq!(parse_number(""), None);
    assert_eq!(parse_number("+"), None);
    assert_eq!(parse_number("-1"), None);
    assert_eq!(parse_number("++1"), None);
    assert_eq!(parse_number("1+"), None);
    assert_eq!(parse_number("12a"), None);
    assert_eq!(parse_number(" 1"), None);
    assert_eq!(parse_number("٣"), None);
}

#[test]
fn parse_number_rejects_what_does_not_fit() {
    let mut beyond = usize::MAX.to_string();
    beyond.push('0');
    assert_eq!(parse_number(&beyond), None);
    let last = (usize::MAX % 10) as u8;
    if last < 9 {
        let mut next = usize::MAX.to_string();
        next.pop();
        next.push((b'0' + last + 1) as char);
        assert_eq!(parse_number(&next), None);
    }
}

#[test]
fn parse_number_agrees_with_the_standard_parser() {
    for name in ["0", "1", "+1", "99", "0099", "", "+", "x", "1x", "18446744073709551616"] {
        assert_eq!(parse_number(name), name.parse::<usize>().ok(), "{name}");
    }
}

#[test]
fn written_numbers_read_back() {
    for n in [0usize, 1, 9, 10, 99, 100, 65535, usize::MAX] {
        assert_eq!(parse_number(&decimal(n)), Some(n));
    }
}

#[test]
fn chars_of_keeps_every_character() {
    assert_eq!(chars_of("a/ß/1.png"), vec!['a', '/', 'ß', '/', '1', '.', 'p', 'n', 'g']);
    assert!(chars_of("").is_empty());
}

use leader_election::decimal::{format_i32, parse_i32};

#[test]
fn parse_accepts_plain_signed_and_padded_numbers() {
    assert_eq!(parse_i32("0"), Some(0));
    assert_eq!(parse_i32("42"), Some(42));
    assert_eq!(parse_i32("-12"), Some(-12));
    assert_eq!(parse_i32("+7"), Some(7));
    assert_eq!(parse_i32("007"), Some(7));
    assert_eq!(parse_i32("-0"), Some(0));
}

#[test]
fn parse_range_edges() {
    assert_eq!(parse_i32("2147483647"), Some(i32::MAX));
    assert_eq!(parse_i32("-2147483648"), Some(i32::MIN));
    assert_eq!(parse_i32("2147483648"), None);
    assert_eq!(parse_i32("-2147483649"), None);
    assert_eq!(parse_i32("99999999999999999999"), None);
    assert_eq!(parse_i32("00000000000000000000012"), Some(12));
}

#[test]
fn parse_rejects_malformed_text() {
    assert_eq!(parse_i32(""), None);
    assert_eq!(parse_i32("-"), None);
    assert_eq!(parse_i32("+"), None);
    assert_eq!(parse_i32("12a"), None);
    assert_eq!(parse_i32(" 1"), None);
    assert_eq!(parse_i32("1 "), None);
    assert_eq!(parse_i32("--1"), None);
    assert_eq!(parse_i32("+-1"), None);
    assert_eq!(parse_i32("\u{663}"), None);
}

#[test]
fn parse_agrees_with_std_parse() {
    let samples = [
        "0", "1", "-1", "+1", "", "-", "+", "abc", "12x", "2147483647", "2147483648", "-2147483648",
        "-2147483649", "0001", "-0001", "1_000", "\u{ff11}", "3.5", "1e3", "  ", "+0", "-+3",
    ];
    for s in samples.iter() {
        assert_eq!(parse_i32(s), s.parse::<i32>().ok(), "text {:?}", s);
    }
}

#[test]
fn format_matches_to_string() {
    let samples = [0, 1, 9, 10, 99, 100, 12345, -1, -10, -987654, i32::MAX, i32::MIN];
    for n in samples.iter() {
        assert_eq!(format_i32(*n), n.to_string());
    }
}

#[test]
fn format_then_parse_gives_back_the_id() {
    for n in [-1000, -3, 0, 3, 17, 1000, i32::MAX, i32::MIN].iter() {
        assert_eq!(parse_i32(format_i32(*n).as_str()), Some(*n));
    }
}

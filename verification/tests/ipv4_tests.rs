use dyndns::ipv4::{format_ipv4_string, parse_ipv4_str, parse_ipv4_trimmed_str, unspecified_ipv4, Ipv4Address};

fn addr(a: u8, b: u8, c: u8, d: u8) -> Ipv4Address {
    Ipv4Address { a, b, c, d }
}

#[test]
fn parses_dotted_decimal() {
    assert_eq!(parse_ipv4_str("192.168.0.1"), Some(addr(192, 168, 0, 1)));
    assert_eq!(parse_ipv4_str("0.0.0.0"), Some(addr(0, 0, 0, 0)));
    assert_eq!(parse_ipv4_str("255.255.255.255"), Some(addr(255, 255, 255, 255)));
    assert_eq!(parse_ipv4_str("8.8.4.4"), Some(addr(8, 8, 4, 4)));
}

#[test]
fn rejects_out_of_range_octets() {
    assert_eq!(parse_ipv4_str("256.0.0.1"), None);
    assert_eq!(parse_ipv4_str("1.2.3.300"), None);
    assert_eq!(parse_ipv4_str("1.2.3.1000"), None);
}

#[test]
fn rejects_leading_zeros() {
    assert_eq!(parse_ipv4_str("01.2.3.4"), None);
    assert_eq!(parse_ipv4_str("1.2.3.00"), None);
    assert_eq!(parse_ipv4_str("1.2.3.0004"), None);
    assert_eq!(parse_ipv4_str("10.0.0.0"), Some(addr(10, 0, 0, 0)));
}

#[test]
fn rejects_wrong_group_counts() {
    assert_eq!(parse_ipv4_str(""), None);
    assert_eq!(parse_ipv4_str("1.2.3"), None);
    assert_eq!(parse_ipv4_str("1.2.3.4.5"), None);
    assert_eq!(parse_ipv4_str("1..2.3"), None);
    assert_eq!(parse_ipv4_str("1.2.3.4."), None);
    assert_eq!(parse_ipv4_str(".1.2.3.4"), None);
    assert_eq!(parse_ipv4_str("..."), None);
}

#[test]
fn rejects_other_characters() {
    assert_eq!(parse_ipv4_str(" 1.2.3.4"), None);
    assert_eq!(parse_ipv4_str("1.2.3.4\n"), None);
    assert_eq!(parse_ipv4_str("+1.2.3.4"), None);
    assert_eq!(parse_ipv4_str("1.2.3.a"), None);
    assert_eq!(parse_ipv4_str("1.2.3.\u{0664}"), None);
    assert_eq!(parse_ipv4_str("::1"), None);
}

#[test]
fn trimmed_parse_accepts_surrounding_whitespace() {
    assert_eq!(parse_ipv4_trimmed_str("  203.0.113.7\n"), Some(addr(203, 0, 113, 7)));
    assert_eq!(parse_ipv4_trimmed_str("\u{a0}1.2.3.4\u{3000}\r\n"), Some(addr(1, 2, 3, 4)));
    assert_eq!(parse_ipv4_trimmed_str("1.2. 3.4"), None);
    assert_eq!(parse_ipv4_trimmed_str("   "), None);
}

#[test]
fn formats_dotted_decimal() {
    assert_eq!(format_ipv4_string(addr(10, 0, 0, 255)), "10.0.0.255");
    assert_eq!(format_ipv4_string(addr(0, 0, 0, 0)), "0.0.0.0");
    assert_eq!(format_ipv4_string(addr(255, 99, 100, 9)), "255.99.100.9");
}

#[test]
fn format_then_parse_gives_back_the_address() {
    for a in [addr(1, 2, 3, 4), addr(255, 0, 10, 100), addr(0, 0, 0, 0), addr(99, 199, 201, 250)] {
        assert_eq!(parse_ipv4_str(&format_ipv4_string(a)), Some(a));
        assert_eq!(parse_ipv4_trimmed_str(&format_ipv4_string(a)), Some(a));
    }
}

#[test]
fn parse_then_format_gives_back_the_text() {
    for s in ["1.2.3.4", "255.255.255.0", "0.10.100.200"] {
        let a = parse_ipv4_str(s).unwrap();
        assert_eq!(format_ipv4_string(a), s);
    }
}

#[test]
fn unspecified_is_all_zero() {
    assert_eq!(unspecified_ipv4(), addr(0, 0, 0, 0));
}

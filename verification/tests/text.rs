use bagua_net::text::{
    dotted_quad_text, parse_i32, parse_ipv4, parse_u16, parse_u8, push_decimal, starts_with,
};

#[test]
fn decimal_numbers_are_written_without_leading_zeros() {
    let cases: [(u32, &str); 6] =
        [(0, "0"), (9, "9"), (10, "10"), (104, "104"), (41000, "41000"), (u32::MAX, "4294967295")];
    for (n, expected) in cases {
        let mut text = String::from("x");
        push_decimal(&mut text, n);
        assert_eq!(text, format!("x{}", expected));
    }
}

#[test]
fn signed_numbers_read_as_the_standard_library_reads_them() {
    let cases = [
        "", "+", "-", "0", "-0", "+0", "007", "-1", "+12", "2147483647", "2147483648",
        "-2147483648", "-2147483649", "99999999999999999999", " 1", "1 ", "1_000", "--1", "+-1",
        "0x1", "12a", "\u{661}",
    ];
    for s in cases {
        assert_eq!(parse_i32(s), s.parse::<i32>().ok(), "{:?}", s);
    }
    assert_eq!(parse_i32("-1"), Some(-1));
    assert_eq!(parse_i32("-2147483648"), Some(i32::MIN));
}

#[test]
fn unsigned_numbers_read_as_the_standard_library_reads_them() {
    let cases = [
        "", "+", "-", "0", "-0", "+0", "007", "-1", "+8", "255", "256", "65535", "65536", "41000",
        " 1", "1 ", "a", "999999999999",
    ];
    for s in cases {
        assert_eq!(parse_u8(s), s.parse::<u8>().ok(), "{:?}", s);
        assert_eq!(parse_u16(s), s.parse::<u16>().ok(), "{:?}", s);
    }
    assert_eq!(parse_u8("255"), Some(255));
    assert_eq!(parse_u16("41000"), Some(41000));
}

#[test]
fn addresses_are_read_and_written() {
    assert_eq!(parse_ipv4("10.40.1.104"), Some([10, 40, 1, 104]));
    assert_eq!(parse_ipv4("0.0.0.0"), Some([0, 0, 0, 0]));
    assert_eq!(parse_ipv4("255.255.255.255"), Some([255, 255, 255, 255]));
    assert_eq!(dotted_quad_text([10, 40, 1, 104]), "10.40.1.104");
    assert_eq!(dotted_quad_text([0, 9, 100, 255]), "0.9.100.255");
}

#[test]
fn what_is_no_address_is_refused() {
    let cases = [
        "", ".", "1", "1.2.3", "1.2.3.", "1.2.3.4.", "1.2.3.4.5", ".1.2.3", "1..2.3", "256.1.1.1",
        "1.1.1.256", "01.2.3.4", "1.2.3.04", "00.0.0.0", "1.2.3.4 ", " 1.2.3.4", "1.2.3.-4",
        "1.2.3.+4", "1.2.3.a", "1000.1.1.1", "1.2.3.0004", "localhost", "::1",
    ];
    for s in cases {
        assert_eq!(parse_ipv4(s), None, "{:?}", s);
    }
}

#[test]
fn every_octet_survives_writing_and_reading() {
    for n in 0..=255u8 {
        let octets: [u8; 4] = [n, 255 - n, 7, n / 2];
        assert_eq!(parse_ipv4(&dotted_quad_text(octets)), Some(octets));
    }
}

#[test]
fn prefixes_are_compared_character_by_character() {
    assert!(starts_with("node0", "node"));
    assert!(starts_with("node", "node"));
    assert!(starts_with("anything", ""));
    assert!(!starts_with("nod", "node"));
    assert!(!starts_with("xnode", "node"));
    assert!(!starts_with("Node0", "node"));
}

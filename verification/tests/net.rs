use oxidinetd::access_control::IpPattern;
use oxidinetd::ipv4_text::{parse_ipv4, parse_octet};
use oxidinetd::ipv6_text::{hex_text, parse_hex_group, parse_ipv6};
use oxidinetd::net::{Endpoint, IpAddress, Ipv4Address, Ipv6Address};
use oxidinetd::text::{chars_of, string_of};

fn ipv4(text: &str) -> Option<Ipv4Address> {
    parse_ipv4(&chars_of(text))
}

fn ipv6(text: &str) -> Option<Ipv6Address> {
    parse_ipv6(&chars_of(text))
}

#[test]
fn ipv4_bits_and_octets() {
    let a = Ipv4Address::new(192, 168, 1, 10);
    assert_eq!(a.bits, 0xC0A8_010A);
    assert_eq!(a.octets(), [192, 168, 1, 10]);
    assert_eq!(Ipv4Address::new(0, 0, 0, 0).bits, 0);
    assert_eq!(Ipv4Address::new(255, 255, 255, 255).bits, u32::MAX);
}

#[test]
fn ipv6_bits_from_groups() {
    let a = Ipv6Address::new(0x2001, 0xdb8, 0, 0, 0, 0, 0, 1);
    assert_eq!(a.bits, 0x2001_0db8_0000_0000_0000_0000_0000_0001);
    let all = Ipv6Address::new(0xffff, 0xffff, 0xffff, 0xffff, 0xffff, 0xffff, 0xffff, 0xffff);
    assert_eq!(all.bits, u128::MAX);
    assert_eq!(Ipv6Address::from_groups(&[1, 2, 3, 4, 5, 6, 7, 8]).bits,
        0x0001_0002_0003_0004_0005_0006_0007_0008);
}

#[test]
fn octets_are_canonical_decimals() {
    assert_eq!(parse_octet(&chars_of("0")), Some(0));
    assert_eq!(parse_octet(&chars_of("9")), Some(9));
    assert_eq!(parse_octet(&chars_of("10")), Some(10));
    assert_eq!(parse_octet(&chars_of("255")), Some(255));
    assert_eq!(parse_octet(&chars_of("256")), None);
    assert_eq!(parse_octet(&chars_of("00")), None);
    assert_eq!(parse_octet(&chars_of("01")), None);
    assert_eq!(parse_octet(&chars_of("0255")), None);
    assert_eq!(parse_octet(&chars_of("+1")), None);
    assert_eq!(parse_octet(&chars_of("")), None);
    assert_eq!(parse_octet(&chars_of("1a")), None);
}

#[test]
fn ipv4_texts() {
    assert_eq!(ipv4("127.0.0.1"), Some(Ipv4Address::new(127, 0, 0, 1)));
    assert_eq!(ipv4("0.0.0.0"), Some(Ipv4Address::new(0, 0, 0, 0)));
    assert_eq!(ipv4("255.255.255.255"), Some(Ipv4Address::new(255, 255, 255, 255)));
    assert_eq!(ipv4("1.2.3"), None);
    assert_eq!(ipv4("1.2.3.4.5"), None);
    assert_eq!(ipv4("1.2.3.4."), None);
    assert_eq!(ipv4(".1.2.3.4"), None);
    assert_eq!(ipv4("1.2..4"), None);
    assert_eq!(ipv4("1.2.3.256"), None);
    assert_eq!(ipv4("1.2.3.04"), None);
    assert_eq!(ipv4(""), None);
    assert_eq!(ipv4("localhost"), None);
    assert_eq!(ipv4("1.2.3.4\n"), None);
}

#[test]
fn hex_groups() {
    assert_eq!(parse_hex_group(&chars_of("0")), Some(0));
    assert_eq!(parse_hex_group(&chars_of("db8")), Some(0xdb8));
    assert_eq!(parse_hex_group(&chars_of("DB8")), Some(0xdb8));
    assert_eq!(parse_hex_group(&chars_of("ffff")), Some(0xffff));
    assert_eq!(parse_hex_group(&chars_of("0001")), Some(1));
    assert_eq!(parse_hex_group(&chars_of("10000")), None);
    assert_eq!(parse_hex_group(&chars_of("")), None);
    assert_eq!(parse_hex_group(&chars_of("g")), None);
    assert_eq!(parse_hex_group(&chars_of("+1")), None);
}

#[test]
fn ipv6_full_texts() {
    assert_eq!(ipv6("1:2:3:4:5:6:7:8"), Some(Ipv6Address::new(1, 2, 3, 4, 5, 6, 7, 8)));
    assert_eq!(
        ipv6("2001:0db8:0000:0000:0000:0000:0000:0001"),
        Some(Ipv6Address::new(0x2001, 0xdb8, 0, 0, 0, 0, 0, 1))
    );
    assert_eq!(ipv6("1:2:3:4:5:6:7"), None);
    assert_eq!(ipv6("1:2:3:4:5:6:7:8:9"), None);
    assert_eq!(ipv6("1:2:3:4:5:6:7:"), None);
    assert_eq!(ipv6(":1:2:3:4:5:6:7"), None);
    assert_eq!(ipv6("1:2:3:4:5:6:7:12345"), None);
    assert_eq!(ipv6("1:2:3:4:5:6:7:g"), None);
}

#[test]
fn ipv6_compressed_texts() {
    assert_eq!(ipv6("::"), Some(Ipv6Address::new(0, 0, 0, 0, 0, 0, 0, 0)));
    assert_eq!(ipv6("::1"), Some(Ipv6Address::new(0, 0, 0, 0, 0, 0, 0, 1)));
    assert_eq!(ipv6("1::"), Some(Ipv6Address::new(1, 0, 0, 0, 0, 0, 0, 0)));
    assert_eq!(ipv6("2001:db8::1"), Some(Ipv6Address::new(0x2001, 0xdb8, 0, 0, 0, 0, 0, 1)));
    assert_eq!(ipv6("1::8"), Some(Ipv6Address::new(1, 0, 0, 0, 0, 0, 0, 8)));
    assert_eq!(ipv6("1:2:3:4:5:6:7::"), Some(Ipv6Address::new(1, 2, 3, 4, 5, 6, 7, 0)));
    assert_eq!(ipv6("::2:3:4:5:6:7:8"), Some(Ipv6Address::new(0, 2, 3, 4, 5, 6, 7, 8)));
    assert_eq!(ipv6("1:2:3::6:7:8"), Some(Ipv6Address::new(1, 2, 3, 0, 0, 6, 7, 8)));
    assert_eq!(ipv6("1:2:3:4::5:6:7:8"), None);
    assert_eq!(ipv6("1::2::3"), None);
    assert_eq!(ipv6(":::"), None);
    assert_eq!(ipv6("1:::2"), None);
    assert_eq!(ipv6(":"), None);
    assert_eq!(ipv6("1:"), None);
    assert_eq!(ipv6(":1"), None);
    assert_eq!(ipv6(""), None);
    assert_eq!(ipv6("1:2:3:4:5:6:7:8::"), None);
    assert_eq!(ipv6("::1:2:3:4:5:6:7:8"), None);
}

#[test]
fn ipv6_texts_with_embedded_ipv4() {
    assert_eq!(
        ipv6("::ffff:192.168.1.10"),
        Some(Ipv6Address::new(0, 0, 0, 0, 0, 0xffff, 0xc0a8, 0x010a))
    );
    assert_eq!(ipv6("::1.2.3.4"), Some(Ipv6Address::new(0, 0, 0, 0, 0, 0, 0x0102, 0x0304)));
    assert_eq!(
        ipv6("1:2:3:4:5:6:1.2.3.4"),
        Some(Ipv6Address::new(1, 2, 3, 4, 5, 6, 0x0102, 0x0304))
    );
    assert_eq!(ipv6("1:2:3:4:5::1.2.3.4"), Some(Ipv6Address::new(1, 2, 3, 4, 5, 0, 0x0102, 0x0304)));
    assert_eq!(ipv6("1:2:3:4:5:6::1.2.3.4"), None);
    assert_eq!(ipv6("1:2:3:4:5:6:7:1.2.3.4"), None);
    assert_eq!(ipv6("1.2.3.4::"), None);
    assert_eq!(ipv6("1.2.3.4"), None);
    assert_eq!(ipv6("::1.2.3.4:5"), None);
    assert_eq!(ipv6("::1.2.3"), None);
    assert_eq!(ipv6("::1.2.3.256"), None);
    assert_eq!(ipv6("fe80::1%eth0"), None);
}

#[test]
fn endpoints_compare_by_address_and_port() {
    let a = Endpoint { ip: IpAddress::V4(Ipv4Address::new(127, 0, 0, 1)), port: 9000 };
    let b = Endpoint { ip: IpAddress::V4(Ipv4Address::new(127, 0, 0, 1)), port: 9000 };
    let c = Endpoint { ip: IpAddress::V4(Ipv4Address::new(127, 0, 0, 1)), port: 9001 };
    assert_eq!(a, b);
    assert_ne!(a, c);
}

#[test]
fn ipv4_text_is_dotted_decimal() {
    assert_eq!(Ipv4Address::new(192, 168, 1, 10).text(), "192.168.1.10");
    assert_eq!(Ipv4Address::new(0, 0, 0, 0).text(), "0.0.0.0");
    assert_eq!(Ipv4Address::new(255, 255, 255, 255).text(), "255.255.255.255");
    assert_eq!(Ipv4Address::new(10, 0, 100, 9).text(), "10.0.100.9");
}

#[test]
fn ipv6_groups_and_full_text() {
    let a = Ipv6Address::new(0x2001, 0xdb8, 0, 0, 0, 0, 0, 1);
    assert_eq!(a.groups(), [0x2001, 0xdb8, 0, 0, 0, 0, 0, 1]);
    assert_eq!(a.text(), "2001:db8:0:0:0:0:0:1");
    assert_eq!(Ipv6Address::new(0, 0, 0, 0, 0, 0, 0, 0).text(), "0:0:0:0:0:0:0:0");
    let all = Ipv6Address::new(0xffff, 0xffff, 0xffff, 0xffff, 0xffff, 0xffff, 0xffff, 0xffff);
    assert_eq!(all.text(), "ffff:ffff:ffff:ffff:ffff:ffff:ffff:ffff");
    assert_eq!(all.groups(), [0xffff; 8]);
    assert_eq!(string_of(&hex_text(0xabc)), "abc");
    assert_eq!(string_of(&hex_text(0)), "0");
    assert_eq!(string_of(&hex_text(16)), "10");
}

#[test]
fn texts_read_back_as_their_addresses() {
    let four = Ipv4Address::new(203, 0, 113, 7);
    assert_eq!(ipv4(&four.text()), Some(four));
    let six = Ipv6Address::new(0xfe80, 0, 0, 0, 0x1, 0xa0b, 0xc00, 0xd);
    assert_eq!(ipv6(&six.text()), Some(six));
}

#[test]
fn own_text_as_pattern_matches_that_address_only() {
    let four = Ipv4Address::new(203, 0, 113, 7);
    let pattern = IpPattern { pattern: four.text() };
    assert!(pattern.matches(IpAddress::V4(four)));
    assert!(!pattern.matches(IpAddress::V4(Ipv4Address::new(203, 0, 113, 8))));
    assert!(!pattern.matches(IpAddress::V4(Ipv4Address::new(204, 0, 113, 7))));
    let six = Ipv6Address::new(0x2001, 0xdb8, 0, 0, 0, 0, 0, 1);
    let pattern = IpPattern { pattern: six.text() };
    assert!(pattern.matches(IpAddress::V6(six)));
    assert!(!pattern.matches(IpAddress::V6(Ipv6Address::new(0x2001, 0xdb8, 0, 0, 0, 0, 0, 2))));
    assert!(!pattern.matches(IpAddress::V4(four)));
}

#[test]
fn ipv6_group_count_with_embedded_ipv4() {
    assert_eq!(
        ipv6("::1:2:3:4:5:6.7.8.9"),
        Some(Ipv6Address::new(0, 1, 2, 3, 4, 5, 0x0607, 0x0809))
    );
    assert_eq!(
        ipv6("1::2:3:4:5:6.7.8.9"),
        Some(Ipv6Address::new(1, 0, 2, 3, 4, 5, 0x0607, 0x0809))
    );
    assert_eq!(
        ipv6("1:2::3:4:5:6.7.8.9"),
        Some(Ipv6Address::new(1, 2, 0, 3, 4, 5, 0x0607, 0x0809))
    );
    assert_eq!(ipv6("1:2:3::4:5:6:7.8.9.10"), None);
    assert_eq!(ipv6("::01.2.3.4"), None);
    assert_eq!(ipv6("1:1.2.3.4::"), None);
    assert_eq!(ipv6("::ffff:256.1.1.1"), None);
    assert_eq!(ipv6("::.1.2.3"), None);
    assert_eq!(ipv6("00000::"), None);
    assert_eq!(ipv6("::00001"), None);
    assert_eq!(ipv6("[::1]"), None);
    assert_eq!(ipv6(" ::1"), None);
    assert_eq!(ipv6("::1 "), None);
    assert_eq!(ipv6("a:b::c:d"), Some(Ipv6Address::new(0xa, 0xb, 0, 0, 0, 0, 0xc, 0xd)));
    assert_eq!(
        ipv6("A:B:C:D:E:F:0:1"),
        Some(Ipv6Address::new(0xa, 0xb, 0xc, 0xd, 0xe, 0xf, 0, 1))
    );
    assert_eq!(
        ipv6("::ffff:255.255.255.255"),
        Some(Ipv6Address::new(0, 0, 0, 0, 0, 0xffff, 0xffff, 0xffff))
    );
}

fn short(groups: [u16; 8]) -> String {
    Ipv6Address::from_groups(&groups).canonical_text()
}

#[test]
fn ipv6_short_text_leaves_out_the_longest_zero_run() {
    assert_eq!(short([0x2001, 0xdb8, 0, 0, 0, 0, 0, 1]), "2001:db8::1");
    assert_eq!(short([0, 0, 0, 0, 0, 0, 0, 0]), "::");
    assert_eq!(short([0, 0, 0, 0, 0, 0, 0, 1]), "::1");
    assert_eq!(short([1, 0, 0, 0, 0, 0, 0, 0]), "1::");
    assert_eq!(short([0xfe80, 0, 0, 0, 1, 2, 3, 4]), "fe80::1:2:3:4");
    assert_eq!(short([0, 0, 1, 0, 0, 0, 0, 0]), "0:0:1::");
    assert_eq!(short([0, 0, 0, 1, 0, 0, 2, 3]), "::1:0:0:2:3");
    assert_eq!(short([1, 0, 0, 2, 0, 0, 0, 3]), "1:0:0:2::3");
    assert_eq!(short([1, 2, 3, 4, 5, 6, 0, 0]), "1:2:3:4:5:6::");
    assert_eq!(short([0, 0, 3, 4, 5, 6, 7, 8]), "::3:4:5:6:7:8");
}

#[test]
fn ipv6_short_text_takes_the_first_of_equal_runs() {
    assert_eq!(short([1, 0, 0, 2, 0, 0, 3, 4]), "1::2:0:0:3:4");
    assert_eq!(short([0, 0, 1, 2, 3, 4, 0, 0]), "::1:2:3:4:0:0");
    assert_eq!(short([1, 0, 0, 0, 2, 0, 0, 0]), "1::2:0:0:0");
}

#[test]
fn ipv6_short_text_keeps_a_single_zero_group() {
    assert_eq!(short([1, 0, 2, 3, 4, 5, 6, 7]), "1:0:2:3:4:5:6:7");
    assert_eq!(short([0, 2, 3, 4, 5, 6, 7, 8]), "0:2:3:4:5:6:7:8");
    assert_eq!(short([1, 2, 3, 4, 5, 6, 7, 0]), "1:2:3:4:5:6:7:0");
    assert_eq!(short([1, 0, 2, 0, 3, 0, 4, 0]), "1:0:2:0:3:0:4:0");
    assert_eq!(short([1, 2, 3, 4, 5, 6, 7, 8]), "1:2:3:4:5:6:7:8");
    assert_eq!(
        short([0xABCD, 0x00EF, 0x1234, 0x5678, 0x9abc, 0xdef0, 0x000f, 0xffff]),
        "abcd:ef:1234:5678:9abc:def0:f:ffff"
    );
}

#[test]
fn ipv6_short_text_of_an_address_that_stands_for_ipv4() {
    assert_eq!(short([0, 0, 0, 0, 0, 0xffff, 0xc000, 0x0201]), "::ffff:192.0.2.1");
    assert_eq!(short([0, 0, 0, 0, 0, 0xffff, 0, 0]), "::ffff:0.0.0.0");
    assert_eq!(short([0, 0, 0, 0, 0, 0xffff, 0xffff, 0xffff]), "::ffff:255.255.255.255");
    // Only five zero groups before a group of ones make such an address.
    assert_eq!(short([0, 0, 0, 0, 0, 0, 0xc000, 0x0201]), "::c000:201");
    assert_eq!(short([0, 0, 0, 0, 1, 0xffff, 0xc000, 0x0201]), "::1:ffff:c000:201");
    assert_eq!(short([0, 0, 0, 0, 0, 0xfffe, 0xc000, 0x0201]), "::fffe:c000:201");
}

#[test]
fn ipv6_short_texts_read_back_as_their_addresses() {
    let all: [[u16; 8]; 10] = [
        [0, 0, 0, 0, 0, 0, 0, 0],
        [0, 0, 0, 0, 0, 0, 0, 1],
        [1, 0, 0, 0, 0, 0, 0, 0],
        [0x2001, 0xdb8, 0, 0, 0, 0, 0, 1],
        [1, 0, 0, 2, 0, 0, 3, 4],
        [1, 0, 2, 3, 4, 5, 6, 7],
        [1, 2, 3, 4, 5, 6, 0, 0],
        [0, 0, 3, 4, 5, 6, 7, 8],
        [0, 0, 0, 0, 0, 0xffff, 0xc000, 0x0201],
        [0xffff, 0xffff, 0xffff, 0xffff, 0xffff, 0xffff, 0xffff, 0xffff],
    ];
    for groups in all {
        let a = Ipv6Address::from_groups(&groups);
        assert_eq!(ipv6(&a.canonical_text()), Some(a));
    }
}

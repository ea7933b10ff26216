use oxidinetd::access_control::{allowed, allowed_for_rule, first_match, rule_matches, IpPattern};
use oxidinetd::config::{AccessRule, RuleType};
use oxidinetd::net::{IpAddress, Ipv4Address, Ipv6Address};

fn v4(a: u8, b: u8, c: u8, d: u8) -> IpAddress {
    IpAddress::V4(Ipv4Address::new(a, b, c, d))
}

fn pattern(text: &str) -> IpPattern {
    IpPattern { pattern: text.to_string() }
}

fn rule(rule_type: RuleType, text: &str) -> AccessRule {
    AccessRule { rule_type, pattern: text.to_string() }
}

#[test]
fn test_ipv4_wildcard_matching() {
    let pattern = IpPattern { pattern: "192.168.1.*".to_string() };

    assert!(pattern.matches(IpAddress::V4(Ipv4Address::new(192, 168, 1, 10))));
    assert!(pattern.matches(IpAddress::V4(Ipv4Address::new(192, 168, 1, 255))));
    assert!(!pattern.matches(IpAddress::V4(Ipv4Address::new(192, 168, 2, 10))));
}

#[test]
fn test_ipv4_exact_matching() {
    let pattern = IpPattern { pattern: "192.168.1.10".to_string() };

    assert!(pattern.matches(IpAddress::V4(Ipv4Address::new(192, 168, 1, 10))));
    assert!(!pattern.matches(IpAddress::V4(Ipv4Address::new(192, 168, 1, 11))));
}

#[test]
fn test_ipv4_cidr_matching() {
    let pattern = IpPattern { pattern: "192.168.1.0/24".to_string() };

    assert!(pattern.matches(IpAddress::V4(Ipv4Address::new(192, 168, 1, 10))));
    assert!(pattern.matches(IpAddress::V4(Ipv4Address::new(192, 168, 1, 255))));
    assert!(!pattern.matches(IpAddress::V4(Ipv4Address::new(192, 168, 2, 10))));
}

#[test]
fn test_ipv6_exact_matching() {
    let pattern = IpPattern { pattern: "2001:db8::1".to_string() };
    let ip = IpAddress::V6(Ipv6Address::new(0x2001, 0xdb8, 0, 0, 0, 0, 0, 1));

    assert!(pattern.matches(ip));
}

#[test]
fn wildcard_any_octet_pattern_matches_all_ipv4() {
    let p = pattern("*.*.*.*");
    assert!(p.matches(v4(0, 0, 0, 0)));
    assert!(p.matches(v4(255, 255, 255, 255)));
    assert!(p.matches(v4(8, 8, 8, 8)));
}

#[test]
fn wildcard_literal_octets_decide() {
    let p = pattern("10.*.3.*");
    assert!(p.matches(v4(10, 0, 3, 0)));
    assert!(p.matches(v4(10, 200, 3, 77)));
    assert!(!p.matches(v4(11, 200, 3, 77)));
    assert!(!p.matches(v4(10, 200, 4, 77)));
}

#[test]
fn wildcard_needs_four_segments() {
    assert!(!pattern("*").matches(v4(1, 2, 3, 4)));
    assert!(!pattern("1.2.*").matches(v4(1, 2, 3, 4)));
    assert!(!pattern("1.2.3.*.5").matches(v4(1, 2, 3, 4)));
    assert!(!pattern("1.2.3.*.").matches(v4(1, 2, 3, 4)));
    assert!(!pattern("1..3.*").matches(v4(1, 2, 3, 4)));
}

#[test]
fn wildcard_segment_forms() {
    assert!(pattern("+1.002.3.*").matches(v4(1, 2, 3, 4)));
    assert!(!pattern("256.2.3.*").matches(v4(1, 2, 3, 4)));
    assert!(!pattern("a.2.3.*").matches(v4(1, 2, 3, 4)));
    assert!(!pattern("1.2.3.**").matches(v4(1, 2, 3, 4)));
    assert!(!pattern("-1.2.3.*").matches(v4(1, 2, 3, 4)));
    assert!(!pattern(" 1.2.3.*").matches(v4(1, 2, 3, 4)));
}

#[test]
fn cidr_prefix_lengths() {
    assert!(pattern("10.0.0.0/8").matches(v4(10, 1, 2, 3)));
    assert!(!pattern("10.0.0.0/8").matches(v4(11, 1, 2, 3)));
    assert!(pattern("10.1.2.3/32").matches(v4(10, 1, 2, 3)));
    assert!(!pattern("10.1.2.3/32").matches(v4(10, 1, 2, 2)));
    assert!(pattern("10.1.2.3/31").matches(v4(10, 1, 2, 2)));
    assert!(pattern("128.0.0.0/1").matches(v4(200, 1, 2, 3)));
    assert!(!pattern("128.0.0.0/1").matches(v4(100, 1, 2, 3)));
}

#[test]
fn cidr_prefix_zero_matches_every_ipv4() {
    assert!(pattern("0.0.0.0/0").matches(v4(8, 8, 8, 8)));
    assert!(pattern("10.0.0.0/0").matches(v4(255, 255, 255, 255)));
}

#[test]
fn cidr_prefix_above_32_never_matches() {
    assert!(!pattern("10.1.2.3/33").matches(v4(10, 1, 2, 3)));
    assert!(!pattern("10.1.2.3/255").matches(v4(10, 1, 2, 3)));
    assert!(!pattern("10.1.2.3/256").matches(v4(10, 1, 2, 3)));
}

#[test]
fn cidr_malformed_never_matches() {
    assert!(!pattern("10.1.2.3/").matches(v4(10, 1, 2, 3)));
    assert!(!pattern("/24").matches(v4(10, 1, 2, 3)));
    assert!(!pattern("10.1.2.3/24/1").matches(v4(10, 1, 2, 3)));
    assert!(!pattern("10.1.2/24").matches(v4(10, 1, 2, 3)));
    assert!(!pattern("10.1.2.03/24").matches(v4(10, 1, 2, 3)));
    assert!(!pattern("10.1.2.3/x").matches(v4(10, 1, 2, 3)));
}

#[test]
fn cidr_prefix_length_forms() {
    assert!(pattern("10.1.2.0/+24").matches(v4(10, 1, 2, 3)));
    assert!(pattern("10.1.2.0/024").matches(v4(10, 1, 2, 3)));
}

#[test]
fn ipv4_matches_cidr_on_addresses() {
    let a = Ipv4Address::new(192, 168, 1, 10);
    let b = Ipv4Address::new(192, 168, 1, 0);
    let c = Ipv4Address::new(192, 168, 2, 0);
    assert!(IpPattern::ipv4_matches_cidr(a, b, 24));
    assert!(!IpPattern::ipv4_matches_cidr(a, c, 24));
    assert!(IpPattern::ipv4_matches_cidr(a, c, 22));
    assert!(IpPattern::ipv4_matches_cidr(a, c, 0));
    assert!(!IpPattern::ipv4_matches_cidr(a, a, 33));
    assert!(IpPattern::ipv4_matches_cidr(a, a, 32));
}

#[test]
fn exact_pattern_forms() {
    assert!(pattern("0.0.0.0").matches(v4(0, 0, 0, 0)));
    assert!(pattern("255.255.255.255").matches(v4(255, 255, 255, 255)));
    assert!(!pattern("01.2.3.4").matches(v4(1, 2, 3, 4)));
    assert!(!pattern("+1.2.3.4").matches(v4(1, 2, 3, 4)));
    assert!(!pattern("1.2.3").matches(v4(1, 2, 3, 0)));
    assert!(!pattern("1.2.3.4 ").matches(v4(1, 2, 3, 4)));
    assert!(!pattern("").matches(v4(0, 0, 0, 0)));
}

#[test]
fn ipv6_patterns_match_exactly_only() {
    let one = Ipv6Address::new(0x2001, 0xdb8, 0, 0, 0, 0, 0, 1);
    let two = Ipv6Address::new(0x2001, 0xdb8, 0, 0, 0, 0, 0, 2);
    assert!(pattern("2001:db8::1").matches_ipv6(one));
    assert!(!pattern("2001:db8::1").matches_ipv6(two));
    assert!(pattern("2001:0DB8:0:0:0:0:0:1").matches_ipv6(one));
    assert!(!pattern("2001:db8::/32").matches_ipv6(one));
    assert!(!pattern("2001:db8::*").matches_ipv6(one));
    assert!(!pattern("2001:db8::1/128").matches_ipv6(one));
    assert!(!pattern("*").matches_ipv6(one));
}

#[test]
fn families_keep_apart() {
    let six = IpAddress::V6(Ipv6Address::new(0, 0, 0, 0, 0, 0xffff, 0x0102, 0x0304));
    assert!(!pattern("1.2.3.4").matches(six));
    assert!(!pattern("*.*.*.*").matches(six));
    assert!(!pattern("0.0.0.0/0").matches(six));
    assert!(pattern("::ffff:1.2.3.4").matches(six));
    assert!(!pattern("::ffff:1.2.3.4").matches(v4(1, 2, 3, 4)));
    assert!(!pattern("::1").matches(v4(0, 0, 0, 1)));
}

#[test]
fn deny_block_then_allow_all() {
    let rules = vec![rule(RuleType::Deny, "10.0.0.0/8"), rule(RuleType::Allow, "*")];
    assert!(!allowed(&rules, v4(10, 1, 2, 3)));
    assert!(allowed(&rules, v4(8, 8, 8, 8)));
}

#[test]
fn no_rules_allow_everything() {
    let rules: Vec<AccessRule> = Vec::new();
    assert!(allowed(&rules, v4(10, 1, 2, 3)));
    assert!(allowed(&rules, IpAddress::V6(Ipv6Address::new(0, 0, 0, 0, 0, 0, 0, 1))));
}

#[test]
fn first_matching_rule_wins() {
    let allow_first = vec![rule(RuleType::Allow, "10.1.2.3"), rule(RuleType::Deny, "10.0.0.0/8")];
    assert!(allowed(&allow_first, v4(10, 1, 2, 3)));
    assert!(!allowed(&allow_first, v4(10, 1, 2, 4)));
    let deny_first = vec![rule(RuleType::Deny, "10.0.0.0/8"), rule(RuleType::Allow, "10.1.2.3")];
    assert!(!allowed(&deny_first, v4(10, 1, 2, 3)));
    assert_eq!(first_match(&deny_first, v4(10, 1, 2, 3)), Some(0));
    assert_eq!(first_match(&allow_first, v4(10, 1, 2, 4)), Some(1));
    assert_eq!(first_match(&allow_first, v4(11, 1, 2, 4)), None);
}

#[test]
fn unmatched_source_is_allowed_by_default() {
    let rules = vec![rule(RuleType::Deny, "10.0.0.0/8"), rule(RuleType::Deny, "192.168.*.*")];
    assert!(allowed(&rules, v4(8, 8, 8, 8)));
    assert!(!allowed(&rules, v4(192, 168, 0, 1)));
}

#[test]
fn global_rules_come_before_rule_rules() {
    let global = vec![rule(RuleType::Deny, "10.0.0.0/8")];
    let own = vec![rule(RuleType::Allow, "10.1.2.3"), rule(RuleType::Deny, "*.*.*.*")];
    assert!(!allowed_for_rule(&global, &own, v4(10, 1, 2, 3)));
    assert!(!allowed_for_rule(&global, &own, v4(8, 8, 8, 8)));
    assert!(allowed_for_rule(&own, &global, v4(10, 1, 2, 3)));
    let none: Vec<AccessRule> = Vec::new();
    assert!(allowed_for_rule(&none, &none, v4(10, 1, 2, 3)));
    assert!(allowed_for_rule(&global, &none, v4(11, 1, 2, 3)));
}

#[test]
fn rule_matches_by_its_pattern() {
    let r = rule(RuleType::Deny, "172.16.0.0/12");
    assert!(rule_matches(&r, v4(172, 31, 255, 255)));
    assert!(!rule_matches(&r, v4(172, 32, 0, 0)));
}

#[test]
fn short_ipv6_text_as_pattern_matches_that_address_only() {
    let all = [
        Ipv6Address::new(0, 0, 0, 0, 0, 0, 0, 0),
        Ipv6Address::new(0, 0, 0, 0, 0, 0, 0, 1),
        Ipv6Address::new(0x2001, 0xdb8, 0, 0, 0, 0, 0, 1),
        Ipv6Address::new(0x2001, 0xdb8, 0, 0, 0, 0, 0, 2),
        Ipv6Address::new(1, 0, 0, 2, 0, 0, 3, 4),
        Ipv6Address::new(1, 0, 0, 2, 0, 0, 0, 3),
        Ipv6Address::new(0, 0, 0, 0, 0, 0xffff, 0xc000, 0x0201),
        Ipv6Address::new(0, 0, 0, 0, 0, 0, 0xc000, 0x0201),
        Ipv6Address::new(1, 2, 3, 4, 5, 6, 7, 8),
    ];
    for a in all {
        let p = IpPattern { pattern: a.canonical_text() };
        for b in all {
            assert_eq!(p.matches(IpAddress::V6(b)), a == b, "{} against {:?}", p.pattern, b);
        }
        assert!(!p.matches(v4(192, 0, 2, 1)));
    }
}

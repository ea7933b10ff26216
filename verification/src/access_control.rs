//! Access control by source address: patterns of addresses, and the
//! decision whether an ordered list of allow and deny rules lets a source
//! in.
//!
//! A pattern is one of three things. With a `*` in it, it is an IPv4
//! wildcard: four segments with a `.` between them, each a `*` or an octet.
//! Otherwise, with a `/` in it, it is an IPv4 address and a prefix length.
//! Otherwise it is one address, IPv4 or IPv6. A pattern that is none of
//! these matches nothing.
//!
//! Rules are taken in the order in which they stand, and the first rule
//! whose pattern matches decides. Where a forwarding rule has rules of its
//! own, the rules of the whole configuration stand before them. A source
//! that no rule matches is let in.

use vstd::prelude::*;
use crate::config::{access_rules_view, AccessRule, AccessRuleView, RuleType};
use crate::ipv4_text::{
    lemma_ipv4_characters, lemma_ipv4_text_pieces, lemma_parse_ipv4_text, parse_ipv4,
    spec_parse_ipv4,
};
use crate::ipv6_canonical::lemma_parse_ipv6_canonical_text;
use crate::ipv6_text::{
    lemma_ipv6_characters, lemma_ipv6_has_colon, lemma_parse_ipv6_text, parse_ipv6,
    spec_parse_ipv6,
};
use crate::net::{IpAddress, Ipv4Address, Ipv6Address};
use crate::text::{
    chars_of, contains_char, lemma_decimal_text_digits, lemma_decimal_text_value,
    lemma_parse_decimal_text,
    lemma_split_joined, lemma_split_whole, lemma_unsigned_characters, parse_unsigned, pieces_view,
    spec_decimal_text, spec_is_digit, spec_parse_unsigned, spec_split, split,
};

verus! {

/// A pattern of source addresses, as it stands in the configuration.
#[derive(Debug, Clone)]
pub struct IpPattern {
    pub pattern: String,
}

impl View for IpPattern {
    type V = Seq<char>;

    open spec fn view(&self) -> Seq<char> {
        self.pattern@
    }
}

/// Whether a segment of a wildcard pattern matches an octet: the segment is
/// `*`, or it spells the octet in decimal, a `+` and leading zeros allowed.
pub open spec fn spec_segment_matches(segment: Seq<char>, octet: u8) -> bool {
    segment == seq!['*'] || spec_parse_unsigned(segment, 255) == Some(octet as nat)
}

/// Whether a wildcard pattern matches an address: the pattern has four
/// segments, and each matches the octet at its place.
pub open spec fn spec_matches_wildcard(pattern: Seq<char>, ip: Ipv4Address) -> bool {
    let segments = spec_split(pattern, '.');
    &&& segments.len() == 4
    &&& forall|i: int| 0 <= i < 4 ==> spec_segment_matches(#[trigger] segments[i], ip.spec_octet(i))
}

/// The top `prefix_len` bits of a 32-bit number, as a number.
pub open spec fn spec_top_bits(bits: u32, prefix_len: u8) -> u32
    recommends
        prefix_len <= 32,
{
    if prefix_len == 0 {
        0
    } else {
        bits >> ((32 - prefix_len) as u32)
    }
}

/// Whether an address lies in the block of `pattern_ip` with the given
/// prefix length: the length is 32 at most, and the two addresses have the
/// same top `prefix_len` bits.
pub open spec fn spec_ipv4_matches_cidr(ip: Ipv4Address, pattern_ip: Ipv4Address, prefix_len: u8) -> bool {
    prefix_len <= 32 && spec_top_bits(ip.bits, prefix_len) == spec_top_bits(
        pattern_ip.bits,
        prefix_len,
    )
}

/// Whether a pattern of an address and a prefix length matches an address:
/// the pattern has an IPv4 address before its one `/` and a number up to
/// 255 behind it, and the address lies in that block.
pub open spec fn spec_matches_cidr(pattern: Seq<char>, ip: Ipv4Address) -> bool {
    let parts = spec_split(pattern, '/');
    &&& parts.len() == 2
    &&& spec_parse_unsigned(parts[1], 255) is Some
    &&& spec_parse_ipv4(parts[0]) is Some
    &&& spec_ipv4_matches_cidr(
        ip,
        spec_parse_ipv4(parts[0])->0,
        spec_parse_unsigned(parts[1], 255)->0 as u8,
    )
}

/// Whether a pattern matches an IPv4 address.
pub open spec fn spec_matches_ipv4(pattern: Seq<char>, ip: Ipv4Address) -> bool {
    if pattern.contains('*') {
        spec_matches_wildcard(pattern, ip)
    } else if pattern.contains('/') {
        spec_matches_cidr(pattern, ip)
    } else {
        spec_parse_ipv4(pattern) == Some(ip)
    }
}

/// Whether a pattern matches an IPv6 address: it spells that address.
pub open spec fn spec_matches_ipv6(pattern: Seq<char>, ip: Ipv6Address) -> bool {
    spec_parse_ipv6(pattern) == Some(ip)
}

/// Whether a pattern matches an address.
pub open spec fn spec_matches(pattern: Seq<char>, ip: IpAddress) -> bool {
    match ip {
        IpAddress::V4(v4) => spec_matches_ipv4(pattern, v4),
        IpAddress::V6(v6) => spec_matches_ipv6(pattern, v6),
    }
}

/// The top bits of a number, read as a number, are its quotient by the size
/// of the block that the other bits count through.
pub proof fn lemma_top_bits_is_quotient(bits: u32, prefix_len: u8)
    requires
        1 <= prefix_len <= 32,
    ensures
        spec_top_bits(bits, prefix_len) == bits / (1u32 << ((32 - prefix_len) as u32)),
{
    let shift = (32 - prefix_len) as u32;
    assert(bits >> shift == bits / (1u32 << shift)) by (bit_vector)
        requires
            shift < 32,
    ;
}

/// Masking with the top `prefix_len` bits set keeps just the top bits.
proof fn lemma_mask_is_top_bits(x: u32, y: u32, shift: u32)
    by (bit_vector)
    requires
        shift < 32,
    ensures
        (x & (!0u32 << shift)) == (y & (!0u32 << shift)) <==> (x >> shift) == (y >> shift),
{
}

fn matches_wildcard(pattern: &[char], ip: Ipv4Address) -> (r: bool)
    ensures
        r == spec_matches_wildcard(pattern@, ip),
{
    let segments = split(pattern, '.');
    if segments.len() != 4 {
        return false;
    }
    let octets = ip.octets();
    let ghost sv = pieces_view(segments@);
    let mut i: usize = 0;
    while i < 4
        invariant
            i <= 4,
            segments.len() == 4,
            sv == pieces_view(segments@),
            sv == spec_split(pattern@, '.'),
            forall|j: int| 0 <= j < 4 ==> octets[j] == ip.spec_octet(j),
            forall|j: int| 0 <= j < i ==> spec_segment_matches(#[trigger] sv[j], ip.spec_octet(j)),
        decreases 4 - i,
    {
        assert(sv[i as int] == segments@[i as int]@);
        let segment = &segments[i];
        if segment.len() == 1 && segment[0] == '*' {
            assert(segment@ =~= seq!['*']);
        } else {
            assert(segment@ != seq!['*']) by {
                if segment@ == seq!['*'] {
                    assert(segment@.len() == 1 && segment@[0] == '*');
                }
            }
            match parse_unsigned(segment.as_slice(), 255) {
                Some(v) => {
                    if v != octets[i] as u64 {
                        assert(!spec_segment_matches(sv[i as int], ip.spec_octet(i as int)));
                        return false;
                    }
                },
                None => {
                    assert(!spec_segment_matches(sv[i as int], ip.spec_octet(i as int)));
                    return false;
                },
            }
        }
        i = i + 1;
    }
    true
}

fn matches_cidr(pattern: &[char], ip: Ipv4Address) -> (r: bool)
    ensures
        r == spec_matches_cidr(pattern@, ip),
{
    let parts = split(pattern, '/');
    if parts.len() != 2 {
        return false;
    }
    assert(pieces_view(parts@)[0] == parts@[0]@);
    assert(pieces_view(parts@)[1] == parts@[1]@);
    match parse_unsigned(parts[1].as_slice(), 255) {
        Some(prefix_len) => match parse_ipv4(parts[0].as_slice()) {
            Some(pattern_ip) => IpPattern::ipv4_matches_cidr(ip, pattern_ip, prefix_len as u8),
            None => false,
        },
        None => false,
    }
}

fn text_matches_ipv4(pattern: &[char], ip: Ipv4Address) -> (r: bool)
    ensures
        r == spec_matches_ipv4(pattern@, ip),
{
    if contains_char(pattern, '*') {
        return matches_wildcard(pattern, ip);
    }
    if contains_char(pattern, '/') {
        return matches_cidr(pattern, ip);
    }
    match parse_ipv4(pattern) {
        Some(pattern_ip) => ip == pattern_ip,
        None => false,
    }
}

fn text_matches_ipv6(pattern: &[char], ip: Ipv6Address) -> (r: bool)
    ensures
        r == spec_matches_ipv6(pattern@, ip),
{
    match parse_ipv6(pattern) {
        Some(pattern_ip) => ip == pattern_ip,
        None => false,
    }
}

impl IpPattern {
    /// Whether the pattern matches the address.
    pub fn matches(&self, ip: IpAddress) -> (r: bool)
        ensures
            r == spec_matches(self@, ip),
    {
        match ip {
            IpAddress::V4(ipv4) => self.matches_ipv4(ipv4),
            IpAddress::V6(ipv6) => self.matches_ipv6(ipv6),
        }
    }

    /// Whether the pattern matches the IPv4 address.
    pub fn matches_ipv4(&self, ip: Ipv4Address) -> (r: bool)
        ensures
            r == spec_matches_ipv4(self@, ip),
    {
        let pattern = chars_of(self.pattern.as_str());
        text_matches_ipv4(pattern.as_slice(), ip)
    }

    /// Whether the pattern matches the IPv6 address.
    pub fn matches_ipv6(&self, ip: Ipv6Address) -> (r: bool)
        ensures
            r == spec_matches_ipv6(self@, ip),
    {
        let pattern = chars_of(self.pattern.as_str());
        text_matches_ipv6(pattern.as_slice(), ip)
    }

    /// Whether `ip` lies in the block of `pattern_ip` with the given prefix
    /// length. A length above 32 names no block.
    pub fn ipv4_matches_cidr(ip: Ipv4Address, pattern_ip: Ipv4Address, prefix_len: u8) -> (r: bool)
        ensures
            r == spec_ipv4_matches_cidr(ip, pattern_ip, prefix_len),
    {
        if prefix_len > 32 {
            return false;
        }
        if prefix_len == 0 {
            return true;
        }
        let shift: u32 = 32 - prefix_len as u32;
        let mask: u32 = !0u32 << shift;
        proof {
            lemma_mask_is_top_bits(ip.bits, pattern_ip.bits, shift);
        }
        (ip.bits & mask) == (pattern_ip.bits & mask)
    }
}

/// Whether a list of access rules lets an address in. The rules are taken
/// in order and the first one whose pattern matches decides: an allow rule
/// lets the address in, a deny rule keeps it out. If no rule matches, the
/// address is let in.
pub open spec fn spec_allowed(rules: Seq<AccessRuleView>, ip: IpAddress) -> bool
    decreases rules.len(),
{
    if rules.len() == 0 {
        true
    } else if spec_matches(rules[0].pattern, ip) {
        rules[0].rule_type == RuleType::Allow
    } else {
        spec_allowed(rules.drop_first(), ip)
    }
}

/// Whether a rule's pattern matches the address.
pub fn rule_matches(rule: &AccessRule, ip: IpAddress) -> (r: bool)
    ensures
        r == spec_matches(rule@.pattern, ip),
{
    let pattern = chars_of(rule.pattern.as_str());
    match ip {
        IpAddress::V4(v4) => text_matches_ipv4(pattern.as_slice(), v4),
        IpAddress::V6(v6) => text_matches_ipv6(pattern.as_slice(), v6),
    }
}

/// The first rule that matches the address, if any does.
pub fn first_match(rules: &[AccessRule], ip: IpAddress) -> (r: Option<usize>)
    ensures
        match r {
            Some(i) => i < rules.len() && spec_matches(rules@[i as int]@.pattern, ip) && forall|j: int|
                0 <= j < i ==> !spec_matches((#[trigger] rules@[j])@.pattern, ip),
            None => forall|j: int|
                0 <= j < rules.len() ==> !spec_matches((#[trigger] rules@[j])@.pattern, ip),
        },
{
    let mut i: usize = 0;
    while i < rules.len()
        invariant
            i <= rules.len(),
            forall|j: int| 0 <= j < i ==> !spec_matches((#[trigger] rules@[j])@.pattern, ip),
        decreases rules.len() - i,
    {
        if rule_matches(&rules[i], ip) {
            return Some(i);
        }
        i = i + 1;
    }
    None
}

/// The first matching rule decides, and without one the address is let in.
pub proof fn lemma_first_match_decides(rules: Seq<AccessRuleView>, ip: IpAddress, i: int)
    requires
        0 <= i <= rules.len(),
        forall|j: int| 0 <= j < i ==> !spec_matches((#[trigger] rules[j]).pattern, ip),
        i < rules.len() ==> spec_matches(rules[i].pattern, ip),
    ensures
        spec_allowed(rules, ip) == (i == rules.len() || rules[i].rule_type == RuleType::Allow),
    decreases rules.len(),
{
    if rules.len() > 0 && i > 0 {
        let rest = rules.drop_first();
        assert(!spec_matches(rules[0].pattern, ip));
        assert forall|j: int| 0 <= j < i - 1 implies !spec_matches(
            (#[trigger] rest[j]).pattern,
            ip,
        ) by {
            assert(rest[j] == rules[j + 1]);
        }
        lemma_first_match_decides(rest, ip, i - 1);
    }
}

/// Whether a list of access rules lets an address in: first match wins, and
/// an address that no rule matches is let in.
pub fn allowed(rules: &[AccessRule], ip: IpAddress) -> (r: bool)
    ensures
        r == spec_allowed(access_rules_view(rules@), ip),
{
    let found = first_match(rules, ip);
    let ghost views = access_rules_view(rules@);
    proof {
        assert(forall|j: int| 0 <= j < rules.len() ==> (#[trigger] views[j]) == rules@[j]@);
        let i: int = match found {
            Some(i) => i as int,
            None => rules.len() as int,
        };
        assert forall|j: int| 0 <= j < i implies !spec_matches((#[trigger] views[j]).pattern, ip) by {
            assert(views[j] == rules@[j]@);
        }
        lemma_first_match_decides(views, ip, i);
    }
    match found {
        Some(i) => match rules[i].rule_type {
            RuleType::Allow => true,
            RuleType::Deny => false,
        },
        None => true,
    }
}

/// Whether the rules of the whole configuration and the rules of one
/// forwarding rule let an address in. The two lists count as one, the
/// global rules first: the first rule of either that matches decides, and an
/// address that no rule matches is let in.
pub fn allowed_for_rule(global_rules: &[AccessRule], rules: &[AccessRule], ip: IpAddress) -> (r:
    bool)
    ensures
        r == spec_allowed(access_rules_view(global_rules@) + access_rules_view(rules@), ip),
{
    let ghost g = access_rules_view(global_rules@);
    let ghost o = access_rules_view(rules@);
    match first_match(global_rules, ip) {
        Some(i) => {
            proof {
                assert(forall|j: int|
                    0 <= j < global_rules.len() ==> (#[trigger] g[j]) == global_rules@[j]@);
                assert forall|j: int| 0 <= j < i implies !spec_matches(
                    (#[trigger] (g + o)[j]).pattern,
                    ip,
                ) by {
                    assert((g + o)[j] == global_rules@[j]@);
                }
                assert((g + o)[i as int] == global_rules@[i as int]@);
                lemma_first_match_decides(g + o, ip, i as int);
            }
            match global_rules[i].rule_type {
                RuleType::Allow => true,
                RuleType::Deny => false,
            }
        },
        None => {
            proof {
                assert(forall|j: int|
                    0 <= j < global_rules.len() ==> (#[trigger] g[j]) == global_rules@[j]@);
                lemma_allowed_skips(g, o, ip);
            }
            allowed(rules, ip)
        },
    }
}

/// Rules that do not match the address change nothing when they stand
/// before other rules.
pub proof fn lemma_allowed_skips(
    unmatched: Seq<AccessRuleView>,
    rules: Seq<AccessRuleView>,
    ip: IpAddress,
)
    requires
        forall|j: int| 0 <= j < unmatched.len() ==> !spec_matches((#[trigger] unmatched[j]).pattern, ip),
    ensures
        spec_allowed(unmatched + rules, ip) == spec_allowed(rules, ip),
    decreases unmatched.len(),
{
    if unmatched.len() == 0 {
        assert(unmatched + rules =~= rules);
    } else {
        let rest = unmatched.drop_first();
        assert(!spec_matches(unmatched[0].pattern, ip));
        assert((unmatched + rules)[0] == unmatched[0]);
        assert((unmatched + rules).drop_first() =~= rest + rules);
        assert forall|j: int| 0 <= j < rest.len() implies !spec_matches(
            (#[trigger] rest[j]).pattern,
            ip,
        ) by {
            assert(rest[j] == unmatched[j + 1]);
        }
        lemma_allowed_skips(rest, rules, ip);
    }
}

/// Whether a text is a segment of a wildcard pattern: `*`, or an octet in
/// decimal.
pub open spec fn spec_is_segment(segment: Seq<char>) -> bool {
    segment == seq!['*'] || spec_parse_unsigned(segment, 255) is Some
}

/// The pattern made of four segments with a `.` between them.
pub open spec fn spec_wildcard_pattern(segments: Seq<Seq<char>>) -> Seq<char>
    recommends
        segments.len() == 4,
{
    segments[0] + seq!['.'] + segments[1] + seq!['.'] + segments[2] + seq!['.'] + segments[3]
}

/// A segment of a wildcard pattern holds no `.`.
proof fn lemma_segment_has_no_dot(segment: Seq<char>)
    requires
        spec_is_segment(segment),
    ensures
        !segment.contains('.'),
{
    if segment.contains('.') {
        if segment == seq!['*'] {
            let i = choose|i: int| 0 <= i < segment.len() && segment[i] == '.';
            assert(segment[0] == '*');
        } else {
            lemma_unsigned_characters(segment, 255, '.');
        }
    }
}

/// Wildcard patterns. A pattern of four segments, of which one at least is
/// `*` and the others are octets in decimal, matches an IPv4 address if and
/// only if each octet of the pattern is the octet of the address at its
/// place.
pub proof fn lemma_wildcard_matching(segments: Seq<Seq<char>>, ip: Ipv4Address)
    requires
        segments.len() == 4,
        forall|i: int| 0 <= i < 4 ==> spec_is_segment(#[trigger] segments[i]),
        exists|i: int| 0 <= i < 4 && #[trigger] segments[i] == seq!['*'],
    ensures
        spec_matches(spec_wildcard_pattern(segments), IpAddress::V4(ip)) <==> forall|i: int|
            0 <= i < 4 && #[trigger] segments[i] != seq!['*'] ==> spec_parse_unsigned(
                segments[i],
                255,
            ) == Some(ip.spec_octet(i) as nat),
{
    let pattern = spec_wildcard_pattern(segments);
    assert(spec_is_segment(segments[0]));
    assert(spec_is_segment(segments[1]));
    assert(spec_is_segment(segments[2]));
    assert(spec_is_segment(segments[3]));
    lemma_segment_has_no_dot(segments[0]);
    lemma_segment_has_no_dot(segments[1]);
    lemma_segment_has_no_dot(segments[2]);
    lemma_segment_has_no_dot(segments[3]);
    lemma_split_whole(segments[0], '.');
    lemma_split_whole(segments[1], '.');
    lemma_split_whole(segments[2], '.');
    lemma_split_whole(segments[3], '.');
    lemma_split_joined(segments[0], segments[1], '.');
    lemma_split_joined(segments[0] + seq!['.'] + segments[1], segments[2], '.');
    lemma_split_joined(
        segments[0] + seq!['.'] + segments[1] + seq!['.'] + segments[2],
        segments[3],
        '.',
    );
    assert(spec_split(pattern, '.') =~= segments);
    let w = choose|i: int| 0 <= i < 4 && #[trigger] segments[i] == seq!['*'];
    assert(segments[w][0] == '*');
    assert(pattern.contains('*')) by {
        if w == 0 {
            assert(pattern[0] == '*');
        } else if w == 1 {
            assert(pattern[segments[0].len() as int + 1] == '*');
        } else if w == 2 {
            assert(pattern[segments[0].len() as int + segments[1].len() as int + 2] == '*');
        } else {
            assert(pattern[segments[0].len() as int + segments[1].len() as int + segments[2].len() as int
                + 3] == '*');
        }
    }
    assert forall|i: int| 0 <= i < 4 implies (spec_segment_matches(
        #[trigger] segments[i],
        ip.spec_octet(i),
    ) <==> (segments[i] != seq!['*'] ==> spec_parse_unsigned(segments[i], 255) == Some(
        ip.spec_octet(i) as nat,
    ))) by {}
}

/// Address blocks. The pattern made of the text of an IPv4 address, a `/`
/// and a prefix length in decimal matches an IPv4 address if and only if the
/// length is 32 at most and the two addresses have the same top bits, as
/// many as the length says. A length above 32 matches nothing.
pub proof fn lemma_cidr_matching(pattern_ip: Ipv4Address, prefix_len: nat, ip: Ipv4Address)
    ensures
        spec_matches(
            pattern_ip.spec_text() + seq!['/'] + spec_decimal_text(prefix_len),
            IpAddress::V4(ip),
        ) <==> prefix_len <= 32 && spec_top_bits(ip.bits, prefix_len as u8) == spec_top_bits(
            pattern_ip.bits,
            prefix_len as u8,
        ),
{
    let address = pattern_ip.spec_text();
    let length = spec_decimal_text(prefix_len);
    let pattern = address + seq!['/'] + length;
    lemma_ipv4_text_pieces(pattern_ip);
    lemma_parse_ipv4_text(pattern_ip);
    lemma_decimal_text_digits(prefix_len);
    lemma_decimal_text_value(prefix_len);
    assert(spec_is_digit(length[0]));
    if prefix_len <= 255 {
        lemma_parse_decimal_text(prefix_len, 255);
    } else {
        assert(spec_parse_unsigned(length, 255) is None);
    }
    assert forall|c: char| length.contains(c) implies spec_is_digit(c) by {
        let i = choose|i: int| 0 <= i < length.len() && length[i] == c;
        assert(spec_is_digit(length[i]));
    }
    lemma_split_whole(address, '/');
    lemma_split_whole(length, '/');
    lemma_split_joined(address, length, '/');
    assert(spec_split(pattern, '/') =~= seq![address, length]);
    assert(pattern[address.len() as int] == '/');
    assert(!pattern.contains('*')) by {
        if pattern.contains('*') {
            let i = choose|i: int| 0 <= i < pattern.len() && pattern[i] == '*';
            if i < address.len() {
                assert(address[i] == '*');
            } else if i > address.len() {
                assert(length[i - address.len() - 1] == '*');
            }
        }
    }
}

/// Exact patterns. The text of an IPv4 address, as a pattern, matches that
/// address and no other.
pub proof fn lemma_exact_matching(pattern_ip: Ipv4Address, ip: Ipv4Address)
    ensures
        spec_matches(pattern_ip.spec_text(), IpAddress::V4(ip)) <==> ip == pattern_ip,
{
    lemma_ipv4_text_pieces(pattern_ip);
    lemma_parse_ipv4_text(pattern_ip);
}

/// Exact patterns. The full text of an IPv6 address, as a pattern, matches
/// that address and no other.
pub proof fn lemma_exact_matching_ipv6(pattern_ip: Ipv6Address, ip: Ipv6Address)
    ensures
        spec_matches(pattern_ip.spec_text(), IpAddress::V6(ip)) <==> ip == pattern_ip,
{
    lemma_parse_ipv6_text(pattern_ip);
}

/// Exact patterns. The short text of an IPv6 address, as a pattern, matches
/// that address and no other.
pub proof fn lemma_exact_matching_short_ipv6(pattern_ip: Ipv6Address, ip: Ipv6Address)
    ensures
        spec_matches(pattern_ip.spec_canonical_text(), IpAddress::V6(ip)) <==> ip == pattern_ip,
{
    lemma_parse_ipv6_canonical_text(pattern_ip);
}

/// Any text that spells an IPv6 address, shortened with `::` or not, as a
/// pattern matches that address and no other.
pub proof fn lemma_spelled_ipv6_matching(
    pattern: Seq<char>,
    pattern_ip: Ipv6Address,
    ip: Ipv6Address,
)
    requires
        spec_parse_ipv6(pattern) == Some(pattern_ip),
    ensures
        spec_matches(pattern, IpAddress::V6(ip)) <==> ip == pattern_ip,
{
}

/// No wildcards and no blocks for IPv6. A pattern with a `*` or a `/` in it
/// matches no IPv6 address.
pub proof fn lemma_ipv6_matches_exactly_only(pattern: Seq<char>, ip: Ipv6Address)
    requires
        pattern.contains('*') || pattern.contains('/'),
    ensures
        !spec_matches(pattern, IpAddress::V6(ip)),
{
    if spec_parse_ipv6(pattern) is Some {
        if pattern.contains('*') {
            lemma_ipv6_characters(pattern, '*');
        } else {
            lemma_ipv6_characters(pattern, '/');
        }
    }
}

/// The two families keep apart: no pattern matches both an IPv4 address and
/// an IPv6 address.
pub proof fn lemma_families_keep_apart(pattern: Seq<char>, v4: Ipv4Address, v6: Ipv6Address)
    ensures
        !(spec_matches(pattern, IpAddress::V4(v4)) && spec_matches(pattern, IpAddress::V6(v6))),
{
    if spec_matches(pattern, IpAddress::V6(v6)) {
        lemma_ipv6_has_colon(pattern);
        if pattern.contains('*') {
            lemma_ipv6_characters(pattern, '*');
        }
        if pattern.contains('/') {
            lemma_ipv6_characters(pattern, '/');
        }
        if spec_parse_ipv4(pattern) is Some {
            lemma_ipv4_characters(pattern, ':');
        }
    }
}

} // verus!

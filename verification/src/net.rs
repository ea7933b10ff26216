//! Network addresses as plain values.

use vstd::prelude::*;

verus! {

/// An IPv4 address, held as the 32-bit number that its four octets spell,
/// first octet highest.
#[derive(Clone, Copy, Debug, PartialEq, Eq, Structural, Hash)]
pub struct Ipv4Address {
    pub bits: u32,
}

impl Ipv4Address {
    /// The number that the octets `a.b.c.d` spell.
    pub open spec fn spec_bits(a: u8, b: u8, c: u8, d: u8) -> int {
        a as int * 0x100_0000 + b as int * 0x1_0000 + c as int * 0x100 + d as int
    }

    /// The address `a.b.c.d`.
    pub open spec fn spec_new(a: u8, b: u8, c: u8, d: u8) -> Ipv4Address {
        Ipv4Address { bits: Self::spec_bits(a, b, c, d) as u32 }
    }

    /// The octet at position `i`, counted from the left, `0 <= i < 4`.
    pub open spec fn spec_octet(self, i: int) -> u8 {
        if i == 0 {
            (self.bits as int / 0x100_0000) as u8
        } else if i == 1 {
            (self.bits as int / 0x1_0000 % 0x100) as u8
        } else if i == 2 {
            (self.bits as int / 0x100 % 0x100) as u8
        } else {
            (self.bits as int % 0x100) as u8
        }
    }

    /// Builds the address `a.b.c.d`.
    pub fn new(a: u8, b: u8, c: u8, d: u8) -> (r: Ipv4Address)
        ensures
            r == Self::spec_new(a, b, c, d),
            r.spec_octet(0) == a,
            r.spec_octet(1) == b,
            r.spec_octet(2) == c,
            r.spec_octet(3) == d,
    {
        proof {
            lemma_ipv4_octets_of_new(a, b, c, d);
        }
        let hi: u32 = a as u32 * 0x100_0000 + b as u32 * 0x1_0000;
        let lo: u32 = c as u32 * 0x100 + d as u32;
        Ipv4Address { bits: hi + lo }
    }

    /// The four octets, first to last.
    pub fn octets(&self) -> (r: [u8; 4])
        ensures
            forall|i: int| 0 <= i < 4 ==> r[i] == self.spec_octet(i),
    {
        [
            (self.bits / 0x100_0000) as u8,
            (self.bits / 0x1_0000 % 0x100) as u8,
            (self.bits / 0x100 % 0x100) as u8,
            (self.bits % 0x100) as u8,
        ]
    }
}

/// The octets of the address `a.b.c.d` are `a`, `b`, `c` and `d`.
pub proof fn lemma_ipv4_octets_of_new(a: u8, b: u8, c: u8, d: u8)
    ensures
        Ipv4Address::spec_new(a, b, c, d).bits == Ipv4Address::spec_bits(a, b, c, d),
        Ipv4Address::spec_new(a, b, c, d).spec_octet(0) == a,
        Ipv4Address::spec_new(a, b, c, d).spec_octet(1) == b,
        Ipv4Address::spec_new(a, b, c, d).spec_octet(2) == c,
        Ipv4Address::spec_new(a, b, c, d).spec_octet(3) == d,
{
    let n = Ipv4Address::spec_bits(a, b, c, d);
    assert(0 <= n < 0x1_0000_0000);
    assert(n / 0x100_0000 == a as int);
    assert(n / 0x1_0000 == a as int * 0x100 + b as int);
    assert(n / 0x100 == a as int * 0x1_0000 + b as int * 0x100 + c as int);
}

/// An address is the one that its own octets spell.
pub proof fn lemma_ipv4_octets_spell(x: Ipv4Address)
    ensures
        Ipv4Address::spec_new(x.spec_octet(0), x.spec_octet(1), x.spec_octet(2), x.spec_octet(3))
            == x,
{
    let n = x.bits as int;
    let q2 = n / 0x100;
    let q1 = n / 0x1_0000;
    let q0 = n / 0x100_0000;
    assert(q1 == q2 / 0x100);
    assert(q0 == q1 / 0x100);
    assert(n == q2 * 0x100 + n % 0x100);
    assert(q2 == q1 * 0x100 + q2 % 0x100);
    assert(q1 == q0 * 0x100 + q1 % 0x100);
}

/// An IPv6 address, held as the 128-bit number that its eight 16-bit groups
/// spell, first group highest.
#[derive(Clone, Copy, Debug, PartialEq, Eq, Structural, Hash)]
pub struct Ipv6Address {
    pub bits: u128,
}

impl Ipv6Address {
    /// The number that eight 16-bit groups spell, first group highest.
    pub open spec fn spec_bits(groups: Seq<u16>) -> int
        recommends
            groups.len() == 8,
    {
        groups[0] as int * 0x1_0000_0000_0000_0000_0000_0000_0000 + groups[1] as int
            * 0x1_0000_0000_0000_0000_0000_0000 + groups[2] as int * 0x1_0000_0000_0000_0000_0000
            + groups[3] as int * 0x1_0000_0000_0000_0000 + groups[4] as int * 0x1_0000_0000_0000
            + groups[5] as int * 0x1_0000_0000 + groups[6] as int * 0x1_0000 + groups[7] as int
    }

    /// The address with the given eight groups.
    pub open spec fn spec_from_groups(groups: Seq<u16>) -> Ipv6Address
        recommends
            groups.len() == 8,
    {
        Ipv6Address { bits: Self::spec_bits(groups) as u128 }
    }

    /// The group at position `i`, counted from the left, `0 <= i < 8`.
    pub open spec fn spec_group(self, i: int) -> u16 {
        let n = self.bits as int;
        if i == 0 {
            (n / 0x1_0000_0000_0000_0000_0000_0000_0000) as u16
        } else if i == 1 {
            (n / 0x1_0000_0000_0000_0000_0000_0000 % 0x1_0000) as u16
        } else if i == 2 {
            (n / 0x1_0000_0000_0000_0000_0000 % 0x1_0000) as u16
        } else if i == 3 {
            (n / 0x1_0000_0000_0000_0000 % 0x1_0000) as u16
        } else if i == 4 {
            (n / 0x1_0000_0000_0000 % 0x1_0000) as u16
        } else if i == 5 {
            (n / 0x1_0000_0000 % 0x1_0000) as u16
        } else if i == 6 {
            (n / 0x1_0000 % 0x1_0000) as u16
        } else {
            (n % 0x1_0000) as u16
        }
    }

    /// The eight groups, first to last.
    pub open spec fn spec_groups(self) -> Seq<u16> {
        seq![
            self.spec_group(0),
            self.spec_group(1),
            self.spec_group(2),
            self.spec_group(3),
            self.spec_group(4),
            self.spec_group(5),
            self.spec_group(6),
            self.spec_group(7),
        ]
    }

    /// The address with the given eight groups.
    pub fn from_groups(groups: &[u16]) -> (r: Ipv6Address)
        requires
            groups.len() == 8,
        ensures
            r == Self::spec_from_groups(groups@),
    {
        let high: u64 = groups[0] as u64 * 0x1_0000_0000_0000 + groups[1] as u64 * 0x1_0000_0000
            + groups[2] as u64 * 0x1_0000 + groups[3] as u64;
        let low: u64 = groups[4] as u64 * 0x1_0000_0000_0000 + groups[5] as u64 * 0x1_0000_0000
            + groups[6] as u64 * 0x1_0000 + groups[7] as u64;
        Ipv6Address { bits: high as u128 * 0x1_0000_0000_0000_0000 + low as u128 }
    }

    /// The address with the groups `a` to `h`, first to last.
    pub fn new(a: u16, b: u16, c: u16, d: u16, e: u16, f: u16, g: u16, h: u16) -> (r: Ipv6Address)
        ensures
            r == Self::spec_from_groups(seq![a, b, c, d, e, f, g, h]),
    {
        let groups: [u16; 8] = [a, b, c, d, e, f, g, h];
        assert(groups@ =~= seq![a, b, c, d, e, f, g, h]);
        Self::from_groups(groups.as_slice())
    }

    /// The eight groups, first to last.
    pub fn groups(&self) -> (r: [u16; 8])
        ensures
            r@ == self.spec_groups(),
    {
        let n = self.bits;
        let r: [u16; 8] = [
            (n / 0x1_0000_0000_0000_0000_0000_0000_0000) as u16,
            (n / 0x1_0000_0000_0000_0000_0000_0000 % 0x1_0000) as u16,
            (n / 0x1_0000_0000_0000_0000_0000 % 0x1_0000) as u16,
            (n / 0x1_0000_0000_0000_0000 % 0x1_0000) as u16,
            (n / 0x1_0000_0000_0000 % 0x1_0000) as u16,
            (n / 0x1_0000_0000 % 0x1_0000) as u16,
            (n / 0x1_0000 % 0x1_0000) as u16,
            (n % 0x1_0000) as u16,
        ];
        assert(r@ =~= self.spec_groups());
        r
    }
}

/// An address is the one that its own groups spell.
pub proof fn lemma_ipv6_groups_spell(x: Ipv6Address)
    ensures
        Ipv6Address::spec_from_groups(x.spec_groups()) == x,
{
    let n = x.bits as int;
    let q1 = n / 0x1_0000;
    let q2 = n / 0x1_0000_0000;
    let q3 = n / 0x1_0000_0000_0000;
    let q4 = n / 0x1_0000_0000_0000_0000;
    let q5 = n / 0x1_0000_0000_0000_0000_0000;
    let q6 = n / 0x1_0000_0000_0000_0000_0000_0000;
    let q7 = n / 0x1_0000_0000_0000_0000_0000_0000_0000;
    assert(q2 == q1 / 0x1_0000);
    assert(q3 == q2 / 0x1_0000);
    assert(q4 == q3 / 0x1_0000);
    assert(q5 == q4 / 0x1_0000);
    assert(q6 == q5 / 0x1_0000);
    assert(q7 == q6 / 0x1_0000);
    assert(n == q1 * 0x1_0000 + n % 0x1_0000);
    assert(q1 == q2 * 0x1_0000 + q1 % 0x1_0000);
    assert(q2 == q3 * 0x1_0000 + q2 % 0x1_0000);
    assert(q3 == q4 * 0x1_0000 + q3 % 0x1_0000);
    assert(q4 == q5 * 0x1_0000 + q4 % 0x1_0000);
    assert(q5 == q6 * 0x1_0000 + q5 % 0x1_0000);
    assert(q6 == q7 * 0x1_0000 + q6 % 0x1_0000);
    assert(0 <= q7 < 0x1_0000);
    let g = x.spec_groups();
    assert(g[0] == q7 && g[1] == q6 % 0x1_0000 && g[2] == q5 % 0x1_0000 && g[3] == q4 % 0x1_0000);
    assert(g[4] == q3 % 0x1_0000 && g[5] == q2 % 0x1_0000 && g[6] == q1 % 0x1_0000 && g[7] == n
        % 0x1_0000);
    assert(Ipv6Address::spec_bits(g) == n);
}

/// The address of a host in either family.
#[derive(Clone, Copy, Debug, PartialEq, Eq, Structural, Hash)]
pub enum IpAddress {
    V4(Ipv4Address),
    V6(Ipv6Address),
}

/// One end of a conversation: an address and a port.
#[derive(Clone, Copy, Debug, PartialEq, Eq, Structural, Hash)]
pub struct Endpoint {
    pub ip: IpAddress,
    pub port: u16,
}

} // verus!

//! IPv4 addresses as text: four octets in decimal with a `.` between them.

use vstd::prelude::*;
use crate::net::{lemma_ipv4_octets_spell, Ipv4Address};
use crate::text::{
    decimal_text, lemma_decimal_text_digits, lemma_decimal_text_value, lemma_split_joined,
    lemma_split_keeps_characters, lemma_split_whole, parse_unsigned, pieces_view, spec_all_digits,
    spec_decimal_text, spec_decimal_value, spec_is_digit, spec_split, split, string_of,
};

verus! {

/// The octet that a text spells in an IPv4 address: one to three decimal
/// digits, without a leading zero unless the text is `0`, and 255 at most.
pub open spec fn spec_octet(t: Seq<char>) -> Option<u8> {
    if 1 <= t.len() <= 3 && spec_all_digits(t) && (t.len() == 1 || t[0] != '0')
        && spec_decimal_value(t) <= 255 {
        Some(spec_decimal_value(t) as u8)
    } else {
        None
    }
}

/// The IPv4 address that a text spells: four octets with a `.` between
/// them and nothing else.
pub open spec fn spec_parse_ipv4(s: Seq<char>) -> Option<Ipv4Address> {
    let parts = spec_split(s, '.');
    if parts.len() == 4 && spec_octet(parts[0]) is Some && spec_octet(parts[1]) is Some
        && spec_octet(parts[2]) is Some && spec_octet(parts[3]) is Some {
        Some(
            Ipv4Address::spec_new(
                spec_octet(parts[0])->0,
                spec_octet(parts[1])->0,
                spec_octet(parts[2])->0,
                spec_octet(parts[3])->0,
            ),
        )
    } else {
        None
    }
}

impl Ipv4Address {
    /// The text of the address: its four octets in decimal with a `.`
    /// between them.
    pub open spec fn spec_text(self) -> Seq<char> {
        spec_decimal_text(self.spec_octet(0) as nat) + seq!['.'] + spec_decimal_text(
            self.spec_octet(1) as nat,
        ) + seq!['.'] + spec_decimal_text(self.spec_octet(2) as nat) + seq!['.']
            + spec_decimal_text(self.spec_octet(3) as nat)
    }

    /// The text of the address: its four octets in decimal with a `.`
    /// between them.
    pub fn text(&self) -> (r: String)
        ensures
            r@ == self.spec_text(),
    {
        let octets = self.octets();
        let mut t = decimal_text(octets[0] as u64);
        let mut i: usize = 1;
        while i < 4
            invariant
                1 <= i <= 4,
                forall|j: int| 0 <= j < 4 ==> octets[j] == self.spec_octet(j),
                i == 1 ==> t@ == spec_decimal_text(self.spec_octet(0) as nat),
                i == 2 ==> t@ == spec_decimal_text(self.spec_octet(0) as nat) + seq!['.']
                    + spec_decimal_text(self.spec_octet(1) as nat),
                i == 3 ==> t@ == spec_decimal_text(self.spec_octet(0) as nat) + seq!['.']
                    + spec_decimal_text(self.spec_octet(1) as nat) + seq!['.']
                    + spec_decimal_text(self.spec_octet(2) as nat),
                i == 4 ==> t@ == self.spec_text(),
            decreases 4 - i,
        {
            let ghost before = t@;
            t.push('.');
            let mut digits = decimal_text(octets[i] as u64);
            let ghost piece = digits@;
            t.append(&mut digits);
            assert(t@ =~= before + seq!['.'] + piece);
            i = i + 1;
        }
        string_of(t.as_slice())
    }
}

/// Reads one octet of an IPv4 address.
pub fn parse_octet(t: &[char]) -> (r: Option<u8>)
    ensures
        r == spec_octet(t@),
{
    if t.len() < 1 || t.len() > 3 {
        return None;
    }
    if t[0] == '+' {
        assert(!spec_is_digit(t@[0]));
        return None;
    }
    if t.len() > 1 && t[0] == '0' {
        return None;
    }
    match parse_unsigned(t, 255) {
        Some(v) => Some(v as u8),
        None => None,
    }
}

/// Reads an IPv4 address.
pub fn parse_ipv4(s: &[char]) -> (r: Option<Ipv4Address>)
    ensures
        r == spec_parse_ipv4(s@),
{
    let parts = split(s, '.');
    if parts.len() != 4 {
        return None;
    }
    assert(pieces_view(parts@)[0] == parts@[0]@);
    assert(pieces_view(parts@)[1] == parts@[1]@);
    assert(pieces_view(parts@)[2] == parts@[2]@);
    assert(pieces_view(parts@)[3] == parts@[3]@);
    let a = match parse_octet(parts[0].as_slice()) {
        Some(v) => v,
        None => {
            return None;
        },
    };
    let b = match parse_octet(parts[1].as_slice()) {
        Some(v) => v,
        None => {
            return None;
        },
    };
    let c = match parse_octet(parts[2].as_slice()) {
        Some(v) => v,
        None => {
            return None;
        },
    };
    let d = match parse_octet(parts[3].as_slice()) {
        Some(v) => v,
        None => {
            return None;
        },
    };
    Some(Ipv4Address::new(a, b, c, d))
}

/// The decimal form of an octet spells that octet, and holds digits only.
pub proof fn lemma_octet_of_decimal_text(v: u8)
    ensures
        spec_octet(spec_decimal_text(v as nat)) == Some(v),
        !spec_decimal_text(v as nat).contains('.'),
        !spec_decimal_text(v as nat).contains('/'),
        !spec_decimal_text(v as nat).contains('*'),
{
    let t = spec_decimal_text(v as nat);
    lemma_decimal_text_digits(v as nat);
    lemma_decimal_text_value(v as nat);
    assert forall|c: char| t.contains(c) implies spec_is_digit(c) by {
        let i = choose|i: int| 0 <= i < t.len() && t[i] == c;
        assert(spec_is_digit(t[i]));
    }
}

/// The text of an IPv4 address falls into the decimal forms of its four
/// octets when cut at `.`, and holds neither `/` nor `*`.
pub proof fn lemma_ipv4_text_pieces(a: Ipv4Address)
    ensures
        spec_split(a.spec_text(), '.') == seq![
            spec_decimal_text(a.spec_octet(0) as nat),
            spec_decimal_text(a.spec_octet(1) as nat),
            spec_decimal_text(a.spec_octet(2) as nat),
            spec_decimal_text(a.spec_octet(3) as nat),
        ],
        !a.spec_text().contains('/'),
        !a.spec_text().contains('*'),
        !a.spec_text().contains(':'),
{
    let t0 = spec_decimal_text(a.spec_octet(0) as nat);
    let t1 = spec_decimal_text(a.spec_octet(1) as nat);
    let t2 = spec_decimal_text(a.spec_octet(2) as nat);
    let t3 = spec_decimal_text(a.spec_octet(3) as nat);
    lemma_octet_of_decimal_text(a.spec_octet(0));
    lemma_octet_of_decimal_text(a.spec_octet(1));
    lemma_octet_of_decimal_text(a.spec_octet(2));
    lemma_octet_of_decimal_text(a.spec_octet(3));
    lemma_split_whole(t0, '.');
    lemma_split_whole(t1, '.');
    lemma_split_whole(t2, '.');
    lemma_split_whole(t3, '.');
    lemma_split_joined(t0, t1, '.');
    lemma_split_joined(t0 + seq!['.'] + t1, t2, '.');
    lemma_split_joined(t0 + seq!['.'] + t1 + seq!['.'] + t2, t3, '.');
    let pieces = spec_split(a.spec_text(), '.');
    assert(pieces =~= seq![t0, t1, t2, t3]);
    assert forall|c: char| a.spec_text().contains(c) implies c == '.' || spec_is_digit(c) by {
        if c != '.' {
            lemma_split_keeps_characters(a.spec_text(), '.', c);
            let j = choose|j: int| 0 <= j < pieces.len() && (#[trigger] pieces[j]).contains(c);
            lemma_decimal_text_digits(a.spec_octet(j) as nat);
            let i = choose|i: int| 0 <= i < pieces[j].len() && pieces[j][i] == c;
            assert(spec_is_digit(pieces[j][i]));
        }
    }
}

/// The text of an IPv4 address spells that address.
pub proof fn lemma_parse_ipv4_text(a: Ipv4Address)
    ensures
        spec_parse_ipv4(a.spec_text()) == Some(a),
{
    lemma_ipv4_text_pieces(a);
    lemma_octet_of_decimal_text(a.spec_octet(0));
    lemma_octet_of_decimal_text(a.spec_octet(1));
    lemma_octet_of_decimal_text(a.spec_octet(2));
    lemma_octet_of_decimal_text(a.spec_octet(3));
    lemma_ipv4_octets_spell(a);
}

/// A text that spells an IPv4 address is made of digits and `.` only.
pub proof fn lemma_ipv4_characters(s: Seq<char>, c: char)
    requires
        spec_parse_ipv4(s) is Some,
        s.contains(c),
    ensures
        c == '.' || spec_is_digit(c),
{
    if c != '.' {
        let pieces = spec_split(s, '.');
        lemma_split_keeps_characters(s, '.', c);
        let j = choose|j: int| 0 <= j < pieces.len() && (#[trigger] pieces[j]).contains(c);
        assert(spec_octet(pieces[j]) is Some);
        let i = choose|i: int| 0 <= i < pieces[j].len() && pieces[j][i] == c;
        assert(spec_is_digit(pieces[j][i]));
    }
}

} // verus!

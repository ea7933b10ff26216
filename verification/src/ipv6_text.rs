//! IPv6 addresses as text: groups in hexadecimal with a `:` between them,
//! one run of zero groups shortened to `::` at most, and the last two
//! groups as an IPv4 address if the text ends in one.

use vstd::prelude::*;
use crate::ipv4_text::{lemma_ipv4_characters, parse_ipv4, spec_parse_ipv4};
use crate::net::{lemma_ipv6_groups_spell, Ipv4Address, Ipv6Address};
use crate::text::{
    lemma_split_joined, lemma_split_keeps_characters, lemma_split_whole, pieces_view, spec_split,
    split, string_of,
};

verus! {

/// Whether a character is a hexadecimal digit, in either case.
pub open spec fn spec_is_hex_digit(c: char) -> bool {
    ('0' <= c && c <= '9') || ('a' <= c && c <= 'f') || ('A' <= c && c <= 'F')
}

/// The number that a hexadecimal digit stands for.
pub open spec fn spec_hex_digit_value(c: char) -> nat {
    if '0' <= c && c <= '9' {
        (c as int - '0' as int) as nat
    } else if 'a' <= c && c <= 'f' {
        (c as int - 'a' as int + 10) as nat
    } else {
        (c as int - 'A' as int + 10) as nat
    }
}

/// Whether a text is made of hexadecimal digits only.
pub open spec fn spec_all_hex_digits(s: Seq<char>) -> bool {
    forall|i: int| 0 <= i < s.len() ==> spec_is_hex_digit(#[trigger] s[i])
}

/// The number that a row of hexadecimal digits spells.
pub open spec fn spec_hex_value(digits: Seq<char>) -> nat
    decreases digits.len(),
{
    if digits.len() == 0 {
        0
    } else {
        spec_hex_value(digits.drop_last()) * 16 + spec_hex_digit_value(digits.last())
    }
}

/// The group that a text spells in an IPv6 address: one to four
/// hexadecimal digits.
pub open spec fn spec_hex_group(t: Seq<char>) -> Option<u16> {
    if 1 <= t.len() <= 4 && spec_all_hex_digits(t) {
        Some(spec_hex_value(t) as u16)
    } else {
        None
    }
}

/// Four hexadecimal digits or fewer spell a number below 65536.
pub proof fn lemma_hex_value_bound(t: Seq<char>)
    requires
        t.len() <= 4,
        spec_all_hex_digits(t),
    ensures
        spec_hex_value(t) < 0x1_0000,
{
    reveal_with_fuel(spec_hex_value, 5);
    if t.len() >= 1 {
        assert(spec_is_hex_digit(t[0]));
        assert(t.drop_last().len() == t.len() - 1);
    }
    let t1 = t.drop_last();
    if t.len() >= 2 {
        assert(spec_is_hex_digit(t[1]));
    }
    let t2 = t1.drop_last();
    if t.len() >= 3 {
        assert(spec_is_hex_digit(t[2]));
    }
    let t3 = t2.drop_last();
    if t.len() >= 4 {
        assert(spec_is_hex_digit(t[3]));
    }
    if t.len() == 4 {
        assert(t.last() == t[3] && t1.last() == t[2] && t2.last() == t[1] && t3.last() == t[0]);
    } else if t.len() == 3 {
        assert(t.last() == t[2] && t1.last() == t[1] && t2.last() == t[0]);
    } else if t.len() == 2 {
        assert(t.last() == t[1] && t1.last() == t[0]);
    }
}

/// Reads one group of an IPv6 address.
pub fn parse_hex_group(t: &[char]) -> (r: Option<u16>)
    ensures
        r == spec_hex_group(t@),
{
    if t.len() < 1 || t.len() > 4 {
        return None;
    }
    let mut value: u32 = 0;
    let mut i: usize = 0;
    while i < t.len()
        invariant
            i <= t.len() <= 4,
            spec_all_hex_digits(t@.take(i as int)),
            value == spec_hex_value(t@.take(i as int)),
            value < 0x1_0000,
        decreases t.len() - i,
    {
        let c = t[i];
        proof {
            assert(t@.take(i as int + 1).drop_last() =~= t@.take(i as int));
            assert(t@.take(i as int + 1).last() == c);
        }
        let d: u32 = if c >= '0' && c <= '9' {
            c as u32 - '0' as u32
        } else if c >= 'a' && c <= 'f' {
            c as u32 - 'a' as u32 + 10
        } else if c >= 'A' && c <= 'F' {
            c as u32 - 'A' as u32 + 10
        } else {
            assert(!spec_is_hex_digit(t@[i as int]));
            return None;
        };
        proof {
            assert forall|j: int| 0 <= j < i + 1 implies spec_is_hex_digit(
                #[trigger] t@.take(i as int + 1)[j],
            ) by {
                if j < i {
                    assert(t@.take(i as int)[j] == t@.take(i as int + 1)[j]);
                }
            }
            lemma_hex_value_bound(t@.take(i as int + 1));
        }
        value = value * 16 + d;
        i = i + 1;
    }
    assert(t@.take(t.len() as int) =~= t@);
    Some(value as u16)
}

/// The lowercase hexadecimal digit that stands for a number below sixteen.
pub open spec fn spec_hex_digit_char(d: nat) -> char {
    if d < 10 {
        (d + '0' as nat) as char
    } else {
        (d - 10 + 'a' as nat) as char
    }
}

/// The hexadecimal form of a number: its digits in lower case without
/// leading zeros, `0` for zero.
pub open spec fn spec_hex_text(n: nat) -> Seq<char>
    decreases n,
{
    if n < 16 {
        seq![spec_hex_digit_char(n)]
    } else {
        spec_hex_text(n / 16).push(spec_hex_digit_char(n % 16))
    }
}

/// The hexadecimal form of a number.
pub fn hex_text(n: u64) -> (r: Vec<char>)
    ensures
        r@ == spec_hex_text(n as nat),
    decreases n,
{
    let d: u8 = (n % 16) as u8;
    let digit: char = if d < 10 {
        (('0' as u8) + d) as char
    } else {
        (('a' as u8) + (d - 10)) as char
    };
    assert(digit == spec_hex_digit_char((n % 16) as nat));
    if n < 16 {
        let mut r: Vec<char> = Vec::new();
        r.push(digit);
        assert(r@ =~= seq![digit]);
        r
    } else {
        let mut r = hex_text(n / 16);
        r.push(digit);
        r
    }
}

/// The hexadecimal form of a number is made of hexadecimal digits, one or
/// more, and of four at most for a number below 65536.
pub proof fn lemma_hex_text_digits(n: nat)
    ensures
        spec_hex_text(n).len() >= 1,
        spec_all_hex_digits(spec_hex_text(n)),
        n < 0x10 ==> spec_hex_text(n).len() == 1,
        n < 0x100 ==> spec_hex_text(n).len() <= 2,
        n < 0x1000 ==> spec_hex_text(n).len() <= 3,
        n < 0x1_0000 ==> spec_hex_text(n).len() <= 4,
    decreases n,
{
    if n >= 16 {
        lemma_hex_text_digits(n / 16);
        let front = spec_hex_text(n / 16);
        let text = spec_hex_text(n);
        assert forall|i: int| 0 <= i < text.len() implies spec_is_hex_digit(#[trigger] text[i]) by {
            if i < front.len() {
                assert(text[i] == front[i]);
            }
        }
    }
}

/// The hexadecimal form of a number spells that number.
pub proof fn lemma_hex_text_value(n: nat)
    ensures
        spec_hex_value(spec_hex_text(n)) == n,
    decreases n,
{
    let text = spec_hex_text(n);
    if n < 16 {
        assert(text.drop_last() =~= Seq::<char>::empty());
        assert(text.last() == spec_hex_digit_char(n));
        reveal_with_fuel(spec_hex_value, 2);
    } else {
        lemma_hex_text_value(n / 16);
        assert(text.drop_last() =~= spec_hex_text(n / 16));
        assert(text.last() == spec_hex_digit_char(n % 16));
    }
}

/// The hexadecimal form of a group spells that group, and holds no `:`.
pub proof fn lemma_hex_group_of_text(v: u16)
    ensures
        spec_hex_group(spec_hex_text(v as nat)) == Some(v),
        spec_hex_text(v as nat).len() >= 1,
        !spec_hex_text(v as nat).contains(':'),
{
    let t = spec_hex_text(v as nat);
    lemma_hex_text_digits(v as nat);
    lemma_hex_text_value(v as nat);
    if t.contains(':') {
        let i = choose|i: int| 0 <= i < t.len() && t[i] == ':';
        assert(spec_is_hex_digit(t[i]));
    }
}

/// Whether each of the pieces spells a group.
pub open spec fn spec_all_hex_groups(pieces: Seq<Seq<char>>) -> bool {
    forall|i: int| 0 <= i < pieces.len() ==> spec_hex_group(#[trigger] pieces[i]) is Some
}

/// The groups that the pieces spell, one each.
pub open spec fn spec_hex_groups(pieces: Seq<Seq<char>>) -> Seq<u16> {
    pieces.map_values(|t: Seq<char>| spec_hex_group(t)->0)
}

/// The two groups that an IPv4 address fills at the end of an IPv6 address.
pub open spec fn spec_embedded(a: Ipv4Address) -> Seq<u16> {
    seq![(a.bits as int / 0x1_0000) as u16, (a.bits as int % 0x1_0000) as u16]
}

/// The groups that the last pieces of an address spell: one group each,
/// but that the very last piece may be an IPv4 address, which spells two.
pub open spec fn spec_closing_groups(pieces: Seq<Seq<char>>) -> Option<Seq<u16>> {
    if pieces.len() == 0 {
        Some(Seq::<u16>::empty())
    } else if !spec_all_hex_groups(pieces.drop_last()) {
        None
    } else if spec_hex_group(pieces.last()) is Some {
        Some(spec_hex_groups(pieces.drop_last()).push(spec_hex_group(pieces.last())->0))
    } else if spec_parse_ipv4(pieces.last()) is Some {
        Some(spec_hex_groups(pieces.drop_last()) + spec_embedded(spec_parse_ipv4(pieces.last())->0))
    } else {
        None
    }
}

/// Whether `k` is the place of the first empty piece, or the number of
/// pieces if none is empty.
pub open spec fn spec_is_first_empty(pieces: Seq<Seq<char>>, k: int) -> bool {
    &&& 0 <= k <= pieces.len()
    &&& forall|i: int| 0 <= i < k ==> (#[trigger] pieces[i]).len() > 0
    &&& k < pieces.len() ==> pieces[k].len() == 0
}

/// The place of the first empty piece, or the number of pieces if none is
/// empty.
pub open spec fn spec_first_empty(pieces: Seq<Seq<char>>) -> int {
    choose|k: int| spec_is_first_empty(pieces, k)
}

/// Every row of pieces has a place of its first empty piece.
pub proof fn lemma_first_empty_exists(pieces: Seq<Seq<char>>)
    ensures
        spec_is_first_empty(pieces, spec_first_empty(pieces)),
    decreases pieces.len(),
{
    if pieces.len() == 0 {
        assert(spec_is_first_empty(pieces, 0));
    } else {
        let front = pieces.drop_last();
        lemma_first_empty_exists(front);
        let k = spec_first_empty(front);
        assert(forall|i: int| 0 <= i < front.len() ==> front[i] == pieces[i]);
        if k < front.len() {
            assert(spec_is_first_empty(pieces, k));
        } else if pieces.last().len() == 0 {
            assert(spec_is_first_empty(pieces, pieces.len() - 1));
        } else {
            assert(spec_is_first_empty(pieces, pieces.len() as int));
        }
    }
}

/// The first empty piece has one place only.
pub proof fn lemma_first_empty(pieces: Seq<Seq<char>>, k: int)
    requires
        spec_is_first_empty(pieces, k),
    ensures
        spec_first_empty(pieces) == k,
{
    let c = spec_first_empty(pieces);
    assert(spec_is_first_empty(pieces, c));
    if c < k {
        assert(pieces[c].len() > 0);
    } else if k < c {
        assert(pieces[k].len() > 0);
    }
}

/// The pieces after the `::` of an address whose pieces between colons are
/// `pieces` and whose first empty piece stands at `k`; none if the empty
/// piece is no part of a `::`.
///
/// A `::` at the start leaves two empty pieces at the start, one at the end
/// two at the end, and one in the middle a single empty piece; `::` alone
/// leaves three empty pieces.
pub open spec fn spec_after_gap(pieces: Seq<Seq<char>>, k: int) -> Option<Seq<Seq<char>>> {
    let n = pieces.len() as int;
    if k == 0 {
        if n >= 3 && pieces[1].len() == 0 {
            if n == 3 && pieces[2].len() == 0 {
                Some(Seq::<Seq<char>>::empty())
            } else {
                Some(pieces.skip(2))
            }
        } else {
            None
        }
    } else if k == n - 1 {
        None
    } else if k == n - 2 && pieces[n - 1].len() == 0 {
        Some(Seq::<Seq<char>>::empty())
    } else {
        Some(pieces.skip(k + 1))
    }
}

/// The eight groups that a text spells as an IPv6 address.
///
/// The text is cut at every `:`. Without a `::` the pieces spell all eight
/// groups. With a `::`, which may stand once, the pieces before it spell the
/// first groups, the pieces after it the last groups, seven at most
/// together, and the groups between are zero. Each piece spells one group in
/// hexadecimal; the last piece of the text may be an IPv4 address instead
/// and spell two.
pub open spec fn spec_ipv6_groups(s: Seq<char>) -> Option<Seq<u16>> {
    let pieces = spec_split(s, ':');
    let k = spec_first_empty(pieces);
    if k == pieces.len() {
        match spec_closing_groups(pieces) {
            Some(groups) => if groups.len() == 8 {
                Some(groups)
            } else {
                None
            },
            None => None,
        }
    } else {
        match spec_after_gap(pieces, k) {
            None => None,
            Some(after) => if spec_all_hex_groups(pieces.take(k)) && spec_closing_groups(after)
                is Some && k + spec_closing_groups(after)->0.len() <= 7 {
                Some(
                    spec_hex_groups(pieces.take(k)) + Seq::new(
                        (8 - k - spec_closing_groups(after)->0.len()) as nat,
                        |i: int| 0u16,
                    ) + spec_closing_groups(after)->0,
                )
            } else {
                None
            },
        }
    }
}

/// The IPv6 address that a text spells.
pub open spec fn spec_parse_ipv6(s: Seq<char>) -> Option<Ipv6Address> {
    match spec_ipv6_groups(s) {
        Some(groups) => Some(Ipv6Address::spec_from_groups(groups)),
        None => None,
    }
}

/// Reads the pieces from place `from` up to place `to` as one group each.
fn parse_hex_groups(pieces: &Vec<Vec<char>>, from: usize, to: usize) -> (r: Option<Vec<u16>>)
    requires
        from <= to <= pieces.len(),
    ensures
        r is Some == spec_all_hex_groups(pieces_view(pieces@).subrange(from as int, to as int)),
        r is Some ==> r->0@ == spec_hex_groups(
            pieces_view(pieces@).subrange(from as int, to as int),
        ),
{
    let ghost part = pieces_view(pieces@).subrange(from as int, to as int);
    let mut groups: Vec<u16> = Vec::new();
    let mut i: usize = from;
    while i < to
        invariant
            from <= i <= to <= pieces.len(),
            part == pieces_view(pieces@).subrange(from as int, to as int),
            groups@.len() == i - from,
            forall|j: int|
                0 <= j < i - from ==> spec_hex_group(#[trigger] part[j]) == Some(groups@[j]),
        decreases to - i,
    {
        assert(part[i - from] == pieces@[i as int]@);
        match parse_hex_group(pieces[i].as_slice()) {
            Some(g) => {
                groups.push(g);
            },
            None => {
                return None;
            },
        }
        i = i + 1;
    }
    assert(groups@ =~= spec_hex_groups(part));
    Some(groups)
}

/// Reads the pieces from place `from` up to place `to` as the last groups
/// of an address.
fn parse_closing_groups(pieces: &Vec<Vec<char>>, from: usize, to: usize) -> (r: Option<Vec<u16>>)
    requires
        from <= to <= pieces.len(),
    ensures
        match r {
            Some(g) => spec_closing_groups(pieces_view(pieces@).subrange(from as int, to as int))
                == Some(g@),
            None => spec_closing_groups(pieces_view(pieces@).subrange(from as int, to as int))
                is None,
        },
{
    let ghost part = pieces_view(pieces@).subrange(from as int, to as int);
    if from == to {
        return Some(Vec::new());
    }
    assert(part.drop_last() =~= pieces_view(pieces@).subrange(from as int, to - 1));
    assert(part.last() == pieces@[to - 1]@);
    let mut groups = match parse_hex_groups(pieces, from, to - 1) {
        Some(g) => g,
        None => {
            return None;
        },
    };
    match parse_hex_group(pieces[to - 1].as_slice()) {
        Some(g) => {
            groups.push(g);
            Some(groups)
        },
        None => match parse_ipv4(pieces[to - 1].as_slice()) {
            Some(a) => {
                groups.push((a.bits / 0x1_0000) as u16);
                groups.push((a.bits % 0x1_0000) as u16);
                assert(groups@ =~= spec_hex_groups(part.drop_last()) + spec_embedded(a));
                Some(groups)
            },
            None => None,
        },
    }
}

/// Reads an IPv6 address.
pub fn parse_ipv6(s: &[char]) -> (r: Option<Ipv6Address>)
    ensures
        r == spec_parse_ipv6(s@),
{
    let pieces = split(s, ':');
    let n = pieces.len();
    let ghost pv = pieces_view(pieces@);
    assert(forall|i: int| 0 <= i < n ==> (#[trigger] pv[i]) == pieces@[i]@);
    let mut k: usize = 0;
    while k < n && pieces[k].len() > 0
        invariant
            k <= n,
            n == pieces.len(),
            pv == pieces_view(pieces@),
            forall|i: int| 0 <= i < k ==> (#[trigger] pv[i]).len() > 0,
        decreases n - k,
    {
        assert(pv[k as int] == pieces@[k as int]@);
        k = k + 1;
    }
    proof {
        if k < n {
            assert(pv[k as int] == pieces@[k as int]@);
        }
        lemma_first_empty(pv, k as int);
    }
    if k == n {
        assert(pv.subrange(0, n as int) =~= pv);
        return match parse_closing_groups(&pieces, 0, n) {
            Some(groups) => if groups.len() == 8 {
                Some(Ipv6Address::from_groups(groups.as_slice()))
            } else {
                None
            },
            None => None,
        };
    }
    let from: usize = if k == 0 {
        if n >= 3 && pieces[1].len() == 0 {
            if n == 3 && pieces[2].len() == 0 {
                n
            } else {
                2
            }
        } else {
            return None;
        }
    } else if k == n - 1 {
        return None;
    } else if k == n - 2 && pieces[n - 1].len() == 0 {
        n
    } else {
        k + 1
    };
    let ghost after = pv.subrange(from as int, n as int);
    assert(spec_after_gap(pv, k as int) == Some(after)) by {
        assert(pv.skip(2) =~= pv.subrange(2, n as int));
        assert(pv.skip(k + 1) =~= pv.subrange(k + 1, n as int));
        assert(pv.subrange(n as int, n as int) =~= Seq::<Seq<char>>::empty());
    }
    assert(pv.take(k as int) =~= pv.subrange(0, k as int));
    let mut groups = match parse_hex_groups(&pieces, 0, k) {
        Some(g) => g,
        None => {
            return None;
        },
    };
    let mut closing = match parse_closing_groups(&pieces, from, n) {
        Some(g) => g,
        None => {
            return None;
        },
    };
    if closing.len() > 7 || k > 7 - closing.len() {
        return None;
    }
    let ghost head = groups@;
    let ghost tail = closing@;
    let zeros: usize = 8 - k - closing.len();
    let mut i: usize = 0;
    while i < zeros
        invariant
            i <= zeros,
            groups@ == head + Seq::new(i as nat, |j: int| 0u16),
        decreases zeros - i,
    {
        groups.push(0);
        assert(groups@ =~= head + Seq::new((i + 1) as nat, |j: int| 0u16));
        i = i + 1;
    }
    groups.append(&mut closing);
    assert(groups@ =~= head + Seq::new(zeros as nat, |j: int| 0u16) + tail);
    Some(Ipv6Address::from_groups(groups.as_slice()))
}

/// The first `n` of the groups in hexadecimal with a `:` between them,
/// `n >= 1`.
pub open spec fn spec_joined_groups(groups: Seq<u16>, n: int) -> Seq<char>
    decreases n,
{
    if n <= 1 {
        spec_hex_text(groups[0] as nat)
    } else {
        spec_joined_groups(groups, n - 1) + seq![':'] + spec_hex_text(groups[n - 1] as nat)
    }
}

impl Ipv6Address {
    /// The full text of the address: its eight groups in hexadecimal with a
    /// `:` between them, no group left out.
    pub open spec fn spec_text(self) -> Seq<char> {
        spec_hex_text(self.spec_group(0) as nat) + seq![':'] + spec_hex_text(
            self.spec_group(1) as nat,
        ) + seq![':'] + spec_hex_text(self.spec_group(2) as nat) + seq![':'] + spec_hex_text(
            self.spec_group(3) as nat,
        ) + seq![':'] + spec_hex_text(self.spec_group(4) as nat) + seq![':'] + spec_hex_text(
            self.spec_group(5) as nat,
        ) + seq![':'] + spec_hex_text(self.spec_group(6) as nat) + seq![':'] + spec_hex_text(
            self.spec_group(7) as nat,
        )
    }

    /// The full text of the address: its eight groups in hexadecimal with a
    /// `:` between them, no group left out.
    pub fn text(&self) -> (r: String)
        ensures
            r@ == self.spec_text(),
    {
        let groups = self.groups();
        let mut t = hex_text(groups[0] as u64);
        let ghost g = self.spec_groups();
        let mut i: usize = 1;
        while i < 8
            invariant
                1 <= i <= 8,
                groups@ == g,
                g == self.spec_groups(),
                t@ == spec_joined_groups(g, i as int),
            decreases 8 - i,
        {
            let ghost before = t@;
            t.push(':');
            let mut digits = hex_text(groups[i] as u64);
            let ghost piece = digits@;
            t.append(&mut digits);
            assert(t@ =~= before + seq![':'] + piece);
            i = i + 1;
        }
        proof {
            reveal_with_fuel(spec_joined_groups, 9);
            assert(t@ =~= self.spec_text());
        }
        string_of(t.as_slice())
    }
}

/// The last pieces of an address hold hexadecimal digits, decimal digits
/// and `.` only.
pub proof fn lemma_closing_group_characters(pieces: Seq<Seq<char>>, j: int, c: char)
    requires
        spec_closing_groups(pieces) is Some,
        0 <= j < pieces.len(),
        pieces[j].contains(c),
    ensures
        c == '.' || spec_is_hex_digit(c),
{
    let i = choose|i: int| 0 <= i < pieces[j].len() && pieces[j][i] == c;
    if j < pieces.len() - 1 {
        assert(pieces.drop_last()[j] == pieces[j]);
        assert(spec_hex_group(pieces.drop_last()[j]) is Some);
        assert(spec_is_hex_digit(pieces[j][i]));
    } else if spec_hex_group(pieces.last()) is Some {
        assert(spec_is_hex_digit(pieces[j][i]));
    } else {
        lemma_ipv4_characters(pieces[j], c);
    }
}

/// A text that spells an IPv6 address is made of hexadecimal digits, `:`
/// and `.` only.
pub proof fn lemma_ipv6_characters(s: Seq<char>, c: char)
    requires
        spec_parse_ipv6(s) is Some,
        s.contains(c),
    ensures
        c == ':' || c == '.' || spec_is_hex_digit(c),
{
    if c != ':' {
        let pieces = spec_split(s, ':');
        let n = pieces.len() as int;
        let k = spec_first_empty(pieces);
        lemma_first_empty_exists(pieces);
        lemma_split_keeps_characters(s, ':', c);
        let j = choose|j: int| 0 <= j < pieces.len() && (#[trigger] pieces[j]).contains(c);
        let i = choose|i: int| 0 <= i < pieces[j].len() && pieces[j][i] == c;
        assert(pieces[j].len() > 0);
        if k == n {
            lemma_closing_group_characters(pieces, j, c);
        } else {
            let after = spec_after_gap(pieces, k)->0;
            if j < k {
                assert(pieces.take(k)[j] == pieces[j]);
                assert(spec_hex_group(pieces.take(k)[j]) is Some);
                assert(spec_is_hex_digit(pieces[j][i]));
            } else {
                assert(j != k);
                let m = n - after.len();
                assert(j >= m);
                assert(after[j - m] == pieces[j]);
                lemma_closing_group_characters(after, j - m, c);
            }
        }
    }
}

/// A text that spells an IPv6 address holds a `:`.
pub proof fn lemma_ipv6_has_colon(s: Seq<char>)
    requires
        spec_parse_ipv6(s) is Some,
    ensures
        s.contains(':'),
{
    if !s.contains(':') {
        lemma_split_whole(s, ':');
        let pieces = spec_split(s, ':');
        assert(pieces.len() == 1 && pieces[0] == s);
        if s.len() == 0 {
            lemma_first_empty(pieces, 0);
        } else {
            lemma_first_empty(pieces, 1);
            assert(pieces.drop_last().len() == 0);
        }
    }
}

/// The full text of an IPv6 address spells that address.
pub proof fn lemma_parse_ipv6_text(a: Ipv6Address)
    ensures
        spec_parse_ipv6(a.spec_text()) == Some(a),
{
    let g = a.spec_groups();
    let t = Seq::new(8, |i: int| spec_hex_text(a.spec_group(i) as nat));
    assert forall|i: int| 0 <= i < 8 implies spec_hex_group(#[trigger] t[i]) == Some(g[i])
        && t[i].len() >= 1 && spec_split(t[i], ':') == seq![t[i]] by {
        lemma_hex_group_of_text(a.spec_group(i));
        lemma_split_whole(t[i], ':');
    }
    let c = seq![':'];
    let j1 = t[0] + c + t[1];
    let j2 = j1 + c + t[2];
    let j3 = j2 + c + t[3];
    let j4 = j3 + c + t[4];
    let j5 = j4 + c + t[5];
    let j6 = j5 + c + t[6];
    let j7 = j6 + c + t[7];
    assert(j7 == a.spec_text());
    lemma_split_joined(t[0], t[1], ':');
    lemma_split_joined(j1, t[2], ':');
    lemma_split_joined(j2, t[3], ':');
    lemma_split_joined(j3, t[4], ':');
    lemma_split_joined(j4, t[5], ':');
    lemma_split_joined(j5, t[6], ':');
    lemma_split_joined(j6, t[7], ':');
    let pieces = spec_split(a.spec_text(), ':');
    assert(spec_split(j1, ':') =~= seq![t[0], t[1]]);
    assert(spec_split(j2, ':') =~= seq![t[0], t[1], t[2]]);
    assert(spec_split(j3, ':') =~= seq![t[0], t[1], t[2], t[3]]);
    assert(spec_split(j4, ':') =~= seq![t[0], t[1], t[2], t[3], t[4]]);
    assert(spec_split(j5, ':') =~= seq![t[0], t[1], t[2], t[3], t[4], t[5]]);
    assert(spec_split(j6, ':') =~= seq![t[0], t[1], t[2], t[3], t[4], t[5], t[6]]);
    assert(pieces =~= t);
    lemma_first_empty(pieces, 8);
    let front = pieces.drop_last();
    assert forall|i: int| 0 <= i < front.len() implies spec_hex_group(#[trigger] front[i])
        is Some by {
        assert(front[i] == t[i]);
    }
    assert(pieces.last() == t[7]);
    let groups = spec_hex_groups(front).push(spec_hex_group(pieces.last())->0);
    assert(groups =~= g) by {
        assert forall|i: int| 0 <= i < 7 implies spec_hex_groups(front)[i] == g[i] by {
            assert(front[i] == t[i]);
        }
    }
    assert(spec_closing_groups(pieces) == Some(g));
    lemma_ipv6_groups_spell(a);
}

} // verus!

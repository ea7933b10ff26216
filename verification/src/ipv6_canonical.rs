//! The short text of an IPv6 address, as addresses are commonly written:
//! groups in lowercase hexadecimal without leading zeros, the longest run of
//! two or more zero groups shortened to `::`, and an address that stands for
//! an IPv4 address written with that address at its end.

use vstd::prelude::*;
use crate::ipv4_text::{lemma_ipv4_text_pieces, lemma_parse_ipv4_text, spec_parse_ipv4};
use crate::ipv6_text::{
    hex_text, lemma_first_empty, lemma_hex_group_of_text, lemma_parse_ipv6_text,
    spec_after_gap, spec_all_hex_groups, spec_closing_groups, spec_embedded, spec_hex_group,
    spec_hex_groups, spec_hex_text, spec_hex_value, spec_ipv6_groups, spec_is_hex_digit,
    spec_parse_ipv6,
};
use crate::net::{lemma_ipv6_groups_spell, Ipv4Address, Ipv6Address};
use crate::text::{
    chars_of, lemma_decimal_text_digits, lemma_split_join, lemma_split_joined, lemma_split_whole,
    spec_decimal_text, spec_join, spec_split, string_of,
};

verus! {

/// The groups in hexadecimal, one text each.
pub open spec fn spec_hex_texts(groups: Seq<u16>) -> Seq<Seq<char>> {
    groups.map_values(|g: u16| spec_hex_text(g as nat))
}

/// The groups in hexadecimal with a `:` between them; the empty text for no
/// groups.
pub open spec fn spec_groups_text(groups: Seq<u16>) -> Seq<char> {
    spec_join(spec_hex_texts(groups), ':')
}

/// Whether the `len` groups from place `start` on are a run of zero groups,
/// `len >= 1`.
pub open spec fn spec_zero_run(groups: Seq<u16>, start: int, len: int) -> bool {
    &&& 0 <= start
    &&& 1 <= len
    &&& start + len <= groups.len()
    &&& forall|i: int| start <= i < start + len ==> #[trigger] groups[i] == 0
}

/// Whether the `len` groups from place `start` on are the longest run of
/// zero groups, and the first of the longest where several are as long.
pub open spec fn spec_longest_zero_run(groups: Seq<u16>, start: int, len: int) -> bool {
    &&& spec_zero_run(groups, start, len)
    &&& forall|s: int, l: int| #[trigger]
        spec_zero_run(groups, s, l) ==> l < len || (l == len && start <= s)
}

/// Whether the groups are those of an address that stands for an IPv4
/// address: five zero groups and a group of ones before the last two.
pub open spec fn spec_is_mapped(groups: Seq<u16>) -> bool {
    &&& groups[0] == 0
    &&& groups[1] == 0
    &&& groups[2] == 0
    &&& groups[3] == 0
    &&& groups[4] == 0
    &&& groups[5] == 0xffff
}

/// The IPv4 address that the last two of eight groups hold.
pub open spec fn spec_mapped_ipv4(groups: Seq<u16>) -> Ipv4Address {
    Ipv4Address { bits: (groups[6] as int * 0x1_0000 + groups[7] as int) as u32 }
}

/// The start of the text of an address that stands for an IPv4 address.
pub open spec fn spec_mapped_start() -> Seq<char> {
    seq![':', ':', 'f', 'f', 'f', 'f', ':']
}

impl Ipv6Address {
    /// The short text of the address.
    ///
    /// An address that stands for an IPv4 address is `::ffff:` and that
    /// address. In any other address the longest run of zero groups, the
    /// first of the longest, is left out if it has two groups or more: the
    /// groups before it, `::`, and the groups after it. An address without
    /// such a run is written in full.
    pub open spec fn spec_canonical_text(self) -> Seq<char> {
        let g = self.spec_groups();
        if spec_is_mapped(g) {
            spec_mapped_start() + spec_mapped_ipv4(g).spec_text()
        } else if exists|start: int, len: int| len >= 2 && spec_longest_zero_run(g, start, len) {
            let (start, len) = choose|start: int, len: int|
                len >= 2 && spec_longest_zero_run(g, start, len);
            spec_groups_text(g.take(start)) + seq![':', ':'] + spec_groups_text(
                g.skip(start + len),
            )
        } else {
            self.spec_text()
        }
    }
}

/// There is one longest run of zero groups at most.
pub proof fn lemma_longest_zero_run_is_one(
    groups: Seq<u16>,
    start: int,
    len: int,
    other_start: int,
    other_len: int,
)
    requires
        spec_longest_zero_run(groups, start, len),
        spec_longest_zero_run(groups, other_start, other_len),
    ensures
        start == other_start,
        len == other_len,
{
    assert(spec_zero_run(groups, start, len));
    assert(spec_zero_run(groups, other_start, other_len));
}

/// The groups from place `from` up to place `to` in hexadecimal with a `:`
/// between them.
fn groups_text(groups: &[u16], from: usize, to: usize) -> (r: Vec<char>)
    requires
        from <= to <= groups.len(),
    ensures
        r@ == spec_groups_text(groups@.subrange(from as int, to as int)),
{
    let mut t: Vec<char> = Vec::new();
    let mut i: usize = from;
    assert(spec_hex_texts(groups@.subrange(from as int, from as int)).len() == 0);
    while i < to
        invariant
            from <= i <= to <= groups.len(),
            t@ == spec_groups_text(groups@.subrange(from as int, i as int)),
        decreases to - i,
    {
        let ghost before = t@;
        let ghost done = spec_hex_texts(groups@.subrange(from as int, i as int));
        let ghost next = spec_hex_texts(groups@.subrange(from as int, i as int + 1));
        let mut digits = hex_text(groups[i] as u64);
        let ghost piece = digits@;
        proof {
            assert(next.drop_last() =~= done);
            assert(next.last() == piece);
        }
        if i > from {
            t.push(':');
            t.append(&mut digits);
            assert(t@ =~= before + seq![':'] + piece);
        } else {
            t.append(&mut digits);
            assert(t@ =~= piece);
            assert(next[0] == piece);
        }
        i = i + 1;
    }
    t
}

impl Ipv6Address {
    /// The short text of the address.
    pub fn canonical_text(&self) -> (r: String)
        ensures
            r@ == self.spec_canonical_text(),
    {
        let groups = self.groups();
        let ghost g = self.spec_groups();
        if groups[0] == 0 && groups[1] == 0 && groups[2] == 0 && groups[3] == 0 && groups[4] == 0
            && groups[5] == 0xffff {
            let v4 = Ipv4Address { bits: groups[6] as u32 * 0x1_0000 + groups[7] as u32 };
            let mut t: Vec<char> = Vec::new();
            t.push(':');
            t.push(':');
            t.push('f');
            t.push('f');
            t.push('f');
            t.push('f');
            t.push(':');
            assert(t@ =~= spec_mapped_start());
            let tail = v4.text();
            let mut tail_chars = chars_of(tail.as_str());
            t.append(&mut tail_chars);
            return string_of(t.as_slice());
        }
        let mut best_start: usize = 0;
        let mut best_len: usize = 0;
        let mut run_len: usize = 0;
        let mut i: usize = 0;
        while i < 8
            invariant
                i <= 8,
                groups@ == g,
                g.len() == 8,
                run_len <= best_len <= i,
                forall|j: int| i - run_len <= j < i ==> #[trigger] g[j] == 0,
                run_len < i ==> g[i - run_len - 1] != 0,
                best_len == 0 ==> forall|j: int| 0 <= j < i ==> #[trigger] g[j] != 0,
                best_len > 0 ==> spec_zero_run(g, best_start as int, best_len as int) && best_start
                    + best_len <= i,
                forall|s: int, l: int| #[trigger]
                    spec_zero_run(g, s, l) && s + l <= i ==> l < best_len || (l == best_len
                        && best_start <= s),
            decreases 8 - i,
        {
            let ghost old_run = run_len;
            let ghost old_best_len = best_len;
            let ghost old_best_start = best_start;
            if groups[i] == 0 {
                run_len = run_len + 1;
                if run_len > best_len {
                    best_len = run_len;
                    best_start = i + 1 - run_len;
                }
                proof {
                    assert forall|s: int, l: int| #[trigger]
                        spec_zero_run(g, s, l) && s + l <= i + 1 implies l < best_len || (l
                        == best_len && best_start <= s) by {
                        if s + l == i + 1 {
                            if l > run_len {
                                assert(g[i - old_run - 1] == 0);
                            }
                        } else {
                            assert(spec_zero_run(g, s, l) && s + l <= i);
                            if old_best_len == 0 {
                                assert(g[s] == 0);
                            }
                        }
                    }
                }
            } else {
                run_len = 0;
                proof {
                    assert forall|s: int, l: int| #[trigger]
                        spec_zero_run(g, s, l) && s + l <= i + 1 implies l < best_len || (l
                        == best_len && best_start <= s) by {
                        if s + l == i + 1 {
                            assert(g[i as int] == 0);
                        } else {
                            assert(spec_zero_run(g, s, l) && s + l <= i);
                        }
                    }
                }
            }
            i = i + 1;
        }
        if best_len >= 2 {
            proof {
                assert(spec_longest_zero_run(g, best_start as int, best_len as int));
                let (start, len) = choose|start: int, len: int|
                    len >= 2 && spec_longest_zero_run(g, start, len);
                lemma_longest_zero_run_is_one(g, start, len, best_start as int, best_len as int);
                assert(g.take(best_start as int) =~= groups@.subrange(0, best_start as int));
                assert(g.skip(best_start + best_len) =~= groups@.subrange(
                    best_start + best_len,
                    8,
                ));
            }
            let mut t = groups_text(groups.as_slice(), 0, best_start);
            let ghost head = t@;
            t.push(':');
            t.push(':');
            let mut tail = groups_text(groups.as_slice(), best_start + best_len, 8);
            let ghost tail_text = tail@;
            t.append(&mut tail);
            assert(t@ =~= head + seq![':', ':'] + tail_text);
            string_of(t.as_slice())
        } else {
            proof {
                if exists|start: int, len: int| len >= 2 && spec_longest_zero_run(g, start, len) {
                    let (start, len) = choose|start: int, len: int|
                        len >= 2 && spec_longest_zero_run(g, start, len);
                    assert(spec_zero_run(g, start, len) && start + len <= 8);
                    if best_len == 0 {
                        assert(g[start] == 0);
                    }
                }
            }
            self.text()
        }
    }
}

/// The hexadecimal forms of groups hold no `:`, each spells its group, and
/// together with a `:` between them they fall into the same forms again.
pub proof fn lemma_hex_texts_spell(groups: Seq<u16>)
    ensures
        spec_hex_texts(groups).len() == groups.len(),
        forall|i: int|
            0 <= i < groups.len() ==> (#[trigger] spec_hex_texts(groups)[i]).len() >= 1
                && !spec_hex_texts(groups)[i].contains(':') && spec_hex_group(
                spec_hex_texts(groups)[i],
            ) == Some(groups[i]),
        spec_all_hex_groups(spec_hex_texts(groups)),
        spec_hex_groups(spec_hex_texts(groups)) == groups,
        groups.len() >= 1 ==> spec_split(spec_groups_text(groups), ':') == spec_hex_texts(groups),
        groups.len() >= 1 ==> spec_closing_groups(spec_hex_texts(groups)) == Some(groups),
{
    let ts = spec_hex_texts(groups);
    assert forall|i: int| 0 <= i < groups.len() implies (#[trigger] ts[i]).len() >= 1
        && !ts[i].contains(':') && spec_hex_group(ts[i]) == Some(groups[i]) by {
        lemma_hex_group_of_text(groups[i]);
    }
    assert(spec_hex_groups(ts) =~= groups);
    if groups.len() >= 1 {
        lemma_split_join(ts, ':');
        let front = ts.drop_last();
        assert forall|i: int| 0 <= i < front.len() implies spec_hex_group(#[trigger] front[i])
            == Some(groups[i]) by {
            assert(front[i] == ts[i]);
        }
        assert(spec_hex_groups(front).push(spec_hex_group(ts.last())->0) =~= groups);
    }
}

/// A text with a `::` in it falls into the pieces of what stands before the
/// `::`, one empty piece, and the pieces of what stands after it.
pub proof fn lemma_split_at_gap(head: Seq<char>, tail: Seq<char>)
    ensures
        spec_split(head + seq![':', ':'] + tail, ':') == spec_split(head, ':') + seq![
            Seq::<char>::empty(),
        ] + spec_split(tail, ':'),
{
    let e = Seq::<char>::empty();
    let front = head + seq![':'] + e;
    lemma_split_joined(head, e, ':');
    lemma_split_joined(front, tail, ':');
    assert(front + seq![':'] + tail =~= head + seq![':', ':'] + tail);
    assert(spec_split(e, ':') =~= seq![e]);
}

/// `ffff` spells the group of ones and holds no `:`.
proof fn lemma_ones_group()
    ensures
        spec_hex_group(seq!['f', 'f', 'f', 'f']) == Some(0xffffu16),
        !seq!['f', 'f', 'f', 'f'].contains(':'),
{
    let ones = seq!['f', 'f', 'f', 'f'];
    assert(!ones.contains(':')) by {
        if ones.contains(':') {
            let i = choose|i: int| 0 <= i < ones.len() && ones[i] == ':';
            assert(ones[i] == 'f');
        }
    }
    assert forall|i: int| 0 <= i < ones.len() implies spec_is_hex_digit(#[trigger] ones[i]) by {
        assert(ones[i] == 'f');
    }
    reveal_with_fuel(spec_hex_value, 5);
    assert(ones.drop_last() =~= seq!['f', 'f', 'f']);
    assert(ones.drop_last().drop_last() =~= seq!['f', 'f']);
    assert(ones.drop_last().drop_last().drop_last() =~= seq!['f']);
    assert(ones.drop_last().drop_last().drop_last().drop_last() =~= Seq::<char>::empty());
}

/// The text of an IPv4 address spells no group of an IPv6 address.
proof fn lemma_dotted_is_no_group(v4: Ipv4Address)
    ensures
        spec_hex_group(v4.spec_text()) is None,
{
    let dotted = v4.spec_text();
    let first = spec_decimal_text(v4.spec_octet(0) as nat);
    lemma_decimal_text_digits(v4.spec_octet(0) as nat);
    assert(dotted[first.len() as int] == '.');
    assert(!spec_is_hex_digit(dotted[first.len() as int]));
}

/// `::ffff:` and the text of an IPv4 address spell five zero groups, the
/// group of ones, and the two groups of that address.
proof fn lemma_mapped_groups(v4: Ipv4Address)
    ensures
        spec_ipv6_groups(spec_mapped_start() + v4.spec_text()) == Some(
            seq![0u16, 0u16, 0u16, 0u16, 0u16, 0xffffu16] + spec_embedded(v4),
        ),
{
    let e = Seq::<char>::empty();
    let ones = seq!['f', 'f', 'f', 'f'];
    let dotted = v4.spec_text();
    let text = spec_mapped_start() + dotted;
    lemma_ipv4_text_pieces(v4);
    lemma_parse_ipv4_text(v4);
    lemma_ones_group();
    lemma_dotted_is_no_group(v4);
    lemma_split_at_gap(e, ones);
    lemma_split_whole(ones, ':');
    lemma_split_whole(dotted, ':');
    lemma_split_joined(e + seq![':', ':'] + ones, dotted, ':');
    assert(text =~= e + seq![':', ':'] + ones + seq![':'] + dotted);
    let pieces = spec_split(text, ':');
    assert(spec_split(e, ':') =~= seq![e]);
    assert(pieces =~= seq![e, e, ones, dotted]);
    lemma_first_empty(pieces, 0);
    let after = pieces.skip(2);
    assert(after =~= seq![ones, dotted]);
    assert(spec_after_gap(pieces, 0) == Some(after));
    assert(after.drop_last() =~= seq![ones]);
    assert(after.last() == dotted);
    assert(spec_all_hex_groups(after.drop_last()));
    assert(spec_hex_groups(after.drop_last()) =~= seq![0xffffu16]);
    let closing = seq![0xffffu16] + spec_embedded(v4);
    assert(spec_closing_groups(after) == Some(closing));
    let none = Seq::<Seq<char>>::empty();
    assert(pieces.take(0) =~= none);
    assert(spec_hex_groups(none) =~= Seq::<u16>::empty());
    assert(Seq::<u16>::empty() + Seq::new(5, |i: int| 0u16) + closing =~= seq![
        0u16,
        0u16,
        0u16,
        0u16,
        0u16,
        0xffffu16,
    ] + spec_embedded(v4));
}

/// The short text of an address that stands for an IPv4 address spells
/// that address.
proof fn lemma_parse_mapped_text(a: Ipv6Address)
    requires
        spec_is_mapped(a.spec_groups()),
    ensures
        spec_parse_ipv6(a.spec_canonical_text()) == Some(a),
{
    let g = a.spec_groups();
    let v4 = spec_mapped_ipv4(g);
    lemma_mapped_groups(v4);
    let n = g[6] as int * 0x1_0000 + g[7] as int;
    assert(v4.bits == n);
    assert(n / 0x1_0000 == g[6] && n % 0x1_0000 == g[7]);
    assert(seq![0u16, 0u16, 0u16, 0u16, 0u16, 0xffffu16] + spec_embedded(v4) =~= g);
    lemma_ipv6_groups_spell(a);
}

/// The groups before a run of zero groups, the zero groups, and the groups
/// after the run are all the groups.
proof fn lemma_zero_run_parts(g: Seq<u16>, start: int, len: int)
    requires
        spec_zero_run(g, start, len),
    ensures
        g.take(start) + Seq::new(len as nat, |i: int| 0u16) + g.skip(start + len) == g,
        g.take(start).len() == start,
        g.skip(start + len).len() == g.len() - start - len,
{
    assert(g.take(start) + Seq::new(len as nat, |i: int| 0u16) + g.skip(start + len) =~= g);
}

/// `::` alone spells eight zero groups.
proof fn lemma_gap_alone(zeros: Seq<u16>)
    requires
        zeros == Seq::new(8, |i: int| 0u16),
    ensures
        spec_ipv6_groups(seq![':', ':']) == Some(zeros),
{
    let e = Seq::<char>::empty();
    let text = seq![':', ':'];
    lemma_split_at_gap(e, e);
    assert(e + seq![':', ':'] + e =~= text);
    assert(spec_split(e, ':') =~= seq![e]);
    let pieces = spec_split(text, ':');
    assert(pieces =~= seq![e, e, e]);
    lemma_first_empty(pieces, 0);
    let none = Seq::<Seq<char>>::empty();
    assert(spec_after_gap(pieces, 0) == Some(none));
    assert(spec_closing_groups(none) == Some(Seq::<u16>::empty()));
    assert(pieces.take(0) =~= none);
    assert(spec_hex_groups(none) =~= Seq::<u16>::empty());
    assert(Seq::<u16>::empty() + Seq::new(8, |i: int| 0u16) + Seq::<u16>::empty() =~= zeros);
}

/// `::` and groups after it spell zero groups and those groups.
proof fn lemma_gap_first(tail: Seq<u16>, zeros: Seq<u16>)
    requires
        1 <= tail.len() <= 6,
        zeros == Seq::new((8 - tail.len()) as nat, |i: int| 0u16),
    ensures
        spec_ipv6_groups(seq![':', ':'] + spec_groups_text(tail)) == Some(zeros + tail),
{
    let e = Seq::<char>::empty();
    let tails = spec_hex_texts(tail);
    let text = seq![':', ':'] + spec_groups_text(tail);
    lemma_hex_texts_spell(tail);
    lemma_split_at_gap(e, spec_groups_text(tail));
    assert(e + seq![':', ':'] + spec_groups_text(tail) =~= text);
    assert(spec_split(e, ':') =~= seq![e]);
    let pieces = spec_split(text, ':');
    assert(pieces =~= seq![e, e] + tails);
    lemma_first_empty(pieces, 0);
    assert(pieces[1] == e);
    assert(pieces[2] == tails[0]);
    assert(pieces.skip(2) =~= tails);
    assert(spec_after_gap(pieces, 0) == Some(tails));
    let none = Seq::<Seq<char>>::empty();
    assert(pieces.take(0) =~= none);
    assert(spec_hex_groups(none) =~= Seq::<u16>::empty());
    assert(Seq::<u16>::empty() + zeros + tail =~= zeros + tail);
}

/// Groups and `::` after them spell those groups and zero groups.
proof fn lemma_gap_last(head: Seq<u16>, zeros: Seq<u16>)
    requires
        1 <= head.len() <= 6,
        zeros == Seq::new((8 - head.len()) as nat, |i: int| 0u16),
    ensures
        spec_ipv6_groups(spec_groups_text(head) + seq![':', ':']) == Some(head + zeros),
{
    let e = Seq::<char>::empty();
    let heads = spec_hex_texts(head);
    let text = spec_groups_text(head) + seq![':', ':'];
    let k = head.len() as int;
    lemma_hex_texts_spell(head);
    lemma_split_at_gap(spec_groups_text(head), e);
    assert(spec_groups_text(head) + seq![':', ':'] + e =~= text);
    assert(spec_split(e, ':') =~= seq![e]);
    let pieces = spec_split(text, ':');
    assert(pieces =~= heads + seq![e, e]);
    assert forall|i: int| 0 <= i < k implies (#[trigger] pieces[i]).len() > 0 by {
        assert(pieces[i] == heads[i]);
    }
    assert(pieces[k] == e);
    assert(pieces[k + 1] == e);
    lemma_first_empty(pieces, k);
    let none = Seq::<Seq<char>>::empty();
    assert(spec_after_gap(pieces, k) == Some(none));
    assert(spec_closing_groups(none) == Some(Seq::<u16>::empty()));
    assert(pieces.take(k) =~= heads);
    assert(head + zeros + Seq::<u16>::empty() =~= head + zeros);
}

/// Groups, `::` and groups after it spell the first groups, zero groups
/// and the last groups.
proof fn lemma_gap_between(head: Seq<u16>, tail: Seq<u16>, zeros: Seq<u16>)
    requires
        1 <= head.len(),
        1 <= tail.len(),
        head.len() + tail.len() <= 6,
        zeros == Seq::new((8 - head.len() - tail.len()) as nat, |i: int| 0u16),
    ensures
        spec_ipv6_groups(spec_groups_text(head) + seq![':', ':'] + spec_groups_text(tail)) == Some(
            head + zeros + tail,
        ),
{
    let e = Seq::<char>::empty();
    let heads = spec_hex_texts(head);
    let tails = spec_hex_texts(tail);
    let text = spec_groups_text(head) + seq![':', ':'] + spec_groups_text(tail);
    let k = head.len() as int;
    lemma_hex_texts_spell(head);
    lemma_hex_texts_spell(tail);
    lemma_split_at_gap(spec_groups_text(head), spec_groups_text(tail));
    let pieces = spec_split(text, ':');
    assert(pieces =~= heads + seq![e] + tails);
    assert forall|i: int| 0 <= i < k implies (#[trigger] pieces[i]).len() > 0 by {
        assert(pieces[i] == heads[i]);
    }
    assert(pieces[k] == e);
    lemma_first_empty(pieces, k);
    assert(pieces[pieces.len() - 1] == tails[tails.len() - 1]);
    assert(pieces.skip(k + 1) =~= tails);
    assert(spec_after_gap(pieces, k) == Some(tails));
    assert(pieces.take(k) =~= heads);
}

/// The short text of an address with a run of zero groups left out spells
/// that address.
proof fn lemma_parse_shortened_text(a: Ipv6Address, start: int, len: int)
    requires
        len >= 2,
        spec_zero_run(a.spec_groups(), start, len),
    ensures
        spec_parse_ipv6(
            spec_groups_text(a.spec_groups().take(start)) + seq![':', ':'] + spec_groups_text(
                a.spec_groups().skip(start + len),
            ),
        ) == Some(a),
{
    let g = a.spec_groups();
    let e = Seq::<char>::empty();
    let head = g.take(start);
    let tail = g.skip(start + len);
    let zeros = Seq::new(len as nat, |i: int| 0u16);
    lemma_zero_run_parts(g, start, len);
    lemma_ipv6_groups_spell(a);
    assert(spec_hex_texts(Seq::<u16>::empty()).len() == 0);
    if start == 0 {
        assert(head =~= Seq::<u16>::empty());
        assert(Seq::<u16>::empty() + zeros =~= zeros);
        if tail.len() == 0 {
            assert(tail =~= Seq::<u16>::empty());
            assert(zeros + Seq::<u16>::empty() =~= zeros);
            assert(e + seq![':', ':'] + e =~= seq![':', ':']);
            lemma_gap_alone(zeros);
        } else {
            assert(e + seq![':', ':'] + spec_groups_text(tail) =~= seq![':', ':']
                + spec_groups_text(tail));
            lemma_gap_first(tail, zeros);
        }
    } else if tail.len() == 0 {
        assert(tail =~= Seq::<u16>::empty());
        assert(head + zeros + Seq::<u16>::empty() =~= head + zeros);
        assert(spec_groups_text(head) + seq![':', ':'] + e =~= spec_groups_text(head) + seq![
            ':',
            ':',
        ]);
        lemma_gap_last(head, zeros);
    } else {
        lemma_gap_between(head, tail, zeros);
    }
}

/// The short text of an IPv6 address spells that address.
pub proof fn lemma_parse_ipv6_canonical_text(a: Ipv6Address)
    ensures
        spec_parse_ipv6(a.spec_canonical_text()) == Some(a),
{
    let g = a.spec_groups();
    if spec_is_mapped(g) {
        lemma_parse_mapped_text(a);
    } else if exists|start: int, len: int| len >= 2 && spec_longest_zero_run(g, start, len) {
        let (start, len) = choose|start: int, len: int|
            len >= 2 && spec_longest_zero_run(g, start, len);
        lemma_parse_shortened_text(a, start, len);
    } else {
        lemma_parse_ipv6_text(a);
    }
}

} // verus!

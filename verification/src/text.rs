//! Text as sequences of characters: conversion from and to strings,
//! comparison, splitting and decimal numbers.

use vstd::prelude::*;

verus! {

/// The characters of a string.
pub fn chars_of(s: &str) -> (v: Vec<char>)
    ensures
        v@ == s@,
{
    let mut v: Vec<char> = Vec::new();
    for c in it: s.chars()
        invariant
            v@ == it.seq().take(it.index() as int),
            it.seq() == s@,
    {
        v.push(c);
    }
    v
}

/// Calls `String::push`. Taken on trust, not proved: afterwards the string
/// holds the characters that it held, followed by `c`.
#[verifier::external_body]
fn push_char(s: &mut String, c: char)
    ensures
        final(s)@ == old(s)@.push(c),
{
    s.push(c)
}

/// The string that holds the given characters.
pub fn string_of(v: &[char]) -> (s: String)
    ensures
        s@ == v@,
{
    let mut s = String::new();
    let mut i: usize = 0;
    while i < v.len()
        invariant
            i <= v.len(),
            s@ == v@.take(i as int),
        decreases v.len() - i,
    {
        push_char(&mut s, v[i]);
        assert(v@.take(i as int + 1) =~= v@.take(i as int).push(v@[i as int]));
        i = i + 1;
    }
    assert(v@.take(v.len() as int) =~= v@);
    s
}

/// Whether two texts hold the same characters.
pub fn chars_equal(a: &[char], b: &[char]) -> (r: bool)
    ensures
        r == (a@ == b@),
{
    if a.len() != b.len() {
        return false;
    }
    let mut i: usize = 0;
    while i < a.len()
        invariant
            a.len() == b.len(),
            i <= a.len(),
            forall|j: int| 0 <= j < i ==> a@[j] == b@[j],
        decreases a.len() - i,
    {
        if a[i] != b[i] {
            return false;
        }
        i = i + 1;
    }
    assert(a@ =~= b@);
    true
}

/// Whether two strings hold the same characters.
pub fn str_equal(a: &str, b: &str) -> (r: bool)
    ensures
        r == (a@ == b@),
{
    let x = chars_of(a);
    let y = chars_of(b);
    chars_equal(x.as_slice(), y.as_slice())
}

/// The pieces of a list of texts, each as a sequence of characters.
pub open spec fn pieces_view(pieces: Seq<Vec<char>>) -> Seq<Seq<char>> {
    pieces.map_values(|p: Vec<char>| p@)
}

/// The pieces that `s` falls into when it is cut at every `sep`. The empty
/// text is one empty piece; a `sep` ends the last piece and starts an empty
/// one; any other character goes on the end of the last piece. There is
/// always one piece more than there are occurrences of `sep`.
pub open spec fn spec_split(s: Seq<char>, sep: char) -> Seq<Seq<char>>
    decreases s.len(),
{
    if s.len() == 0 {
        seq![Seq::<char>::empty()]
    } else {
        let before = spec_split(s.drop_last(), sep);
        if s.last() == sep {
            before.push(Seq::<char>::empty())
        } else {
            before.drop_last().push(before.last().push(s.last()))
        }
    }
}

/// A split has at least one piece.
pub proof fn lemma_split_nonempty(s: Seq<char>, sep: char)
    ensures
        spec_split(s, sep).len() >= 1,
    decreases s.len(),
{
    if s.len() > 0 {
        lemma_split_nonempty(s.drop_last(), sep);
    }
}

/// Cuts `s` at every `sep`.
pub fn split(s: &[char], sep: char) -> (r: Vec<Vec<char>>)
    ensures
        pieces_view(r@) == spec_split(s@, sep),
{
    let mut done: Vec<Vec<char>> = Vec::new();
    let mut piece: Vec<char> = Vec::new();
    let mut i: usize = 0;
    while i < s.len()
        invariant
            i <= s.len(),
            pieces_view(done@).push(piece@) == spec_split(s@.take(i as int), sep),
        decreases s.len() - i,
    {
        let c = s[i];
        proof {
            assert(s@.take(i as int + 1).drop_last() =~= s@.take(i as int));
            assert(s@.take(i as int + 1).last() == c);
            let before = spec_split(s@.take(i as int), sep);
            assert(before.drop_last() =~= pieces_view(done@));
            assert(before.last() == piece@);
        }
        if c == sep {
            let ghost old_done = done@;
            done.push(piece);
            piece = Vec::new();
            assert(pieces_view(done@) =~= pieces_view(old_done).push(done@.last()@));
        } else {
            piece.push(c);
        }
        i = i + 1;
    }
    assert(s@.take(s.len() as int) =~= s@);
    let ghost old_done = done@;
    done.push(piece);
    assert(pieces_view(done@) =~= pieces_view(old_done).push(done@.last()@));
    done
}

/// What `char::is_whitespace` answers for a character: whether it has the
/// Unicode property White_Space.
pub uninterp spec fn spec_is_whitespace(c: char) -> bool;

/// Calls `char::is_whitespace`. Taken on trust, not proved: the answer
/// depends on the character alone. Which characters are whitespace is left
/// to the standard library; nothing here says so.
#[verifier::external_body]
fn is_whitespace(c: char) -> (r: bool)
    ensures
        r == spec_is_whitespace(c),
{
    c.is_whitespace()
}

/// The words of a text: its longest runs of characters that are not
/// whitespace, in order. Whitespace ends a word; any other character goes on
/// the end of the word before it, or starts a word after whitespace and at
/// the start of the text.
pub open spec fn spec_words(s: Seq<char>) -> Seq<Seq<char>>
    decreases s.len(),
{
    if s.len() == 0 {
        Seq::<Seq<char>>::empty()
    } else {
        let before = spec_words(s.drop_last());
        if spec_is_whitespace(s.last()) {
            before
        } else if s.len() >= 2 && !spec_is_whitespace(s[s.len() - 2]) {
            before.drop_last().push(before.last().push(s.last()))
        } else {
            before.push(seq![s.last()])
        }
    }
}

/// A text that ends in a character that is not whitespace has a last word,
/// and no word is empty.
pub proof fn lemma_words_nonempty(s: Seq<char>)
    ensures
        s.len() > 0 && !spec_is_whitespace(s.last()) ==> spec_words(s).len() > 0,
        forall|i: int| 0 <= i < spec_words(s).len() ==> (#[trigger] spec_words(s)[i]).len() > 0,
    decreases s.len(),
{
    if s.len() > 0 {
        let front = s.drop_last();
        lemma_words_nonempty(front);
        let before = spec_words(front);
        let after = spec_words(s);
        if !spec_is_whitespace(s.last()) && s.len() >= 2 && !spec_is_whitespace(s[s.len() - 2]) {
            assert(front.last() == s[s.len() - 2]);
            assert(before.len() > 0);
        }
        assert forall|i: int| 0 <= i < after.len() implies (#[trigger] after[i]).len() > 0 by {
            if i < after.len() - 1 {
                assert(after[i] == before[i]);
            }
        }
    }
}

/// The words of a text. No word is empty.
pub fn words(s: &[char]) -> (r: Vec<Vec<char>>)
    ensures
        pieces_view(r@) == spec_words(s@),
        forall|i: int| 0 <= i < r.len() ==> (#[trigger] r[i]).len() > 0,
{
    let mut done: Vec<Vec<char>> = Vec::new();
    let mut word: Vec<char> = Vec::new();
    let mut i: usize = 0;
    while i < s.len()
        invariant
            i <= s.len(),
            word@.len() > 0 <==> (i > 0 && !spec_is_whitespace(s@[i - 1])),
            spec_words(s@.take(i as int)) == if word@.len() > 0 {
                pieces_view(done@).push(word@)
            } else {
                pieces_view(done@)
            },
        decreases s.len() - i,
    {
        let c = s[i];
        proof {
            assert(s@.take(i as int + 1).drop_last() =~= s@.take(i as int));
            assert(s@.take(i as int + 1).last() == c);
            if i > 0 {
                assert(s@.take(i as int + 1)[i as int - 1] == s@[i as int - 1]);
            }
            let before = spec_words(s@.take(i as int));
            if word@.len() > 0 {
                assert(before.drop_last() =~= pieces_view(done@));
                assert(before.last() == word@);
            }
        }
        if is_whitespace(c) {
            if word.len() > 0 {
                let ghost old_done = done@;
                done.push(word);
                word = Vec::new();
                assert(pieces_view(done@) =~= pieces_view(old_done).push(done@.last()@));
            }
        } else {
            proof {
                if word@.len() == 0 {
                    assert(seq![c] =~= word@.push(c));
                }
            }
            word.push(c);
        }
        i = i + 1;
    }
    assert(s@.take(s.len() as int) =~= s@);
    if word.len() > 0 {
        let ghost old_done = done@;
        done.push(word);
        assert(pieces_view(done@) =~= pieces_view(old_done).push(done@.last()@));
    }
    proof {
        lemma_words_nonempty(s@);
        assert forall|i: int| 0 <= i < done.len() implies (#[trigger] done[i]).len() > 0 by {
            assert(pieces_view(done@)[i] == done@[i]@);
        }
    }
    done
}

/// What `str::to_lowercase` makes of a text: its lowercase form by the
/// rules of Unicode.
pub uninterp spec fn spec_to_lowercase(s: Seq<char>) -> Seq<char>;

/// Calls `str::to_lowercase`. Taken on trust, not proved: the result
/// depends on the characters of the text alone. What the lowercase form of
/// a text is, is left to the standard library; nothing here says so.
#[verifier::external_body]
fn str_to_lowercase(s: &str) -> (r: String)
    ensures
        r@ == spec_to_lowercase(s@),
{
    s.to_lowercase()
}

/// The lowercase form of a text.
pub fn to_lowercase(s: &[char]) -> (r: Vec<char>)
    ensures
        r@ == spec_to_lowercase(s@),
{
    let text = string_of(s);
    let lower = str_to_lowercase(text.as_str());
    chars_of(lower.as_str())
}

/// Whether a character is one of the ten decimal digits.
pub open spec fn spec_is_digit(c: char) -> bool {
    '0' <= c && c <= '9'
}

/// The number that a decimal digit stands for.
pub open spec fn spec_digit_value(c: char) -> nat {
    (c as int - '0' as int) as nat
}

/// The digit that stands for a number below ten.
pub open spec fn spec_digit_char(d: nat) -> char {
    (d + '0' as nat) as char
}

/// Whether a text is made of decimal digits only.
pub open spec fn spec_all_digits(s: Seq<char>) -> bool {
    forall|i: int| 0 <= i < s.len() ==> spec_is_digit(#[trigger] s[i])
}

/// The number that a row of decimal digits spells; leading zeros count for
/// nothing, and the empty row spells zero.
pub open spec fn spec_decimal_value(digits: Seq<char>) -> nat
    decreases digits.len(),
{
    if digits.len() == 0 {
        0
    } else {
        spec_decimal_value(digits.drop_last()) * 10 + spec_digit_value(digits.last())
    }
}

/// The number that a text spells as an unsigned decimal number no greater
/// than `max`: a `+` or nothing, then one digit or more, leading zeros
/// allowed. Any other text spells none.
pub open spec fn spec_parse_unsigned(s: Seq<char>, max: nat) -> Option<nat> {
    let digits = if s.len() > 0 && s[0] == '+' {
        s.drop_first()
    } else {
        s
    };
    if digits.len() > 0 && spec_all_digits(digits) && spec_decimal_value(digits) <= max {
        Some(spec_decimal_value(digits))
    } else {
        None
    }
}

/// A longer row of digits spells no less than any of its beginnings.
pub proof fn lemma_decimal_value_grows(digits: Seq<char>, n: int)
    requires
        0 <= n <= digits.len(),
    ensures
        spec_decimal_value(digits.take(n)) <= spec_decimal_value(digits),
    decreases digits.len(),
{
    if n == digits.len() {
        assert(digits.take(n) =~= digits);
    } else {
        lemma_decimal_value_grows(digits.drop_last(), n);
        assert(digits.drop_last().take(n) =~= digits.take(n));
    }
}

/// Reads an unsigned decimal number no greater than `max`.
pub fn parse_unsigned(s: &[char], max: u64) -> (r: Option<u64>)
    ensures
        match r {
            Some(v) => spec_parse_unsigned(s@, max as nat) == Some(v as nat),
            None => spec_parse_unsigned(s@, max as nat) is None,
        },
{
    let start: usize = if s.len() > 0 && s[0] == '+' {
        1
    } else {
        0
    };
    let ghost digits = s@.subrange(start as int, s.len() as int);
    assert(digits =~= if s.len() > 0 && s@[0] == '+' {
        s@.drop_first()
    } else {
        s@
    });
    if start == s.len() {
        return None;
    }
    let mut value: u64 = 0;
    let mut i: usize = start;
    while i < s.len()
        invariant
            start <= i <= s.len(),
            digits == s@.subrange(start as int, s.len() as int),
            digits == if s@.len() > 0 && s@[0] == '+' {
                s@.drop_first()
            } else {
                s@
            },
            spec_all_digits(digits.take(i - start)),
            value == spec_decimal_value(digits.take(i - start)),
            value <= max,
        decreases s.len() - i,
    {
        let c = s[i];
        let ghost k = i - start;
        proof {
            assert(digits.take(k + 1).drop_last() =~= digits.take(k));
            assert(digits.take(k + 1).last() == c);
        }
        assert(digits[k] == c);
        if c < '0' || c > '9' {
            assert(!spec_is_digit(digits[k]));
            return None;
        }
        let d: u128 = (c as u32 - '0' as u32) as u128;
        let next: u128 = value as u128 * 10 + d;
        assert(next == spec_decimal_value(digits.take(k + 1)));
        if next > max as u128 {
            proof {
                lemma_decimal_value_grows(digits, k + 1);
            }
            return None;
        }
        value = next as u64;
        proof {
            assert forall|j: int| 0 <= j < k + 1 implies spec_is_digit(
                #[trigger] digits.take(k + 1)[j],
            ) by {
                if j < k {
                    assert(digits.take(k)[j] == digits.take(k + 1)[j]);
                }
            }
        }
        i = i + 1;
    }
    assert(digits.take(s.len() - start) =~= digits);
    Some(value)
}

/// The decimal form of a number: its digits without leading zeros, `0` for
/// zero.
pub open spec fn spec_decimal_text(n: nat) -> Seq<char>
    decreases n,
{
    if n < 10 {
        seq![spec_digit_char(n)]
    } else {
        spec_decimal_text(n / 10).push(spec_digit_char(n % 10))
    }
}

/// The decimal form of a number.
pub fn decimal_text(n: u64) -> (r: Vec<char>)
    ensures
        r@ == spec_decimal_text(n as nat),
    decreases n,
{
    let digit: char = (('0' as u8) + (n % 10) as u8) as char;
    assert(digit == spec_digit_char((n % 10) as nat));
    if n < 10 {
        let mut r: Vec<char> = Vec::new();
        r.push(digit);
        assert(r@ =~= seq![digit]);
        r
    } else {
        let mut r = decimal_text(n / 10);
        r.push(digit);
        r
    }
}

/// A text without `sep` is one piece.
pub proof fn lemma_split_whole(s: Seq<char>, sep: char)
    requires
        !s.contains(sep),
    ensures
        spec_split(s, sep) == seq![s],
    decreases s.len(),
{
    if s.len() == 0 {
        assert(s =~= Seq::<char>::empty());
    } else {
        let front = s.drop_last();
        assert(!front.contains(sep)) by {
            if front.contains(sep) {
                let i = choose|i: int| 0 <= i < front.len() && front[i] == sep;
                assert(s[i] == sep);
            }
        }
        lemma_split_whole(front, sep);
        assert(s.last() != sep) by {
            assert(s[s.len() - 1] == s.last());
        }
        assert(front.push(s.last()) =~= s);
        assert(seq![front].drop_last().push(front.push(s.last())) =~= seq![s]);
    }
}

/// Two texts with a `sep` between them fall into the pieces of the first
/// followed by the pieces of the second.
pub proof fn lemma_split_joined(a: Seq<char>, b: Seq<char>, sep: char)
    ensures
        spec_split(a + seq![sep] + b, sep) == spec_split(a, sep) + spec_split(b, sep),
    decreases b.len(),
{
    let whole = a + seq![sep] + b;
    lemma_split_nonempty(a, sep);
    lemma_split_nonempty(b, sep);
    if b.len() == 0 {
        assert(whole.drop_last() =~= a);
        assert(whole.last() == sep);
        assert(spec_split(a, sep).push(Seq::<char>::empty()) =~= spec_split(a, sep) + spec_split(
            b,
            sep,
        ));
    } else {
        let front = b.drop_last();
        lemma_split_joined(a, front, sep);
        lemma_split_nonempty(front, sep);
        assert(whole.drop_last() =~= a + seq![sep] + front);
        assert(whole.last() == b.last());
        let x = spec_split(a, sep);
        let y = spec_split(front, sep);
        if b.last() == sep {
            assert((x + y).push(Seq::<char>::empty()) =~= x + y.push(Seq::<char>::empty()));
        } else {
            assert((x + y).last() == y.last());
            assert((x + y).drop_last().push(y.last().push(b.last())) =~= x + y.drop_last().push(
                y.last().push(b.last()),
            ));
        }
    }
}

/// The texts put together with a `sep` between each two; the empty text
/// for no texts.
pub open spec fn spec_join(pieces: Seq<Seq<char>>, sep: char) -> Seq<char>
    decreases pieces.len(),
{
    if pieces.len() == 0 {
        Seq::<char>::empty()
    } else if pieces.len() == 1 {
        pieces[0]
    } else {
        spec_join(pieces.drop_last(), sep) + seq![sep] + pieces.last()
    }
}

/// Texts without `sep` that were joined with `sep` fall into the same
/// texts again when cut at `sep`.
pub proof fn lemma_split_join(pieces: Seq<Seq<char>>, sep: char)
    requires
        pieces.len() >= 1,
        forall|i: int| 0 <= i < pieces.len() ==> !(#[trigger] pieces[i]).contains(sep),
    ensures
        spec_split(spec_join(pieces, sep), sep) == pieces,
    decreases pieces.len(),
{
    if pieces.len() == 1 {
        lemma_split_whole(pieces[0], sep);
        assert(seq![pieces[0]] =~= pieces);
    } else {
        let front = pieces.drop_last();
        assert forall|i: int| 0 <= i < front.len() implies !(#[trigger] front[i]).contains(sep) by {
            assert(front[i] == pieces[i]);
        }
        lemma_split_join(front, sep);
        lemma_split_joined(spec_join(front, sep), pieces.last(), sep);
        lemma_split_whole(pieces.last(), sep);
        assert(front + seq![pieces.last()] =~= pieces);
    }
}

/// Every character of a text other than `sep` stands in one of its pieces.
pub proof fn lemma_split_keeps_characters(s: Seq<char>, sep: char, c: char)
    requires
        s.contains(c),
        c != sep,
    ensures
        exists|j: int| 0 <= j < spec_split(s, sep).len() && (#[trigger] spec_split(s, sep)[j]).contains(c),
    decreases s.len(),
{
    let front = s.drop_last();
    let before = spec_split(front, sep);
    let after = spec_split(s, sep);
    lemma_split_nonempty(front, sep);
    let i = choose|i: int| 0 <= i < s.len() && s[i] == c;
    if i < s.len() - 1 {
        assert(front[i] == c);
        lemma_split_keeps_characters(front, sep, c);
        let j = choose|j: int| 0 <= j < before.len() && (#[trigger] before[j]).contains(c);
        if s.last() == sep {
            assert(after[j] == before[j]);
        } else if j < before.len() - 1 {
            assert(after[j] == before[j]);
        } else {
            let p = choose|p: int| 0 <= p < before[j].len() && before[j][p] == c;
            assert(after[j][p] == c);
        }
    } else {
        let j = after.len() - 1;
        assert(s.last() == c);
        assert(after[j] == before.last().push(c));
        assert(after[j][before.last().len() as int] == c);
    }
}

/// Whether a text holds a character.
pub fn contains_char(s: &[char], c: char) -> (r: bool)
    ensures
        r == s@.contains(c),
{
    let mut i: usize = 0;
    while i < s.len()
        invariant
            i <= s.len(),
            forall|j: int| 0 <= j < i ==> s@[j] != c,
        decreases s.len() - i,
    {
        if s[i] == c {
            return true;
        }
        i = i + 1;
    }
    false
}

/// The decimal form of a number is made of digits, one or more, and starts
/// with `0` only if the number is zero.
pub proof fn lemma_decimal_text_digits(n: nat)
    ensures
        spec_decimal_text(n).len() >= 1,
        spec_all_digits(spec_decimal_text(n)),
        spec_decimal_text(n)[0] == '0' ==> n == 0,
        n < 10 ==> spec_decimal_text(n).len() == 1,
        10 <= n < 100 ==> spec_decimal_text(n).len() == 2,
        100 <= n < 1000 ==> spec_decimal_text(n).len() == 3,
    decreases n,
{
    if n >= 10 {
        lemma_decimal_text_digits(n / 10);
        let front = spec_decimal_text(n / 10);
        let text = spec_decimal_text(n);
        assert(text[0] == front[0]);
        assert forall|i: int| 0 <= i < text.len() implies spec_is_digit(#[trigger] text[i]) by {
            if i < front.len() {
                assert(text[i] == front[i]);
            }
        }
    }
}

/// The decimal form of a number spells that number.
pub proof fn lemma_decimal_text_value(n: nat)
    ensures
        spec_decimal_value(spec_decimal_text(n)) == n,
    decreases n,
{
    let text = spec_decimal_text(n);
    if n < 10 {
        assert(text.drop_last() =~= Seq::<char>::empty());
        assert(text.last() == spec_digit_char(n));
        reveal_with_fuel(spec_decimal_value, 2);
    } else {
        lemma_decimal_text_value(n / 10);
        assert(text.drop_last() =~= spec_decimal_text(n / 10));
        assert(text.last() == spec_digit_char(n % 10));
    }
}

/// The decimal form of a number no greater than `max` reads back as that
/// number.
pub proof fn lemma_parse_decimal_text(n: nat, max: nat)
    requires
        n <= max,
    ensures
        spec_parse_unsigned(spec_decimal_text(n), max) == Some(n),
{
    lemma_decimal_text_digits(n);
    lemma_decimal_text_value(n);
    let text = spec_decimal_text(n);
    assert(spec_is_digit(text[0]));
}

/// A text that spells an unsigned number is made of digits and at most a
/// `+` before them.
pub proof fn lemma_unsigned_characters(s: Seq<char>, max: nat, c: char)
    requires
        spec_parse_unsigned(s, max) is Some,
        s.contains(c),
    ensures
        c == '+' || spec_is_digit(c),
{
    let i = choose|i: int| 0 <= i < s.len() && s[i] == c;
    if s[0] == '+' {
        if i > 0 {
            assert(s.drop_first()[i - 1] == c);
        }
    }
}

} // verus!

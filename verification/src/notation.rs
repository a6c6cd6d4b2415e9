//! How numerals, addresses and `Forwarded` elements are read, and that what the library writes is
//! read back as what it was written from.
//!
//! The readers here know nothing of how the texts are put together. They are used only to say what
//! the texts mean.
use crate::address::{AddressView, ClientAddress};
use vstd::arithmetic::div_mod::{
    lemma_div_decreases, lemma_fundamental_div_mod, lemma_fundamental_div_mod_converse,
    lemma_mod_bound,
};
use vstd::prelude::*;

verus! {

/// The value of a digit; negative if the character is none. Letters are lower case.
pub open spec fn digit_value(c: char) -> int {
    if '0' <= c <= '9' {
        c as int - '0' as int
    } else if 'a' <= c <= 'f' {
        c as int - 'a' as int + 10
    } else {
        -1
    }
}

/// Whether a character is a digit in `base`.
pub open spec fn is_digit(c: char, base: nat) -> bool {
    0 <= digit_value(c) < base
}

/// The number that digits in `base` stand for: going through them from the left, each makes of the
/// value so far `base` times that value plus its own.
pub open spec fn value_of(text: Seq<char>, base: nat) -> int
    decreases text.len(),
{
    if text.len() == 0 {
        0
    } else {
        base * value_of(text.drop_last(), base) + digit_value(text.last())
    }
}

/// Whether `text` is the numeral of `n` in `base`: one or more digits that stand for `n`, without
/// leading zeros.
pub open spec fn is_numeral_of(text: Seq<char>, n: nat, base: nat) -> bool {
    &&& text.len() > 0
    &&& forall|i: int| 0 <= i < text.len() ==> is_digit(#[trigger] text[i], base)
    &&& text.len() > 1 ==> text[0] != '0'
    &&& value_of(text, base) == n
}

/// Digits stand for a number that is not negative, and not zero if the first is not.
proof fn lemma_value_bounds(text: Seq<char>, base: nat)
    requires
        base >= 2,
        forall|i: int| 0 <= i < text.len() ==> is_digit(#[trigger] text[i], base),
    ensures
        value_of(text, base) >= 0,
        text.len() > 0 && text[0] != '0' ==> value_of(text, base) >= 1,
    decreases text.len(),
{
    if text.len() > 0 {
        let shorter = text.drop_last();
        assert forall|i: int| 0 <= i < shorter.len() implies is_digit(
            #[trigger] shorter[i],
            base,
        ) by {
            assert(shorter[i] == text[i]);
        }
        lemma_value_bounds(shorter, base);
        let v = value_of(shorter, base);
        assert(is_digit(text[text.len() - 1], base));
        assert(base * v >= v) by (nonlinear_arith)
            requires
                base >= 2,
                v >= 0,
        ;
        if text.len() > 1 {
            assert(shorter[0] == text[0]);
        }
    }
}

/// A number has one numeral.
pub proof fn law_one_numeral(s: Seq<char>, t: Seq<char>, n: nat, base: nat)
    requires
        2 <= base <= 16,
        is_numeral_of(s, n, base),
        is_numeral_of(t, n, base),
    ensures
        s == t,
    decreases s.len(),
{
    lemma_last_digit(s, n, base);
    lemma_last_digit(t, n, base);
    assert(s.last() == t.last());
    if n >= base {
        law_one_numeral(s.drop_last(), t.drop_last(), n / base, base);
    }
    assert(s == s.drop_last().push(s.last()));
    assert(t == t.drop_last().push(t.last()));
}

/// The last digit of a numeral is the remainder, the others are the numeral of the quotient.
proof fn lemma_last_digit(s: Seq<char>, n: nat, base: nat)
    requires
        2 <= base <= 16,
        is_numeral_of(s, n, base),
    ensures
        digit_value(s.last()) == n % base,
        is_digit(s.last(), base),
        n < base <==> s.len() == 1,
        n >= base ==> is_numeral_of(s.drop_last(), n / base, base),
{
    let shorter = s.drop_last();
    assert(is_digit(s[s.len() - 1], base));
    assert forall|i: int| 0 <= i < shorter.len() implies is_digit(#[trigger] shorter[i], base) by {
        assert(shorter[i] == s[i]);
    }
    lemma_value_bounds(shorter, base);
    let v = value_of(shorter, base);
    let d = digit_value(s.last());
    assert(n == v * base + d) by (nonlinear_arith)
        requires
            n == base * v + d,
    ;
    lemma_fundamental_div_mod_converse(n as int, base as int, v, d);
    if s.len() > 1 {
        assert(shorter[0] == s[0]);
        assert(v * base >= base) by (nonlinear_arith)
            requires
                v >= 1,
                base >= 2,
        ;
    }
}

/// What is written as a numeral is one.
proof fn lemma_numeral(n: nat, base: nat)
    requires
        2 <= base <= 16,
    ensures
        is_numeral_of(crate::text::numeral(n, base), n, base),
        n > 0 ==> crate::text::numeral(n, base)[0] != '0',
    decreases n,
{
    reveal_strlit("0123456789abcdef");
    lemma_mod_bound(n as int, base as int);
    let text = crate::text::numeral(n, base);
    if n < base {
        assert(text.drop_last().len() == 0);
        assert(base * 0 == 0) by (nonlinear_arith);
        assert(value_of(text.drop_last(), base) == 0);
    } else {
        lemma_div_decreases(n as int, base as int);
        lemma_fundamental_div_mod(n as int, base as int);
        lemma_numeral(n / base, base);
        assert(n / base > 0) by (nonlinear_arith)
            requires
                n >= base,
                base >= 2,
        ;
        let upper = crate::text::numeral(n / base, base);
        assert(text.drop_last() == upper);
        assert(text[0] == upper[0]);
        assert forall|i: int| 0 <= i < text.len() implies is_digit(#[trigger] text[i], base) by {
            if i < upper.len() {
                assert(text[i] == upper[i]);
            }
        }
    }
}

/// The decimal numeral of a number reads back as the number, and has no leading zeros.
pub proof fn law_decimal(n: nat)
    ensures
        is_numeral_of(crate::text::decimal(n), n, 10),
{
    lemma_numeral(n, 10);
}

/// The hexadecimal numeral of a number reads back as the number, and has no leading zeros.
pub proof fn law_hexadecimal(n: nat)
    ensures
        is_numeral_of(crate::text::hexadecimal(n), n, 16),
{
    lemma_numeral(n, 16);
}

/// The pieces of a text between separators; one more than there are separators.
pub open spec fn split(text: Seq<char>, sep: char) -> Seq<Seq<char>>
    decreases text.len(),
{
    if text.len() == 0 {
        seq![Seq::empty()]
    } else {
        let before = split(text.drop_last(), sep);
        if text.last() == sep {
            before.push(Seq::empty())
        } else {
            before.drop_last().push(before.last().push(text.last()))
        }
    }
}

/// There is always a piece.
proof fn lemma_split_nonempty(text: Seq<char>, sep: char)
    ensures
        split(text, sep).len() > 0,
    decreases text.len(),
{
    if text.len() > 0 {
        lemma_split_nonempty(text.drop_last(), sep);
    }
}

/// The pieces of two texts with a separator between them are those of the one and of the other.
proof fn lemma_split_between(a: Seq<char>, b: Seq<char>, sep: char)
    ensures
        split(a + seq![sep] + b, sep) == split(a, sep) + split(b, sep),
    decreases b.len(),
{
    let text = a + seq![sep] + b;
    if b.len() == 0 {
        assert(text.drop_last() == a);
        assert(text.last() == sep);
        assert(split(a, sep).push(Seq::empty()) == split(a, sep) + split(b, sep));
    } else {
        assert(text.drop_last() == a + seq![sep] + b.drop_last());
        assert(text.last() == b.last());
        lemma_split_between(a, b.drop_last(), sep);
        lemma_split_nonempty(b.drop_last(), sep);
        let left = split(a, sep);
        let right = split(b.drop_last(), sep);
        assert((left + right).last() == right.last());
        assert((left + right).drop_last() == left + right.drop_last());
        assert(split(text, sep) == left + split(b, sep));
    }
}

/// A text without separators is one piece.
proof fn lemma_split_whole(text: Seq<char>, sep: char)
    requires
        !text.contains(sep),
    ensures
        split(text, sep) == seq![text],
    decreases text.len(),
{
    if text.len() > 0 {
        assert(text[text.len() - 1] != sep);
        assert forall|i: int| 0 <= i < text.len() - 1 implies text.drop_last()[i] != sep by {
            assert(text[i] != sep);
        }
        lemma_split_whole(text.drop_last(), sep);
        assert(text.drop_last().push(text.last()) == text);
        assert(split(text, sep) == seq![text]);
    } else {
        assert(text == Seq::<char>::empty());
    }
}

/// The pieces put together again.
pub open spec fn joined(pieces: Seq<Seq<char>>, sep: char) -> Seq<char>
    decreases pieces.len(),
{
    if pieces.len() == 0 {
        Seq::empty()
    } else if pieces.len() == 1 {
        pieces[0]
    } else {
        joined(pieces.drop_last(), sep) + seq![sep] + pieces.last()
    }
}

/// The pieces of a text, put together, are the text: they tell all of it.
pub proof fn law_split_tells_all(text: Seq<char>, sep: char)
    ensures
        joined(split(text, sep), sep) == text,
    decreases text.len(),
{
    if text.len() > 0 {
        let upto = text.drop_last();
        law_split_tells_all(upto, sep);
        lemma_split_nonempty(upto, sep);
        let before = split(upto, sep);
        let pieces = split(text, sep);
        if text.last() == sep {
            assert(pieces.drop_last() == before);
            assert(joined(pieces, sep) == upto + seq![sep] + Seq::empty());
        } else {
            assert(pieces.drop_last() == before.drop_last());
            assert(pieces.last() == before.last().push(text.last()));
            if before.len() > 1 {
                assert(joined(pieces, sep) == joined(before, sep).push(text.last()));
            }
        }
        assert(joined(pieces, sep) == upto.push(text.last()));
        assert(upto.push(text.last()) == text);
    }
}

/// A numeral holds digits only, and so none of the characters that stand between numerals.
proof fn lemma_numeral_holds(text: Seq<char>, n: nat, base: nat)
    requires
        is_numeral_of(text, n, base),
    ensures
        !text.contains('.'),
        !text.contains(':'),
        !text.contains(']'),
        !text.contains('"'),
{
    assert forall|c: char| text.contains(c) implies is_digit(c, base) by {
        let i = choose|i: int| 0 <= i < text.len() && text[i] == c;
        assert(is_digit(text[i], base));
    }
    assert(!is_digit('.', base));
    assert(!is_digit(':', base));
    assert(!is_digit(']', base));
    assert(!is_digit('"', base));
}

/// Whether `text` is an IPv4 address in dotted decimal: the decimal numerals of its four octets in
/// order, separated by dots.
pub open spec fn is_dotted(text: Seq<char>, octets: Seq<u8>) -> bool {
    let pieces = split(text, '.');
    &&& octets.len() == 4
    &&& pieces.len() == 4
    &&& is_numeral_of(pieces[0], octets[0] as nat, 10)
    &&& is_numeral_of(pieces[1], octets[1] as nat, 10)
    &&& is_numeral_of(pieces[2], octets[2] as nat, 10)
    &&& is_numeral_of(pieces[3], octets[3] as nat, 10)
}

/// The octets of an IPv4 address in dotted decimal.
pub open spec fn read_ipv4(text: Seq<char>) -> Seq<u8> {
    split(text, '.').map_values(|piece: Seq<char>| value_of(piece, 10) as u8)
}

/// The text of an IPv4 address is the address in dotted decimal, and reads back as the address.
pub proof fn law_ipv4_text(octets: Seq<u8>)
    requires
        octets.len() == 4,
    ensures
        is_dotted(crate::address::ipv4_text(octets), octets),
        read_ipv4(crate::address::ipv4_text(octets)) == octets,
{
    let a = crate::text::decimal(octets[0] as nat);
    let b = crate::text::decimal(octets[1] as nat);
    let c = crate::text::decimal(octets[2] as nat);
    let d = crate::text::decimal(octets[3] as nat);
    law_decimal(octets[0] as nat);
    law_decimal(octets[1] as nat);
    law_decimal(octets[2] as nat);
    law_decimal(octets[3] as nat);
    lemma_numeral_holds(a, octets[0] as nat, 10);
    lemma_numeral_holds(b, octets[1] as nat, 10);
    lemma_numeral_holds(c, octets[2] as nat, 10);
    lemma_numeral_holds(d, octets[3] as nat, 10);
    lemma_split_whole(a, '.');
    lemma_split_whole(b, '.');
    lemma_split_whole(c, '.');
    lemma_split_whole(d, '.');
    reveal_strlit(".");
    assert("."@ == seq!['.']);
    let ab = a + seq!['.'] + b;
    let abc = ab + seq!['.'] + c;
    let text = abc + seq!['.'] + d;
    lemma_split_between(a, b, '.');
    lemma_split_between(ab, c, '.');
    lemma_split_between(abc, d, '.');
    assert(crate::address::ipv4_text(octets) == text);
    assert(split(text, '.') == seq![a, b, c, d]);
    assert(read_ipv4(text) == octets);
}

/// The text of an IPv4 address determines the address.
pub proof fn law_ipv4_text_determines(a: Seq<u8>, b: Seq<u8>)
    requires
        a.len() == 4,
        b.len() == 4,
        crate::address::ipv4_text(a) == crate::address::ipv4_text(b),
    ensures
        a == b,
{
    law_ipv4_text(a);
    law_ipv4_text(b);
}

/// An IPv4 address has one text in dotted decimal.
pub proof fn law_one_dotted(s: Seq<char>, t: Seq<char>, octets: Seq<u8>)
    requires
        is_dotted(s, octets),
        is_dotted(t, octets),
    ensures
        s == t,
{
    let p = split(s, '.');
    let q = split(t, '.');
    law_one_numeral(p[0], q[0], octets[0] as nat, 10);
    law_one_numeral(p[1], q[1], octets[1] as nat, 10);
    law_one_numeral(p[2], q[2], octets[2] as nat, 10);
    law_one_numeral(p[3], q[3], octets[3] as nat, 10);
    assert(p == q);
    law_split_tells_all(s, '.');
    law_split_tells_all(t, '.');
}

/// The number that group `k` of an IPv6 address stands for.
pub open spec fn group_at(octets: Seq<u8>, k: int) -> nat {
    (256 * octets[2 * k] + octets[2 * k + 1]) as nat
}

/// Whether the groups from `from` up to `to` are all zero.
pub open spec fn are_zero(octets: Seq<u8>, from: int, to: int) -> bool {
    forall|k: int| from <= k < to ==> #[trigger] group_at(octets, k) == 0
}

/// How many pieces come before the first empty one.
pub open spec fn leading(pieces: Seq<Seq<char>>) -> nat
    decreases pieces.len(),
{
    if pieces.len() == 0 || pieces[0].len() == 0 {
        0
    } else {
        1 + leading(pieces.drop_first())
    }
}

/// How many pieces come after the last empty one.
pub open spec fn trailing(pieces: Seq<Seq<char>>) -> nat
    decreases pieces.len(),
{
    if pieces.len() == 0 || pieces.last().len() == 0 {
        0
    } else {
        1 + trailing(pieces.drop_last())
    }
}

/// The octets that a piece of the text of an IPv6 address stands for: two for a hexadecimal
/// numeral, four for dotted decimal.
pub open spec fn octets_of(piece: Seq<char>) -> Seq<u8> {
    if piece.contains('.') {
        read_ipv4(piece)
    } else {
        seq![(value_of(piece, 16) / 256) as u8, (value_of(piece, 16) % 256) as u8]
    }
}

/// The octets that pieces stand for.
pub open spec fn octets_of_all(pieces: Seq<Seq<char>>) -> Seq<u8>
    decreases pieces.len(),
{
    if pieces.len() == 0 {
        Seq::empty()
    } else {
        octets_of_all(pieces.drop_last()) + octets_of(pieces.last())
    }
}

/// The octets of an IPv6 address in text: those of the pieces between colons; where a piece is
/// empty, as many zeros stand as it takes to make sixteen octets.
pub open spec fn read_ipv6(text: Seq<char>) -> Seq<u8> {
    let pieces = split(text, ':');
    if leading(pieces) == pieces.len() {
        octets_of_all(pieces)
    } else {
        let front = octets_of_all(pieces.take(leading(pieces) as int));
        let back = octets_of_all(pieces.skip(pieces.len() - trailing(pieces)));
        front + Seq::new((16 - front.len() - back.len()) as nat, |i: int| 0u8) + back
    }
}

/// Whether an address is among the IPv6 addresses that stand for IPv4 addresses: ten zero octets
/// and two of all ones come first.
pub open spec fn stands_for_ipv4(octets: Seq<u8>) -> bool {
    &&& are_zero(octets, 0, 5)
    &&& group_at(octets, 5) == 0xffff
}

/// Whether two groups next to each other are zero.
pub open spec fn has_zero_pair(octets: Seq<u8>) -> bool {
    exists|k: int| 0 <= k < 7 && #[trigger] are_zero(octets, k, k + 2)
}

/// Whether `text` is the canonical text of an IPv6 address.
///
/// - An address that stands for an IPv4 address is `::ffff:` and the latter in dotted decimal.
/// - An address without two zero groups next to each other is its eight groups in hexadecimal,
///   separated by colons.
/// - Of any other address, the longest row of zero groups, the first of those as long, is left
///   out and leaves two colons; the groups before and after it are in hexadecimal, separated by
///   colons.
pub open spec fn is_canonical_ipv6(text: Seq<char>, octets: Seq<u8>) -> bool {
    let pieces = split(text, ':');
    let n = pieces.len() as int;
    if stands_for_ipv4(octets) {
        &&& n == 4
        &&& pieces[0].len() == 0
        &&& pieces[1].len() == 0
        &&& pieces[2] == seq!['f', 'f', 'f', 'f']
        &&& is_dotted(pieces[3], octets.subrange(12, 16))
    } else if !has_zero_pair(octets) {
        &&& n == 8
        &&& forall|k: int|
            0 <= k < 8 ==> is_numeral_of(#[trigger] pieces[k], group_at(octets, k), 16)
    } else {
        let from = leading(pieces) as int;
        let to = 8 - trailing(pieces);
        &&& 0 <= from
        &&& from + 2 <= to
        &&& to <= 8
        &&& are_zero(octets, from, to)
        &&& forall|s: int, e: int|
            0 <= s <= e <= 8 && #[trigger] are_zero(octets, s, e) ==> e - s < to - from || (e - s
                == to - from && from <= s)
        &&& n == (if from == 0 {
            1
        } else {
            from
        }) + 1 + (if to == 8 {
            1
        } else {
            8 - to
        })
        &&& forall|k: int| from <= k < n - (8 - to) ==> (#[trigger] pieces[k]).len() == 0
        &&& forall|k: int|
            0 <= k < from ==> is_numeral_of(#[trigger] pieces[k], group_at(octets, k), 16)
        &&& forall|k: int|
            n - (8 - to) <= k < n ==> is_numeral_of(
                #[trigger] pieces[k],
                group_at(octets, 8 - n + k),
                16,
            )
    }
}

/// How many pieces come before the first empty one, told by which are empty.
proof fn lemma_leading(pieces: Seq<Seq<char>>, count: int)
    requires
        0 <= count <= pieces.len(),
        forall|k: int| 0 <= k < count ==> (#[trigger] pieces[k]).len() > 0,
        count < pieces.len() ==> pieces[count].len() == 0,
    ensures
        leading(pieces) == count,
    decreases count,
{
    if count > 0 {
        assert(pieces[0].len() > 0);
        let later = pieces.drop_first();
        assert forall|k: int| 0 <= k < count - 1 implies (#[trigger] later[k]).len() > 0 by {
            assert(pieces[k + 1].len() > 0);
        }
        lemma_leading(later, count - 1);
    }
}

/// How many pieces come after the last empty one, told by which are empty.
proof fn lemma_trailing(pieces: Seq<Seq<char>>, count: int)
    requires
        0 <= count <= pieces.len(),
        forall|k: int|
            pieces.len() - count <= k < pieces.len() ==> (#[trigger] pieces[k]).len() > 0,
        count < pieces.len() ==> pieces[pieces.len() - count - 1].len() == 0,
    ensures
        trailing(pieces) == count,
    decreases count,
{
    if count > 0 {
        assert(pieces[pieces.len() - 1].len() > 0);
        let earlier = pieces.drop_last();
        assert forall|k: int| earlier.len() - (count - 1) <= k < earlier.len() implies (
        #[trigger] earlier[k]).len() > 0 by {
            assert(pieces[k].len() > 0);
        }
        lemma_trailing(earlier, count - 1);
    }
}

/// The hexadecimal numerals of groups stand for the octets of the groups.
proof fn lemma_octets_of_all(pieces: Seq<Seq<char>>, octets: Seq<u8>, first: int)
    requires
        octets.len() == 16,
        0 <= first,
        first + pieces.len() <= 8,
        forall|k: int|
            0 <= k < pieces.len() ==> is_numeral_of(
                #[trigger] pieces[k],
                group_at(octets, first + k),
                16,
            ),
    ensures
        octets_of_all(pieces) == octets.subrange(2 * first, 2 * (first + pieces.len())),
    decreases pieces.len(),
{
    if pieces.len() > 0 {
        let earlier = pieces.drop_last();
        let last = pieces.len() - 1;
        assert forall|k: int| 0 <= k < earlier.len() implies is_numeral_of(
            #[trigger] earlier[k],
            group_at(octets, first + k),
            16,
        ) by {
            assert(earlier[k] == pieces[k]);
        }
        lemma_octets_of_all(earlier, octets, first);
        assert(is_numeral_of(pieces[last], group_at(octets, first + last), 16));
        lemma_numeral_holds(pieces[last], group_at(octets, first + last), 16);
        let j = 2 * (first + last);
        assert(octets_of(pieces[last]) == seq![octets[j], octets[j + 1]]);
        assert(octets_of_all(pieces) == octets.subrange(2 * first, j + 2));
    }
}

/// The canonical text of an IPv6 address reads back as the address.
pub proof fn law_canonical_ipv6_reads_back(text: Seq<char>, octets: Seq<u8>)
    requires
        octets.len() == 16,
        is_canonical_ipv6(text, octets),
    ensures
        read_ipv6(text) == octets,
{
    let pieces = split(text, ':');
    let n = pieces.len() as int;
    if stands_for_ipv4(octets) {
        lemma_leading(pieces, 0);
        let tail = octets.subrange(12, 16);
        let dotted = pieces[3];
        lemma_dotted_reads_back(dotted, tail);
        lemma_trailing(pieces, 2);
        let back = pieces.skip(2);
        assert(back == seq![pieces[2], pieces[3]]);
        assert(back.drop_last() == seq![pieces[2]]);
        assert(back.drop_last().drop_last().len() == 0);
        reveal_with_fuel(octets_of_all, 3);
        assert(value_of(pieces[2], 16) == 0xffff) by {
            let f = pieces[2];
            assert(f.drop_last() == seq!['f', 'f', 'f']);
            assert(f.drop_last().drop_last() == seq!['f', 'f']);
            assert(f.drop_last().drop_last().drop_last() == seq!['f']);
            assert(f.drop_last().drop_last().drop_last().drop_last().len() == 0);
            reveal_with_fuel(value_of, 5);
        }
        assert(!pieces[2].contains('.'));
        assert(octets_of(pieces[2]) == seq![0xffu8, 0xffu8]);
        assert(octets_of_all(back) == seq![0xffu8, 0xffu8] + tail);
        assert forall|i: int| 0 <= i < 10 implies #[trigger] octets[i] == 0 by {
            assert(group_at(octets, i / 2) == 0);
        }
        assert(read_ipv6(text) == octets);
    } else if !has_zero_pair(octets) {
        assert forall|k: int| 0 <= k < 8 implies (#[trigger] pieces[k]).len() > 0 by {
            assert(is_numeral_of(pieces[k], group_at(octets, k), 16));
        }
        lemma_leading(pieces, 8);
        lemma_octets_of_all(pieces, octets, 0);
        assert(octets.subrange(0, 16) == octets);
    } else {
        let from = leading(pieces) as int;
        let to = 8 - trailing(pieces);
        let front = pieces.take(from);
        let back = pieces.skip(n - (8 - to));
        assert forall|k: int| 0 <= k < front.len() implies is_numeral_of(
            #[trigger] front[k],
            group_at(octets, 0 + k),
            16,
        ) by {
            assert(front[k] == pieces[k]);
        }
        assert forall|k: int| 0 <= k < back.len() implies is_numeral_of(
            #[trigger] back[k],
            group_at(octets, to + k),
            16,
        ) by {
            assert(back[k] == pieces[n - (8 - to) + k]);
        }
        lemma_octets_of_all(front, octets, 0);
        lemma_octets_of_all(back, octets, to);
        assert forall|i: int| 2 * from <= i < 2 * to implies #[trigger] octets[i] == 0 by {
            assert(group_at(octets, i / 2) == 0);
        }
        assert(read_ipv6(text) == octets);
    }
}

/// Dotted decimal reads back as the address, and holds a dot.
proof fn lemma_dotted_reads_back(text: Seq<char>, octets: Seq<u8>)
    requires
        is_dotted(text, octets),
    ensures
        read_ipv4(text) == octets,
        text.contains('.'),
        text.len() > 0,
{
    if !text.contains('.') {
        lemma_split_whole(text, '.');
    }
    assert(read_ipv4(text) == octets);
}

/// There is a leftmost longest run of zeros among the first `k` groups, and a longest one that ends
/// there.
proof fn lemma_zero_run_exists(groups: Seq<u16>, k: int) -> (run: (int, int, int))
    requires
        0 <= k <= groups.len(),
    ensures
        ({
            let (start, len, current) = run;
            &&& 0 <= current <= k
            &&& crate::address::is_zero_run(groups, k - current, current)
            &&& forall|s: int, l: int| #[trigger]
                crate::address::is_zero_run(groups, s, l) && s + l == k ==> l <= current
            &&& crate::address::is_zero_run(groups, start, len)
            &&& start + len <= k
            &&& forall|s: int, l: int| #[trigger]
                crate::address::is_zero_run(groups, s, l) && s + l <= k ==> l < len || (l == len
                    && start <= s)
        }),
    decreases k,
{
    if k == 0 {
        (0, 0, 0)
    } else {
        let (start, len, current) = lemma_zero_run_exists(groups, k - 1);
        assert forall|s: int, l: int| #[trigger]
            crate::address::is_zero_run(groups, s, l) && s + l == k && l > 0 implies groups[k - 1]
            == 0 && l - 1 <= current by {
            assert(crate::address::is_zero_run(groups, s, l - 1));
            assert(groups[s + l - 1] == 0);
        }
        if groups[k - 1] == 0 {
            if current + 1 > len {
                (k - current - 1, current + 1, current + 1)
            } else {
                (start, len, current + 1)
            }
        } else {
            (start, len, 0)
        }
    }
}

/// The run of zeros that is left out of the text of an address is the longest, the first of those
/// as long.
proof fn lemma_left_out(octets: Seq<u8>)
    requires
        octets.len() == 16,
    ensures
        ({
            let (start, len) = crate::address::longest_zero_run(crate::address::groups(octets));
            &&& 0 <= start
            &&& 0 <= len
            &&& start + len <= 8
            &&& are_zero(octets, start, start + len)
            &&& forall|s: int, e: int|
                0 <= s <= e <= 8 && #[trigger] are_zero(octets, s, e) ==> e - s < len || (e - s
                    == len && start <= s)
            &&& has_zero_pair(octets) <==> len >= 2
        }),
{
    let groups = crate::address::groups(octets);
    let (s0, l0, c0) = lemma_zero_run_exists(groups, 8);
    assert(crate::address::is_longest_zero_run(groups, s0, l0));
    crate::address::lemma_longest_zero_run(groups, s0, l0);
    assert forall|k: int| 0 <= k < 8 implies #[trigger] group_at(octets, k) == groups[k] by {}
    assert forall|s: int, e: int|
        0 <= s <= e <= 8 && #[trigger] are_zero(octets, s, e) implies e - s < l0 || (e - s == l0
        && s0 <= s) by {
        assert forall|k: int| s <= k < s + (e - s) implies #[trigger] groups[k] == 0 by {
            assert(group_at(octets, k) == 0);
        }
        assert(crate::address::is_zero_run(groups, s, e - s));
    }
    assert forall|k: int| s0 <= k < s0 + l0 implies #[trigger] group_at(octets, k) == 0 by {
        assert(groups[k] == 0);
    }
    assert(are_zero(octets, s0, s0 + l0));
    if l0 >= 2 {
        assert(are_zero(octets, s0, s0 + 2));
    }
}

/// The pieces of the text of groups are the hexadecimal numerals of the groups.
proof fn lemma_groups_pieces(octets: Seq<u8>, from: int, to: int)
    requires
        octets.len() == 16,
        0 <= from < to <= 8,
    ensures
        ({
            let pieces = split(
                crate::address::groups_text(crate::address::groups(octets).subrange(from, to)),
                ':',
            );
            &&& pieces.len() == to - from
            &&& forall|k: int|
                0 <= k < pieces.len() ==> is_numeral_of(
                    #[trigger] pieces[k],
                    group_at(octets, from + k),
                    16,
                )
        }),
    decreases to,
{
    let groups = crate::address::groups(octets).subrange(from, to);
    let last = crate::text::hexadecimal(groups.last() as nat);
    assert(groups.last() == group_at(octets, to - 1));
    law_hexadecimal(groups.last() as nat);
    lemma_numeral_holds(last, groups.last() as nat, 16);
    lemma_split_whole(last, ':');
    if to - from > 1 {
        assert(groups.drop_last() == crate::address::groups(octets).subrange(from, to - 1));
        lemma_groups_pieces(octets, from, to - 1);
        let before = crate::address::groups_text(groups.drop_last());
        reveal_strlit(":");
        assert(":"@ == seq![':']);
        lemma_split_between(before, last, ':');
        let pieces = split(crate::address::groups_text(groups), ':');
        assert(pieces == split(before, ':').push(last));
    }
}

/// The text of an IPv6 address is its canonical text.
pub proof fn law_ipv6_text(octets: Seq<u8>)
    requires
        octets.len() == 16,
    ensures
        is_canonical_ipv6(crate::address::ipv6_text(octets), octets),
{
    let groups = crate::address::groups(octets);
    let text = crate::address::ipv6_text(octets);
    let (start, len) = crate::address::longest_zero_run(groups);
    let none = Seq::<char>::empty();
    lemma_left_out(octets);
    lemma_mapped(octets);
    reveal_strlit(":");
    reveal_strlit("::");
    reveal_strlit("::ffff:");
    if stands_for_ipv4(octets) {
        let dotted = crate::address::ipv4_text(octets.subrange(12, 16));
        law_ipv4_text(octets.subrange(12, 16));
        lemma_dotted_has_no_colon(octets.subrange(12, 16));
        let ffff = seq!['f', 'f', 'f', 'f'];
        lemma_split_whole(ffff, ':');
        lemma_split_whole(dotted, ':');
        let a = none + seq![':'] + none;
        let b = a + seq![':'] + ffff;
        lemma_split_between(none, none, ':');
        lemma_split_between(a, ffff, ':');
        lemma_split_between(b, dotted, ':');
        assert("::ffff:"@ == b + seq![':']);
        assert(text == b + seq![':'] + dotted);
        assert(split(text, ':') == seq![none, none, ffff, dotted]);
    } else if len < 2 {
        lemma_groups_pieces(octets, 0, 8);
        assert(groups.subrange(0, 8) == groups);
        let pieces = split(text, ':');
        assert forall|k: int| 0 <= k < 8 implies is_numeral_of(
            #[trigger] pieces[k],
            group_at(octets, k),
            16,
        ) by {
            assert(is_numeral_of(pieces[k], group_at(octets, 0 + k), 16));
        }
    } else {
        let to = start + len;
        let left = crate::address::groups_text(groups.take(start));
        let right = crate::address::groups_text(groups.skip(to));
        assert(groups.take(start) == groups.subrange(0, start));
        assert(groups.skip(to) == groups.subrange(to, 8));
        let before = split(left, ':');
        let after = split(right, ':');
        if start > 0 {
            lemma_groups_pieces(octets, 0, start);
        }
        if to < 8 {
            lemma_groups_pieces(octets, to, 8);
        }
        let opened = left + seq![':'] + none;
        lemma_split_between(left, none, ':');
        lemma_split_between(opened, right, ':');
        assert(text == opened + seq![':'] + right);
        let pieces = split(text, ':');
        assert(split(none, ':') == seq![none]);
        assert(pieces == before + seq![none] + after);
        let n = pieces.len() as int;
        assert forall|k: int| 0 <= k < start implies is_numeral_of(
            #[trigger] pieces[k],
            group_at(octets, k),
            16,
        ) by {
            assert(pieces[k] == before[k]);
            assert(is_numeral_of(before[k], group_at(octets, 0 + k), 16));
        }
        assert forall|k: int| n - (8 - to) <= k < n implies is_numeral_of(
            #[trigger] pieces[k],
            group_at(octets, 8 - n + k),
            16,
        ) by {
            let j = k - (n - (8 - to));
            assert(pieces[k] == after[j]);
            assert(is_numeral_of(after[j], group_at(octets, to + j), 16));
        }
        assert forall|k: int| start <= k < n - (8 - to) implies (
        #[trigger] pieces[k]).len() == 0 by {}
        assert(pieces[start].len() == 0);
        assert(pieces[n - (8 - to) - 1].len() == 0);
        lemma_leading(pieces, start);
        lemma_trailing(pieces, 8 - to);
    }
}

/// Which addresses stand for IPv4 addresses can be told by octets and by groups.
proof fn lemma_mapped(octets: Seq<u8>)
    requires
        octets.len() == 16,
    ensures
        stands_for_ipv4(octets) <==> crate::address::is_ipv4_mapped(octets),
{
    if stands_for_ipv4(octets) {
        assert forall|i: int| 0 <= i < 10 implies #[trigger] octets[i] == 0 by {
            assert(group_at(octets, i / 2) == 0);
        }
    }
    if crate::address::is_ipv4_mapped(octets) {
        assert forall|k: int| 0 <= k < 5 implies #[trigger] group_at(octets, k) == 0 by {
            assert(octets[2 * k] == 0);
            assert(octets[2 * k + 1] == 0);
        }
    }
}

/// The text of an IPv4 address holds digits and dots only.
proof fn lemma_dotted_has_no_colon(octets: Seq<u8>)
    requires
        octets.len() == 4,
    ensures
        !crate::address::ipv4_text(octets).contains(':'),
        !crate::address::ipv4_text(octets).contains(']'),
        '0' <= crate::address::ipv4_text(octets)[0] <= '9',
{
    let a = crate::text::decimal(octets[0] as nat);
    let b = crate::text::decimal(octets[1] as nat);
    let c = crate::text::decimal(octets[2] as nat);
    let d = crate::text::decimal(octets[3] as nat);
    law_decimal(octets[0] as nat);
    law_decimal(octets[1] as nat);
    law_decimal(octets[2] as nat);
    law_decimal(octets[3] as nat);
    reveal_strlit(".");
    let text = crate::address::ipv4_text(octets);
    assert forall|i: int| 0 <= i < text.len() implies is_digit(text[i], 10) || text[i] == '.' by {
        let ab = a + "."@ + b;
        let abc = ab + "."@ + c;
        assert(text == abc + "."@ + d);
        if i > abc.len() {
            assert(text[i] == d[i - abc.len() - 1]);
        } else if i < abc.len() {
            assert(text[i] == abc[i]);
            if i > ab.len() {
                assert(abc[i] == c[i - ab.len() - 1]);
            } else if i < ab.len() {
                assert(abc[i] == ab[i]);
                if i > a.len() {
                    assert(ab[i] == b[i - a.len() - 1]);
                } else if i < a.len() {
                    assert(ab[i] == a[i]);
                }
            }
        }
    }
    assert(text[0] == a[0]);
    assert(is_digit(a[0], 10));
}

/// The text of an IPv6 address reads back as the address.
pub proof fn law_ipv6_text_reads_back(octets: Seq<u8>)
    requires
        octets.len() == 16,
    ensures
        read_ipv6(crate::address::ipv6_text(octets)) == octets,
{
    law_ipv6_text(octets);
    law_canonical_ipv6_reads_back(crate::address::ipv6_text(octets), octets);
}

/// The text of an IPv6 address determines the address.
pub proof fn law_ipv6_text_determines(a: Seq<u8>, b: Seq<u8>)
    requires
        a.len() == 16,
        b.len() == 16,
        crate::address::ipv6_text(a) == crate::address::ipv6_text(b),
    ensures
        a == b,
{
    law_ipv6_text_reads_back(a);
    law_ipv6_text_reads_back(b);
}

/// An IPv6 address has one canonical text.
pub proof fn law_one_canonical_ipv6(s: Seq<char>, t: Seq<char>, octets: Seq<u8>)
    requires
        octets.len() == 16,
        is_canonical_ipv6(s, octets),
        is_canonical_ipv6(t, octets),
    ensures
        s == t,
{
    let p = split(s, ':');
    let q = split(t, ':');
    if stands_for_ipv4(octets) {
        law_one_dotted(p[3], q[3], octets.subrange(12, 16));
        assert(p[0] == q[0]);
        assert(p[1] == q[1]);
    } else if !has_zero_pair(octets) {
        assert forall|k: int| 0 <= k < 8 implies p[k] == q[k] by {
            law_one_numeral(p[k], q[k], group_at(octets, k), 16);
        }
    } else {
        let from = leading(p) as int;
        let to = 8 - trailing(p);
        assert(are_zero(octets, leading(q) as int, 8 - trailing(q)));
        assert(are_zero(octets, from, to));
        assert(leading(q) == from && 8 - trailing(q) == to);
        let n = p.len() as int;
        assert forall|k: int| 0 <= k < n implies p[k] == q[k] by {
            if k < from {
                law_one_numeral(p[k], q[k], group_at(octets, k), 16);
            } else if k >= n - (8 - to) {
                law_one_numeral(p[k], q[k], group_at(octets, 8 - n + k), 16);
            } else {
                assert(p[k].len() == 0);
                assert(q[k].len() == 0);
            }
        }
    }
    assert(p == q);
    law_split_tells_all(s, ':');
    law_split_tells_all(t, ':');
}

/// Whether `text` tells of a client what a `Forwarded` field is to tell: `for=`, and the address and
/// the port; those of IPv6 in brackets and quoted; or that the client is unknown.
pub open spec fn is_element_of(text: Seq<char>, client: Option<ClientAddress>) -> bool {
    match client {
        Some(ClientAddress::V4 { octets, port }) => exists|a: Seq<char>, p: Seq<char>|
            {
                &&& text == "for="@ + a + ":"@ + p
                &&& #[trigger] is_dotted(a, octets@)
                &&& #[trigger] is_numeral_of(p, port as nat, 10)
            },
        Some(ClientAddress::V6 { octets, port }) => exists|a: Seq<char>, p: Seq<char>|
            {
                &&& text == "for=\"["@ + a + "]:"@ + p + "\""@
                &&& #[trigger] is_canonical_ipv6(a, octets@)
                &&& #[trigger] is_numeral_of(p, port as nat, 10)
            },
        None => text == "for=unknown"@,
    }
}

/// What is forwarded of a client tells its address and port.
pub proof fn law_element(client: Option<ClientAddress>)
    ensures
        is_element_of(
            crate::forward::forwarded_element(crate::address::view_of(client)),
            client,
        ),
{
    match client {
        Some(ClientAddress::V4 { octets, port }) => {
            law_ipv4_text(octets@);
            law_decimal(port as nat);
            let a = crate::address::ipv4_text(octets@);
            let p = crate::text::decimal(port as nat);
            assert(is_dotted(a, octets@) && is_numeral_of(p, port as nat, 10));
        },
        Some(ClientAddress::V6 { octets, port }) => {
            law_ipv6_text(octets@);
            law_decimal(port as nat);
            let a = crate::address::ipv6_text(octets@);
            let p = crate::text::decimal(port as nat);
            assert(is_canonical_ipv6(a, octets@) && is_numeral_of(p, port as nat, 10));
        },
        None => {},
    }
}

/// Only one text tells of a client what it should.
pub proof fn law_one_element(s: Seq<char>, t: Seq<char>, client: Option<ClientAddress>)
    requires
        is_element_of(s, client),
        is_element_of(t, client),
    ensures
        s == t,
{
    match client {
        Some(ClientAddress::V4 { octets, port }) => {
            let (a, p) = choose|a: Seq<char>, p: Seq<char>|
                {
                    &&& s == "for="@ + a + ":"@ + p
                    &&& #[trigger] is_dotted(a, octets@)
                    &&& #[trigger] is_numeral_of(p, port as nat, 10)
                };
            let (b, q) = choose|a: Seq<char>, p: Seq<char>|
                {
                    &&& t == "for="@ + a + ":"@ + p
                    &&& #[trigger] is_dotted(a, octets@)
                    &&& #[trigger] is_numeral_of(p, port as nat, 10)
                };
            law_one_dotted(a, b, octets@);
            law_one_numeral(p, q, port as nat, 10);
        },
        Some(ClientAddress::V6 { octets, port }) => {
            let (a, p) = choose|a: Seq<char>, p: Seq<char>|
                {
                    &&& s == "for=\"["@ + a + "]:"@ + p + "\""@
                    &&& #[trigger] is_canonical_ipv6(a, octets@)
                    &&& #[trigger] is_numeral_of(p, port as nat, 10)
                };
            let (b, q) = choose|a: Seq<char>, p: Seq<char>|
                {
                    &&& t == "for=\"["@ + a + "]:"@ + p + "\""@
                    &&& #[trigger] is_canonical_ipv6(a, octets@)
                    &&& #[trigger] is_numeral_of(p, port as nat, 10)
                };
            law_one_canonical_ipv6(a, b, octets@);
            law_one_numeral(p, q, port as nat, 10);
        },
        None => {},
    }
}

/// The text of groups holds no bracket.
proof fn lemma_groups_text_has_no_bracket(groups: Seq<u16>)
    ensures
        !crate::address::groups_text(groups).contains(']'),
    decreases groups.len(),
{
    reveal_strlit(":");
    if groups.len() > 0 {
        law_hexadecimal(groups.last() as nat);
        lemma_numeral_holds(crate::text::hexadecimal(groups.last() as nat), groups.last() as nat, 16);
        lemma_groups_text_has_no_bracket(groups.drop_last());
        lemma_concat_has_no(crate::address::groups_text(groups.drop_last()), ":"@, ']');
        lemma_concat_has_no(
            crate::address::groups_text(groups.drop_last()) + ":"@,
            crate::text::hexadecimal(groups.last() as nat),
            ']',
        );
    }
}

/// A character that is in neither of two texts is not in both together.
proof fn lemma_concat_has_no(a: Seq<char>, b: Seq<char>, c: char)
    requires
        !a.contains(c),
        !b.contains(c),
    ensures
        !(a + b).contains(c),
{
    if (a + b).contains(c) {
        let i = choose|i: int| 0 <= i < (a + b).len() && (a + b)[i] == c;
        if i < a.len() {
            assert(a[i] == c);
        } else {
            assert(b[i - a.len()] == c);
        }
    }
}

/// The text of an IPv6 address holds no bracket.
proof fn lemma_ipv6_text_has_no_bracket(octets: Seq<u8>)
    requires
        octets.len() == 16,
    ensures
        !crate::address::ipv6_text(octets).contains(']'),
{
    reveal_strlit("::");
    reveal_strlit("::ffff:");
    let groups = crate::address::groups(octets);
    let (start, len) = crate::address::longest_zero_run(groups);
    let dotted = crate::address::ipv4_text(octets.subrange(12, 16));
    let left = crate::address::groups_text(groups.take(start));
    let right = crate::address::groups_text(groups.skip(start + len));
    lemma_dotted_has_no_colon(octets.subrange(12, 16));
    lemma_groups_text_has_no_bracket(groups);
    lemma_groups_text_has_no_bracket(groups.take(start));
    lemma_groups_text_has_no_bracket(groups.skip(start + len));
    lemma_concat_has_no("::ffff:"@, dotted, ']');
    lemma_concat_has_no(left, "::"@, ']');
    lemma_concat_has_no(left + "::"@, right, ']');
}

/// What is forwarded of an IPv4 client determines its address and port.
proof fn lemma_ipv4_element_determines(a: Seq<u8>, p: u16, b: Seq<u8>, q: u16)
    requires
        a.len() == 4,
        b.len() == 4,
        crate::forward::forwarded_element(Some(AddressView::V4 { octets: a, port: p }))
            == crate::forward::forwarded_element(Some(AddressView::V4 { octets: b, port: q })),
    ensures
        a == b,
        p == q,
{
    reveal_strlit("for=");
    reveal_strlit(":");
    assert(":"@ == seq![':']);
    let s = crate::forward::forwarded_element(Some(AddressView::V4 { octets: a, port: p }));
    lemma_ipv4_element_pieces(a, p);
    lemma_ipv4_element_pieces(b, q);
    let pieces = split(s.skip(4), ':');
    assert(pieces[0] == crate::address::ipv4_text(b));
    law_ipv4_text_determines(a, b);
    law_decimal(p as nat);
    law_decimal(q as nat);
    assert(pieces[1] == crate::text::decimal(q as nat));
}

/// The pieces of what is forwarded of an IPv4 client.
proof fn lemma_ipv4_element_pieces(a: Seq<u8>, p: u16)
    requires
        a.len() == 4,
    ensures
        split(
            crate::forward::forwarded_element(Some(AddressView::V4 { octets: a, port: p })).skip(4),
            ':',
        ) == seq![crate::address::ipv4_text(a), crate::text::decimal(p as nat)],
{
    reveal_strlit("for=");
    reveal_strlit(":");
    assert(":"@ == seq![':']);
    let s = crate::forward::forwarded_element(Some(AddressView::V4 { octets: a, port: p }));
    let ip = crate::address::ipv4_text(a);
    let port = crate::text::decimal(p as nat);
    lemma_dotted_has_no_colon(a);
    law_decimal(p as nat);
    lemma_numeral_holds(port, p as nat, 10);
    lemma_split_whole(ip, ':');
    lemma_split_whole(port, ':');
    lemma_split_between(ip, port, ':');
    assert(s.skip(4) == ip + seq![':'] + port);
    assert(split(s.skip(4), ':') == seq![ip, port]);
}

/// The pieces of what is forwarded of an IPv6 client.
proof fn lemma_ipv6_element_pieces(a: Seq<u8>, p: u16)
    requires
        a.len() == 16,
    ensures
        split(
            crate::forward::forwarded_element(Some(AddressView::V6 { octets: a, port: p })).skip(6),
            ']',
        ) == seq![
            crate::address::ipv6_text(a),
            seq![':'] + crate::text::decimal(p as nat) + seq!['"'],
        ],
{
    reveal_strlit("for=\"[");
    reveal_strlit("]:");
    reveal_strlit("\"");
    let s = crate::forward::forwarded_element(Some(AddressView::V6 { octets: a, port: p }));
    let ip = crate::address::ipv6_text(a);
    let port = crate::text::decimal(p as nat);
    let tail = seq![':'] + port + seq!['"'];
    lemma_ipv6_text_has_no_bracket(a);
    law_decimal(p as nat);
    lemma_numeral_holds(port, p as nat, 10);
    lemma_concat_has_no(seq![':'], port, ']');
    lemma_concat_has_no(seq![':'] + port, seq!['"'], ']');
    lemma_split_whole(ip, ']');
    lemma_split_whole(tail, ']');
    lemma_split_between(ip, tail, ']');
    assert(s.skip(6) == ip + seq![']'] + tail);
    assert(split(s.skip(6), ']') == seq![ip, tail]);
}

/// What is forwarded of an IPv6 client determines its address and port.
proof fn lemma_ipv6_element_determines(a: Seq<u8>, p: u16, b: Seq<u8>, q: u16)
    requires
        a.len() == 16,
        b.len() == 16,
        crate::forward::forwarded_element(Some(AddressView::V6 { octets: a, port: p }))
            == crate::forward::forwarded_element(Some(AddressView::V6 { octets: b, port: q })),
    ensures
        a == b,
        p == q,
{
    let s = crate::forward::forwarded_element(Some(AddressView::V6 { octets: a, port: p }));
    lemma_ipv6_element_pieces(a, p);
    lemma_ipv6_element_pieces(b, q);
    let pieces = split(s.skip(6), ']');
    assert(pieces[0] == crate::address::ipv6_text(b));
    law_ipv6_text_determines(a, b);
    law_decimal(p as nat);
    law_decimal(q as nat);
    let tail = pieces[1];
    assert(tail == seq![':'] + crate::text::decimal(q as nat) + seq!['"']);
    assert(tail.subrange(1, tail.len() - 1) == crate::text::decimal(p as nat));
    assert(tail.subrange(1, tail.len() - 1) == crate::text::decimal(q as nat));
}

/// What is forwarded of a client determines the client.
pub proof fn law_element_determines(a: Option<ClientAddress>, b: Option<ClientAddress>)
    requires
        crate::forward::forwarded_element(crate::address::view_of(a))
            == crate::forward::forwarded_element(crate::address::view_of(b)),
    ensures
        a == b,
{
    lemma_fifth_character(a);
    lemma_fifth_character(b);
    match (a, b) {
        (
            Some(ClientAddress::V4 { octets: x, port: p }),
            Some(ClientAddress::V4 { octets: y, port: q }),
        ) => {
            lemma_ipv4_element_determines(x@, p, y@, q);
            assert(x =~= y);
        },
        (
            Some(ClientAddress::V6 { octets: x, port: p }),
            Some(ClientAddress::V6 { octets: y, port: q }),
        ) => {
            lemma_ipv6_element_determines(x@, p, y@, q);
            assert(x =~= y);
        },
        _ => {},
    }
}

/// The fifth character of what is forwarded of a client tells the kind of address.
proof fn lemma_fifth_character(a: Option<ClientAddress>)
    ensures
        ({
            let c = crate::forward::forwarded_element(crate::address::view_of(a))[4];
            match a {
                Some(ClientAddress::V4 { .. }) => '0' <= c <= '9',
                Some(ClientAddress::V6 { .. }) => c == '"',
                None => c == 'u',
            }
        }),
{
    reveal_strlit("for=");
    reveal_strlit("for=\"[");
    reveal_strlit("for=unknown");
    if let Some(ClientAddress::V4 { octets, port }) = a {
        lemma_dotted_has_no_colon(octets@);
        law_ipv4_text(octets@);
        lemma_dotted_reads_back(crate::address::ipv4_text(octets@), octets@);
    }
}

} // verus!

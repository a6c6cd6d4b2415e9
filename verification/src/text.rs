//! Numerals and other small pieces of text.
use vstd::arithmetic::div_mod::{lemma_div_decreases, lemma_mod_bound};
use vstd::prelude::*;
use vstd::string::*;

verus! {

/// The digit character of value `d`, for `d` below sixteen.
pub open spec fn digit(d: int) -> char {
    "0123456789abcdef"@[d]
}

/// The numeral of `n` in `base`, without leading zeros.
pub open spec fn numeral(n: nat, base: nat) -> Seq<char>
    decreases n,
{
    if base < 2 || n < base {
        seq![digit(n as int)]
    } else {
        proof {
            lemma_div_decreases(n as int, base as int);
        }
        numeral(n / base, base).push(digit((n % base) as int))
    }
}

/// The decimal numeral of `n`.
pub open spec fn decimal(n: nat) -> Seq<char> {
    numeral(n, 10)
}

/// The lower case hexadecimal numeral of `n`.
pub open spec fn hexadecimal(n: nat) -> Seq<char> {
    numeral(n, 16)
}

/// Whether every character is a printable ASCII character.
pub open spec fn is_printable(text: Seq<char>) -> bool {
    forall|i: int| 0 <= i < text.len() ==> ' ' <= #[trigger] text[i] <= '~'
}

/// A numeral is made of printable characters.
pub proof fn lemma_numeral_printable(n: nat, base: nat)
    requires
        2 <= base <= 16,
    ensures
        is_printable(numeral(n, base)),
    decreases n,
{
    reveal_strlit("0123456789abcdef");
    lemma_mod_bound(n as int, base as int);
    if n >= base {
        lemma_div_decreases(n as int, base as int);
        lemma_numeral_printable(n / base, base);
    }
}

/// Appends the numeral of `n` in `base`.
pub(crate) fn append_numeral(out: &mut String, n: usize, base: usize)
    requires
        2 <= base <= 16,
    ensures
        final(out)@ == old(out)@ + numeral(n as nat, base as nat),
    decreases n,
{
    let digits = "0123456789abcdef";
    proof {
        reveal_strlit("0123456789abcdef");
        lemma_mod_bound(n as int, base as int);
        if n >= base {
            lemma_div_decreases(n as int, base as int);
        }
    }
    if n >= base {
        append_numeral(out, n / base, base);
    }
    let last: usize = n % base;
    out.append(digits.substring_ascii(last, last + 1));
}

/// Appends the decimal numeral of `n`.
pub(crate) fn append_decimal(out: &mut String, n: usize)
    ensures
        final(out)@ == old(out)@ + decimal(n as nat),
{
    append_numeral(out, n, 10);
}

/// Appends the lower case hexadecimal numeral of `n`.
pub(crate) fn append_hexadecimal(out: &mut String, n: usize)
    ensures
        final(out)@ == old(out)@ + hexadecimal(n as nat),
{
    append_numeral(out, n, 16);
}

} // verus!

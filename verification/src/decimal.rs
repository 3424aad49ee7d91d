//! Writing hundredths as decimal numbers.

use vstd::prelude::*;

verus! {

/// The character that writes the digit `d`.
pub open spec fn digit(d: nat) -> char
    recommends
        d < 10,
{
    ('0' as nat + d) as char
}

/// The decimal digits of `n`, the most significant first, without leading
/// zeros; a single zero for zero.
pub open spec fn digits(n: nat) -> Seq<char>
    decreases n,
{
    if n < 10 {
        seq![digit(n)]
    } else {
        digits(n / 10).push(digit(n % 10))
    }
}

/// The number that the decimal digits `text` write.
pub open spec fn number_of(text: Seq<char>) -> nat
    decreases text.len(),
{
    if text.len() == 0 {
        0
    } else {
        (number_of(text.drop_last()) * 10 + (text.last() as nat - '0' as nat)) as nat
    }
}

/// The digits of a number write that number, and begin with a zero only for
/// zero itself.
pub proof fn lemma_digits_write_the_number(n: nat)
    ensures
        number_of(digits(n)) == n,
        digits(n).len() >= 1,
        digits(n)[0] == '0' <==> n == 0,
    decreases n,
{
    assert(digit(n % 10) as nat - '0' as nat == n % 10);
    assert(digits(n).last() == digit(n % 10));
    if n < 10 {
        assert(digits(n).drop_last() =~= Seq::empty());
        assert(number_of(digits(n).drop_last()) == 0);
    } else {
        lemma_digits_write_the_number(n / 10);
        assert(digits(n).drop_last() =~= digits(n / 10));
    }
}

/// `hundredths` hundredths written with two decimals: the whole part, a
/// point, and the two digits of the remaining hundredths.
pub open spec fn two_decimals(hundredths: nat) -> Seq<char> {
    digits(hundredths / 100) + seq!['.', digit(hundredths % 100 / 10), digit(hundredths % 10)]
}

/// The character that writes the digit `d`.
fn digit_char(d: u8) -> (c: char)
    requires
        d < 10,
    ensures
        c == digit(d as nat),
{
    (48u8 + d) as char
}

/// Appends the decimal digits of `n` to `out`.
fn push_digits(out: &mut Vec<char>, n: u128)
    ensures
        final(out)@ == old(out)@ + digits(n as nat),
    decreases n,
{
    if n >= 10 {
        push_digits(out, n / 10);
    }
    out.push(digit_char((n % 10) as u8));
    assert(out@ =~= old(out)@ + digits(n as nat));
}

/// Writes `hundredths` hundredths with two decimals.
pub fn write_two_decimals(hundredths: u128) -> (text: Vec<char>)
    ensures
        text@ == two_decimals(hundredths as nat),
{
    let mut text: Vec<char> = Vec::new();
    push_digits(&mut text, hundredths / 100);
    text.push('.');
    text.push(digit_char((hundredths % 100 / 10) as u8));
    text.push(digit_char((hundredths % 10) as u8));
    assert(text@ =~= two_decimals(hundredths as nat));
    text
}

} // verus!

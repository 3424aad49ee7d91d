//! Accuracy and speed figures of a typing attempt.

use crate::text::{count_words, tokens};
use vstd::prelude::*;
use vstd::set_lib::{lemma_int_range, lemma_len_subset, lemma_subset_equality, set_int_range};

verus! {

/// The positions below `n` at which `typed` and `target` both hold a
/// character, and the same one.
pub open spec fn agreeing_below(typed: Seq<char>, target: Seq<char>, n: int) -> Set<int> {
    Set::new(|i: int| 0 <= i < n && i < typed.len() && i < target.len() && typed[i] == target[i])
}

/// The positions at which `typed` and `target` hold the same character.
pub open spec fn agreeing(typed: Seq<char>, target: Seq<char>) -> Set<int> {
    agreeing_below(typed, target, typed.len() as int)
}

/// The number of positions at which `typed` and `target` hold the same
/// character.
pub open spec fn agreements(typed: Seq<char>, target: Seq<char>) -> nat {
    agreeing(typed, target).len()
}

/// There are finitely many agreeing positions below `n`, at most `n`, and one
/// more below `n + 1` exactly if the texts agree at `n`.
pub proof fn lemma_agreeing_below(typed: Seq<char>, target: Seq<char>, n: int)
    requires
        0 <= n,
    ensures
        agreeing_below(typed, target, n).finite(),
        agreeing_below(typed, target, n).len() <= n,
        agreeing_below(typed, target, n + 1).finite(),
        agreeing_below(typed, target, n + 1).len() == agreeing_below(typed, target, n).len() + (if n
            < typed.len() && n < target.len() && typed[n] == target[n] {
            1int
        } else {
            0int
        }),
{
    let lower = agreeing_below(typed, target, n);
    let upper = agreeing_below(typed, target, n + 1);
    lemma_int_range(0, n);
    assert(lower.subset_of(set_int_range(0, n)));
    lemma_len_subset(lower, set_int_range(0, n));
    if n < typed.len() && n < target.len() && typed[n] == target[n] {
        assert(upper =~= lower.insert(n));
    } else {
        assert(upper =~= lower);
    }
}

/// Counts the positions at which `typed` and `target` hold the same
/// character.
pub fn count_agreements(typed: &Vec<char>, target: &Vec<char>) -> (n: usize)
    ensures
        n == agreements(typed@, target@),
{
    let end: usize = if typed.len() < target.len() {
        typed.len()
    } else {
        target.len()
    };
    let mut n: usize = 0;
    let mut i: usize = 0;
    proof {
        lemma_agreeing_below(typed@, target@, 0);
    }
    while i < end
        invariant
            i <= end,
            end <= typed.len(),
            end <= target.len(),
            n <= i,
            n == agreeing_below(typed@, target@, i as int).len(),
        decreases end - i,
    {
        proof {
            lemma_agreeing_below(typed@, target@, i as int);
        }
        if typed[i] == target[i] {
            n += 1;
        }
        i += 1;
    }
    assert(agreeing_below(typed@, target@, end as int) =~= agreeing(typed@, target@));
    n
}

/// No more positions agree than either text has characters.
pub proof fn lemma_agreements_bounded(typed: Seq<char>, target: Seq<char>)
    ensures
        agreements(typed, target) <= target.len(),
        agreements(typed, target) <= typed.len(),
{
    let both = agreeing(typed, target);
    lemma_int_range(0, target.len() as int);
    assert(both.subset_of(set_int_range(0, target.len() as int)));
    lemma_len_subset(both, set_int_range(0, target.len() as int));
    lemma_int_range(0, typed.len() as int);
    assert(both.subset_of(set_int_range(0, typed.len() as int)));
    lemma_len_subset(both, set_int_range(0, typed.len() as int));
}

/// Every position of the target agrees exactly if the typed text begins with
/// the whole target.
pub proof fn lemma_all_agree_iff_target_typed(typed: Seq<char>, target: Seq<char>)
    ensures
        agreements(typed, target) == target.len() <==> target.is_prefix_of(typed),
{
    let both = agreeing(typed, target);
    let all = set_int_range(0, target.len() as int);
    lemma_int_range(0, target.len() as int);
    assert(both.subset_of(all));
    lemma_len_subset(both, all);
    if both.len() == target.len() {
        lemma_subset_equality(both, all);
        assert forall|i: int| 0 <= i < target.len() implies i < typed.len() && typed[i]
            == target[i] by {
            assert(all.contains(i));
            assert(both.contains(i));
        }
        if target.len() > 0 {
            assert(both.contains(target.len() - 1));
        }
        assert(typed.subrange(0, target.len() as int) =~= target);
    }
    if target.is_prefix_of(typed) {
        assert forall|i: int| all.contains(i) implies both.contains(i) by {
            assert(typed.subrange(0, target.len() as int)[i] == typed[i]);
        }
        assert(both =~= all);
    }
}

/// Hundredths of a word per minute in one word per nanosecond.
pub const RATE_SCALE: u128 = 6_000_000_000_000;

/// Nanoseconds in a hundredth of a second.
pub const NANOS_PER_HUNDREDTH: u128 = 10_000_000;

/// `num / den` rounded to the nearest whole number, a half rounded up.
pub open spec fn rounded_quotient(num: nat, den: nat) -> nat
    recommends
        den > 0,
{
    num / den + if 2 * (num % den) >= den {
        1nat
    } else {
        0nat
    }
}

/// The rounded quotient differs from the exact one by at most a half.
pub proof fn lemma_rounded_quotient_is_nearest(num: nat, den: nat)
    requires
        den > 0,
    ensures
        2 * (rounded_quotient(num, den) * den - num) <= den,
        2 * (num - rounded_quotient(num, den) * den) < den,
{
    let q = num / den;
    let r = num % den;
    assert(num == q * den + r && 0 <= r < den) by (nonlinear_arith)
        requires
            den > 0,
            q == num / den,
            r == num % den,
    ;
    assert((q + 1) * den == q * den + den) by (nonlinear_arith);
}

/// Divides `num` by a `den` other than zero and rounds to the nearest whole
/// number, a half upward.
fn quotient_rounded(num: u128, den: u128) -> (q: u128)
    requires
        den > 0,
    ensures
        q == rounded_quotient(num as nat, den as nat),
{
    let whole: u128 = num / den;
    let rest: u128 = num % den;
    if rest >= den - rest {
        assert(whole < u128::MAX) by (nonlinear_arith)
            requires
                whole == num as int / den as int,
                rest == num as int % den as int,
                rest > 0,
                den > 0,
                num <= u128::MAX,
        ;
        whole + 1
    } else {
        whole
    }
}

/// Divides `num` by `den` and rounds to the nearest whole number, a half
/// upward. There is no quotient by zero.
pub fn divide_rounded(num: u128, den: u128) -> (q: Option<u128>)
    ensures
        q is Some <==> den > 0,
        q matches Some(v) ==> v == rounded_quotient(num as nat, den as nat),
{
    if den == 0 {
        None
    } else {
        Some(quotient_rounded(num, den))
    }
}

/// The typing speed of `words` words in `elapsed_nanos` nanoseconds, in
/// hundredths of a word per minute, rounded to the nearest. No speed is
/// defined where no time has passed.
pub open spec fn speed(words: nat, elapsed_nanos: nat) -> Option<nat> {
    if elapsed_nanos == 0 {
        None
    } else {
        Some(rounded_quotient(words * RATE_SCALE as nat, elapsed_nanos))
    }
}

/// A hundredth of a word per minute is the unit in which a speed is told:
/// the speed times the time differs from the words typed, brought to that
/// unit, by at most half the time.
pub proof fn lemma_speed_is_nearest(words: nat, elapsed_nanos: nat)
    requires
        elapsed_nanos > 0,
    ensures
        speed(words, elapsed_nanos) is Some,
        2 * (speed(words, elapsed_nanos)->0 * elapsed_nanos - words * RATE_SCALE) <= elapsed_nanos,
        2 * (words * RATE_SCALE - speed(words, elapsed_nanos)->0 * elapsed_nanos) < elapsed_nanos,
{
    lemma_rounded_quotient_is_nearest(words * RATE_SCALE as nat, elapsed_nanos);
}

/// Computes the typing speed of `words` words in `elapsed_nanos`
/// nanoseconds, in hundredths of a word per minute. Where no time has passed
/// there is none.
pub fn words_per_minute(words: usize, elapsed_nanos: u128) -> (rate: Option<u128>)
    ensures
        rate is Some <==> elapsed_nanos > 0,
        speed(words as nat, elapsed_nanos as nat) == match rate {
            Some(r) => Some(r as nat),
            None => None,
        },
{
    assert(words <= u64::MAX);
    let scaled: u128 = (words as u128) * RATE_SCALE;
    divide_rounded(scaled, elapsed_nanos)
}

/// What a finished typing attempt amounted to.
#[derive(Clone, Copy, Debug, PartialEq, Eq)]
pub struct SessionOutcome {
    /// The number of positions at which the typed character is the target's.
    pub chars_correct: usize,
    /// The number of characters of the target.
    pub chars_total: usize,
    /// The number of words typed.
    pub words_typed: usize,
    /// The duration of the attempt, in nanoseconds.
    pub elapsed_nanos: u128,
    /// The typing speed in hundredths of a word per minute, rounded to the
    /// nearest; `None` where the attempt took no time at all.
    pub words_per_minute: Option<u128>,
}

impl SessionOutcome {
    /// Whether this is the outcome of typing `typed` against `target` in
    /// `self.elapsed_nanos` nanoseconds.
    pub open spec fn describes(self, typed: Seq<char>, target: Seq<char>) -> bool {
        &&& self.chars_correct == agreements(typed, target)
        &&& self.chars_total == target.len()
        &&& self.words_typed == tokens(typed).len()
        &&& speed(tokens(typed).len(), self.elapsed_nanos as nat) == match self.words_per_minute {
            Some(r) => Some(r as nat),
            None => None,
        }
    }

    /// The duration of the attempt in hundredths of a second, rounded to the
    /// nearest.
    pub fn elapsed_hundredths(&self) -> (h: u128)
        ensures
            h == rounded_quotient(self.elapsed_nanos as nat, NANOS_PER_HUNDREDTH as nat),
    {
        quotient_rounded(self.elapsed_nanos, NANOS_PER_HUNDREDTH)
    }
}

/// Scores `typed` against `target` for an attempt that took `elapsed_nanos`
/// nanoseconds.
pub fn score(typed: &Vec<char>, target: &Vec<char>, elapsed_nanos: u128) -> (outcome:
    SessionOutcome)
    ensures
        outcome.describes(typed@, target@),
        outcome.elapsed_nanos == elapsed_nanos,
        outcome.chars_correct <= outcome.chars_total,
{
    proof {
        lemma_agreements_bounded(typed@, target@);
    }
    let words_typed = count_words(typed);
    SessionOutcome {
        chars_correct: count_agreements(typed, target),
        chars_total: target.len(),
        words_typed,
        elapsed_nanos,
        words_per_minute: words_per_minute(words_typed, elapsed_nanos),
    }
}

/// An attempt of a given duration has one outcome.
pub proof fn lemma_outcome_unique(
    first: SessionOutcome,
    second: SessionOutcome,
    typed: Seq<char>,
    target: Seq<char>,
)
    requires
        first.describes(typed, target),
        second.describes(typed, target),
        first.elapsed_nanos == second.elapsed_nanos,
    ensures
        first == second,
{
}

} // verus!

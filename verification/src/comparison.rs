//! The character-by-character comparison of a typed text with its target.

use crate::score::agreeing;
use vstd::prelude::*;

verus! {

/// How one position of the target stands against the typed text.
#[derive(Clone, Copy, Debug, PartialEq, Eq, Structural)]
pub enum Verdict {
    /// The typed character is the target's.
    Match,
    /// Another character was typed.
    Mismatch,
    /// Nothing has been typed at this position yet.
    Pending,
}

/// The verdict on position `i` of `target`.
pub open spec fn verdict_at(typed: Seq<char>, target: Seq<char>, i: int) -> Verdict
    recommends
        0 <= i < target.len(),
{
    if i >= typed.len() {
        Verdict::Pending
    } else if typed[i] == target[i] {
        Verdict::Match
    } else {
        Verdict::Mismatch
    }
}

/// The verdicts on all positions of `target`, in order.
pub open spec fn comparison(typed: Seq<char>, target: Seq<char>) -> Seq<Verdict> {
    Seq::new(target.len(), |i: int| verdict_at(typed, target, i))
}

/// Whether `verdicts` judges every position of `target`, each by what was
/// typed there.
pub open spec fn judges(verdicts: Seq<Verdict>, typed: Seq<char>, target: Seq<char>) -> bool {
    &&& verdicts.len() == target.len()
    &&& forall|i: int|
        0 <= i < target.len() ==> #[trigger] verdicts[i] == verdict_at(typed, target, i)
}

/// The texts determine their comparison: whatever judges every position of
/// the target is the comparison, so that comparing the same texts again
/// gives the same verdicts.
pub proof fn lemma_comparison_determined(
    first: Seq<Verdict>,
    second: Seq<Verdict>,
    typed: Seq<char>,
    target: Seq<char>,
)
    requires
        judges(first, typed, target),
        judges(second, typed, target),
    ensures
        first == second,
        first == comparison(typed, target),
        judges(comparison(typed, target), typed, target),
{
    assert(first =~= comparison(typed, target));
    assert(second =~= comparison(typed, target));
}

/// The positions that the comparison marks as matches are the agreeing
/// positions of the two texts, and the typed positions are the ones that are
/// not pending.
pub proof fn lemma_matches_are_agreements(typed: Seq<char>, target: Seq<char>, i: int)
    requires
        0 <= i < target.len(),
    ensures
        comparison(typed, target)[i] == Verdict::Match <==> agreeing(typed, target).contains(i),
        comparison(typed, target)[i] == Verdict::Pending <==> i >= typed.len(),
{
}

/// Compares `typed` with `target`, position by position of the target.
pub fn compare(typed: &Vec<char>, target: &Vec<char>) -> (verdicts: Vec<Verdict>)
    ensures
        verdicts@ == comparison(typed@, target@),
        judges(verdicts@, typed@, target@),
{
    let mut verdicts: Vec<Verdict> = Vec::new();
    let mut i: usize = 0;
    while i < target.len()
        invariant
            i <= target.len(),
            verdicts@ == comparison(typed@, target@).take(i as int),
        decreases target.len() - i,
    {
        let verdict = if i >= typed.len() {
            Verdict::Pending
        } else if typed[i] == target[i] {
            Verdict::Match
        } else {
            Verdict::Mismatch
        };
        verdicts.push(verdict);
        i += 1;
        assert(verdicts@ =~= comparison(typed@, target@).take(i as int));
    }
    assert(verdicts@ =~= comparison(typed@, target@));
    verdicts
}

} // verus!

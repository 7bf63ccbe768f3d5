//! Fitness functions: what an algorithm optimises.

use crate::search_space::SearchSpace;
use vstd::prelude::*;

pub mod leading_ones;
pub mod one_max;
pub mod tsp;

verus! {

/// How one fitness value stands to another, seen from the direction in
/// which the function optimises: `Greater` is better.
#[derive(Debug, Clone, Copy, PartialEq, Eq, Structural)]
pub enum FitnessOrder {
    Less,
    Equal,
    Greater,
}

/// How `a` stands to `b` when larger values are better (`maximizing`), or
/// when smaller ones are.
pub open spec fn compared(maximizing: bool, a: u64, b: u64) -> FitnessOrder {
    if a == b {
        FitnessOrder::Equal
    } else if (a > b) == maximizing {
        FitnessOrder::Greater
    } else {
        FitnessOrder::Less
    }
}

/// `a` is strictly better than `b`.
pub open spec fn better(maximizing: bool, a: u64, b: u64) -> bool {
    if maximizing {
        a > b
    } else {
        a < b
    }
}

/// `a` is at least as good as `b`.
pub open spec fn no_worse(maximizing: bool, a: u64, b: u64) -> bool {
    if maximizing {
        a >= b
    } else {
        a <= b
    }
}

/// What is no worse than something that is no worse than a third is no
/// worse than the third: a fitness that no generation makes worse is never
/// worse than it was, however many generations pass.
pub proof fn lemma_no_worse_is_transitive(maximizing: bool, a: u64, b: u64, c: u64)
    requires
        no_worse(maximizing, a, b),
        no_worse(maximizing, b, c),
    ensures
        no_worse(maximizing, a, c),
{
}

/// The position of the best of the scores: the first one that no other
/// beats.
pub open spec fn first_best(maximizing: bool, scores: Seq<u64>) -> int
    decreases scores.len(),
{
    if scores.len() <= 1 {
        0
    } else {
        let before = first_best(maximizing, scores.drop_last());
        if better(maximizing, scores.last(), scores[before]) {
            scores.len() - 1
        } else {
            before
        }
    }
}

/// The score at `first_best` is no worse than any, and strictly better
/// than each before it.
pub proof fn lemma_first_best(maximizing: bool, scores: Seq<u64>)
    requires
        scores.len() > 0,
    ensures
        0 <= first_best(maximizing, scores) < scores.len(),
        forall|j: int|
            0 <= j < scores.len() ==> no_worse(
                maximizing,
                scores[first_best(maximizing, scores)],
                #[trigger] scores[j],
            ),
        forall|j: int|
            0 <= j < first_best(maximizing, scores) ==> better(
                maximizing,
                scores[first_best(maximizing, scores)],
                #[trigger] scores[j],
            ),
    decreases scores.len(),
{
    if scores.len() > 1 {
        let front = scores.drop_last();
        lemma_first_best(maximizing, front);
        let before = first_best(maximizing, front);
        let best = first_best(maximizing, scores);
        assert forall|j: int| 0 <= j < scores.len() implies no_worse(
            maximizing,
            scores[best],
            #[trigger] scores[j],
        ) by {
            if j < front.len() {
                assert(front[j] == scores[j]);
                assert(no_worse(maximizing, front[before], front[j]));
            }
        }
        assert forall|j: int| 0 <= j < best implies better(
            maximizing,
            scores[best],
            #[trigger] scores[j],
        ) by {
            assert(front[j] == scores[j]);
            if best == before {
                assert(better(maximizing, front[before], front[j]));
            } else {
                assert(no_worse(maximizing, front[before], front[j]));
            }
        }
    }
}

/// A function that scores candidates, with the direction in which it is
/// optimised.
pub trait FitnessFunction<T: SearchSpace> {
    /// The function scores candidates of this size.
    spec fn fits(&self, size: nat) -> bool;

    /// The score of a candidate, by its value.
    spec fn score(&self, instance: T::V) -> u64;

    /// Larger scores are better.
    spec fn maximizing(&self) -> bool;

    fn evaluate(&self, instance: &T) -> (fitness: u64)
        requires
            instance.valid(),
            self.fits(instance.spec_size()),
        ensures
            fitness == self.score(instance@),
    ;

    fn is_maximizing(&self) -> (maximizing: bool)
        ensures
            maximizing == self.maximizing(),
    ;

    /// Compares two scores in the direction of the function.
    fn compare(&self, a: u64, b: u64) -> (order: FitnessOrder)
        ensures
            order == compared(self.maximizing(), a, b),
            order == FitnessOrder::Greater <==> better(self.maximizing(), a, b),
    {
        let maximizing = self.is_maximizing();
        if a == b {
            FitnessOrder::Equal
        } else if (a > b) == maximizing {
            FitnessOrder::Greater
        } else {
            FitnessOrder::Less
        }
    }
}

} // verus!

//! LeadingOnes: the length of the run of set bits at the front.

use crate::fitness::FitnessFunction;
use crate::search_space::Bitstring;
use vstd::prelude::*;

verus! {

/// The first `k` items of `bits` are all `true`.
pub open spec fn all_set(bits: Seq<bool>, k: int) -> bool {
    forall|i: int| 0 <= i < k ==> #[trigger] bits[i]
}

/// The number of `true` items before the first `false` one: the length of
/// the longest prefix of `true` items.
pub open spec fn leading_ones(bits: Seq<bool>) -> nat
    decreases bits.len(),
{
    if bits.len() == 0 || !bits[0] {
        0
    } else {
        1 + leading_ones(bits.skip(1))
    }
}

/// A prefix of set bits that ends at the end or at a `false` has the length
/// `leading_ones`.
pub proof fn lemma_prefix_is_leading_ones(bits: Seq<bool>, k: int)
    requires
        0 <= k <= bits.len(),
        all_set(bits, k),
        k < bits.len() ==> !bits[k],
    ensures
        leading_ones(bits) == k,
    decreases bits.len(),
{
    if k > 0 {
        assert(bits[0]);
        let rest = bits.skip(1);
        assert forall|i: int| 0 <= i < k - 1 implies #[trigger] rest[i] by {
            assert(bits[i + 1]);
        }
        lemma_prefix_is_leading_ones(rest, k - 1);
    }
}

pub struct LeadingOnes;

impl FitnessFunction<Bitstring> for LeadingOnes {
    open spec fn fits(&self, size: nat) -> bool {
        true
    }

    open spec fn score(&self, instance: Seq<bool>) -> u64 {
        leading_ones(instance) as u64
    }

    open spec fn maximizing(&self) -> bool {
        true
    }

    fn evaluate(&self, instance: &Bitstring) -> (fitness: u64)
        ensures
            fitness == leading_ones(instance@),
    {
        let bits = instance.bits();
        let mut i: usize = 0;
        while i < bits.len() && bits[i]
            invariant
                i <= bits@.len(),
                all_set(bits@, i as int),
            decreases bits.len() - i,
        {
            i += 1;
        }
        proof {
            lemma_prefix_is_leading_ones(bits@, i as int);
        }
        i as u64
    }

    fn is_maximizing(&self) -> (maximizing: bool) {
        true
    }
}

} // verus!

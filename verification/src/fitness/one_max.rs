//! OneMax: the number of bits that are set.

use crate::fitness::FitnessFunction;
use crate::search_space::Bitstring;
use vstd::prelude::*;

verus! {

/// The number of `true` items of `bits`.
pub open spec fn ones(bits: Seq<bool>) -> nat
    decreases bits.len(),
{
    if bits.len() == 0 {
        0
    } else {
        ones(bits.drop_last()) + if bits.last() {
            1nat
        } else {
            0nat
        }
    }
}

pub struct OneMax;

impl FitnessFunction<Bitstring> for OneMax {
    open spec fn fits(&self, size: nat) -> bool {
        true
    }

    open spec fn score(&self, instance: Seq<bool>) -> u64 {
        ones(instance) as u64
    }

    open spec fn maximizing(&self) -> bool {
        true
    }

    fn evaluate(&self, instance: &Bitstring) -> (fitness: u64)
        ensures
            fitness == ones(instance@),
    {
        let bits = instance.bits();
        let mut count: u64 = 0;
        let mut i: usize = 0;
        while i < bits.len()
            invariant
                i <= bits@.len(),
                count == ones(bits@.take(i as int)),
                count <= i,
            decreases bits.len() - i,
        {
            proof {
                assert(bits@.take(i + 1).drop_last() =~= bits@.take(i as int));
            }
            if bits[i] {
                count += 1;
            }
            i += 1;
        }
        proof {
            assert(bits@.take(i as int) =~= bits@);
        }
        count
    }

    fn is_maximizing(&self) -> (maximizing: bool) {
        true
    }
}

} // verus!

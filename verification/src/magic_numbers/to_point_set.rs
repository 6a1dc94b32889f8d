//! The threshold between repeated continuous samples and a discrete value.
use vstd::prelude::*;

verus! {

/// How often a value has to repeat among the samples before it counts as a
/// discrete point of the distribution: a fiftieth of the sample size, and
/// never fewer than twenty times. Continuous samples can repeat by accident
/// of the operations that made them, so a few repetitions prove nothing.
pub fn min_discrete_to_keep(samples: [u64; 3]) -> (r: usize)
    ensures
        r == 20,
        r == if samples@.len() / 50 > 20 {
            samples@.len() / 50
        } else {
            20
        },
{
    let fiftieth: usize = samples.len() / 50;
    if fiftieth > 20 {
        fiftieth
    } else {
        20
    }
}

} // verus!

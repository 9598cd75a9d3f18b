//! Generations: numbers that tell what was started before a change from what was started after it.

use vstd::prelude::*;

verus! {

/// The generation after `generation`. After the last one comes the first again.
pub open spec fn next_generation(generation: u64) -> u64 {
    if generation == u64::MAX {
        0
    } else {
        (generation + 1) as u64
    }
}

/// The generation `k` changes after `generation`.
pub open spec fn generation_after(generation: u64, k: nat) -> u64
    decreases k,
{
    if k == 0 {
        generation
    } else {
        next_generation(generation_after(generation, (k - 1) as nat))
    }
}

/// The generation after this one.
pub fn following(generation: u64) -> (next: u64)
    ensures
        next == next_generation(generation),
{
    generation.wrapping_add(1)
}

proof fn lemma_generation_after(generation: u64, k: nat)
    requires
        k <= u64::MAX,
    ensures
        generation_after(generation, k) == (if generation + k <= u64::MAX {
            generation + k
        } else {
            generation + k - u64::MAX - 1
        }),
    decreases k,
{
    if k > 0 {
        lemma_generation_after(generation, (k - 1) as nat);
    }
}

/// A change leads to another generation, and so do several, unless they are as many as there are
/// generations.
pub proof fn law_changes_lead_elsewhere(generation: u64, k: nat)
    requires
        0 < k <= u64::MAX,
    ensures
        generation_after(generation, k) != generation,
{
    lemma_generation_after(generation, k);
}

} // verus!

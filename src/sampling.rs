//! The calls into rand and rayon that the grid's logic makes.

use vstd::prelude::*;
use rand::Rng;
use rayon::iter::IntoParallelRefIterator;
use rayon::iter::ParallelIterator;
use rayon::slice::ParallelSliceMut;
use crate::atom::{Block, Particle};
use crate::builder::{resample_chunk, total};

verus! {

/// rand's per-thread generator, carried through as an opaque value.
#[verifier::external_type_specification]
#[verifier::external_body]
pub struct ExThreadRng(rand::rngs::ThreadRng);

/// Relies on rand 0.7's `Rng::gen_range(low, high)` for `u32`: a value in
/// `[low, high)`; it panics when `low >= high`, which `requires` rules out.
#[verifier::external_body]
pub(crate) fn draw_below(rng: &mut rand::rngs::ThreadRng, high: u32) -> (r: u32)
    requires
        0 < high,
    ensures
        r < high,
{
    rng.gen_range(0, high)
}

/// Relies on rayon's `par_chunks_mut(chunk).for_each_init(thread_rng, op)`:
/// the cells are split into disjoint chunks that together cover them all, and
/// `op` runs once on each chunk with a generator that no other task holds.
/// Here `op` is `resample_chunk`, whose own contract gives the result for
/// each cell. `par_chunks_mut` panics on a chunk size of zero.
#[verifier::external_body]
pub(crate) fn par_resample(cells: &mut Vec<Block>, chunk: usize)
    requires
        0 < chunk,
    ensures
        final(cells)@.len() == old(cells)@.len(),
        forall|i: int|
            0 <= i < old(cells)@.len() ==> #[trigger] final(cells)@[i].resampled_from(old(cells)@[i]),
{
    cells.par_chunks_mut(chunk).for_each_init(rand::thread_rng, |rng, blocks| resample_chunk(rng, blocks));
}

/// Relies on rayon's `par_iter().map(op).sum::<u64>()`: the sum of the mapped
/// values over all cells, in some order of reduction. Here `op` reads one
/// particle count. Addition of the non-negative terms is exact while the total
/// fits in `u64`, which `requires` asks.
#[verifier::external_body]
pub(crate) fn par_total(cells: &Vec<Block>, kind: Particle) -> (r: u64)
    requires
        total(cells@, kind) <= u64::MAX,
    ensures
        r == total(cells@, kind),
{
    cells.par_iter().map(|b| b.particle_count(kind)).sum::<u64>()
}

} // verus!

//! The pseudo-random generator that fitting draws from.

use rand::rngs::StdRng;
use rand::Rng;
use vstd::prelude::*;

verus! {

#[verifier::external_type_specification]
#[verifier::external_body]
pub struct ExStdRng(rand::rngs::StdRng);

/// Calls `rand::Rng::gen_range` on the half-open range `0..bound`.
///
/// The generator's uniform integer sampler returns `low + hi` with
/// `hi < high - low`, so every outcome lies below `bound`. It panics on an
/// empty range, which the precondition leaves out. Which value comes back is
/// not stated: it depends on the generator's state.
#[verifier::external_body]
pub(crate) fn uniform_below(rng: &mut StdRng, bound: u64) -> (drawn: u64)
    requires
        bound > 0,
    ensures
        drawn < bound,
{
    rng.gen_range(0..bound)
}

/// Draws an index into a collection of `len` items, each equally likely.
pub fn draw_index(rng: &mut StdRng, len: usize) -> (index: usize)
    requires
        len > 0,
    ensures
        index < len,
{
    let drawn: u64 = uniform_below(rng, len as u64);
    drawn as usize
}

/// Draws a cut point `c` with `low < c <= high`, each equally likely.
///
/// Cutting integer values at `c` (values below `c` on one side, the rest on
/// the other) is what cutting at a real threshold drawn uniformly from the
/// open interval between `low` and `high` does to them.
pub fn draw_cut(rng: &mut StdRng, low: i64, high: i64) -> (cut: i64)
    requires
        low < high,
    ensures
        low < cut <= high,
{
    let width: u64 = (high as i128 - low as i128) as u64;
    let offset: u64 = uniform_below(rng, width);
    (low as i128 + 1 + offset as i128) as i64
}

} // verus!

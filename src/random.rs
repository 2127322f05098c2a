use vstd::prelude::*;

use rand::rngs::StdRng;
use rand::Rng;

verus! {

/// The seedable generator of the `rand` crate, carried through opaquely.
#[verifier::external_type_specification]
#[verifier::external_body]
pub struct ExStdRng(StdRng);

/// Relies on rand::Rng::gen_range over an integer range: a value drawn from
/// `[lo, hi)`. The call panics on an empty range, which `requires` rules out.
#[verifier::external_body]
pub(crate) fn random_in(rng: &mut StdRng, lo: i64, hi: i64) -> (r: i64)
    requires
        lo < hi,
    ensures
        lo <= r < hi,
{
    rng.gen_range(lo..hi)
}

/// Relies on rand::Rng::gen_range over a `usize` range: an index drawn from
/// `[0, n)`. The call panics on an empty range, which `requires` rules out.
#[verifier::external_body]
pub(crate) fn random_index(rng: &mut StdRng, n: usize) -> (r: usize)
    requires
        n > 0,
    ensures
        r < n,
{
    rng.gen_range(0..n)
}

} // verus!

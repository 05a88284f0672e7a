use vstd::prelude::*;

verus! {

#[verifier::external_type_specification]
#[verifier::external_body]
pub struct ExRng(fastrand::Rng);

/// Relies on `fastrand::Rng::with_seed`: a generator whose output is fixed by the seed.
#[verifier::external_body]
pub(crate) fn seeded_rng(seed: u64) -> (r: fastrand::Rng) {
    fastrand::Rng::with_seed(seed)
}

/// Relies on `fastrand::Rng::u8` over `0..n`: a value below `n`; it panics only on an empty range.
#[verifier::external_body]
pub(crate) fn rng_below_u8(rng: &mut fastrand::Rng, n: u8) -> (r: u8)
    requires
        n > 0,
    ensures
        r < n,
{
    rng.u8(0..n)
}

/// Relies on `fastrand::Rng::usize` over `0..n`: a value below `n`; it panics only on an
/// empty range.
#[verifier::external_body]
pub(crate) fn rng_below_usize(rng: &mut fastrand::Rng, n: usize) -> (r: usize)
    requires
        n > 0,
    ensures
        r < n,
{
    rng.usize(0..n)
}

/// Relies on `fastrand::Rng::u32` over the full range: any value.
#[verifier::external_body]
pub(crate) fn rng_u32(rng: &mut fastrand::Rng) -> (r: u32) {
    rng.u32(..)
}

} // verus!

use vstd::prelude::*;

verus! {

/// Declares fastrand's generator type so that library signatures can
/// carry a `&mut fastrand::Rng`.
#[verifier::external_type_specification]
#[verifier::external_body]
pub struct ExRng(fastrand::Rng);

/// Relies on fastrand::Rng::usize: a draw over the range `..n` returns a
/// value below `n`; the call panics only when the range is empty, which
/// `n > 0` rules out. Nothing more is promised of a random draw.
#[verifier::external_body]
pub(crate) fn rng_below(rng: &mut fastrand::Rng, n: usize) -> (r: usize)
    requires
        n > 0,
    ensures
        r < n,
{
    rng.usize(..n)
}

} // verus!

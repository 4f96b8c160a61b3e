use vstd::prelude::*;
use rand::RngExt;

verus! {

/// Relies on `rand::RngExt::random_range`: a value sampled from the
/// half-open range `0..2` is uniform over it, so the result is `0` or `1`.
/// The range is not empty, so the call does not panic.
#[verifier::external_body]
pub(crate) fn random_binary() -> (r: u8)
    ensures
        r == 0 || r == 1,
{
    rand::rng().random_range(0..2u8)
}

} // verus!

//! The renderer's only source of randomness.

use rand::Rng;
use vstd::prelude::*;

verus! {

/// Relies on rand::thread_rng and rand::Rng::gen_range over an inclusive
/// `i64` range: the sample lies within the range. The range must be nonempty,
/// else gen_range panics.
#[verifier::external_body]
pub(crate) fn random_raw_in(lo: i64, hi: i64) -> (r: i64)
    requires
        lo <= hi,
    ensures
        lo <= r <= hi,
{
    rand::thread_rng().gen_range(lo..=hi)
}

} // verus!

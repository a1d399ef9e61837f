//! The simulation's one source of randomness, behind a trusted boundary.

use vstd::prelude::*;

verus! {

/// Relies on `rand::thread_rng` and `rand::Rng::gen_range` over the half-open
/// range `lo..hi`: the sample lies in `[lo, hi)`. `gen_range` panics on an
/// empty range, so the range is required to be non-empty. Nothing more is
/// assumed of the sample: every caller must hold for every value in range.
#[verifier::external_body]
pub(crate) fn rand_in_range(lo: i64, hi: i64) -> (r: i64)
    requires
        lo < hi,
    ensures
        lo <= r < hi,
{
    rand::Rng::gen_range(&mut rand::thread_rng(), lo..hi)
}

} // verus!

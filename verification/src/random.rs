use rand::Rng;
use vstd::prelude::*;

verus! {

/// Draws a number uniformly from `lo..hi` with `rand::thread_rng()` and
/// `rand::Rng::gen_range`. Claimed of it: the number lies in `lo..hi`; which
/// number comes out is left open. `gen_range` panics on an empty range, which
/// `requires` rules out.
#[verifier::external_body]
pub(crate) fn random_in_range(lo: i64, hi: i64) -> (r: i64)
    requires
        lo < hi,
    ensures
        lo <= r < hi,
{
    rand::thread_rng().gen_range(lo..hi)
}

} // verus!

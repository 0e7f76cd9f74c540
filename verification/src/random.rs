//! The one source of randomness: simulated devices draw their readings here.

use rand::Rng;
use vstd::prelude::*;

verus! {

/// Relies on rand's Rng::gen_range over a half-open range: it returns a value
/// sampled in `[lo, hi)` and panics only when the range is empty.
#[verifier::external_body]
pub(crate) fn random_in_range(lo: u32, hi: u32) -> (r: u32)
    requires
        lo < hi,
    ensures
        lo <= r < hi,
{
    rand::thread_rng().gen_range(lo..hi)
}

} // verus!

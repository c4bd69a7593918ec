use rand::Rng;
use vstd::prelude::*;

verus! {

/// Relies on `rand::Rng::gen_range` over `rand::thread_rng()`: for a
/// non-empty half-open range it returns a value inside it (it panics on an
/// empty range, which `requires` excludes). Which value comes back is chance.
#[verifier::external_body]
pub(crate) fn draw_between(lo: u64, hi: u64) -> (r: u64)
    requires
        lo < hi,
    ensures
        lo <= r < hi,
{
    rand::thread_rng().gen_range(lo..hi)
}

} // verus!

//! Uniform random draws of integers.
use rand::Rng;
use vstd::prelude::*;

verus! {

/// `v` is a possible draw from `[lo, hi)`; an empty range yields `lo` itself.
pub open spec fn drawn_from(v: int, lo: int, hi: int) -> bool {
    if lo < hi {
        lo <= v < hi
    } else {
        v == lo
    }
}

/// Relies on `rand::thread_rng` and `rand::Rng::gen_range`: for a non-empty
/// range `lo..hi` the thread-local generator returns a value inside it.
#[verifier::external_body]
fn random_in(lo: i64, hi: i64) -> (r: i64)
    requires
        lo < hi,
    ensures
        lo <= r < hi,
{
    rand::thread_rng().gen_range(lo..hi)
}

/// A value drawn uniformly from `[lo, hi)`, or `lo` when the range is empty.
pub fn draw(lo: i64, hi: i64) -> (r: i64)
    requires
        lo <= hi,
    ensures
        drawn_from(r as int, lo as int, hi as int),
{
    if lo < hi {
        random_in(lo, hi)
    } else {
        lo
    }
}

} // verus!

//! Random draws.
use vstd::prelude::*;
use rand::Rng;

verus! {

/// `rand::Rng::gen_range` on the generator of `rand::thread_rng`, over the
/// numbers from zero up to `limit`. Which of them is drawn is left open.
#[verifier::external_body]
pub(crate) fn draw_below(limit: i64) -> (result: i64)
    requires
        limit > 0,
    ensures
        0 <= result < limit,
{
    rand::thread_rng().gen_range(0..limit)
}

} // verus!

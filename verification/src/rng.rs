//! Random numbers from the generator of `rand`.
//!
//! Of a random number only its range is known; nothing here is proved.

use rand::rngs::ThreadRng;
use rand::Rng;
use vstd::prelude::*;

verus! {

/// `rand::rngs::ThreadRng`, the generator of the thread at hand. Nothing is
/// said of what it holds.
#[verifier::external_type_specification]
#[verifier::external_body]
pub struct ExThreadRng(ThreadRng);

/// `Rng::gen_range` on `low..high`: some number from `low` up to `high`
/// without `high` itself. The range must hold a number.
#[verifier::external_body]
pub(crate) fn gen_range(rng: &mut ThreadRng, low: u32, high: u32) -> (v: u32)
    requires
        low < high,
    ensures
        low <= v < high,
{
    rng.gen_range(low..high)
}

} // verus!

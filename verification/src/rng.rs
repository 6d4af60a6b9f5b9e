//! The one nondeterministic input: the spawn direction offsets, drawn from
//! the thread-local generator of the `rand` crate. Everything downstream of
//! the draw is deterministic in the drawn values, so a seeded generator can
//! stand in for reproducible runs.

use vstd::prelude::*;

verus! {

#[verifier::external_type_specification]
#[verifier::external_body]
pub struct ExThreadRng(rand::rngs::ThreadRng);

/// Relies on `rand::thread_rng`: returns the thread-local generator.
#[verifier::external_body]
pub(crate) fn thread_rng_handle() -> rand::rngs::ThreadRng {
    rand::thread_rng()
}

/// Relies on `rand::Rng::gen_range` over `-100_000..100_000`: it samples
/// from the given range, so the result lies in it; it panics only on an
/// empty range, which this one is not. Nothing more is assumed of a random
/// draw.
#[verifier::external_body]
pub(crate) fn gen_spawn_offset(rng: &mut rand::rngs::ThreadRng) -> (r: i64)
    ensures
        -100_000 <= r < 100_000,
{
    rand::Rng::gen_range(rng, -100_000i64..100_000i64)
}

} // verus!

//! The machine's source of random bytes: the thread-local generator of
//! the `rand` crate, behind trusted declarations.  Nothing is promised
//! of the drawn values, so every caller must hold for every byte.

use vstd::prelude::*;

use rand::Rng;

verus! {

#[verifier::external_type_specification]
#[verifier::external_body]
pub struct ExThreadRng(rand::rngs::ThreadRng);

/// Relies on rand::thread_rng: a handle to the thread-local generator,
/// seeded by the system.
#[verifier::external_body]
pub(crate) fn fresh_rng() -> rand::rngs::ThreadRng {
    rand::thread_rng()
}

/// Relies on rand::Rng::gen on ThreadRng: some byte; nothing is
/// promised of its value.
#[verifier::external_body]
pub(crate) fn random_byte(rng: &mut rand::rngs::ThreadRng) -> u8 {
    rng.gen()
}

} // verus!

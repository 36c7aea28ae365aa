//! The source of the random draws.

use vstd::prelude::*;
use bevy_prng::WyRand;
use rand_core::RngCore;

verus! {

/// `bevy_prng::WyRand`, the generator behind the game's entropy: a value
/// that is handed on and never looked into.
#[verifier::external_type_specification]
#[verifier::external_body]
pub struct ExWyRand(bevy_prng::WyRand);

/// The next 32 bits of the generator: `RngCore::next_u32` of `bevy_prng`'s
/// `WyRand`, which advances the generator's state and returns the low half
/// of its next output. Nothing is claimed of the value.
#[verifier::external_body]
pub(crate) fn next_draw(rng: &mut WyRand) -> (draw: u32) {
    rng.next_u32()
}

} // verus!

//! Randomness integration: drawing the bits that fill an identifier's
//! random section.
//!
//! The generator is an outside dependency. Draws are handed to the core
//! as plain integers, so everything downstream of a draw is verified
//! for every value the generator could produce.

use vstd::prelude::*;

verus! {

/// Relies on `rand::random::<u16>`: a uniformly random 16-bit value
/// from the thread-local generator. Nothing is promised of the value.
#[verifier::external_body]
pub(crate) fn random_u16() -> u16 {
    rand::random::<u16>()
}

/// Relies on `rand::random::<u64>`: a uniformly random 64-bit value
/// from the thread-local generator. Nothing is promised of the value.
#[verifier::external_body]
pub(crate) fn random_u64() -> u64 {
    rand::random::<u64>()
}

} // verus!

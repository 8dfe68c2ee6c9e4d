//! The engine's single source of randomness, taken on trust.

use vstd::prelude::*;

verus! {

/// Relies on `rand::random`: it draws a fresh pseudo-random machine word.
/// Nothing is assumed of the value drawn; every caller must work whatever
/// comes back.
#[verifier::external_body]
pub(crate) fn random_usize() -> usize {
    rand::random::<usize>()
}

} // verus!

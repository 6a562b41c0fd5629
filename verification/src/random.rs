//! The operating system's random number generator.
use rand_core::{OsRng, RngCore};
use vstd::prelude::*;

verus! {

/// Fills `buf` with bytes from `rand_core::OsRng::fill_bytes`, the operating
/// system's generator. Nothing is claimed of the bytes: they are random.
/// (`fill_bytes` panics only when the operating system cannot supply
/// randomness at all.)
#[verifier::external_body]
pub(crate) fn fill_random<const N: usize>(buf: &mut [u8; N]) {
    OsRng.fill_bytes(buf);
}

} // verus!

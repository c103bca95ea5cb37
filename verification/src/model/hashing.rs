//! The Fx hash function of the `fxhash` crate, as far as positions are
//! hashed with it.

use fxhash::FxHasher;
use std::hash::Hasher;
use vstd::prelude::*;

verus! {

#[verifier::external_type_specification]
#[verifier::external_body]
pub struct ExFxHasher(FxHasher);

/// The word that a hasher holds: what it has made of the values written to
/// it so far, and what it hands out as the hash.
pub uninterp spec fn fx_state(hasher: FxHasher) -> usize;

/// One step of the hash: the state is rotated left by five bits, combined
/// with the word by exclusive or, and multiplied, dropping what overflows,
/// by a constant that depends on the width of a word.
pub open spec fn fx_step(state: usize, word: usize) -> usize {
    if usize::BITS == 64 {
        ((((((state as u64) << 5) | ((state as u64) >> 59)) ^ (word as u64))
            * 0x517c_c1b7_2722_0a95) % 0x1_0000_0000_0000_0000) as usize
    } else {
        ((((((state as u32) << 5) | ((state as u32) >> 27)) ^ (word as u32)) * 0x2722_0a95)
            % 0x1_0000_0000) as usize
    }
}

/// `FxHasher::default` of `fxhash`: a hasher that holds zero.
#[verifier::external_body]
pub(crate) fn fx_new() -> (hasher: FxHasher)
    ensures
        fx_state(hasher) == 0,
{
    FxHasher::default()
}

/// `FxHasher::write_u8` of `fxhash`: one step of the hash with the byte as
/// the word.
#[verifier::external_body]
pub(crate) fn fx_write_u8(hasher: &mut FxHasher, value: u8)
    ensures
        fx_state(*final(hasher)) == fx_step(fx_state(*old(hasher)), value as usize),
{
    hasher.write_u8(value)
}

/// `FxHasher::write_usize` of `fxhash`: one step of the hash with the value
/// as the word.
#[verifier::external_body]
pub(crate) fn fx_write_usize(hasher: &mut FxHasher, value: usize)
    ensures
        fx_state(*final(hasher)) == fx_step(fx_state(*old(hasher)), value),
{
    hasher.write_usize(value)
}

/// `FxHasher::finish` of `fxhash`: the word that the hasher holds.
#[verifier::external_body]
pub(crate) fn fx_finish(hasher: &FxHasher) -> (hash: u64)
    ensures
        hash == fx_state(*hasher),
{
    hasher.finish()
}

} // verus!

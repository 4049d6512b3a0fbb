//! A sponge hash over the BLS scalar field built on the Hades permutation,
//! its in-circuit mirror for PLONK, a truncated variant whose result fits
//! the Jubjub scalar field, and a Merkle branch-opening gadget, with the
//! native and in-circuit computations proved to agree value for value.

use vstd::prelude::*;

pub mod composer;
pub mod field;
pub mod perm;
pub mod perm_uses;
pub mod sponge;
pub mod tree;

verus! {

/// Width of the permutation state: one capacity slot plus four rate slots.
pub const WIDTH: usize = 5;

} // verus!

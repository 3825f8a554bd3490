//! A lattice (learning-with-errors style) key-encapsulation mechanism:
//! modular matrix arithmetic, deterministic seed expansion and noise
//! sampling, the key and ciphertext wire formats, and the three protocol
//! operations.

use vstd::prelude::*;


pub mod matrix;



pub mod kem;
pub mod sampling;

pub use kem::{Ciphertext, Frodo, PublicKey, SecretKey};
pub use matrix::Matrix;

verus! {

/// Lattice dimension.
pub const N: usize = 640;

/// Columns of the public matrix B and rows of the transposed secret.
pub const N_BAR: usize = 8;

/// Number of vectors encapsulated in parallel.
pub const M_BAR: usize = 8;

/// Range parameter of the noise sampler.
pub const L: i16 = 2;

/// Shape parameter of the noise sampler (its nominal standard deviation).
pub const SIGMA: u64 = 1;

/// Length in bytes of every seed.
pub const SEED_LENGTH: usize = 32;

/// Length in bytes of the shared secret.
pub const SHARED_SECRET_BYTES: usize = 32;

/// The one error kind of the library: a byte buffer too short for the
/// format it is read as.
#[derive(Debug, PartialEq, Eq)]
pub enum FrodoError {
    DeserializationError(String),
}

} // verus!

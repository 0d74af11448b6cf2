//! A keyed, fast hash function for large messages.
//!
//! The construction layers a universal block hash (NH) under a
//! polynomial accumulator over the field of order `2^130 - 5`, and
//! compresses the result with a keyed sponge (KMAC).  Key material is
//! expanded from a caller-supplied seed with a customizable
//! extendable-output function (cSHAKE).
//!
//! The hash is a pseudorandom function under a secret seed; it offers
//! no security as an unkeyed hash.

pub mod codec;
pub mod nh;
pub mod nhpoly1305;
pub mod poly1305;
pub mod sthash;
mod xof;

pub use crate::sthash::Hasher;
pub use crate::sthash::Key;
pub use crate::sthash::MIN_SEED_BYTES;
pub use crate::sthash::OUTPUT_BYTES;
pub use crate::sthash::SEED_BYTES;

//! Trivium stream cipher, verified.
//!
//! The library builds the 288-bit Trivium keystream generator from a key,
//! an IV and a bit order, and XORs the generated keystream against caller
//! data; the transform is its own inverse.  Every executable function is
//! proved against the mathematical model in [`model`], and the algebraic
//! laws of the transform (involution, length preservation, padding
//! equivalence, determinism) are proved in [`laws`].

pub mod bit_order;
pub mod cipher;
pub mod laws;
pub mod model;

pub use cipher::{trivium_xor, Trivium};
pub use model::{BitOrder, PackOrder};

//! Algebraic primitives for finite-field and elliptic-curve arithmetic:
//! a generic field abstraction, a concrete 256-bit prime field, a generic
//! curve abstraction, and a concrete short-Weierstrass curve over that field.

pub mod curve25519;
pub mod ec;
pub mod field;
pub mod fp25519;

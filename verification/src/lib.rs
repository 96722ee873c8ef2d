//! A cubic extension of a finite field.
//!
//! Elements have the form `a + b * phi + c * phi^2`, where `phi` is a root of
//! an irreducible cubic polynomial over a base field `B`, and `a`, `b`, `c`
//! are elements of `B`. The base field and the cubic-specific behaviour
//! (triple multiplication modulo the irreducible polynomial, and the
//! Frobenius endomorphism) are supplied through the [`ExtensibleField`]
//! trait, together with the base field's byte encoding.

use vstd::prelude::*;

pub mod cubic;
pub mod extensible;
pub mod gf2;
pub mod prime64;

verus! {

/// Errors surfaced when decoding field elements from raw bytes.
#[derive(Copy, Clone, Debug, PartialEq, Eq, Structural)]
pub enum DeserializationError {
    /// The byte buffer's length is not a multiple of the element size
    /// (bulk decode), or not exactly the element size (single-element decode).
    InvalidLength,
    /// A base-field element could not be decoded from its byte chunk.
    InvalidElement,
}

} // verus!

//! The capability contract a base field must supply so that a cubic
//! extension can be built over it.

use vstd::prelude::*;
use crate::DeserializationError;

verus! {

/// Componentwise scaling of a coefficient triple by a base-field factor.
pub open spec fn triple_scale<B: ExtensibleField>(t: (B, B, B), k: B) -> (B, B, B) {
    (B::spec_mul(t.0, k), B::spec_mul(t.1, k), B::spec_mul(t.2, k))
}

/// The product of the two Galois conjugates of `x`:
/// `frobenius(x) * frobenius(frobenius(x))`.
pub open spec fn conjugate_product<B: ExtensibleField>(x: (B, B, B)) -> (B, B, B) {
    B::spec_triple_mul(B::spec_frobenius(x), B::spec_frobenius(B::spec_frobenius(x)))
}

/// The norm of `x`: the product of `x` with both of its Galois conjugates.
/// For a field that genuinely supports a cubic extension this lies in the
/// base field (its `phi` and `phi^2` coefficients are zero).
pub open spec fn norm_triple<B: ExtensibleField>(x: (B, B, B)) -> (B, B, B) {
    B::spec_triple_mul(x, conjugate_product(x))
}

/// A base field over which a cubic extension may be built.
///
/// Beyond its own arithmetic and byte encoding, an implementation supplies
/// the cubic-specific behaviour: multiplication of coefficient triples
/// modulo a fixed irreducible cubic polynomial, and the Frobenius
/// endomorphism. A field that reports `spec_supported()` warrants the
/// extension-field laws (`lemma_triple_mul_identity`, `lemma_triple_mul_scale`,
/// `lemma_norm`, `lemma_inv_cancel`); one that does not may implement the
/// cubic-specific operations with placeholder behaviour, and arithmetic in
/// the extension is then unspecified, exactly as the capability contract
/// leaves it.
pub trait ExtensibleField: Sized + Copy {
    /// Whether `self` is in the field's canonical representation.
    spec fn spec_valid(self) -> bool;

    /// Whether this field supports a cubic extension.
    spec fn spec_supported() -> bool;

    /// The additive identity.
    spec fn spec_zero() -> Self;

    /// The multiplicative identity.
    spec fn spec_one() -> Self;

    /// Addition in the base field.
    spec fn spec_add(x: Self, y: Self) -> Self;

    /// Subtraction in the base field.
    spec fn spec_sub(x: Self, y: Self) -> Self;

    /// Negation in the base field.
    spec fn spec_neg(x: Self) -> Self;

    /// Multiplication in the base field.
    spec fn spec_mul(x: Self, y: Self) -> Self;

    /// Multiplicative inverse in the base field, with `spec_inv(zero) == zero`
    /// as a sentinel.
    spec fn spec_inv(x: Self) -> Self;

    /// Multiplication of two coefficient triples modulo the fixed
    /// irreducible cubic polynomial.
    spec fn spec_triple_mul(x: (Self, Self, Self), y: (Self, Self, Self)) -> (Self, Self, Self);

    /// The Frobenius endomorphism, in coefficient form.
    spec fn spec_frobenius(x: (Self, Self, Self)) -> (Self, Self, Self);

    /// How many bytes one canonical element occupies.
    spec fn spec_byte_size() -> usize;

    /// The canonical little-endian byte encoding of `self`.
    spec fn spec_bytes(self) -> Seq<u8>;

    /// Decoding of exactly `spec_byte_size()` bytes; `None` when the bytes
    /// do not hold a canonical element.
    spec fn spec_decode(s: Seq<u8>) -> Option<Self>;

    fn is_supported() -> (r: bool)
        ensures
            r == Self::spec_supported(),
    ;

    fn zero() -> (r: Self)
        ensures
            r == Self::spec_zero(),
    ;

    fn one() -> (r: Self)
        ensures
            r == Self::spec_one(),
    ;

    fn equals(x: Self, y: Self) -> (r: bool)
        ensures
            r == (x == y),
    ;

    fn add(x: Self, y: Self) -> (r: Self)
        requires
            x.spec_valid(),
            y.spec_valid(),
        ensures
            r == Self::spec_add(x, y),
            r.spec_valid(),
    ;

    fn sub(x: Self, y: Self) -> (r: Self)
        requires
            x.spec_valid(),
            y.spec_valid(),
        ensures
            r == Self::spec_sub(x, y),
            r.spec_valid(),
    ;

    fn neg(x: Self) -> (r: Self)
        requires
            x.spec_valid(),
        ensures
            r == Self::spec_neg(x),
            r.spec_valid(),
    ;

    fn mul(x: Self, y: Self) -> (r: Self)
        requires
            x.spec_valid(),
            y.spec_valid(),
        ensures
            r == Self::spec_mul(x, y),
            r.spec_valid(),
    ;

    fn inv(x: Self) -> (r: Self)
        requires
            x.spec_valid(),
        ensures
            r == Self::spec_inv(x),
            r.spec_valid(),
    ;

    fn triple_mul(x: (Self, Self, Self), y: (Self, Self, Self)) -> (r: (Self, Self, Self))
        requires
            x.0.spec_valid() && x.1.spec_valid() && x.2.spec_valid(),
            y.0.spec_valid() && y.1.spec_valid() && y.2.spec_valid(),
        ensures
            r == Self::spec_triple_mul(x, y),
    ;

    fn frobenius(x: (Self, Self, Self)) -> (r: (Self, Self, Self))
        requires
            x.0.spec_valid() && x.1.spec_valid() && x.2.spec_valid(),
        ensures
            r == Self::spec_frobenius(x),
    ;

    fn byte_size() -> (r: usize)
        ensures
            r == Self::spec_byte_size(),
    ;

    fn to_bytes(self) -> (r: Vec<u8>)
        requires
            self.spec_valid(),
        ensures
            r@ == self.spec_bytes(),
    ;

    /// Decodes one element from `bytes[start .. start + byte size]`.
    fn from_bytes(bytes: &[u8], start: usize) -> (r: Result<Self, DeserializationError>)
        requires
            start + Self::spec_byte_size() <= bytes@.len(),
        ensures
            match r {
                Ok(v) => Self::spec_decode(
                    bytes@.subrange(start as int, start + Self::spec_byte_size()),
                ) == Some(v) && v.spec_valid(),
                Err(e) => Self::spec_decode(
                    bytes@.subrange(start as int, start + Self::spec_byte_size()),
                ) is None && e == DeserializationError::InvalidElement,
            },
    ;

    fn zeroed_vector(n: usize) -> (r: Vec<Self>)
        ensures
            r@.len() == n,
            forall|i: int| 0 <= i < n ==> r@[i] == Self::spec_zero(),
    ;

    proof fn lemma_consts_valid()
        ensures
            Self::spec_zero().spec_valid(),
            Self::spec_one().spec_valid(),
    ;

    proof fn lemma_add_zero(x: Self)
        requires
            x.spec_valid(),
        ensures
            Self::spec_add(x, Self::spec_zero()) == x,
    ;

    proof fn lemma_sub_zero(x: Self)
        requires
            x.spec_valid(),
        ensures
            Self::spec_sub(x, Self::spec_zero()) == x,
    ;

    proof fn lemma_mul_zero(x: Self)
        requires
            x.spec_valid(),
        ensures
            Self::spec_mul(Self::spec_zero(), x) == Self::spec_zero(),
    ;

    proof fn lemma_inv_valid(x: Self)
        requires
            x.spec_valid(),
        ensures
            Self::spec_inv(x).spec_valid(),
    ;

    /// A nonzero element times its inverse is one.
    proof fn lemma_inv_cancel(x: Self)
        requires
            Self::spec_supported(),
            x.spec_valid(),
            x != Self::spec_zero(),
        ensures
            Self::spec_mul(x, Self::spec_inv(x)) == Self::spec_one(),
    ;

    proof fn lemma_frobenius_valid(x: (Self, Self, Self))
        requires
            x.0.spec_valid() && x.1.spec_valid() && x.2.spec_valid(),
        ensures
            Self::spec_frobenius(x).0.spec_valid() && Self::spec_frobenius(x).1.spec_valid()
                && Self::spec_frobenius(x).2.spec_valid(),
    ;

    proof fn lemma_triple_mul_valid(x: (Self, Self, Self), y: (Self, Self, Self))
        requires
            x.0.spec_valid() && x.1.spec_valid() && x.2.spec_valid(),
            y.0.spec_valid() && y.1.spec_valid() && y.2.spec_valid(),
        ensures
            Self::spec_triple_mul(x, y).0.spec_valid() && Self::spec_triple_mul(x, y).1.spec_valid()
                && Self::spec_triple_mul(x, y).2.spec_valid(),
    ;

    /// `(one, zero, zero)` is the identity of triple multiplication.
    proof fn lemma_triple_mul_identity(x: (Self, Self, Self))
        requires
            Self::spec_supported(),
            x.0.spec_valid() && x.1.spec_valid() && x.2.spec_valid(),
        ensures
            Self::spec_triple_mul(x, (Self::spec_one(), Self::spec_zero(), Self::spec_zero()))
                == x,
    ;

    /// Triple multiplication commutes with scaling by a base-field factor.
    proof fn lemma_triple_mul_scale(x: (Self, Self, Self), y: (Self, Self, Self), k: Self)
        requires
            Self::spec_supported(),
            x.0.spec_valid() && x.1.spec_valid() && x.2.spec_valid(),
            y.0.spec_valid() && y.1.spec_valid() && y.2.spec_valid(),
            k.spec_valid(),
        ensures
            Self::spec_triple_mul(
                x,
                (Self::spec_mul(y.0, k), Self::spec_mul(y.1, k), Self::spec_mul(y.2, k)),
            ) == (
                Self::spec_mul(Self::spec_triple_mul(x, y).0, k),
                Self::spec_mul(Self::spec_triple_mul(x, y).1, k),
                Self::spec_mul(Self::spec_triple_mul(x, y).2, k),
            ),
    ;

    /// The norm of a nonzero element lies in the base field and is nonzero.
    proof fn lemma_norm(x: (Self, Self, Self))
        requires
            Self::spec_supported(),
            x.0.spec_valid() && x.1.spec_valid() && x.2.spec_valid(),
            x != (Self::spec_zero(), Self::spec_zero(), Self::spec_zero()),
        ensures
            ({
                let c1 = Self::spec_frobenius(x);
                let c2 = Self::spec_frobenius(c1);
                let num = Self::spec_triple_mul(c1, c2);
                let norm = Self::spec_triple_mul(x, num);
                norm.1 == Self::spec_zero() && norm.2 == Self::spec_zero() && norm.0
                    != Self::spec_zero()
            }),
    ;

    /// Decoding the canonical encoding of a valid element gives it back.
    proof fn lemma_encode_decode(x: Self)
        requires
            x.spec_valid(),
        ensures
            x.spec_bytes().len() == Self::spec_byte_size(),
            Self::spec_decode(x.spec_bytes()) == Some(x),
    ;

    proof fn lemma_byte_size()
        ensures
            0 < Self::spec_byte_size() <= 0x10000000,
    ;
}

} // verus!

//! The two-element field, with the cubic extension defined by the
//! irreducible polynomial `phi^3 + phi + 1`.
//!
//! Every extension-field law can be proved outright here, because the whole
//! field can be checked case by case; this makes it the reference base field
//! for the algebraic guarantees of [`crate::cubic::CubeExtension`].

use vstd::prelude::*;
use crate::extensible::ExtensibleField;
use crate::DeserializationError;

verus! {

/// An element of the two-element field: the value is `0` or `1`.
#[derive(Copy, Clone, Debug, PartialEq, Eq, Structural)]
pub struct Gf2(pub u8);

impl Gf2 {
    /// Builds an element from an integer, reduced modulo two.
    pub fn new(value: u64) -> (r: Self)
        ensures
            r.0 == value % 2,
            r.spec_valid(),
    {
        Gf2((value % 2) as u8)
    }
}

impl ExtensibleField for Gf2 {
    open spec fn spec_valid(self) -> bool {
        self.0 <= 1
    }

    open spec fn spec_supported() -> bool {
        true
    }

    open spec fn spec_zero() -> Self {
        Gf2(0)
    }

    open spec fn spec_one() -> Self {
        Gf2(1)
    }

    open spec fn spec_add(x: Self, y: Self) -> Self {
        Gf2(((x.0 + y.0) % 2) as u8)
    }

    open spec fn spec_sub(x: Self, y: Self) -> Self {
        Gf2(((x.0 + 2 - y.0) % 2) as u8)
    }

    open spec fn spec_neg(x: Self) -> Self {
        Gf2(((2 - x.0) % 2) as u8)
    }

    open spec fn spec_mul(x: Self, y: Self) -> Self {
        if x.0 == 1 && y.0 == 1 {
            Gf2(1)
        } else {
            Gf2(0)
        }
    }

    open spec fn spec_inv(x: Self) -> Self {
        x
    }

    open spec fn spec_triple_mul(x: (Self, Self, Self), y: (Self, Self, Self)) -> (
        Self,
        Self,
        Self,
    ) {
        // Convolution of the two coefficient vectors, reduced with
        // phi^3 = phi + 1 and phi^4 = phi^2 + phi.
        (
            Self::spec_add(
                Self::spec_mul(x.0, y.0),
                Self::spec_add(Self::spec_mul(x.1, y.2), Self::spec_mul(x.2, y.1)),
            ),
            Self::spec_add(
                Self::spec_add(Self::spec_mul(x.0, y.1), Self::spec_mul(x.1, y.0)),
                Self::spec_add(
                    Self::spec_add(Self::spec_mul(x.1, y.2), Self::spec_mul(x.2, y.1)),
                    Self::spec_mul(x.2, y.2),
                ),
            ),
            Self::spec_add(
                Self::spec_add(Self::spec_mul(x.0, y.2), Self::spec_mul(x.1, y.1)),
                Self::spec_add(Self::spec_mul(x.2, y.0), Self::spec_mul(x.2, y.2)),
            ),
        )
    }

    open spec fn spec_frobenius(x: (Self, Self, Self)) -> (Self, Self, Self) {
        // Squaring in characteristic two: a + b*phi^2 + c*phi^4.
        (x.0, x.2, Self::spec_add(x.1, x.2))
    }

    open spec fn spec_byte_size() -> usize {
        1
    }

    open spec fn spec_bytes(self) -> Seq<u8> {
        seq![self.0]
    }

    open spec fn spec_decode(s: Seq<u8>) -> Option<Self> {
        if s.len() == 1 && s[0] <= 1 {
            Some(Gf2(s[0]))
        } else {
            None
        }
    }

    fn is_supported() -> (r: bool) {
        true
    }

    fn zero() -> (r: Self) {
        Gf2(0)
    }

    fn one() -> (r: Self) {
        Gf2(1)
    }

    fn equals(x: Self, y: Self) -> (r: bool) {
        x == y
    }

    fn add(x: Self, y: Self) -> (r: Self) {
        Gf2((x.0 + y.0) % 2)
    }

    fn sub(x: Self, y: Self) -> (r: Self) {
        Gf2((x.0 + 2 - y.0) % 2)
    }

    fn neg(x: Self) -> (r: Self) {
        Gf2((2 - x.0) % 2)
    }

    fn mul(x: Self, y: Self) -> (r: Self) {
        if x.0 == 1 && y.0 == 1 {
            Gf2(1)
        } else {
            Gf2(0)
        }
    }

    fn inv(x: Self) -> (r: Self) {
        x
    }

    fn triple_mul(x: (Self, Self, Self), y: (Self, Self, Self)) -> (r: (Self, Self, Self)) {
        (
            Self::add(Self::mul(x.0, y.0), Self::add(Self::mul(x.1, y.2), Self::mul(x.2, y.1))),
            Self::add(
                Self::add(Self::mul(x.0, y.1), Self::mul(x.1, y.0)),
                Self::add(
                    Self::add(Self::mul(x.1, y.2), Self::mul(x.2, y.1)),
                    Self::mul(x.2, y.2),
                ),
            ),
            Self::add(
                Self::add(Self::mul(x.0, y.2), Self::mul(x.1, y.1)),
                Self::add(Self::mul(x.2, y.0), Self::mul(x.2, y.2)),
            ),
        )
    }

    fn frobenius(x: (Self, Self, Self)) -> (r: (Self, Self, Self)) {
        (x.0, x.2, Self::add(x.1, x.2))
    }

    fn byte_size() -> (r: usize) {
        1
    }

    fn to_bytes(self) -> (r: Vec<u8>) {
        let mut v: Vec<u8> = Vec::new();
        v.push(self.0);
        proof {
            assert(v@ =~= self.spec_bytes());
        }
        v
    }

    fn from_bytes(bytes: &[u8], start: usize) -> (r: Result<Self, DeserializationError>) {
        let b = bytes[start];
        proof {
            assert(bytes@.subrange(start as int, start as int + 1)[0] == bytes@[start as int]);
        }
        if b <= 1 {
            Ok(Gf2(b))
        } else {
            Err(DeserializationError::InvalidElement)
        }
    }

    fn zeroed_vector(n: usize) -> (r: Vec<Self>) {
        let mut v: Vec<Self> = Vec::new();
        let mut i: usize = 0;
        while i < n
            invariant
                i <= n,
                v@.len() == i,
                forall|j: int| 0 <= j < i ==> v@[j] == Self::spec_zero(),
            decreases n - i,
        {
            v.push(Gf2(0));
            i += 1;
        }
        v
    }

    proof fn lemma_consts_valid() {
    }

    proof fn lemma_add_zero(x: Self) {
    }

    proof fn lemma_sub_zero(x: Self) {
    }

    proof fn lemma_mul_zero(x: Self) {
    }

    proof fn lemma_inv_valid(x: Self) {
    }

    proof fn lemma_inv_cancel(x: Self) {
    }

    proof fn lemma_frobenius_valid(x: (Self, Self, Self)) {
    }

    proof fn lemma_triple_mul_valid(x: (Self, Self, Self), y: (Self, Self, Self)) {
    }

    proof fn lemma_triple_mul_identity(x: (Self, Self, Self)) {
        assert(Self::spec_triple_mul(x, (Gf2(1), Gf2(0), Gf2(0))) == x);
    }

    proof fn lemma_triple_mul_scale(x: (Self, Self, Self), y: (Self, Self, Self), k: Self) {
        let ys = (Self::spec_mul(y.0, k), Self::spec_mul(y.1, k), Self::spec_mul(y.2, k));
        let m = Self::spec_triple_mul(x, y);
        if k.0 == 0 {
            assert(Self::spec_triple_mul(x, ys) == (
                Self::spec_mul(m.0, k),
                Self::spec_mul(m.1, k),
                Self::spec_mul(m.2, k),
            ));
        } else {
            assert(ys == y);
            assert(Self::spec_triple_mul(x, ys) == (
                Self::spec_mul(m.0, k),
                Self::spec_mul(m.1, k),
                Self::spec_mul(m.2, k),
            ));
        }
    }

    proof fn lemma_norm(x: (Self, Self, Self)) {
        let a = x.0.0;
        let b = x.1.0;
        let c = x.2.0;
        assert(a <= 1 && b <= 1 && c <= 1);
        let c1 = Self::spec_frobenius(x);
        let c2 = Self::spec_frobenius(c1);
        let num = Self::spec_triple_mul(c1, c2);
        let norm = Self::spec_triple_mul(x, num);
        if a == 0 {
            if b == 0 {
                assert(c == 1);
                assert(norm.0 != Self::spec_zero());
            } else {
                if c == 0 {
                    assert(norm.0 != Self::spec_zero());
                } else {
                    assert(norm.0 != Self::spec_zero());
                }
            }
        } else {
            if b == 0 {
                if c == 0 {
                    assert(norm.0 != Self::spec_zero());
                } else {
                    assert(norm.0 != Self::spec_zero());
                }
            } else {
                if c == 0 {
                    assert(norm.0 != Self::spec_zero());
                } else {
                    assert(norm.0 != Self::spec_zero());
                }
            }
        }
    }

    proof fn lemma_encode_decode(x: Self) {
        assert(x.spec_bytes().len() == 1);
        assert(x.spec_bytes()[0] == x.0);
    }

    proof fn lemma_byte_size() {
    }
}

} // verus!

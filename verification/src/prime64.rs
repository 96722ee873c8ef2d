//! A 64-bit prime field with modulus `2^64 - 2^32 + 1`, encoded as eight
//! little-endian bytes per element.
//!
//! No irreducible cubic polynomial is provided for this field here, so it
//! reports no cubic support and implements the cubic-specific capability
//! operations with placeholder behaviour; the extension-field laws then hold
//! vacuously. Its arithmetic and byte encoding are exact, which is what the
//! bulk layout and serialization of the extension type exercise.

use vstd::prelude::*;
use vstd::arithmetic::div_mod::{lemma_mod_bound, lemma_mod_multiples_vanish, lemma_small_mod};
use vstd::arithmetic::mul::lemma_mul_upper_bound;
use crate::extensible::ExtensibleField;
use crate::DeserializationError;

verus! {

/// The field modulus.
pub const M: u64 = 18446744069414584321;

/// An element of the field: a canonical value is below [`M`].
#[derive(Copy, Clone, Debug, PartialEq, Eq, Structural)]
pub struct BaseElement(pub u64);

/// Square-and-multiply exponentiation modulo [`M`], recursing on the bits of
/// the exponent.
pub open spec fn pow_mod_spec(b: int, e: nat) -> int
    decreases e,
{
    if e == 0 {
        1
    } else if e % 2 == 0 {
        pow_mod_spec((b * b) % (M as int), (e / 2) as nat)
    } else {
        (b * pow_mod_spec((b * b) % (M as int), (e / 2) as nat)) % (M as int)
    }
}

proof fn lemma_pow_mod_spec_bound(b: int, e: nat)
    ensures
        0 <= pow_mod_spec(b, e) < M,
    decreases e,
{
    if e == 0 {
    } else {
        lemma_pow_mod_spec_bound((b * b) % (M as int), (e / 2) as nat);
        if e % 2 != 0 {
            lemma_mod_bound(b * pow_mod_spec((b * b) % (M as int), (e / 2) as nat), M as int);
        }
    }
}

fn mul_mod(a: u64, b: u64) -> (r: u64)
    ensures
        r == (a * b) % (M as int),
{
    proof {
        lemma_mul_upper_bound(a as int, u64::MAX as int, b as int, u64::MAX as int);
    }
    let p = (a as u128) * (b as u128);
    let r = p % (M as u128);
    proof {
        lemma_mod_bound(p as int, M as int);
    }
    r as u64
}

fn pow_mod(b: u64, e: u64) -> (r: u64)
    ensures
        r == pow_mod_spec(b as int, e as nat),
        r < M,
    decreases e,
{
    if e == 0 {
        1
    } else {
        let bb = mul_mod(b, b);
        proof {
            lemma_mod_bound((b * b) as int, M as int);
        }
        let half = pow_mod(bb, e / 2);
        if e % 2 == 0 {
            half
        } else {
            let r = mul_mod(b, half);
            proof {
                lemma_mod_bound((b * half) as int, M as int);
            }
            r
        }
    }
}

fn extract_byte(v: u64, shift: u64) -> (r: u8)
    requires
        shift < 64,
    ensures
        r == ((v >> shift) & 0xff) as u8,
{
    let w = (v >> shift) & 0xff;
    proof {
        assert((v >> shift) & 0xff < 256) by (bit_vector);
    }
    w as u8
}

impl BaseElement {
    /// Builds an element from an integer, reduced modulo [`M`].
    pub fn new(value: u64) -> (r: Self)
        ensures
            r.0 == value % M,
            r.spec_valid(),
    {
        proof {
            lemma_mod_bound(value as int, M as int);
        }
        BaseElement(value % M)
    }
}

impl ExtensibleField for BaseElement {
    open spec fn spec_valid(self) -> bool {
        self.0 < M
    }

    open spec fn spec_supported() -> bool {
        false
    }

    open spec fn spec_zero() -> Self {
        BaseElement(0)
    }

    open spec fn spec_one() -> Self {
        BaseElement(1)
    }

    open spec fn spec_add(x: Self, y: Self) -> Self {
        BaseElement(((x.0 + y.0) % (M as int)) as u64)
    }

    open spec fn spec_sub(x: Self, y: Self) -> Self {
        BaseElement(((x.0 - y.0 + M) % (M as int)) as u64)
    }

    open spec fn spec_neg(x: Self) -> Self {
        BaseElement(((M - x.0) % (M as int)) as u64)
    }

    open spec fn spec_mul(x: Self, y: Self) -> Self {
        BaseElement(((x.0 * y.0) % (M as int)) as u64)
    }

    open spec fn spec_inv(x: Self) -> Self {
        if x.0 == 0 {
            BaseElement(0)
        } else {
            BaseElement(pow_mod_spec(x.0 as int, (M - 2) as nat) as u64)
        }
    }

    open spec fn spec_triple_mul(x: (Self, Self, Self), y: (Self, Self, Self)) -> (
        Self,
        Self,
        Self,
    ) {
        (BaseElement(0), BaseElement(0), BaseElement(0))
    }

    open spec fn spec_frobenius(x: (Self, Self, Self)) -> (Self, Self, Self) {
        x
    }

    open spec fn spec_byte_size() -> usize {
        8
    }

    open spec fn spec_bytes(self) -> Seq<u8> {
        seq![
            ((self.0 >> 0) & 0xff) as u8,
            ((self.0 >> 8) & 0xff) as u8,
            ((self.0 >> 16) & 0xff) as u8,
            ((self.0 >> 24) & 0xff) as u8,
            ((self.0 >> 32) & 0xff) as u8,
            ((self.0 >> 40) & 0xff) as u8,
            ((self.0 >> 48) & 0xff) as u8,
            ((self.0 >> 56) & 0xff) as u8,
        ]
    }

    open spec fn spec_decode(s: Seq<u8>) -> Option<Self> {
        if s.len() == 8 {
            let v = (s[0] as u64) | ((s[1] as u64) << 8) | ((s[2] as u64) << 16) | ((s[3]
                as u64) << 24) | ((s[4] as u64) << 32) | ((s[5] as u64) << 40) | ((s[6]
                as u64) << 48) | ((s[7] as u64) << 56);
            if v < M {
                Some(BaseElement(v))
            } else {
                None
            }
        } else {
            None
        }
    }

    fn is_supported() -> (r: bool) {
        false
    }

    fn zero() -> (r: Self) {
        BaseElement(0)
    }

    fn one() -> (r: Self) {
        BaseElement(1)
    }

    fn equals(x: Self, y: Self) -> (r: bool) {
        x == y
    }

    fn add(x: Self, y: Self) -> (r: Self) {
        let s = (x.0 as u128) + (y.0 as u128);
        let r = s % (M as u128);
        proof {
            lemma_mod_bound(s as int, M as int);
        }
        BaseElement(r as u64)
    }

    fn sub(x: Self, y: Self) -> (r: Self) {
        let d: u64 = if x.0 >= y.0 {
            x.0 - y.0
        } else {
            x.0 + (M - y.0)
        };
        proof {
            lemma_mod_multiples_vanish(1, x.0 - y.0, M as int);
            lemma_small_mod(d as nat, M as nat);
        }
        BaseElement(d)
    }

    fn neg(x: Self) -> (r: Self) {
        if x.0 == 0 {
            proof {
                lemma_mod_multiples_vanish(1, 0, M as int);
                lemma_small_mod(0, M as nat);
            }
            BaseElement(0)
        } else {
            proof {
                lemma_small_mod((M - x.0) as nat, M as nat);
            }
            BaseElement(M - x.0)
        }
    }

    fn mul(x: Self, y: Self) -> (r: Self) {
        let r = mul_mod(x.0, y.0);
        proof {
            lemma_mod_bound((x.0 * y.0) as int, M as int);
        }
        BaseElement(r)
    }

    fn inv(x: Self) -> (r: Self) {
        if x.0 == 0 {
            BaseElement(0)
        } else {
            proof {
                lemma_pow_mod_spec_bound(x.0 as int, (M - 2) as nat);
            }
            BaseElement(pow_mod(x.0, M - 2))
        }
    }

    fn triple_mul(x: (Self, Self, Self), y: (Self, Self, Self)) -> (r: (Self, Self, Self)) {
        (BaseElement(0), BaseElement(0), BaseElement(0))
    }

    fn frobenius(x: (Self, Self, Self)) -> (r: (Self, Self, Self)) {
        x
    }

    fn byte_size() -> (r: usize) {
        8
    }

    fn to_bytes(self) -> (r: Vec<u8>) {
        let mut v: Vec<u8> = Vec::new();
        v.push(extract_byte(self.0, 0));
        v.push(extract_byte(self.0, 8));
        v.push(extract_byte(self.0, 16));
        v.push(extract_byte(self.0, 24));
        v.push(extract_byte(self.0, 32));
        v.push(extract_byte(self.0, 40));
        v.push(extract_byte(self.0, 48));
        v.push(extract_byte(self.0, 56));
        proof {
            assert(v@ =~= self.spec_bytes());
        }
        v
    }

    fn from_bytes(bytes: &[u8], start: usize) -> (r: Result<Self, DeserializationError>) {
        let v: u64 = (bytes[start] as u64) | ((bytes[start + 1] as u64) << 8) | ((bytes[start
            + 2] as u64) << 16) | ((bytes[start + 3] as u64) << 24) | ((bytes[start + 4]
            as u64) << 32) | ((bytes[start + 5] as u64) << 40) | ((bytes[start + 6]
            as u64) << 48) | ((bytes[start + 7] as u64) << 56);
        proof {
            let s = bytes@.subrange(start as int, start as int + 8);
            assert(s[0] == bytes@[start as int]);
            assert(s[1] == bytes@[start as int + 1]);
            assert(s[2] == bytes@[start as int + 2]);
            assert(s[3] == bytes@[start as int + 3]);
            assert(s[4] == bytes@[start as int + 4]);
            assert(s[5] == bytes@[start as int + 5]);
            assert(s[6] == bytes@[start as int + 6]);
            assert(s[7] == bytes@[start as int + 7]);
        }
        if v < M {
            Ok(BaseElement(v))
        } else {
            Err(DeserializationError::InvalidElement)
        }
    }

    fn zeroed_vector(n: usize) -> (r: Vec<Self>) {
        let mut v: Vec<Self> = Vec::new();
        let mut i: usize = 0;
        while i < n
            invariant
                i <= n,
                v@.len() == i,
                forall|j: int| 0 <= j < i ==> v@[j] == Self::spec_zero(),
            decreases n - i,
        {
            v.push(BaseElement(0));
            i += 1;
        }
        v
    }

    proof fn lemma_consts_valid() {
    }

    proof fn lemma_add_zero(x: Self) {
        lemma_small_mod(x.0 as nat, M as nat);
    }

    proof fn lemma_sub_zero(x: Self) {
        lemma_mod_multiples_vanish(1, x.0 as int, M as int);
        lemma_small_mod(x.0 as nat, M as nat);
    }

    proof fn lemma_mul_zero(x: Self) {
        lemma_small_mod(0, M as nat);
    }

    proof fn lemma_inv_valid(x: Self) {
        if x.0 != 0 {
            lemma_pow_mod_spec_bound(x.0 as int, (M - 2) as nat);
        }
    }

    proof fn lemma_inv_cancel(x: Self) {
    }

    proof fn lemma_frobenius_valid(x: (Self, Self, Self)) {
    }

    proof fn lemma_triple_mul_valid(x: (Self, Self, Self), y: (Self, Self, Self)) {
    }

    proof fn lemma_triple_mul_identity(x: (Self, Self, Self)) {
    }

    proof fn lemma_triple_mul_scale(x: (Self, Self, Self), y: (Self, Self, Self), k: Self) {
    }

    proof fn lemma_norm(x: (Self, Self, Self)) {
    }

    proof fn lemma_encode_decode(x: Self) {
        let v = x.0;
        assert(((v >> 0) & 0xff) < 256 && ((v >> 8) & 0xff) < 256 && ((v >> 16) & 0xff) < 256
            && ((v >> 24) & 0xff) < 256 && ((v >> 32) & 0xff) < 256 && ((v >> 40) & 0xff) < 256
            && ((v >> 48) & 0xff) < 256 && ((v >> 56) & 0xff) < 256) by (bit_vector);
        assert((((v >> 0) & 0xff) | (((v >> 8) & 0xff) << 8) | (((v >> 16) & 0xff) << 16) | (((v
            >> 24) & 0xff) << 24) | (((v >> 32) & 0xff) << 32) | (((v >> 40) & 0xff) << 40) | (((v
            >> 48) & 0xff) << 48) | (((v >> 56) & 0xff) << 56)) == v) by (bit_vector);
    }

    proof fn lemma_byte_size() {
    }
}

} // verus!

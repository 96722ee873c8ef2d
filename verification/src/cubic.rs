//! Elements of the cubic extension field, their arithmetic, byte-level
//! (de)serialization, and bulk layout conversions between flat buffers of
//! base-field elements and buffers of extension elements.

use vstd::prelude::*;
use vstd::arithmetic::div_mod::{
    lemma_fundamental_div_mod, lemma_mod_bound, lemma_mod_multiples_vanish, lemma_small_mod,
};
use crate::extensible::{conjugate_product, norm_triple, triple_scale, ExtensibleField};
use crate::DeserializationError;

verus! {

/// The `i`-th consecutive chunk of `sz` bytes of `s`.
pub open spec fn byte_chunk(s: Seq<u8>, i: int, sz: int) -> Seq<u8> {
    s.subrange(i * sz, (i + 1) * sz)
}

/// An element of the cubic extension of the base field `B`, representing
/// `a + b * phi + c * phi^2` where `phi` is a root of the irreducible cubic
/// polynomial fixed by `B`'s capability implementation.
///
/// Values are immutable in the sense that every operation produces a new
/// value. Construction performs no validation; canonicality is deferred to
/// the base field. Dividing by zero silently yields zero (`spec_inverse`
/// maps zero to zero as a sentinel), and using a base field without cubic
/// support leaves multiplication, conjugation and inversion unspecified:
/// callers are expected to check [`CubeExtension::is_supported`] once, at
/// field-selection time.
#[derive(Copy, Clone, Debug)]
pub struct CubeExtension<B: ExtensibleField>(pub B, pub B, pub B);

impl<B: ExtensibleField> PartialEq for CubeExtension<B> {
    fn eq(&self, other: &Self) -> (r: bool) {
        B::equals(self.0, other.0) && B::equals(self.1, other.1) && B::equals(self.2, other.2)
    }
}

impl<B: ExtensibleField> vstd::std_specs::cmp::PartialEqSpecImpl for CubeExtension<B> {
    open spec fn obeys_eq_spec() -> bool {
        true
    }

    open spec fn eq_spec(&self, other: &Self) -> bool {
        self.0 == other.0 && self.1 == other.1 && self.2 == other.2
    }
}

impl<B: ExtensibleField> CubeExtension<B> {
    /// All three coefficients are canonical base-field elements.
    pub open spec fn spec_valid(self) -> bool {
        self.0.spec_valid() && self.1.spec_valid() && self.2.spec_valid()
    }

    /// The coefficients as a triple, in `(alpha, beta, gamma)` order.
    pub open spec fn spec_triple(self) -> (B, B, B) {
        (self.0, self.1, self.2)
    }

    pub open spec fn from_triple(t: (B, B, B)) -> Self {
        CubeExtension(t.0, t.1, t.2)
    }

    pub open spec fn spec_zero() -> Self {
        CubeExtension(B::spec_zero(), B::spec_zero(), B::spec_zero())
    }

    /// The multiplicative identity lies entirely in the base-field component.
    pub open spec fn spec_one() -> Self {
        CubeExtension(B::spec_one(), B::spec_zero(), B::spec_zero())
    }

    pub open spec fn spec_add(self, rhs: Self) -> Self {
        CubeExtension(
            B::spec_add(self.0, rhs.0),
            B::spec_add(self.1, rhs.1),
            B::spec_add(self.2, rhs.2),
        )
    }

    pub open spec fn spec_sub(self, rhs: Self) -> Self {
        CubeExtension(
            B::spec_sub(self.0, rhs.0),
            B::spec_sub(self.1, rhs.1),
            B::spec_sub(self.2, rhs.2),
        )
    }

    pub open spec fn spec_neg(self) -> Self {
        CubeExtension(B::spec_neg(self.0), B::spec_neg(self.1), B::spec_neg(self.2))
    }

    pub open spec fn spec_mul(self, rhs: Self) -> Self {
        Self::from_triple(B::spec_triple_mul(self.spec_triple(), rhs.spec_triple()))
    }

    /// One application of the Frobenius map: the first Galois conjugate.
    pub open spec fn spec_conjugate(self) -> Self {
        Self::from_triple(B::spec_frobenius(self.spec_triple()))
    }

    /// Inversion by the norm: the product of the two Galois conjugates
    /// (Frobenius applied once and then twice) is scaled by the base-field
    /// inverse of the norm's base component. Zero maps to zero, as a
    /// sentinel rather than an error.
    pub open spec fn spec_inverse(self) -> Self {
        if self == Self::spec_zero() {
            self
        } else {
            let num = conjugate_product(self.spec_triple());
            let denom_inv = B::spec_inv(norm_triple(self.spec_triple()).0);
            Self::from_triple(triple_scale(num, denom_inv))
        }
    }

    pub open spec fn spec_div(self, rhs: Self) -> Self {
        self.spec_mul(rhs.spec_inverse())
    }

    /// Number of bytes of one encoded extension element: three base elements.
    pub open spec fn spec_byte_size() -> int {
        3 * B::spec_byte_size()
    }

    /// Canonical encoding: `alpha`, then `beta`, then `gamma`, each in the
    /// base field's own little-endian encoding.
    pub open spec fn spec_bytes(self) -> Seq<u8> {
        self.0.spec_bytes() + self.1.spec_bytes() + self.2.spec_bytes()
    }

    /// Decoding of the first `spec_byte_size()` bytes of `s`.
    pub open spec fn spec_decode(s: Seq<u8>) -> Option<Self> {
        let bs = B::spec_byte_size() as int;
        match (
            B::spec_decode(s.subrange(0, bs)),
            B::spec_decode(s.subrange(bs, 2 * bs)),
            B::spec_decode(s.subrange(2 * bs, 3 * bs)),
        ) {
            (Some(a), Some(b), Some(c)) => Some(CubeExtension(a, b, c)),
            _ => None,
        }
    }

    /// Every run of three consecutive base elements fused into one
    /// extension element.
    pub open spec fn spec_pack(s: Seq<B>) -> Seq<Self> {
        Seq::new((s.len() / 3) as nat, |i: int| CubeExtension(s[3 * i], s[3 * i + 1], s[3 * i + 2]))
    }

    /// The flat sequence of base coefficients, in `(alpha, beta, gamma)`
    /// order per element.
    pub open spec fn spec_unpack(e: Seq<Self>) -> Seq<B> {
        Seq::new(
            (e.len() * 3) as nat,
            |j: int|
                if j % 3 == 0 {
                    e[j / 3].0
                } else if j % 3 == 1 {
                    e[j / 3].1
                } else {
                    e[j / 3].2
                },
        )
    }

    /// The concatenation of the encodings of all elements of `e`, in order.
    pub open spec fn spec_seq_bytes(e: Seq<Self>) -> Seq<u8>
        decreases e.len(),
    {
        if e.len() == 0 {
            Seq::empty()
        } else {
            e[0].spec_bytes() + Self::spec_seq_bytes(e.drop_first())
        }
    }

    /// Returns a new extension element instantiated from the provided base
    /// elements; no validation is performed.
    pub fn new(a: B, b: B, c: B) -> (r: Self)
        ensures
            r == CubeExtension(a, b, c),
    {
        CubeExtension(a, b, c)
    }

    /// Returns true if the base field specified by the `B` type parameter
    /// supports cubic extensions.
    pub fn is_supported() -> (r: bool)
        ensures
            r == B::spec_supported(),
    {
        B::is_supported()
    }

    pub fn zero() -> (r: Self)
        ensures
            r == Self::spec_zero(),
            r.spec_valid(),
    {
        proof {
            B::lemma_consts_valid();
        }
        CubeExtension(B::zero(), B::zero(), B::zero())
    }

    pub fn one() -> (r: Self)
        ensures
            r == Self::spec_one(),
            r.spec_valid(),
    {
        proof {
            B::lemma_consts_valid();
        }
        CubeExtension(B::one(), B::zero(), B::zero())
    }

    /// Embeds a base-field value in the `alpha` component.
    pub fn from_base(value: B) -> (r: Self)
        ensures
            r == CubeExtension(value, B::spec_zero(), B::spec_zero()),
    {
        CubeExtension(value, B::zero(), B::zero())
    }

    pub fn add(self, rhs: Self) -> (r: Self)
        requires
            self.spec_valid(),
            rhs.spec_valid(),
        ensures
            r == self.spec_add(rhs),
            r.spec_valid(),
    {
        CubeExtension(B::add(self.0, rhs.0), B::add(self.1, rhs.1), B::add(self.2, rhs.2))
    }

    pub fn sub(self, rhs: Self) -> (r: Self)
        requires
            self.spec_valid(),
            rhs.spec_valid(),
        ensures
            r == self.spec_sub(rhs),
            r.spec_valid(),
    {
        CubeExtension(B::sub(self.0, rhs.0), B::sub(self.1, rhs.1), B::sub(self.2, rhs.2))
    }

    pub fn neg(self) -> (r: Self)
        requires
            self.spec_valid(),
        ensures
            r == self.spec_neg(),
            r.spec_valid(),
    {
        CubeExtension(B::neg(self.0), B::neg(self.1), B::neg(self.2))
    }

    pub fn mul(self, rhs: Self) -> (r: Self)
        requires
            self.spec_valid(),
            rhs.spec_valid(),
        ensures
            r == self.spec_mul(rhs),
            r.spec_valid(),
    {
        let t = B::triple_mul((self.0, self.1, self.2), (rhs.0, rhs.1, rhs.2));
        proof {
            B::lemma_triple_mul_valid(self.spec_triple(), rhs.spec_triple());
        }
        CubeExtension(t.0, t.1, t.2)
    }

    /// The multiplicative inverse, with `inv(zero) == zero` as a sentinel.
    pub fn inv(self) -> (r: Self)
        requires
            self.spec_valid(),
        ensures
            r == self.spec_inverse(),
            r.spec_valid(),
    {
        let z = Self::zero();
        if self == z {
            return self;
        }
        let x = (self.0, self.1, self.2);
        let c1 = B::frobenius(x);
        proof {
            B::lemma_frobenius_valid(x);
        }
        let c2 = B::frobenius(c1);
        proof {
            B::lemma_frobenius_valid(c1);
        }
        let numerator = B::triple_mul(c1, c2);
        proof {
            B::lemma_triple_mul_valid(c1, c2);
        }
        let norm = B::triple_mul(x, numerator);
        proof {
            B::lemma_triple_mul_valid(x, numerator);
        }
        let denom_inv = B::inv(norm.0);
        CubeExtension(
            B::mul(numerator.0, denom_inv),
            B::mul(numerator.1, denom_inv),
            B::mul(numerator.2, denom_inv),
        )
    }

    /// One application of the Frobenius map.
    pub fn conjugate(self) -> (r: Self)
        requires
            self.spec_valid(),
        ensures
            r == self.spec_conjugate(),
            r.spec_valid(),
    {
        let t = B::frobenius((self.0, self.1, self.2));
        proof {
            B::lemma_frobenius_valid(self.spec_triple());
        }
        CubeExtension(t.0, t.1, t.2)
    }

    /// `self * rhs.inv()`; dividing by zero yields zero, per the sentinel.
    pub fn div(self, rhs: Self) -> (r: Self)
        requires
            self.spec_valid(),
            rhs.spec_valid(),
        ensures
            r == self.spec_div(rhs),
            r.spec_valid(),
    {
        let i = rhs.inv();
        self.mul(i)
    }

    pub fn add_assign(&mut self, rhs: Self)
        requires
            old(self).spec_valid(),
            rhs.spec_valid(),
        ensures
            *final(self) == old(self).spec_add(rhs),
            final(self).spec_valid(),
    {
        let v = *self;
        *self = v.add(rhs);
    }

    pub fn sub_assign(&mut self, rhs: Self)
        requires
            old(self).spec_valid(),
            rhs.spec_valid(),
        ensures
            *final(self) == old(self).spec_sub(rhs),
            final(self).spec_valid(),
    {
        let v = *self;
        *self = v.sub(rhs);
    }

    pub fn mul_assign(&mut self, rhs: Self)
        requires
            old(self).spec_valid(),
            rhs.spec_valid(),
        ensures
            *final(self) == old(self).spec_mul(rhs),
            final(self).spec_valid(),
    {
        let v = *self;
        *self = v.mul(rhs);
    }

    pub fn div_assign(&mut self, rhs: Self)
        requires
            old(self).spec_valid(),
            rhs.spec_valid(),
        ensures
            *final(self) == old(self).spec_div(rhs),
            final(self).spec_valid(),
    {
        let v = *self;
        *self = v.div(rhs);
    }

    /// Three base elements per extension element.
    pub fn element_byte_size() -> (r: usize)
        ensures
            r == Self::spec_byte_size(),
    {
        proof {
            B::lemma_byte_size();
        }
        3 * B::byte_size()
    }

    /// Serializes `alpha`, then `beta`, then `gamma`, appending to `target`;
    /// this fixed order defines the canonical on-wire format.
    pub fn write_into(&self, target: &mut Vec<u8>)
        requires
            self.spec_valid(),
        ensures
            final(target)@ == old(target)@ + self.spec_bytes(),
    {
        let b0 = B::to_bytes(self.0);
        let b1 = B::to_bytes(self.1);
        let b2 = B::to_bytes(self.2);
        push_all(target, &b0);
        push_all(target, &b1);
        push_all(target, &b2);
        proof {
            assert(target@ =~= old(target)@ + self.spec_bytes());
        }
    }

    /// The canonical encoding of `self` as a fresh byte vector.
    pub fn to_bytes(&self) -> (r: Vec<u8>)
        requires
            self.spec_valid(),
        ensures
            r@ == self.spec_bytes(),
    {
        let mut out: Vec<u8> = Vec::new();
        self.write_into(&mut out);
        proof {
            assert(out@ =~= self.spec_bytes());
        }
        out
    }

    /// Decodes one element from the first `spec_byte_size()` bytes at
    /// `start`; the base field's own decoding failures are propagated.
    fn decode_at(bytes: &[u8], start: usize) -> (r: Result<Self, DeserializationError>)
        requires
            start + Self::spec_byte_size() <= bytes@.len(),
        ensures
            match r {
                Ok(v) => Self::spec_decode(
                    bytes@.subrange(start as int, start + Self::spec_byte_size()),
                ) == Some(v) && v.spec_valid(),
                Err(e) => Self::spec_decode(
                    bytes@.subrange(start as int, start + Self::spec_byte_size()),
                ) is None && e == DeserializationError::InvalidElement,
            },
    {
        proof {
            B::lemma_byte_size();
            let bs = B::spec_byte_size() as int;
            let s = bytes@.subrange(start as int, start + 3 * bs);
            assert(s.subrange(0, bs) =~= bytes@.subrange(start as int, start + bs));
            assert(s.subrange(bs, 2 * bs) =~= bytes@.subrange(start + bs, start + 2 * bs));
            assert(s.subrange(2 * bs, 3 * bs) =~= bytes@.subrange(start + 2 * bs, start + 3 * bs));
        }
        // the slice's actual length bounds the offsets below within usize
        let total = bytes.len();
        proof {
            assert(start + 3 * B::spec_byte_size() <= total);
        }
        let bs = B::byte_size();
        let a = match B::from_bytes(bytes, start) {
            Ok(v) => v,
            Err(e) => {
                return Err(e);
            },
        };
        let b = match B::from_bytes(bytes, start + bs) {
            Ok(v) => v,
            Err(e) => {
                return Err(e);
            },
        };
        let c = match B::from_bytes(bytes, start + 2 * bs) {
            Ok(v) => v,
            Err(e) => {
                return Err(e);
            },
        };
        Ok(CubeExtension(a, b, c))
    }

    /// Reads three base-field elements, in order, from the front of
    /// `source`; fails with `InvalidLength` when fewer than
    /// `spec_byte_size()` bytes are available, and propagates the base
    /// field's own decoding failures.
    pub fn read_from(source: &[u8]) -> (r: Result<Self, DeserializationError>)
        ensures
            source@.len() < Self::spec_byte_size() ==> r == Err::<Self, DeserializationError>(
                DeserializationError::InvalidLength,
            ),
            source@.len() >= Self::spec_byte_size() ==> r == (match Self::spec_decode(
                source@.subrange(0, Self::spec_byte_size()),
            ) {
                Some(v) => Ok::<Self, DeserializationError>(v),
                None => Err(DeserializationError::InvalidElement),
            }),
            r matches Ok(v) ==> v.spec_valid(),
    {
        proof {
            B::lemma_byte_size();
        }
        let sz = Self::element_byte_size();
        if source.len() < sz {
            return Err(DeserializationError::InvalidLength);
        }
        Self::decode_at(source, 0)
    }

    /// Decodes one element from exactly `spec_byte_size()` bytes: a shorter
    /// or longer buffer fails with `InvalidLength`.
    pub fn from_bytes(bytes: &[u8]) -> (r: Result<Self, DeserializationError>)
        ensures
            bytes@.len() != Self::spec_byte_size() ==> r == Err::<Self, DeserializationError>(
                DeserializationError::InvalidLength,
            ),
            bytes@.len() == Self::spec_byte_size() ==> r == (match Self::spec_decode(bytes@) {
                Some(v) => Ok::<Self, DeserializationError>(v),
                None => Err(DeserializationError::InvalidElement),
            }),
            r matches Ok(v) ==> v.spec_valid(),
    {
        proof {
            B::lemma_byte_size();
        }
        let sz = Self::element_byte_size();
        if bytes.len() != sz {
            return Err(DeserializationError::InvalidLength);
        }
        let r = Self::decode_at(bytes, 0);
        proof {
            assert(bytes@.subrange(0, Self::spec_byte_size()) =~= bytes@);
        }
        r
    }

    /// Builds an element from exactly `spec_byte_size()` bytes, or `None`
    /// when the length is wrong or the value is not canonical.
    pub fn from_random_bytes(bytes: &[u8]) -> (r: Option<Self>)
        ensures
            bytes@.len() != Self::spec_byte_size() ==> r is None,
            bytes@.len() == Self::spec_byte_size() ==> r == Self::spec_decode(bytes@),
            r matches Some(v) ==> v.spec_valid(),
    {
        match Self::from_bytes(bytes) {
            Ok(v) => Some(v),
            Err(_) => None,
        }
    }

    /// The exact byte representation of a sequence of elements:
    /// `elements.len() * spec_byte_size()` bytes, each element encoded in
    /// order.
    pub fn elements_as_bytes(elements: &[Self]) -> (r: Vec<u8>)
        requires
            forall|i: int| 0 <= i < elements@.len() ==> elements@[i].spec_valid(),
        ensures
            r@ == Self::spec_seq_bytes(elements@),
    {
        let mut out: Vec<u8> = Vec::new();
        let n = elements.len();
        let mut i: usize = 0;
        proof {
            assert(elements@.take(0) =~= Seq::<Self>::empty());
        }
        while i < n
            invariant
                i <= n,
                n == elements@.len(),
                forall|k: int| 0 <= k < n ==> elements@[k].spec_valid(),
                out@ == Self::spec_seq_bytes(elements@.take(i as int)),
            decreases n - i,
        {
            let e = elements[i];
            e.write_into(&mut out);
            proof {
                lemma_seq_bytes_snoc(elements@.take(i as int), elements@[i as int]);
                assert(elements@.take(i as int).push(elements@[i as int]) =~= elements@.take(
                    i as int + 1,
                ));
            }
            i += 1;
        }
        proof {
            assert(elements@.take(n as int) =~= elements@);
        }
        out
    }

    /// The inverse view of [`CubeExtension::elements_as_bytes`]: fails with
    /// `InvalidLength` when the byte count is not a multiple of the element
    /// size, and propagates the base field's decoding failures.
    pub fn bytes_as_elements(bytes: &[u8]) -> (r: Result<Vec<Self>, DeserializationError>)
        ensures
            bytes@.len() as int % Self::spec_byte_size() != 0 ==> r == Err::<
                Vec<Self>,
                DeserializationError,
            >(DeserializationError::InvalidLength),
            bytes@.len() as int % Self::spec_byte_size() == 0 ==> match r {
                Ok(v) => v@.len() == bytes@.len() as int / Self::spec_byte_size() && forall|i: int|
                    0 <= i < v@.len() ==> Self::spec_decode(
                        byte_chunk(bytes@, i, Self::spec_byte_size()),
                    ) == Some(v@[i]) && v@[i].spec_valid(),
                Err(e) => e == DeserializationError::InvalidElement && exists|i: int|
                    0 <= i < bytes@.len() as int / Self::spec_byte_size() && Self::spec_decode(
                        byte_chunk(bytes@, i, Self::spec_byte_size()),
                    ) is None,
            },
    {
        proof {
            B::lemma_byte_size();
        }
        let sz = Self::element_byte_size();
        let total = bytes.len();
        if total % sz != 0 {
            return Err(DeserializationError::InvalidLength);
        }
        let count = total / sz;
        proof {
            lemma_fundamental_div_mod(total as int, sz as int);
        }
        let mut out: Vec<Self> = Vec::new();
        let mut i: usize = 0;
        while i < count
            invariant
                i <= count,
                sz == Self::spec_byte_size(),
                0 < sz <= 0x30000000,
                total == bytes@.len(),
                total % sz == 0,
                count == total as int / sz as int,
                total == sz * count,
                out@.len() == i,
                forall|k: int| 0 <= k < i ==> Self::spec_decode(byte_chunk(bytes@, k, sz as int))
                    == Some(out@[k]) && out@[k].spec_valid(),
            decreases count - i,
        {
            proof {
                assert((i + 1) * sz as int <= count * sz as int) by (nonlinear_arith)
                    requires
                        i + 1 <= count,
                        0 < sz,
                ;
                assert(i * sz as int >= 0) by (nonlinear_arith)
                    requires
                        i >= 0,
                        0 < sz,
                ;
                assert((i + 1) * (sz as int) == i * (sz as int) + sz) by (nonlinear_arith);
            }
            let start = i * sz;
            let e = match Self::decode_at(bytes, start) {
                Ok(v) => v,
                Err(err) => {
                    proof {
                        assert(Self::spec_decode(byte_chunk(bytes@, i as int, sz as int))
                            is None);
                    }
                    return Err(err);
                },
            };
            out.push(e);
            i += 1;
        }
        Ok(out)
    }

    /// Converts a vector of base elements into a vector of extension
    /// elements by fusing three adjacent base elements together; the output
    /// is one third the length of the source, whose length must be divisible
    /// by three.
    pub fn base_to_cubic_vector(source: Vec<B>) -> (r: Vec<Self>)
        requires
            source@.len() % 3 == 0,
        ensures
            r@ == Self::spec_pack(source@),
    {
        let len = source.len();
        let n = len / 3;
        proof {
            lemma_fundamental_div_mod(len as int, 3);
        }
        let mut out: Vec<Self> = Vec::new();
        let mut i: usize = 0;
        while i < n
            invariant
                i <= n,
                len == source@.len(),
                n == len as int / 3,
                len == 3 * n,
                out@.len() == i,
                forall|k: int| 0 <= k < i ==> out@[k] == CubeExtension(
                    source@[3 * k],
                    source@[3 * k + 1],
                    source@[3 * k + 2],
                ),
            decreases n - i,
        {
            let e = CubeExtension(source[3 * i], source[3 * i + 1], source[3 * i + 2]);
            out.push(e);
            i += 1;
        }
        proof {
            assert(out@ =~= Self::spec_pack(source@));
        }
        out
    }

    /// Produces `n` zeroed extension elements by requesting `3 * n` zeroed
    /// base elements and repacking them.
    pub fn zeroed_vector(n: usize) -> (r: Vec<Self>)
        requires
            3 * n <= usize::MAX,
        ensures
            r@.len() == n,
            forall|i: int| 0 <= i < n ==> r@[i] == Self::spec_zero(),
    {
        let base = B::zeroed_vector(3 * n);
        proof {
            lemma_mod_multiples_vanish(n as int, 0, 3);
            lemma_small_mod(0, 3);
            lemma_fundamental_div_mod(3 * n as int, 3);
        }
        let out = Self::base_to_cubic_vector(base);
        proof {
            assert(forall|i: int| 0 <= i < n ==> out@[i] == Self::spec_zero());
        }
        out
    }

    /// Reinterprets a sequence of extension elements as the flat sequence of
    /// their base coefficients, three per element, in coefficient order.
    pub fn as_base_elements(elements: &[Self]) -> (r: Vec<B>)
        ensures
            r@ == Self::spec_unpack(elements@),
    {
        let n = elements.len();
        let mut out: Vec<B> = Vec::new();
        let mut i: usize = 0;
        while i < n
            invariant
                i <= n,
                n == elements@.len(),
                out@.len() == 3 * i,
                forall|j: int| 0 <= j < 3 * i ==> out@[j] == (if j % 3 == 0 {
                    elements@[j / 3].0
                } else if j % 3 == 1 {
                    elements@[j / 3].1
                } else {
                    elements@[j / 3].2
                }),
            decreases n - i,
        {
            let e = elements[i];
            out.push(e.0);
            out.push(e.1);
            out.push(e.2);
            proof {
                assert forall|j: int| 0 <= j < 3 * (i as int + 1) implies out@[j] == (if j % 3
                    == 0 {
                    elements@[j / 3].0
                } else if j % 3 == 1 {
                    elements@[j / 3].1
                } else {
                    elements@[j / 3].2
                }) by {
                    lemma_fundamental_div_mod(j, 3);
                    lemma_mod_bound(j, 3);
                    if j < 3 * i as int {
                    } else {
                        assert(j / 3 == i as int);
                    }
                }
            }
            i += 1;
        }
        proof {
            assert(out@ =~= Self::spec_unpack(elements@));
        }
        out
    }
}

fn push_all(target: &mut Vec<u8>, src: &Vec<u8>)
    ensures
        final(target)@ == old(target)@ + src@,
{
    let mut i: usize = 0;
    proof {
        assert(target@ =~= old(target)@ + src@.subrange(0, 0));
    }
    while i < src.len()
        invariant
            i <= src@.len(),
            target@ == old(target)@ + src@.subrange(0, i as int),
        decreases src@.len() - i,
    {
        target.push(src[i]);
        proof {
            assert(target@ =~= old(target)@ + src@.subrange(0, i as int + 1));
        }
        i += 1;
    }
    proof {
        assert(src@.subrange(0, src@.len() as int) =~= src@);
    }
}

proof fn lemma_seq_bytes_snoc<B: ExtensibleField>(s: Seq<CubeExtension<B>>, x: CubeExtension<B>)
    ensures
        CubeExtension::<B>::spec_seq_bytes(s.push(x)) == CubeExtension::<B>::spec_seq_bytes(s)
            + x.spec_bytes(),
    decreases s.len(),
{
    if s.len() == 0 {
        assert(s.push(x).drop_first() =~= Seq::<CubeExtension<B>>::empty());
        assert(s.push(x)[0] == x);
        assert(CubeExtension::<B>::spec_seq_bytes(s.push(x).drop_first()) == Seq::<u8>::empty());
        assert(x.spec_bytes() + Seq::<u8>::empty() =~= x.spec_bytes());
        assert(Seq::<u8>::empty() + x.spec_bytes() =~= x.spec_bytes());
        assert(CubeExtension::<B>::spec_seq_bytes(s.push(x)) =~= CubeExtension::<B>::spec_seq_bytes(
            s,
        ) + x.spec_bytes());
    } else {
        lemma_seq_bytes_snoc(s.drop_first(), x);
        assert(s.push(x).drop_first() =~= s.drop_first().push(x));
        assert(s.push(x)[0] == s[0]);
        assert(s.push(x).len() != 0);
        assert(CubeExtension::<B>::spec_seq_bytes(s.push(x)) == s[0].spec_bytes()
            + CubeExtension::<B>::spec_seq_bytes(s.drop_first().push(x)));
        assert(CubeExtension::<B>::spec_seq_bytes(s.drop_first().push(x))
            == CubeExtension::<B>::spec_seq_bytes(s.drop_first()) + x.spec_bytes());
        assert(CubeExtension::<B>::spec_seq_bytes(s) == s[0].spec_bytes()
            + CubeExtension::<B>::spec_seq_bytes(s.drop_first()));
        assert(s[0].spec_bytes() + (CubeExtension::<B>::spec_seq_bytes(s.drop_first())
            + x.spec_bytes()) =~= (s[0].spec_bytes() + CubeExtension::<B>::spec_seq_bytes(
            s.drop_first(),
        )) + x.spec_bytes());
        assert(CubeExtension::<B>::spec_seq_bytes(s.push(x)) =~= CubeExtension::<B>::spec_seq_bytes(
            s,
        ) + x.spec_bytes());
    }
}

/// Adding the zero element leaves any element unchanged.
pub proof fn lemma_add_identity<B: ExtensibleField>(x: CubeExtension<B>)
    requires
        x.spec_valid(),
    ensures
        x.spec_add(CubeExtension::<B>::spec_zero()) == x,
{
    B::lemma_consts_valid();
    B::lemma_add_zero(x.0);
    B::lemma_add_zero(x.1);
    B::lemma_add_zero(x.2);
}

/// Subtracting the zero element leaves any element unchanged.
pub proof fn lemma_sub_identity<B: ExtensibleField>(x: CubeExtension<B>)
    requires
        x.spec_valid(),
    ensures
        x.spec_sub(CubeExtension::<B>::spec_zero()) == x,
{
    B::lemma_consts_valid();
    B::lemma_sub_zero(x.0);
    B::lemma_sub_zero(x.1);
    B::lemma_sub_zero(x.2);
}

/// Multiplying by the one element leaves any element unchanged, for a base
/// field that supports the cubic extension.
pub proof fn lemma_mul_identity<B: ExtensibleField>(x: CubeExtension<B>)
    requires
        B::spec_supported(),
        x.spec_valid(),
    ensures
        x.spec_mul(CubeExtension::<B>::spec_one()) == x,
{
    B::lemma_consts_valid();
    B::lemma_triple_mul_identity(x.spec_triple());
}

/// The inverse of zero is zero: the defined sentinel, not an error.
pub proof fn lemma_invert_zero<B: ExtensibleField>()
    ensures
        CubeExtension::<B>::spec_zero().spec_inverse() == CubeExtension::<B>::spec_zero(),
{
}

/// A nonzero element times its inverse is the one element, for a base field
/// that supports the cubic extension.
pub proof fn lemma_mul_inverse<B: ExtensibleField>(x: CubeExtension<B>)
    requires
        B::spec_supported(),
        x.spec_valid(),
        x != CubeExtension::<B>::spec_zero(),
    ensures
        x.spec_mul(x.spec_inverse()) == CubeExtension::<B>::spec_one(),
{
    B::lemma_consts_valid();
    let t = x.spec_triple();
    if t == (B::spec_zero(), B::spec_zero(), B::spec_zero()) {
        assert(x == CubeExtension::<B>::spec_zero());
    }
    let c1 = B::spec_frobenius(t);
    B::lemma_frobenius_valid(t);
    let c2 = B::spec_frobenius(c1);
    B::lemma_frobenius_valid(c1);
    let num = B::spec_triple_mul(c1, c2);
    B::lemma_triple_mul_valid(c1, c2);
    assert(num == conjugate_product(t));
    let norm = B::spec_triple_mul(t, num);
    B::lemma_triple_mul_valid(t, num);
    assert(norm == norm_triple(t));
    B::lemma_norm(t);
    let d = B::spec_inv(norm.0);
    B::lemma_inv_valid(norm.0);
    B::lemma_triple_mul_scale(t, num, d);
    B::lemma_inv_cancel(norm.0);
    B::lemma_mul_zero(d);
    assert(x.spec_inverse().spec_triple() == triple_scale(num, d));
    assert(x.spec_mul(x.spec_inverse()).spec_triple() == triple_scale(norm, d));
    assert(triple_scale(norm, d) == (B::spec_one(), B::spec_zero(), B::spec_zero()));
}

/// The internal consistency invariant of inversion: over a base field that
/// supports the cubic extension, the norm of a nonzero element (the product
/// of the element with both of its Galois conjugates) lies in the base
/// field, and its base component is nonzero.
pub proof fn lemma_norm_in_base_field<B: ExtensibleField>(x: CubeExtension<B>)
    requires
        B::spec_supported(),
        x.spec_valid(),
        x != CubeExtension::<B>::spec_zero(),
    ensures
        norm_triple(x.spec_triple()).1 == B::spec_zero(),
        norm_triple(x.spec_triple()).2 == B::spec_zero(),
        norm_triple(x.spec_triple()).0 != B::spec_zero(),
{
    let t = x.spec_triple();
    if t == (B::spec_zero(), B::spec_zero(), B::spec_zero()) {
        assert(x == CubeExtension::<B>::spec_zero());
    }
    B::lemma_norm(t);
}

/// Decoding the canonical encoding of a valid element gives it back.
pub proof fn lemma_round_trip<B: ExtensibleField>(x: CubeExtension<B>)
    requires
        x.spec_valid(),
    ensures
        x.spec_bytes().len() == CubeExtension::<B>::spec_byte_size(),
        CubeExtension::<B>::spec_decode(x.spec_bytes()) == Some(x),
{
    B::lemma_encode_decode(x.0);
    B::lemma_encode_decode(x.1);
    B::lemma_encode_decode(x.2);
    let bs = B::spec_byte_size() as int;
    let s = x.spec_bytes();
    assert(s.subrange(0, bs) =~= x.0.spec_bytes());
    assert(s.subrange(bs, 2 * bs) =~= x.1.spec_bytes());
    assert(s.subrange(2 * bs, 3 * bs) =~= x.2.spec_bytes());
}

/// Unpacking the packed form of a flat base-element sequence whose length is
/// divisible by three gives back the original sequence.
pub proof fn lemma_pack_unpack<B: ExtensibleField>(s: Seq<B>)
    requires
        s.len() % 3 == 0,
    ensures
        CubeExtension::<B>::spec_unpack(CubeExtension::<B>::spec_pack(s)) == s,
{
    let p = CubeExtension::<B>::spec_pack(s);
    let u = CubeExtension::<B>::spec_unpack(p);
    lemma_fundamental_div_mod(s.len() as int, 3);
    assert(u.len() == s.len());
    assert forall|j: int| 0 <= j < s.len() implies u[j] == s[j] by {
        lemma_fundamental_div_mod(j, 3);
        lemma_mod_bound(j, 3);
        assert(0 <= j / 3 < p.len());
    }
    assert(u =~= s);
}

} // verus!

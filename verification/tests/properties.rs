use cubic_ext::cubic::CubeExtension;
use cubic_ext::extensible::ExtensibleField;
use cubic_ext::gf2::Gf2;
use cubic_ext::prime64::{BaseElement, M};
use cubic_ext::DeserializationError;

fn gf2_elem(a: u64, b: u64, c: u64) -> CubeExtension<Gf2> {
    CubeExtension::new(Gf2::new(a), Gf2::new(b), Gf2::new(c))
}

#[test]
fn supported_fields() {
    assert!(CubeExtension::<Gf2>::is_supported());
    assert!(!CubeExtension::<BaseElement>::is_supported());
}

#[test]
fn add_sub_mul_identities() {
    let one = CubeExtension::<Gf2>::one();
    let zero = CubeExtension::<Gf2>::zero();
    for a in 0..2u64 {
        for b in 0..2u64 {
            for c in 0..2u64 {
                let x = gf2_elem(a, b, c);
                assert_eq!(x.add(zero), x);
                assert_eq!(x.sub(zero), x);
                assert_eq!(x.mul(one), x);
            }
        }
    }
}

#[test]
fn add_componentwise() {
    let x = CubeExtension::new(BaseElement::new(10), BaseElement::new(20), BaseElement::new(30));
    let y = CubeExtension::new(BaseElement::new(1), BaseElement::new(2), BaseElement::new(3));
    assert_eq!(
        x.add(y),
        CubeExtension::new(BaseElement::new(11), BaseElement::new(22), BaseElement::new(33))
    );
    assert_eq!(
        x.sub(y),
        CubeExtension::new(BaseElement::new(9), BaseElement::new(18), BaseElement::new(27))
    );
}

#[test]
fn mul_inverse_all_nonzero() {
    let one = CubeExtension::<Gf2>::one();
    let zero = CubeExtension::<Gf2>::zero();
    for a in 0..2u64 {
        for b in 0..2u64 {
            for c in 0..2u64 {
                let x = gf2_elem(a, b, c);
                if x != zero {
                    assert_eq!(x.mul(x.inv()), one);
                }
            }
        }
    }
}

#[test]
fn invert_zero_is_zero() {
    let zero = CubeExtension::<Gf2>::zero();
    assert_eq!(zero.inv(), zero);
}

#[test]
fn divide() {
    let one = CubeExtension::<Gf2>::one();
    let zero = CubeExtension::<Gf2>::zero();
    let x = gf2_elem(1, 1, 0);
    assert_eq!(x.div(x), one);
    assert_eq!(x.div(one), x);
    // dividing by zero propagates the inversion sentinel: the result is zero
    assert_eq!(x.div(zero), zero);
}

#[test]
fn conjugate_is_frobenius_once() {
    // frobenius of phi (squaring in the field of eight elements) is phi^2
    let phi = gf2_elem(0, 1, 0);
    let phi_sq = gf2_elem(0, 0, 1);
    assert_eq!(phi.conjugate(), phi_sq);
    // and of phi^2 it is phi + phi^2
    assert_eq!(phi_sq.conjugate(), gf2_elem(0, 1, 1));
}

#[test]
fn compound_assignments() {
    let mut x = gf2_elem(1, 0, 1);
    let y = gf2_elem(0, 1, 1);
    let sum = x.add(y);
    x.add_assign(y);
    assert_eq!(x, sum);
    x.sub_assign(y);
    assert_eq!(x, gf2_elem(1, 0, 1));
    let mut m = gf2_elem(1, 1, 0);
    let prod = m.mul(y);
    m.mul_assign(y);
    assert_eq!(m, prod);
    m.div_assign(y);
    assert_eq!(m, gf2_elem(1, 1, 0));
}

#[test]
fn negate() {
    // in characteristic two every element is its own negation
    let x = gf2_elem(1, 0, 1);
    assert_eq!(x.neg(), x);
    let y = CubeExtension::new(BaseElement::new(1), BaseElement::new(0), BaseElement::new(2));
    assert_eq!(
        y.neg(),
        CubeExtension::new(BaseElement::new(M - 1), BaseElement::new(0), BaseElement::new(M - 2))
    );
}

#[test]
fn from_base_embedding() {
    let x = CubeExtension::from_base(BaseElement::new(42));
    assert_eq!(
        x,
        CubeExtension::new(BaseElement::new(42), BaseElement::new(0), BaseElement::new(0))
    );
}

#[test]
fn base_field_inverse() {
    // exponentiation-based inversion in the prime field
    let x = BaseElement::new(12345);
    let inv = BaseElement::inv(x);
    assert_eq!(BaseElement::mul(x, inv), BaseElement::new(1));
    assert_eq!(BaseElement::inv(BaseElement::new(0)), BaseElement::new(0));
}

#[test]
fn byte_round_trip() {
    let x = CubeExtension::new(
        BaseElement::new(0x0102030405060708),
        BaseElement::new(77),
        BaseElement::new(M - 1),
    );
    let bytes = x.to_bytes();
    assert_eq!(bytes.len(), 24);
    assert_eq!(CubeExtension::<BaseElement>::from_bytes(&bytes), Ok(x));

    let g = gf2_elem(1, 0, 1);
    let gb = g.to_bytes();
    assert_eq!(gb, vec![1, 0, 1]);
    assert_eq!(CubeExtension::<Gf2>::from_bytes(&gb), Ok(g));
}

#[test]
fn element_byte_size_is_three_base_elements() {
    assert_eq!(CubeExtension::<BaseElement>::element_byte_size(), 24);
    assert_eq!(CubeExtension::<Gf2>::element_byte_size(), 3);
}

#[test]
fn from_bytes_length_errors() {
    let bytes = vec![0u8; 24];
    assert!(CubeExtension::<BaseElement>::from_bytes(&bytes).is_ok());
    assert_eq!(
        CubeExtension::<BaseElement>::from_bytes(&bytes[..23]),
        Err(DeserializationError::InvalidLength)
    );
    let long = vec![0u8; 25];
    assert_eq!(
        CubeExtension::<BaseElement>::from_bytes(&long),
        Err(DeserializationError::InvalidLength)
    );
}

#[test]
fn from_bytes_invalid_element() {
    // the first coefficient reads as 2^64 - 1, which is not canonical
    let mut bytes = vec![0u8; 24];
    for i in 0..8 {
        bytes[i] = 0xff;
    }
    assert_eq!(
        CubeExtension::<BaseElement>::from_bytes(&bytes),
        Err(DeserializationError::InvalidElement)
    );
    // a byte other than zero or one is no element of the two-element field
    assert_eq!(
        CubeExtension::<Gf2>::from_bytes(&[1, 7, 0]),
        Err(DeserializationError::InvalidElement)
    );
}

#[test]
fn read_from_prefix() {
    // a reader consumes the element's bytes from the front and ignores the rest
    let x = gf2_elem(1, 1, 0);
    let mut buf = x.to_bytes();
    buf.push(9);
    assert_eq!(CubeExtension::<Gf2>::read_from(&buf), Ok(x));
    assert_eq!(
        CubeExtension::<Gf2>::read_from(&buf[..2]),
        Err(DeserializationError::InvalidLength)
    );
}

#[test]
fn from_random_bytes_checks_length() {
    let x = CubeExtension::new(BaseElement::new(3), BaseElement::new(4), BaseElement::new(5));
    let bytes = x.to_bytes();
    assert_eq!(CubeExtension::<BaseElement>::from_random_bytes(&bytes), Some(x));
    assert_eq!(CubeExtension::<BaseElement>::from_random_bytes(&bytes[..23]), None);
}

#[test]
fn write_into_appends() {
    let x = gf2_elem(1, 0, 0);
    let y = gf2_elem(0, 1, 1);
    let mut buf: Vec<u8> = Vec::new();
    x.write_into(&mut buf);
    y.write_into(&mut buf);
    assert_eq!(buf, vec![1, 0, 0, 0, 1, 1]);
}

#[test]
fn bulk_round_trip() {
    let source: Vec<BaseElement> = (1..=6u64).map(BaseElement::new).collect();
    let packed = CubeExtension::<BaseElement>::base_to_cubic_vector(source.clone());
    assert_eq!(packed.len(), 2);
    assert_eq!(
        packed[0],
        CubeExtension::new(BaseElement::new(1), BaseElement::new(2), BaseElement::new(3))
    );
    let unpacked = CubeExtension::<BaseElement>::as_base_elements(&packed);
    assert_eq!(unpacked, source);
}

#[test]
fn bytes_as_elements_invalid_element() {
    let mut bytes = vec![0u8; 48];
    for i in 24..32 {
        bytes[i] = 0xff;
    }
    assert_eq!(
        CubeExtension::<BaseElement>::bytes_as_elements(&bytes),
        Err(DeserializationError::InvalidElement)
    );
}

#[test]
fn zeroed_vector_of_gf2() {
    let v = CubeExtension::<Gf2>::zeroed_vector(5);
    assert_eq!(v.len(), 5);
    for e in v {
        assert_eq!(e, CubeExtension::new(Gf2::new(0), Gf2::new(0), Gf2::new(0)));
    }
}

#[test]
fn base_field_arithmetic_wraps() {
    let a = BaseElement::new(M - 1);
    let b = BaseElement::new(2);
    assert_eq!(BaseElement::add(a, b), BaseElement::new(1));
    assert_eq!(BaseElement::sub(BaseElement::new(0), BaseElement::new(1)), a);
    assert_eq!(BaseElement::neg(BaseElement::new(1)), a);
}

#[test]
fn invert_exact_value() {
    // phi * (1 + phi^2) == phi^3 + phi == (phi + 1) + phi == 1 over the
    // two-element field, so the inverse of phi is 1 + phi^2
    let phi = gf2_elem(0, 1, 0);
    assert_eq!(phi.inv(), gf2_elem(1, 0, 1));
    let one = CubeExtension::<Gf2>::one();
    assert_eq!(one.inv(), one);
}

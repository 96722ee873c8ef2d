use cubic_ext::cubic::CubeExtension;
use cubic_ext::prime64::BaseElement;
use cubic_ext::DeserializationError;

#[test]
fn add() {
    // identity
    let r: CubeExtension<BaseElement> =
        CubeExtension::new(BaseElement::new(11), BaseElement::new(22), BaseElement::new(33));
    assert_eq!(r, r.add(CubeExtension::<BaseElement>::zero()));

    // test arbitrary values
    let r1: CubeExtension<BaseElement> =
        CubeExtension::new(BaseElement::new(7), BaseElement::new(12), BaseElement::new(5));
    let r2: CubeExtension<BaseElement> =
        CubeExtension::new(BaseElement::new(9), BaseElement::new(3), BaseElement::new(8));

    let expected = CubeExtension::new(
        BaseElement::new(7 + 9),
        BaseElement::new(12 + 3),
        BaseElement::new(5 + 8),
    );
    assert_eq!(expected, r1.add(r2));
}

#[test]
fn sub() {
    // identity
    let r: CubeExtension<BaseElement> =
        CubeExtension::new(BaseElement::new(11), BaseElement::new(22), BaseElement::new(33));
    assert_eq!(r, r.sub(CubeExtension::<BaseElement>::zero()));

    // test arbitrary values
    let r1: CubeExtension<BaseElement> =
        CubeExtension::new(BaseElement::new(9), BaseElement::new(3), BaseElement::new(8));
    let r2: CubeExtension<BaseElement> =
        CubeExtension::new(BaseElement::new(7), BaseElement::new(12), BaseElement::new(5));

    let expected = CubeExtension::new(
        BaseElement::new(9 - 7),
        BaseElement::new(18446744069414584321 - 9),
        BaseElement::new(8 - 5),
    );
    assert_eq!(expected, r1.sub(r2));
}

#[test]
fn zeroed_vector() {
    let result = CubeExtension::<BaseElement>::zeroed_vector(4);
    assert_eq!(4, result.len());
    for element in result.into_iter() {
        assert_eq!(CubeExtension::<BaseElement>::zero(), element);
    }
}

#[test]
fn elements_as_bytes() {
    let source = vec![
        CubeExtension::new(BaseElement::new(1), BaseElement::new(2), BaseElement::new(3)),
        CubeExtension::new(BaseElement::new(4), BaseElement::new(5), BaseElement::new(6)),
    ];

    let expected: Vec<u8> = vec![
        1, 0, 0, 0, 0, 0, 0, 0, 2, 0, 0, 0, 0, 0, 0, 0, 3, 0, 0, 0, 0, 0, 0, 0, 4, 0, 0, 0, 0,
        0, 0, 0, 5, 0, 0, 0, 0, 0, 0, 0, 6, 0, 0, 0, 0, 0, 0, 0,
    ];

    assert_eq!(expected, CubeExtension::<BaseElement>::elements_as_bytes(&source));
}

#[test]
fn bytes_as_elements() {
    let bytes: Vec<u8> = vec![
        1, 0, 0, 0, 0, 0, 0, 0, 2, 0, 0, 0, 0, 0, 0, 0, 3, 0, 0, 0, 0, 0, 0, 0, 4, 0, 0, 0, 0,
        0, 0, 0, 5, 0, 0, 0, 0, 0, 0, 0, 6, 0, 0, 0, 0, 0, 0, 0, 7,
    ];

    let expected = vec![
        CubeExtension::new(BaseElement::new(1), BaseElement::new(2), BaseElement::new(3)),
        CubeExtension::new(BaseElement::new(4), BaseElement::new(5), BaseElement::new(6)),
    ];

    let result = CubeExtension::<BaseElement>::bytes_as_elements(&bytes[..48]);
    assert!(result.is_ok());
    assert_eq!(expected, result.unwrap());

    let result = CubeExtension::<BaseElement>::bytes_as_elements(&bytes);
    assert!(matches!(result, Err(DeserializationError::InvalidLength)));
}

#[test]
fn as_base_elements() {
    let elements = vec![
        CubeExtension::new(BaseElement::new(1), BaseElement::new(2), BaseElement::new(3)),
        CubeExtension::new(BaseElement::new(4), BaseElement::new(5), BaseElement::new(6)),
    ];

    let expected = vec![
        BaseElement::new(1),
        BaseElement::new(2),
        BaseElement::new(3),
        BaseElement::new(4),
        BaseElement::new(5),
        BaseElement::new(6),
    ];

    assert_eq!(expected, CubeExtension::<BaseElement>::as_base_elements(&elements));
}

use mpc_stark::algebra::scalar::Scalar;
use mpc_stark::algebra::stark_curve::StarkPoint;
use mpc_stark::fabric::result::ResultValue;
use mpc_stark::network::NetworkPayload;

#[test]
fn scalar_addition_matches_integers() {
    let a = Scalar::from_u64(7);
    let b = Scalar::from_u64(5);
    assert_eq!(a.add(&b), Scalar::from_u64(12));
}

#[test]
fn scalar_subtraction_wraps_around_the_modulus() {
    let a = Scalar::from_u64(5);
    let b = Scalar::from_u64(7);
    let d = a.sub(&b);
    assert_eq!(d.add(&Scalar::from_u64(2)), Scalar::zero());
    assert_eq!(d, Scalar::from_u64(2).neg());
}

#[test]
fn scalar_multiplication_matches_integers() {
    let a = Scalar::from_u64(6);
    let b = Scalar::from_u64(7);
    assert_eq!(a.mul(&b), Scalar::from_u64(42));
    let big = Scalar::from_u64(u64::MAX);
    let sq = big.mul(&big);
    // (2^64 - 1)^2 = 2^128 - 2^65 + 1
    let mut expected = vec![0u8; 32];
    for b in expected.iter_mut().take(23).skip(16) {
        *b = 0xff;
    }
    expected[23] = 0xfe;
    expected[31] = 0x01;
    assert_eq!(sq.to_bytes_be(), expected);
}

#[test]
fn scalar_bytes_round_trip() {
    let a = Scalar::from_u64(0x0102030405060708);
    let bytes = a.to_bytes_be();
    assert_eq!(bytes.len(), 32);
    assert_eq!(&bytes[24..], &[1, 2, 3, 4, 5, 6, 7, 8]);
    assert_eq!(Scalar::from_bytes_be(&bytes), Some(a));
    assert_eq!(Scalar::from_be_bytes_mod_order(&bytes), a);
}

#[test]
fn scalar_rejects_non_canonical_bytes() {
    let bytes = vec![0xffu8; 32];
    assert_eq!(Scalar::from_bytes_be(&bytes), None);
    assert_eq!(Scalar::from_bytes_be(&bytes[..31]), None);
    // 2^256 - 1 reduced modulo the order
    let reduced = Scalar::from_be_bytes_mod_order(&bytes);
    let one = Scalar::one();
    // reduced + 1 = 2^256 mod n, and 2^256 = (2^128)^2
    let mut limb = vec![0u8; 32];
    limb[15] = 1;
    let two_128 = Scalar::from_bytes_be(&limb).unwrap();
    assert_eq!(reduced.add(&one), two_128.mul(&two_128));
}

#[test]
fn point_addition_agrees_with_scalar_multiplication() {
    let g = StarkPoint::generator();
    let two_g = g.add(&g);
    let three_g = two_g.add(&g);
    let five_g = two_g.add(&three_g);
    assert_eq!(five_g, g.mul(&Scalar::from_u64(5)));
    assert_eq!(two_g, g.mul(&Scalar::from_u64(2)));
    assert!(five_g.equals(&g.mul(&Scalar::from_u64(5))));
}

#[test]
fn point_identity_is_neutral() {
    let g = StarkPoint::generator();
    let o = StarkPoint::identity();
    assert!(o.is_identity());
    assert!(!g.is_identity());
    assert_eq!(g.add(&o), g);
    assert_eq!(o.add(&g), g);
    assert_eq!(g.sub(&g), o);
    assert_eq!(g.add(&g.neg()), o);
    assert_eq!(g.mul(&Scalar::zero()), o);
}

#[test]
fn point_bytes_round_trip() {
    let g = StarkPoint::generator();
    let p = g.mul(&Scalar::from_u64(12345));
    let bytes = p.to_bytes();
    assert_eq!(bytes.len(), 96);
    assert_eq!(StarkPoint::from_bytes(&bytes), Some(p));
    let o = StarkPoint::identity();
    assert_eq!(StarkPoint::from_bytes(&o.to_bytes()), Some(o));
    let mut bad = bytes.clone();
    bad[40] ^= 1;
    assert_eq!(StarkPoint::from_bytes(&bad), None);
    assert_eq!(StarkPoint::from_bytes(&bytes[..95]), None);
}

#[test]
fn multiplication_by_the_group_order_gives_the_identity() {
    let g = StarkPoint::generator();
    // n - 1 is the negation of one
    let minus_one = Scalar::one().neg();
    assert_eq!(g.mul(&minus_one), g.neg());
    assert_eq!(g.mul(&minus_one).add(&g), StarkPoint::identity());
}

#[test]
fn zero_is_the_only_zero() {
    assert!(Scalar::zero().is_zero());
    assert!(Scalar::from_u64(0).is_zero());
    assert!(Scalar::from_bool(false).is_zero());
    assert!(!Scalar::one().is_zero());
    assert!(!Scalar::from_bool(true).is_zero());
    assert!(Scalar::from_u64(5).sub(&Scalar::from_u64(5)).is_zero());
    assert_eq!(Scalar::from_bool(true), Scalar::one());
    assert_eq!(Scalar::zero().neg(), Scalar::zero());
}

#[test]
fn the_order_of_the_field_wraps_to_zero() {
    // The order of the Stark curve, less one, in big-endian bytes
    let mut bytes = vec![
        0x08, 0x00, 0x00, 0x00, 0x00, 0x00, 0x00, 0x10, 0xff, 0xff, 0xff, 0xff, 0xff, 0xff, 0xff,
        0xff, 0xb7, 0x81, 0x12, 0x6d, 0xca, 0xe7, 0xb2, 0x32, 0x1e, 0x66, 0xa2, 0x41, 0xad, 0xc6,
        0x4d, 0x2e,
    ];
    let largest = Scalar::from_bytes_be(&bytes).unwrap();
    assert_eq!(largest, Scalar::one().neg());
    assert_eq!(largest.add(&Scalar::one()), Scalar::zero());
    assert_eq!(largest.mul(&largest), Scalar::one());
    // The order itself is not canonical, and reduces to zero
    bytes[31] = 0x2f;
    assert_eq!(Scalar::from_bytes_be(&bytes), None);
    assert_eq!(Scalar::from_be_bytes_mod_order(&bytes), Scalar::zero());
    assert_eq!(Scalar::from_be_bytes_mod_order(&[]), Scalar::zero());
    assert_eq!(Scalar::from_be_bytes_mod_order(&[1, 0]), Scalar::from_u64(256));
}

#[test]
fn points_are_built_from_coordinates_on_the_curve_only() {
    let g = StarkPoint::generator();
    let bytes = g.to_bytes();
    let (x, rest) = bytes.split_at(32);
    let (y, z) = rest.split_at(32);
    assert_eq!(
        x,
        [
            0x01, 0xef, 0x15, 0xc1, 0x85, 0x99, 0x97, 0x1b, 0x7b, 0xec, 0xed, 0x41, 0x5a, 0x40,
            0xf0, 0xc7, 0xde, 0xac, 0xfd, 0x9b, 0x0d, 0x18, 0x19, 0xe0, 0x3d, 0x72, 0x3d, 0x8b,
            0xc9, 0x43, 0xcf, 0xca
        ]
    );
    assert_eq!(StarkPoint::from_coordinates(x, y, z), Some(g));
    assert_eq!(StarkPoint::from_coordinates(y, x, z), None);
    // Coordinates that are not normalized describe the same point
    let two = {
        let mut two = [0u8; 32];
        two[31] = 2;
        two
    };
    let doubled = |c: &[u8]| Scalar::from_bytes_be(c).map(|s| s.add(&s).to_bytes_be());
    // The coordinates of the generator are below the order of the scalar field, so that
    // they can be doubled as scalars without a reduction that the base field would not make
    if let (Some(x2), Some(y2)) = (doubled(x), doubled(y)) {
        if x2[0] < 0x08 && y2[0] < 0x08 {
            assert_eq!(StarkPoint::from_coordinates(&x2, &y2, &two), Some(g));
        }
    }
    // The point at infinity in any of its forms
    let zero = [0u8; 32];
    assert_eq!(StarkPoint::from_coordinates(&zero, &two, &zero), Some(StarkPoint::identity()));
    assert_eq!(StarkPoint::from_coordinates(&two, &two, &zero), None);
}

#[test]
fn values_and_payloads_convert_into_one_another() {
    let g = StarkPoint::generator();
    let values = vec![
        ResultValue::Bytes(vec![1, 2]),
        ResultValue::Scalar(Scalar::from_u64(3)),
        ResultValue::ScalarBatch(vec![Scalar::from_u64(4)]),
        ResultValue::Point(g),
        ResultValue::PointBatch(vec![g, g.neg()]),
    ];
    for value in values {
        let payload: NetworkPayload = value.clone().into();
        assert_eq!(payload, value.clone().into_payload());
        assert_eq!(ResultValue::from(payload), value);
        assert_eq!(ResultValue::from_payload(value.clone().into_payload()), value);
    }
    assert_eq!(ResultValue::Bytes(vec![7]).into_bytes(), vec![7]);
    assert_eq!(ResultValue::Scalar(Scalar::one()).into_scalar(), Scalar::one());
    assert_eq!(ResultValue::ScalarBatch(vec![Scalar::one()]).into_scalar_batch(), vec![Scalar::one()]);
    assert_eq!(ResultValue::Point(g).into_point(), g);
    assert_eq!(ResultValue::PointBatch(vec![g]).into_point_batch(), vec![g]);
    assert_eq!(ResultValue::Point(g).to_scalar(), None);
    assert_eq!(ResultValue::Point(g).to_point(), Some(g));
    assert_eq!(ResultValue::Scalar(Scalar::one()).to_scalar(), Some(Scalar::one()));
    assert_eq!(ResultValue::Scalar(Scalar::one()).to_point(), None);
}

use cggmp21::bignumber::BigNumber;
use cggmp21::point::{sum_points, NonZeroPoint, Point};
use cggmp21::scalar::{sum_scalars, NonZeroScalar, Scalar};
use generic_ec::curves::Secp256k1;

type EcScalar = generic_ec::Scalar<Secp256k1>;
type EcPoint = generic_ec::Point<Secp256k1>;

/// The group order of secp256k1, in big-endian order.
const ORDER: [u8; 32] = [
    0xff, 0xff, 0xff, 0xff, 0xff, 0xff, 0xff, 0xff, 0xff, 0xff, 0xff, 0xff, 0xff, 0xff, 0xff, 0xfe,
    0xba, 0xae, 0xdc, 0xe6, 0xaf, 0x48, 0xa0, 0x3b, 0xbf, 0xd2, 0x5e, 0x8c, 0xd0, 0x36, 0x41, 0x41,
];

fn small(v: u16) -> [u8; 32] {
    let mut out = [0u8; 32];
    out[30] = (v >> 8) as u8;
    out[31] = (v & 0xff) as u8;
    out
}

fn order_minus(v: u8) -> [u8; 32] {
    let mut out = ORDER;
    out[31] -= v;
    out
}

#[test]
fn scalar_from_u16_is_big_endian() {
    assert_eq!(Scalar::from_u16(0).to_be_bytes(), [0u8; 32]);
    assert_eq!(Scalar::from_u16(1).to_be_bytes(), small(1));
    assert_eq!(Scalar::from_u16(0x1234).to_be_bytes(), small(0x1234));
    assert_eq!(Scalar::from_u16(u16::MAX).to_be_bytes(), small(0xffff));
}

#[test]
fn scalar_reduces_modulo_the_group_order() {
    // q reduces to zero and q + 5 to 5
    assert_eq!(Scalar::from_be_bytes_mod_order(&ORDER).to_be_bytes(), [0u8; 32]);
    let mut q_plus_5 = ORDER;
    q_plus_5[31] += 5;
    assert_eq!(Scalar::from_be_bytes_mod_order(&q_plus_5).to_be_bytes(), small(5));
    // short and long inputs
    assert_eq!(Scalar::from_be_bytes_mod_order(&[7]).to_be_bytes(), small(7));
    assert_eq!(Scalar::from_be_bytes_mod_order(&[]).to_be_bytes(), small(0));
    let mut long = vec![0u8; 40];
    long[39] = 9;
    assert_eq!(Scalar::from_be_bytes_mod_order(&long).to_be_bytes(), small(9));
    // 2^256 mod q = 2^256 - q
    let mut two_256 = vec![0u8; 33];
    two_256[0] = 1;
    let expected = EcScalar::from_be_bytes_mod_order(&two_256);
    assert_eq!(
        Scalar::from_be_bytes_mod_order(&two_256).to_be_bytes().as_slice(),
        expected.to_be_bytes().as_bytes()
    );
    assert_eq!(
        Scalar::from_be_bytes_mod_order(&two_256).to_be_bytes()[16..],
        [0x45, 0x51, 0x23, 0x19, 0x50, 0xb7, 0x5f, 0xc4, 0x40, 0x2d, 0xa1, 0x73, 0x2f, 0xc9, 0xbe, 0xbf]
    );
}

#[test]
fn scalar_arithmetic_is_modular() {
    let a = Scalar::from_u16(1000);
    let b = Scalar::from_u16(234);
    assert_eq!(a.add(&b).to_be_bytes(), small(1234));
    assert_eq!(a.mul(&b).to_be_bytes(), {
        let mut out = [0u8; 32];
        // 234000 = 0x039210
        out[29] = 0x03;
        out[30] = 0x92;
        out[31] = 0x10;
        out
    });
    assert_eq!(a.sub(&b).to_be_bytes(), small(766));
    // b - a wraps around: q - 766
    let mut wrapped = ORDER;
    // 0x4141 - 766 = 0x3e43
    wrapped[30] = 0x3e;
    wrapped[31] = 0x43;
    assert_eq!(b.sub(&a).to_be_bytes(), wrapped);
    assert_eq!(Scalar::from_u16(1).neg().to_be_bytes(), order_minus(1));
    assert_eq!(Scalar::zero().neg().to_be_bytes(), [0u8; 32]);
    // (q - 1) + 2 = 1
    let q_minus_1 = Scalar::from_be_bytes_mod_order(&order_minus(1));
    assert_eq!(q_minus_1.add(&Scalar::from_u16(2)).to_be_bytes(), small(1));
    // (q - 1)^2 = 1
    assert_eq!(q_minus_1.mul(&q_minus_1).to_be_bytes(), small(1));
}

#[test]
fn scalar_inverse_multiplies_to_one() {
    assert!(Scalar::zero().invert().is_none());
    assert_eq!(Scalar::from_u16(1).invert().unwrap().to_be_bytes(), small(1));
    for v in [2u16, 3, 7, 1000, 65535] {
        let s = Scalar::from_u16(v);
        let inv = s.invert().unwrap();
        assert_eq!(s.mul(&inv).to_be_bytes(), small(1));
        assert!(!inv.eq(&s));
    }
    // the inverse of 2 is (q + 1) / 2
    let half = [
        0x7f, 0xff, 0xff, 0xff, 0xff, 0xff, 0xff, 0xff, 0xff, 0xff, 0xff, 0xff, 0xff, 0xff, 0xff,
        0xff, 0x5d, 0x57, 0x6e, 0x73, 0x57, 0xa4, 0x50, 0x1d, 0xdf, 0xe9, 0x2f, 0x46, 0x68, 0x1b,
        0x20, 0xa1,
    ];
    assert_eq!(Scalar::from_u16(2).invert().unwrap().to_be_bytes(), half);
    let nz = NonZeroScalar::from_scalar(Scalar::from_u16(2)).unwrap();
    assert_eq!(nz.invert().to_scalar().to_be_bytes(), half);
}

#[test]
fn scalar_comparisons_follow_the_integers() {
    let a = Scalar::from_u16(5);
    let b = Scalar::from_u16(0x0100);
    let big = Scalar::from_be_bytes_mod_order(&order_minus(1));
    assert!(a.lt(&b));
    assert!(!b.lt(&a));
    assert!(!a.lt(&a));
    assert!(b.lt(&big));
    assert!(a.eq(&Scalar::from_u16(5)));
    assert!(!a.eq(&b));
    assert!(Scalar::zero().is_zero());
    assert!(!a.is_zero());
    assert!(NonZeroScalar::from_scalar(Scalar::zero()).is_none());
    let nz = NonZeroScalar::from_scalar(a).unwrap();
    assert_eq!(nz.to_scalar().to_be_bytes(), small(5));
    assert_eq!(nz.neg().to_scalar().to_be_bytes(), order_minus(5));
    assert!(nz.lt(&nz.neg()));
}

#[test]
fn scalar_sum_adds_from_the_left() {
    assert!(sum_scalars(&vec![]).is_zero());
    let v = vec![Scalar::from_u16(1), Scalar::from_u16(2), Scalar::from_u16(3)];
    assert_eq!(sum_scalars(&v).to_be_bytes(), small(6));
    let q_minus_1 = Scalar::from_be_bytes_mod_order(&order_minus(1));
    let v = vec![q_minus_1, Scalar::from_u16(1), Scalar::from_u16(10)];
    assert_eq!(sum_scalars(&v).to_be_bytes(), small(10));
}

#[test]
fn big_number_reduces_to_scalar_with_its_sign() {
    let five = BigNumber { negative: false, magnitude: vec![5] };
    assert_eq!(five.to_scalar().to_be_bytes(), small(5));
    let minus_five = BigNumber { negative: true, magnitude: vec![0, 5] };
    assert_eq!(minus_five.to_scalar().to_be_bytes(), order_minus(5));
    let minus_zero = BigNumber { negative: true, magnitude: vec![] };
    assert!(minus_zero.to_scalar().is_zero());
    let minus_q = BigNumber { negative: true, magnitude: ORDER.to_vec() };
    assert!(minus_q.to_scalar().is_zero());
    let mut long = vec![1u8];
    long.extend_from_slice(&[0u8; 32]);
    // -(2^256) mod q = q - (2^256 - q)
    let expected = -EcScalar::from_be_bytes_mod_order(&long);
    let n = BigNumber { negative: true, magnitude: long };
    assert_eq!(n.to_scalar().to_be_bytes().as_slice(), expected.to_be_bytes().as_bytes());
    assert_eq!(BigNumber::from_be_bytes(vec![1, 0]).to_scalar().to_be_bytes(), small(256));
}

#[test]
fn big_number_bit_length_counts_significant_bits() {
    assert_eq!(BigNumber::from_be_bytes(vec![]).bit_length(), Some(0));
    assert_eq!(BigNumber::from_be_bytes(vec![0, 0]).bit_length(), Some(0));
    assert_eq!(BigNumber::from_be_bytes(vec![1]).bit_length(), Some(1));
    assert_eq!(BigNumber::from_be_bytes(vec![0, 2]).bit_length(), Some(2));
    assert_eq!(BigNumber::from_be_bytes(vec![0xff]).bit_length(), Some(8));
    assert_eq!(BigNumber::from_be_bytes(vec![1, 0]).bit_length(), Some(9));
    assert_eq!(BigNumber::from_be_bytes(vec![0, 0x40, 0, 0]).bit_length(), Some(23));
    let mut n = vec![0x80];
    n.extend_from_slice(&[0u8; 383]);
    assert_eq!(BigNumber::from_be_bytes(n).bit_length(), Some(3072));
    assert_eq!(BigNumber { negative: true, magnitude: vec![3] }.bit_length(), Some(2));
}

#[test]
fn generator_multiples_match_the_curve_library() {
    // the generator itself
    let g = Point::generator_mul(&Scalar::from_u16(1));
    assert_eq!(
        g.to_bytes(),
        [
            0x02, 0x79, 0xbe, 0x66, 0x7e, 0xf9, 0xdc, 0xbb, 0xac, 0x55, 0xa0, 0x62, 0x95, 0xce,
            0x87, 0x0b, 0x07, 0x02, 0x9b, 0xfc, 0xdb, 0x2d, 0xce, 0x28, 0xd9, 0x59, 0xf2, 0x81,
            0x5b, 0x16, 0xf8, 0x17, 0x98
        ]
    );
    for v in [2u16, 3, 1000] {
        let expected = EcPoint::generator() * EcScalar::from(v);
        assert_eq!(
            Point::generator_mul(&Scalar::from_u16(v)).to_bytes().as_slice(),
            expected.to_bytes(true).as_bytes()
        );
    }
    // the generator times zero is the identity, encoded as zeros
    let zero = Point::generator_mul(&Scalar::zero());
    assert!(zero.is_zero());
    assert_eq!(zero.to_bytes(), [0u8; 33]);
    assert!(zero.eq(&Point::zero()));
    assert!(!g.is_zero());
}

#[test]
fn point_operations_match_the_curve_library() {
    let g = Point::generator_mul(&Scalar::from_u16(1));
    let g2 = Point::generator_mul(&Scalar::from_u16(2));
    let g5 = Point::generator_mul(&Scalar::from_u16(5));
    assert!(g.add(&g).eq(&g2));
    assert!(g2.add(&g2).add(&g).eq(&g5));
    assert!(g.mul(&Scalar::from_u16(5)).eq(&g5));
    assert!(g5.mul(&Scalar::zero()).is_zero());
    assert!(g5.add(&Point::zero()).eq(&g5));
    assert!(Point::zero().add(&g5).eq(&g5));
    // g + (-g) is the identity
    let minus_g = g.mul(&Scalar::from_u16(1).neg());
    assert!(!minus_g.eq(&g));
    assert!(g.add(&minus_g).is_zero());
    // sums
    assert!(sum_points(&vec![]).is_zero());
    assert!(sum_points(&vec![g2]).eq(&g2));
    assert!(sum_points(&vec![g, g2, g2]).eq(&g5));
}

#[test]
fn point_decoding_accepts_points_only() {
    let g5 = Point::generator_mul(&Scalar::from_u16(5));
    let decoded = Point::from_bytes(&g5.to_bytes()).unwrap();
    assert!(decoded.eq(&g5));
    // the uncompressed encoding decodes to the same point
    let ec = EcPoint::generator() * EcScalar::from(5u16);
    let decoded = Point::from_bytes(ec.to_bytes(false).as_bytes()).unwrap();
    assert!(decoded.eq(&g5));
    assert_eq!(decoded.to_bytes(), g5.to_bytes());
    // zeros decode to the identity
    assert!(Point::from_bytes(&[0u8; 33]).unwrap().is_zero());
    // so does a string of zeros of another length, the empty one too
    assert!(Point::from_bytes(&[0u8; 5]).unwrap().is_zero());
    assert!(Point::from_bytes(&[]).unwrap().is_zero());
    // not a point
    let mut bad = g5.to_bytes();
    bad[0] = 0x07;
    assert!(Point::from_bytes(&bad).is_none());
    assert!(Point::from_bytes(&g5.to_bytes()[..32]).is_none());
}

#[test]
fn x_coordinate_is_read_from_the_encoding() {
    let g = Point::generator_mul(&Scalar::from_u16(1));
    let x = g.x_scalar().unwrap();
    assert_eq!(x.to_be_bytes(), g.to_bytes()[1..]);
    assert!(Point::zero().x_scalar().is_none());
    assert!(NonZeroPoint::from_point(Point::zero()).is_none());
    let nz = NonZeroPoint::from_point(g).unwrap();
    assert!(nz.x_scalar().eq(&x));
    assert!(nz.to_point().eq(&g));
    for v in [2u16, 77, 5000] {
        let p = Point::generator_mul(&Scalar::from_u16(v));
        let expected = EcScalar::from_be_bytes_mod_order(&p.to_bytes()[1..]);
        assert_eq!(
            p.x_scalar().unwrap().to_be_bytes().as_slice(),
            expected.to_be_bytes().as_bytes()
        );
    }
}

#[test]
fn scalar_is_decoded_from_its_encoding_only() {
    let s = Scalar::from_u16(0x0304);
    let decoded = Scalar::from_be_bytes(&s.to_be_bytes()).unwrap();
    assert!(decoded.eq(&s));
    assert!(Scalar::from_be_bytes(&order_minus(1)).is_some());
    assert!(Scalar::from_be_bytes(&[0u8; 32]).unwrap().is_zero());
    // the order itself, and what is above it
    assert!(Scalar::from_be_bytes(&ORDER).is_none());
    assert!(Scalar::from_be_bytes(&[0xff; 32]).is_none());
    // another length
    assert!(Scalar::from_be_bytes(&[3, 4]).is_none());
    assert!(Scalar::from_be_bytes(&[0u8; 33]).is_none());
    assert!(Scalar::from_be_bytes(&[]).is_none());
}

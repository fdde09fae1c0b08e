//! Points of the secp256k1 group, held as their compressed encodings.

use crate::bytes::be_nat;
use crate::bytes::bytes_eq;
use crate::scalar::group_order;
use crate::scalar::Scalar;
use generic_ec::coords::AlwaysHasAffineX;
use vstd::prelude::*;

verus! {

/// Length in bytes of a compressed point.
pub const POINT_LEN: usize = 33;

/// What `generic_ec::Point::<Secp256k1>::from_bytes` makes of a byte string: the compressed
/// encoding of the decoded point, or `None` where the bytes encode no point.
pub uninterp spec fn spec_point_decode(bytes: Seq<u8>) -> Option<Seq<u8>>;

/// The compressed encoding of the generator multiplied by `k`.
pub uninterp spec fn spec_generator_mul(k: nat) -> Seq<u8>;

/// The compressed encoding of the point encoded by `p`, multiplied by `k`.
pub uninterp spec fn spec_point_mul(p: Seq<u8>, k: nat) -> Seq<u8>;

/// The compressed encoding of the sum of the points encoded by `p` and `q`.
pub uninterp spec fn spec_point_add(p: Seq<u8>, q: Seq<u8>) -> Seq<u8>;

/// Whether `p` is the compressed encoding of a point.
pub open spec fn is_point(p: Seq<u8>) -> bool {
    p.len() == 33 && spec_point_decode(p) == Some(p)
}

/// The encoding of the identity (the point at infinity): all zero.
pub open spec fn identity() -> Seq<u8> {
    Seq::new(33, |i: int| 0u8)
}

/// The sum of a sequence of points: the identity for none, else the points added from left to
/// right.
pub open spec fn point_sum(s: Seq<Seq<u8>>) -> Seq<u8>
    decreases s.len(),
{
    if s.len() == 0 {
        identity()
    } else if s.len() == 1 {
        s[0]
    } else {
        spec_point_add(point_sum(s.drop_last()), s.last())
    }
}

/// `generic_ec::Point::<Secp256k1>::from_bytes`, with the decoded point encoded again by
/// `to_bytes(true)`. A point's compressed encoding decodes to that point.
#[verifier::external_body]
fn k256_point_decode(bytes: &[u8]) -> (r: Option<[u8; 33]>)
    ensures
        r is None <==> spec_point_decode(bytes@) is None,
        r matches Some(p) ==> spec_point_decode(bytes@) == Some(p@) && is_point(p@),
{
    match generic_ec::Point::<generic_ec::curves::Secp256k1>::from_bytes(bytes) {
        Ok(p) => {
            let mut out = [0u8; 33];
            out.copy_from_slice(p.to_bytes(true).as_bytes());
            Some(out)
        },
        Err(_) => None,
    }
}

/// `generic_ec::Point::<Secp256k1>::zero`: the identity, whose compressed encoding is all zero.
#[verifier::external_body]
fn k256_point_zero() -> (r: [u8; 33])
    ensures
        r@ == identity(),
        is_point(r@),
{
    let mut out = [0u8; 33];
    out.copy_from_slice(
        generic_ec::Point::<generic_ec::curves::Secp256k1>::zero().to_bytes(true).as_bytes(),
    );
    out
}

/// The generator of `generic_ec` multiplied by a scalar (`Point::generator() * k`).
#[verifier::external_body]
fn k256_generator_mul(k: &[u8; 32]) -> (r: [u8; 33])
    requires
        be_nat(k@) < group_order(),
    ensures
        r@ == spec_generator_mul(be_nat(k@)),
        is_point(r@),
{
    let k = generic_ec::Scalar::<generic_ec::curves::Secp256k1>::from_be_bytes_mod_order(k);
    let p = generic_ec::Point::<generic_ec::curves::Secp256k1>::generator() * k;
    let mut out = [0u8; 33];
    out.copy_from_slice(p.to_bytes(true).as_bytes());
    out
}

/// A `generic_ec::Point::<Secp256k1>` multiplied by a scalar (`p * k`).
#[verifier::external_body]
fn k256_point_mul(p: &[u8; 33], k: &[u8; 32]) -> (r: [u8; 33])
    requires
        is_point(p@),
        be_nat(k@) < group_order(),
    ensures
        r@ == spec_point_mul(p@, be_nat(k@)),
        is_point(r@),
{
    let k = generic_ec::Scalar::<generic_ec::curves::Secp256k1>::from_be_bytes_mod_order(k);
    let p = generic_ec::Point::<generic_ec::curves::Secp256k1>::from_bytes(p).expect("a point");
    let mut out = [0u8; 33];
    out.copy_from_slice((p * k).to_bytes(true).as_bytes());
    out
}

/// The sum of two `generic_ec::Point::<Secp256k1>` (`p + q`).
#[verifier::external_body]
fn k256_point_add(p: &[u8; 33], q: &[u8; 33]) -> (r: [u8; 33])
    requires
        is_point(p@),
        is_point(q@),
    ensures
        r@ == spec_point_add(p@, q@),
        is_point(r@),
{
    let p = generic_ec::Point::<generic_ec::curves::Secp256k1>::from_bytes(p).expect("a point");
    let q = generic_ec::Point::<generic_ec::curves::Secp256k1>::from_bytes(q).expect("a point");
    let mut out = [0u8; 33];
    out.copy_from_slice((p + q).to_bytes(true).as_bytes());
    out
}

/// `x().to_scalar()` of a `generic_ec::NonZero<Point<Secp256k1>>`: the affine x coordinate,
/// which the compressed encoding holds in big-endian order after its first byte, reduced
/// modulo the group order.
#[verifier::external_body]
fn k256_point_x_scalar(p: &[u8; 33]) -> (r: [u8; 32])
    requires
        is_point(p@),
        p@ != identity(),
    ensures
        be_nat(r@) == be_nat(p@.subrange(1, 33)) % group_order(),
{
    let p = generic_ec::Point::<generic_ec::curves::Secp256k1>::from_bytes(p).expect("a point");
    let p = generic_ec::NonZero::from_point(p).expect("not the identity");
    let mut out = [0u8; 32];
    out.copy_from_slice(p.x().to_scalar().to_be_bytes().as_bytes());
    out
}

/// A point of the group, held as its 33-byte compressed encoding.
#[derive(Clone, Copy, Debug)]
pub struct Point {
    bytes: [u8; 33],
}

impl View for Point {
    type V = Seq<u8>;

    /// The compressed encoding.
    closed spec fn view(&self) -> Seq<u8> {
        self.bytes@
    }
}

impl Point {
    #[verifier::type_invariant]
    pub closed spec fn wf(self) -> bool {
        is_point(self.bytes@)
    }

    /// Points with one encoding are one point.
    pub proof fn lemma_eq(self, other: Point)
        requires
            self@ == other@,
        ensures
            self == other,
    {
        assert(self.bytes =~= other.bytes);
    }

    /// The identity.
    pub fn zero() -> (r: Point)
        ensures
            r@ == identity(),
    {
        Point { bytes: k256_point_zero() }
    }

    /// The generator multiplied by `k`.
    pub fn generator_mul(k: &Scalar) -> (r: Point)
        ensures
            r@ == spec_generator_mul(k@),
            is_point(r@),
    {
        let kb = k.to_be_bytes();
        Point { bytes: k256_generator_mul(&kb) }
    }

    /// This point multiplied by `k`.
    pub fn mul(&self, k: &Scalar) -> (r: Point)
        ensures
            r@ == spec_point_mul(self@, k@),
            is_point(r@),
    {
        proof {
            use_type_invariant(self);
        }
        let kb = k.to_be_bytes();
        Point { bytes: k256_point_mul(&self.bytes, &kb) }
    }

    /// The sum of this point and `other`.
    pub fn add(&self, other: &Point) -> (r: Point)
        ensures
            r@ == spec_point_add(self@, other@),
            is_point(r@),
    {
        proof {
            use_type_invariant(self);
            use_type_invariant(other);
        }
        Point { bytes: k256_point_add(&self.bytes, &other.bytes) }
    }

    /// Decodes a point: `None` where the bytes encode none.
    pub fn from_bytes(bytes: &[u8]) -> (r: Option<Point>)
        ensures
            r is None <==> spec_point_decode(bytes@) is None,
            r matches Some(p) ==> spec_point_decode(bytes@) == Some(p@) && is_point(p@),
    {
        match k256_point_decode(bytes) {
            Some(b) => Some(Point { bytes: b }),
            None => None,
        }
    }

    /// The compressed encoding.
    pub fn to_bytes(&self) -> (r: [u8; 33])
        ensures
            r@ == self@,
            is_point(self@),
    {
        proof {
            use_type_invariant(self);
        }
        self.bytes
    }

    /// Whether this is the identity.
    pub fn is_zero(&self) -> (r: bool)
        ensures
            r == (self@ == identity()),
    {
        let z = k256_point_zero();
        bytes_eq(self.bytes.as_slice(), z.as_slice())
    }

    /// Whether two points are equal.
    pub fn eq(&self, other: &Point) -> (r: bool)
        ensures
            r == (self@ == other@),
            r == (*self == *other),
    {
        let r = bytes_eq(self.bytes.as_slice(), other.bytes.as_slice());
        proof {
            if self@ == other@ {
                self.lemma_eq(*other);
            }
        }
        r
    }

    /// The x coordinate reduced modulo the group order; `None` for the identity, which has no
    /// coordinates.
    pub fn x_scalar(&self) -> (r: Option<Scalar>)
        ensures
            r is None <==> self@ == identity(),
            r matches Some(x) ==> x@ == x_of(self@),
    {
        proof {
            use_type_invariant(self);
        }
        if self.is_zero() {
            None
        } else {
            let xb = k256_point_x_scalar(&self.bytes);
            let x = Scalar::from_be_bytes_mod_order(xb.as_slice());
            proof {
                vstd::arithmetic::div_mod::lemma_mod_twice(
                    be_nat(self.bytes@.subrange(1, 33)) as int,
                    group_order() as int,
                );
            }
            Some(x)
        }
    }
}

/// The x coordinate that a compressed encoding holds, reduced modulo the group order.
pub open spec fn x_of(p: Seq<u8>) -> nat {
    be_nat(p.subrange(1, 33)) % group_order()
}

/// The encodings of a sequence of points.
pub open spec fn encodings(s: Seq<Point>) -> Seq<Seq<u8>> {
    Seq::new(s.len(), |i: int| s[i]@)
}

/// The sum of the points of `points`.
pub fn sum_points(points: &Vec<Point>) -> (r: Point)
    ensures
        r@ == point_sum(encodings(points@)),
{
    if points.len() == 0 {
        return Point::zero();
    }
    let mut acc = points[0];
    let mut i: usize = 1;
    assert(encodings(points@).subrange(0, 1) =~= seq![points[0]@]);
    while i < points.len()
        invariant
            1 <= i <= points.len(),
            acc@ == point_sum(encodings(points@).subrange(0, i as int)),
        decreases points.len() - i,
    {
        let ghost before = encodings(points@).subrange(0, i as int);
        let ghost after = encodings(points@).subrange(0, i + 1);
        assert(after.drop_last() =~= before);
        assert(after.last() == points[i as int]@);
        acc = acc.add(&points[i]);
        i += 1;
    }
    assert(encodings(points@).subrange(0, points.len() as int) =~= encodings(points@));
    acc
}

/// A point other than the identity.
#[derive(Clone, Copy, Debug)]
pub struct NonZeroPoint {
    inner: Point,
}

impl View for NonZeroPoint {
    type V = Seq<u8>;

    /// The compressed encoding.
    closed spec fn view(&self) -> Seq<u8> {
        self.inner@
    }
}

impl NonZeroPoint {
    #[verifier::type_invariant]
    pub closed spec fn wf(self) -> bool {
        self.inner@ != identity() && self.inner.wf()
    }

    /// `Some` for a point other than the identity.
    pub fn from_point(p: Point) -> (r: Option<NonZeroPoint>)
        ensures
            r is None <==> p@ == identity(),
            r matches Some(v) ==> v@ == p@,
    {
        proof {
            use_type_invariant(&p);
        }
        if p.is_zero() {
            None
        } else {
            Some(NonZeroPoint { inner: p })
        }
    }

    /// The point itself.
    pub fn to_point(&self) -> (r: Point)
        ensures
            r@ == self@,
            self@ != identity(),
            is_point(self@),
    {
        proof {
            use_type_invariant(self);
        }
        self.inner
    }

    /// The x coordinate reduced modulo the group order.
    pub fn x_scalar(&self) -> (r: Scalar)
        ensures
            r@ == x_of(self@),
    {
        proof {
            use_type_invariant(self);
        }
        match self.inner.x_scalar() {
            Some(x) => x,
            None => {
                proof {
                    assert(false);
                }
                Scalar::zero()
            },
        }
    }
}

} // verus!

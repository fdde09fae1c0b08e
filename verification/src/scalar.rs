//! Scalars of the secp256k1 group: integers modulo the group order.

use crate::bytes::be_nat;
use crate::bytes::bytes_eq;
use crate::bytes::bytes_lt;
use crate::bytes::lemma_be_nat_injective;
use crate::bytes::lemma_be_nat_zeros;
use vstd::arithmetic::div_mod::lemma_mul_mod_noop_general;
use vstd::arithmetic::div_mod::lemma_small_mod;
use vstd::arithmetic::mul::lemma_mul_is_associative;
use vstd::arithmetic::mul::lemma_mul_is_commutative;
use vstd::prelude::*;

verus! {

/// Length in bytes of an encoded scalar.
pub const SCALAR_LEN: usize = 32;

/// Order `q` of the secp256k1 group.
pub open spec fn group_order() -> nat {
    0xFFFFFFFF_FFFFFFFF_FFFFFFFF_FFFFFFFE_BAAEDCE6_AF48A03B_BFD25E8C_D0364141nat
}

/// Whether `v` is the multiplicative inverse of `a` modulo the group order.
pub open spec fn is_inverse(v: nat, a: nat) -> bool {
    v < group_order() && (v * a) % group_order() == 1
}

/// The multiplicative inverse of `a` modulo the group order, where there is one.
pub open spec fn inverse(a: nat) -> nat {
    choose|v: nat| is_inverse(v, a)
}

/// Sum modulo the group order.
pub open spec fn add_mod(a: nat, b: nat) -> nat {
    (a + b) % group_order()
}

/// Product modulo the group order.
pub open spec fn mul_mod(a: nat, b: nat) -> nat {
    (a * b) % group_order()
}

/// Additive inverse modulo the group order.
pub open spec fn neg_mod(a: nat) -> nat {
    ((group_order() - a % group_order()) as nat) % group_order()
}

/// Difference modulo the group order.
pub open spec fn sub_mod(a: nat, b: nat) -> nat {
    add_mod(a, neg_mod(b))
}

/// A number has at most one inverse below the group order.
pub proof fn lemma_inverse_unique(v: nat, w: nat, a: nat)
    requires
        is_inverse(v, a),
        is_inverse(w, a),
    ensures
        v == w,
{
    let q = group_order() as int;
    let (vi, wi, ai) = (v as int, w as int, a as int);
    // v = v * (w * a) = (v * a) * w = w  (mod q)
    lemma_mul_mod_noop_general(vi, wi * ai, q);
    lemma_mul_mod_noop_general(vi * ai, wi, q);
    lemma_mul_is_associative(vi, wi, ai);
    lemma_mul_is_associative(vi, ai, wi);
    lemma_mul_is_commutative(wi, ai);
    assert(vi * (wi * ai) == (vi * ai) * wi);
    lemma_small_mod(v, group_order());
    lemma_small_mod(w, group_order());
    assert((vi * ((wi * ai) % q)) % q == (vi * 1) % q);
    assert(((vi * ai) % q * wi) % q == (1 * wi) % q);
    assert(vi * 1 == vi);
    assert(1 * wi == wi);
}

/// The inverse, once one is known.
pub proof fn lemma_inverse_is(v: nat, a: nat)
    requires
        is_inverse(v, a),
    ensures
        inverse(a) == v,
{
    lemma_inverse_unique(inverse(a), v, a);
}

/// `generic_ec::Scalar::<Secp256k1>::from_be_bytes_mod_order`: the bytes are read as a
/// big-endian integer of any length, and the result is that integer modulo the group order.
#[verifier::external_body]
fn k256_scalar_reduce(bytes: &[u8]) -> (r: [u8; 32])
    ensures
        be_nat(r@) == be_nat(bytes@) % group_order(),
{
    let s = generic_ec::Scalar::<generic_ec::curves::Secp256k1>::from_be_bytes_mod_order(bytes);
    let mut out = [0u8; 32];
    out.copy_from_slice(s.to_be_bytes().as_bytes());
    out
}

/// Addition of `generic_ec::Scalar::<Secp256k1>` (`+`): the sum modulo the group order.
#[verifier::external_body]
fn k256_scalar_add(a: &[u8; 32], b: &[u8; 32]) -> (r: [u8; 32])
    requires
        be_nat(a@) < group_order(),
        be_nat(b@) < group_order(),
    ensures
        be_nat(r@) == add_mod(be_nat(a@), be_nat(b@)),
{
    let x = generic_ec::Scalar::<generic_ec::curves::Secp256k1>::from_be_bytes_mod_order(a);
    let y = generic_ec::Scalar::<generic_ec::curves::Secp256k1>::from_be_bytes_mod_order(b);
    let mut out = [0u8; 32];
    out.copy_from_slice((x + y).to_be_bytes().as_bytes());
    out
}

/// Multiplication of `generic_ec::Scalar::<Secp256k1>` (`*`): the product modulo the group
/// order.
#[verifier::external_body]
fn k256_scalar_mul(a: &[u8; 32], b: &[u8; 32]) -> (r: [u8; 32])
    requires
        be_nat(a@) < group_order(),
        be_nat(b@) < group_order(),
    ensures
        be_nat(r@) == mul_mod(be_nat(a@), be_nat(b@)),
{
    let x = generic_ec::Scalar::<generic_ec::curves::Secp256k1>::from_be_bytes_mod_order(a);
    let y = generic_ec::Scalar::<generic_ec::curves::Secp256k1>::from_be_bytes_mod_order(b);
    let mut out = [0u8; 32];
    out.copy_from_slice((x * y).to_be_bytes().as_bytes());
    out
}

/// Negation of `generic_ec::Scalar::<Secp256k1>` (unary `-`): the additive inverse modulo the
/// group order.
#[verifier::external_body]
fn k256_scalar_neg(a: &[u8; 32]) -> (r: [u8; 32])
    requires
        be_nat(a@) < group_order(),
    ensures
        be_nat(r@) == neg_mod(be_nat(a@)),
{
    let x = generic_ec::Scalar::<generic_ec::curves::Secp256k1>::from_be_bytes_mod_order(a);
    let mut out = [0u8; 32];
    out.copy_from_slice((-x).to_be_bytes().as_bytes());
    out
}

/// `generic_ec::Scalar::<Secp256k1>::invert`: `None` for zero, otherwise the scalar whose
/// product with the argument is one.
#[verifier::external_body]
fn k256_scalar_invert(a: &[u8; 32]) -> (r: Option<[u8; 32]>)
    requires
        be_nat(a@) < group_order(),
    ensures
        r is None <==> be_nat(a@) == 0,
        r matches Some(v) ==> is_inverse(be_nat(v@), be_nat(a@)),
{
    let x = generic_ec::Scalar::<generic_ec::curves::Secp256k1>::from_be_bytes_mod_order(a);
    x.invert().map(|v| {
        let mut out = [0u8; 32];
        out.copy_from_slice(v.to_be_bytes().as_bytes());
        out
    })
}

/// An integer modulo the group order, held as its 32-byte big-endian encoding.
#[derive(Clone, Copy, Debug)]
pub struct Scalar {
    bytes: [u8; 32],
}

impl View for Scalar {
    type V = nat;

    /// The integer in `[0, q)` that the scalar stands for.
    closed spec fn view(&self) -> nat {
        be_nat(self.bytes@)
    }
}

impl Scalar {
    #[verifier::type_invariant]
    pub closed spec fn wf(self) -> bool {
        be_nat(self.bytes@) < group_order()
    }

    /// A well-formed scalar is below the group order.
    pub proof fn lemma_range(self)
        requires
            self.wf(),
        ensures
            self@ < group_order(),
    {
    }

    /// The 32-byte big-endian encoding of the scalar.
    pub closed spec fn encoding(self) -> Seq<u8> {
        self.bytes@
    }

    /// The encoding has 32 bytes, which encode the scalar's value.
    pub proof fn lemma_encoding(self)
        ensures
            self.encoding().len() == 32,
            be_nat(self.encoding()) == self@,
    {
    }

    /// Scalars with one value are one scalar.
    pub proof fn lemma_eq(self, other: Scalar)
        requires
            self@ == other@,
        ensures
            self == other,
    {
        lemma_be_nat_injective(self.bytes@, other.bytes@);
        assert(self.bytes =~= other.bytes);
    }

    /// The scalar zero.
    pub fn zero() -> (r: Scalar)
        ensures
            r@ == 0,
    {
        let bytes = [0u8; 32];
        proof {
            lemma_be_nat_zeros(bytes@);
        }
        Scalar { bytes }
    }

    /// Reads `bytes` as a big-endian integer and reduces it modulo the group order.
    pub fn from_be_bytes_mod_order(bytes: &[u8]) -> (r: Scalar)
        ensures
            r@ == be_nat(bytes@) % group_order(),
    {
        Scalar { bytes: k256_scalar_reduce(bytes) }
    }

    /// Decodes a scalar from its 32-byte big-endian encoding: `None` unless there are 32 bytes,
    /// which encode a number below the group order.
    pub fn from_be_bytes(bytes: &[u8]) -> (r: Option<Scalar>)
        ensures
            r is Some <==> bytes@.len() == 32 && be_nat(bytes@) < group_order(),
            r matches Some(s) ==> s@ == be_nat(bytes@),
    {
        if bytes.len() != 32 {
            return None;
        }
        let s = Scalar::from_be_bytes_mod_order(bytes);
        proof {
            use_type_invariant(&s);
            if be_nat(bytes@) < group_order() {
                lemma_small_mod(be_nat(bytes@), group_order());
                lemma_be_nat_injective(s.bytes@, bytes@);
            }
        }
        if bytes_eq(s.bytes.as_slice(), bytes) {
            Some(s)
        } else {
            None
        }
    }

    /// The scalar that stands for a small integer.
    pub fn from_u16(v: u16) -> (r: Scalar)
        ensures
            r@ == v,
    {
        let pair = [(v >> 8) as u8, (v & 0xff) as u8];
        assert(be_nat(pair@) == v) by {
            reveal_with_fuel(be_nat, 3);
            let hi = (v >> 8) as u8;
            let lo = (v & 0xff) as u8;
            assert(pair@.last() == lo);
            assert(pair@.drop_last().last() == hi);
            assert(hi as nat * 256 + lo as nat == v as nat) by (bit_vector)
                requires
                    hi == (v >> 8) as u8,
                    lo == (v & 0xff) as u8,
            ;
        }
        let r = Scalar::from_be_bytes_mod_order(pair.as_slice());
        proof {
            lemma_small_mod(v as nat, group_order());
        }
        r
    }

    /// The 32-byte big-endian encoding.
    pub fn to_be_bytes(&self) -> (r: [u8; 32])
        ensures
            r@ == self.encoding(),
            be_nat(r@) == self@,
            self@ < group_order(),
    {
        proof {
            use_type_invariant(self);
        }
        self.bytes
    }

    /// Sum modulo the group order.
    pub fn add(&self, other: &Scalar) -> (r: Scalar)
        ensures
            r@ == add_mod(self@, other@),
    {
        proof {
            use_type_invariant(self);
            use_type_invariant(other);
        }
        Scalar { bytes: k256_scalar_add(&self.bytes, &other.bytes) }
    }

    /// Product modulo the group order.
    pub fn mul(&self, other: &Scalar) -> (r: Scalar)
        ensures
            r@ == mul_mod(self@, other@),
    {
        proof {
            use_type_invariant(self);
            use_type_invariant(other);
        }
        Scalar { bytes: k256_scalar_mul(&self.bytes, &other.bytes) }
    }

    /// Additive inverse modulo the group order.
    pub fn neg(&self) -> (r: Scalar)
        ensures
            r@ == neg_mod(self@),
    {
        proof {
            use_type_invariant(self);
        }
        Scalar { bytes: k256_scalar_neg(&self.bytes) }
    }

    /// Difference modulo the group order.
    pub fn sub(&self, other: &Scalar) -> (r: Scalar)
        ensures
            r@ == sub_mod(self@, other@),
    {
        let n = other.neg();
        self.add(&n)
    }

    /// The multiplicative inverse: `None` for zero.
    pub fn invert(&self) -> (r: Option<Scalar>)
        ensures
            r is None <==> self@ == 0,
            r matches Some(v) ==> v@ == inverse(self@) && is_inverse(v@, self@),
    {
        proof {
            use_type_invariant(self);
        }
        match k256_scalar_invert(&self.bytes) {
            Some(bytes) => {
                proof {
                    lemma_inverse_is(be_nat(bytes@), be_nat(self.bytes@));
                }
                Some(Scalar { bytes })
            },
            None => None,
        }
    }

    /// Whether this is the scalar zero.
    pub fn is_zero(&self) -> (r: bool)
        ensures
            r == (self@ == 0),
    {
        let z = Scalar::zero();
        self.eq(&z)
    }

    /// Whether two scalars are equal.
    pub fn eq(&self, other: &Scalar) -> (r: bool)
        ensures
            r == (self@ == other@),
            r == (*self == *other),
    {
        let r = bytes_eq(self.bytes.as_slice(), other.bytes.as_slice());
        proof {
            if self@ == other@ {
                self.lemma_eq(*other);
            }
        }
        r
    }

    /// Whether this scalar is smaller than `other`, as integers in `[0, q)`.
    pub fn lt(&self, other: &Scalar) -> (r: bool)
        ensures
            r == (self@ < other@),
    {
        bytes_lt(self.bytes.as_slice(), other.bytes.as_slice())
    }
}

/// A scalar other than zero.
#[derive(Clone, Copy, Debug)]
pub struct NonZeroScalar {
    inner: Scalar,
}

impl View for NonZeroScalar {
    type V = nat;

    /// The integer in `[1, q)` that the scalar stands for.
    closed spec fn view(&self) -> nat {
        self.inner@
    }
}

impl NonZeroScalar {
    #[verifier::type_invariant]
    pub closed spec fn wf(self) -> bool {
        self.inner@ != 0 && self.inner.wf()
    }

    /// A well-formed non-zero scalar lies in `[1, q)`.
    pub proof fn lemma_range(self)
        requires
            self.wf(),
        ensures
            0 < self@ < group_order(),
    {
    }

    /// The 32-byte big-endian encoding of the scalar.
    pub closed spec fn encoding(self) -> Seq<u8> {
        self.inner.encoding()
    }

    /// The encoding has 32 bytes, which encode the scalar's value.
    pub proof fn lemma_encoding(self)
        ensures
            self.encoding().len() == 32,
            be_nat(self.encoding()) == self@,
    {
        self.inner.lemma_encoding();
    }

    /// Non-zero scalars with one value are one scalar.
    pub proof fn lemma_eq(self, other: NonZeroScalar)
        requires
            self@ == other@,
        ensures
            self == other,
    {
        self.inner.lemma_eq(other.inner);
    }

    /// `Some` for a scalar other than zero.
    pub fn from_scalar(s: Scalar) -> (r: Option<NonZeroScalar>)
        ensures
            r is None <==> s@ == 0,
            r matches Some(v) ==> v@ == s@,
    {
        proof {
            use_type_invariant(&s);
        }
        if s.is_zero() {
            None
        } else {
            Some(NonZeroScalar { inner: s })
        }
    }

    /// The scalar itself.
    pub fn to_scalar(&self) -> (r: Scalar)
        ensures
            r@ == self@,
            r.encoding() == self.encoding(),
            0 < self@ < group_order(),
    {
        proof {
            use_type_invariant(self);
        }
        self.inner
    }

    /// The multiplicative inverse, which every non-zero scalar has.
    pub fn invert(&self) -> (r: NonZeroScalar)
        ensures
            r@ == inverse(self@),
            is_inverse(r@, self@),
    {
        proof {
            use_type_invariant(self);
        }
        match self.inner.invert() {
            Some(v) => {
                proof {
                    use_type_invariant(&v);
                    if v@ == 0 {
                        assert(0 * self@ == 0) by (nonlinear_arith);
                    }
                }
                NonZeroScalar { inner: v }
            },
            None => {
                proof {
                    assert(false);
                }
                *self
            },
        }
    }

    /// The additive inverse, which is not zero either.
    pub fn neg(&self) -> (r: NonZeroScalar)
        ensures
            r@ == neg_mod(self@),
            r@ == group_order() - self@,
    {
        proof {
            use_type_invariant(self);
            lemma_small_mod(self@, group_order());
            lemma_small_mod((group_order() - self@) as nat, group_order());
        }
        let v = self.inner.neg();
        proof {
            use_type_invariant(&v);
        }
        NonZeroScalar { inner: v }
    }

    /// Whether this scalar is smaller than `other`, as integers.
    pub fn lt(&self, other: &NonZeroScalar) -> (r: bool)
        ensures
            r == (self@ < other@),
    {
        self.inner.lt(&other.inner)
    }
}

/// The values of a sequence of scalars.
pub open spec fn values(s: Seq<Scalar>) -> Seq<nat> {
    Seq::new(s.len(), |i: int| s[i]@)
}

/// The sum of a sequence of numbers modulo the group order, added from left to right.
pub open spec fn sum_mod(s: Seq<nat>) -> nat
    decreases s.len(),
{
    if s.len() == 0 {
        0
    } else {
        add_mod(sum_mod(s.drop_last()), s.last())
    }
}

/// The sum of the scalars of `scalars`.
pub fn sum_scalars(scalars: &Vec<Scalar>) -> (r: Scalar)
    ensures
        r@ == sum_mod(values(scalars@)),
{
    let mut acc = Scalar::zero();
    let mut i: usize = 0;
    assert(values(scalars@).subrange(0, 0) =~= Seq::<nat>::empty());
    while i < scalars.len()
        invariant
            i <= scalars.len(),
            acc@ == sum_mod(values(scalars@).subrange(0, i as int)),
        decreases scalars.len() - i,
    {
        let ghost before = values(scalars@).subrange(0, i as int);
        let ghost after = values(scalars@).subrange(0, i + 1);
        assert(after.drop_last() =~= before);
        assert(after.last() == scalars[i as int]@);
        acc = acc.add(&scalars[i]);
        i += 1;
    }
    assert(values(scalars@).subrange(0, scalars.len() as int) =~= values(scalars@));
    acc
}

} // verus!

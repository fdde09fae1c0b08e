//! Integers of any size, held as a sign and the big-endian bytes of the magnitude.

use crate::bytes::be_nat;
use crate::scalar::group_order;
use crate::scalar::Scalar;
use vstd::arithmetic::div_mod::lemma_fundamental_div_mod;
use vstd::arithmetic::div_mod::lemma_mod_multiples_vanish;
use vstd::arithmetic::div_mod::lemma_small_mod;
use vstd::arithmetic::power::pow;
use vstd::prelude::*;

verus! {

/// An integer: Paillier moduli, ciphertexts and the masks of the signing protocol are of this
/// type.
#[derive(Debug, Clone)]
pub struct BigNumber {
    /// Whether the number is below zero. Zero has no sign.
    pub negative: bool,
    /// The magnitude, in big-endian order; leading zero bytes do not count.
    pub magnitude: Vec<u8>,
}

impl View for BigNumber {
    type V = int;

    /// The integer that the number stands for.
    open spec fn view(&self) -> int {
        if self.negative {
            -(be_nat(self.magnitude@) as int)
        } else {
            be_nat(self.magnitude@) as int
        }
    }
}

impl BigNumber {
    /// The number that `bytes` encode in big-endian order.
    pub fn from_be_bytes(bytes: Vec<u8>) -> (r: BigNumber)
        ensures
            r@ == be_nat(bytes@),
            r.magnitude@ == bytes@,
            !r.negative,
    {
        BigNumber { negative: false, magnitude: bytes }
    }

    /// A copy of the number.
    pub fn duplicate(&self) -> (r: BigNumber)
        ensures
            r.negative == self.negative,
            r.magnitude@ == self.magnitude@,
            r@ == self@,
    {
        let magnitude = self.magnitude.clone();
        assert(magnitude@ =~= self.magnitude@);
        BigNumber { negative: self.negative, magnitude }
    }

    /// The number modulo the group order, as a scalar: a negative number `-m` gives
    /// `q - (m mod q)`, or zero where `q` divides `m`.
    pub fn to_scalar(&self) -> (r: Scalar)
        ensures
            r@ == self@ % (group_order() as int),
    {
        let m = Scalar::from_be_bytes_mod_order(self.magnitude.as_slice());
        if self.negative {
            let r = m.neg();
            proof {
                let q = group_order() as int;
                let v = be_nat(self.magnitude@) as int;
                lemma_neg_mod(v, q);
            }
            r
        } else {
            m
        }
    }
}

/// The remainder of a negated number: `(-v) mod q` is `(q - v mod q) mod q`.
pub proof fn lemma_neg_mod(v: int, q: int)
    requires
        q > 0,
    ensures
        (-v) % q == (q - v % q) % q,
{
    lemma_fundamental_div_mod(v, q);
    let d = v / q;
    let r = v % q;
    assert(-v == q * (-d - 1) + (q - r)) by (nonlinear_arith)
        requires
            v == q * d + r,
    ;
    lemma_mod_multiples_vanish(-d - 1, q - r, q);
}

/// The number of bits that it takes to write `v`: zero for zero.
pub open spec fn bit_length_of(v: nat) -> nat
    decreases v,
{
    if v == 0 {
        0
    } else {
        1 + bit_length_of(v / 2)
    }
}

/// Appending a bit to a number other than zero makes it one bit longer.
proof fn lemma_bit_length_shift1(v: nat, c: nat)
    requires
        v > 0,
        c < 2,
    ensures
        bit_length_of(2 * v + c) == bit_length_of(v) + 1,
{
    assert((2 * v + c) / 2 == v);
}

/// Appending a byte to a number other than zero makes it eight bits longer.
pub proof fn lemma_bit_length_shift8(v: nat, c: nat)
    requires
        v > 0,
        c < 256,
    ensures
        bit_length_of(256 * v + c) == bit_length_of(v) + 8,
{
    let c1 = c / 2;
    let c2 = c1 / 2;
    let c3 = c2 / 2;
    let c4 = c3 / 2;
    let c5 = c4 / 2;
    let c6 = c5 / 2;
    let c7 = c6 / 2;
    lemma_bit_length_shift1(v, c7);
    lemma_bit_length_shift1(2 * v + c7, c6 % 2);
    lemma_bit_length_shift1(4 * v + c6, c5 % 2);
    lemma_bit_length_shift1(8 * v + c5, c4 % 2);
    lemma_bit_length_shift1(16 * v + c4, c3 % 2);
    lemma_bit_length_shift1(32 * v + c3, c2 % 2);
    lemma_bit_length_shift1(64 * v + c2, c1 % 2);
    lemma_bit_length_shift1(128 * v + c1, c % 2);
}

/// The bit length of a byte.
fn byte_bit_length(b: u8) -> (r: usize)
    ensures
        r == bit_length_of(b as nat),
        r <= 8,
{
    proof {
        reveal_with_fuel(bit_length_of, 10);
    }
    if b >= 128 {
        8
    } else if b >= 64 {
        7
    } else if b >= 32 {
        6
    } else if b >= 16 {
        5
    } else if b >= 8 {
        4
    } else if b >= 4 {
        3
    } else if b >= 2 {
        2
    } else if b >= 1 {
        1
    } else {
        0
    }
}

impl BigNumber {
    /// The number of significant bits of the magnitude: zero for zero. `None` where the
    /// count does not fit the machine's integers.
    pub fn bit_length(&self) -> (r: Option<usize>)
        ensures
            r matches Some(n) ==> n == bit_length_of(be_nat(self.magnitude@)),
            r is None ==> bit_length_of(be_nat(self.magnitude@)) > usize::MAX,
    {
        let n: usize = self.magnitude.len();
        // Skip the leading zero bytes.
        let mut start: usize = 0;
        while start < n && self.magnitude[start] == 0
            invariant
                start <= n,
                n == self.magnitude@.len(),
                forall|j: int| 0 <= j < start ==> self.magnitude@[j] == 0u8,
            decreases n - start,
        {
            start += 1;
        }
        proof {
            let head = self.magnitude@.subrange(0, start as int);
            let tail = self.magnitude@.subrange(start as int, n as int);
            assert(self.magnitude@ =~= head + tail);
            crate::bytes::lemma_be_nat_leading_zeros(head, tail);
        }
        if start == n {
            proof {
                assert(self.magnitude@.subrange(start as int, n as int) =~= Seq::<u8>::empty());
            }
            return Some(0);
        }
        let mut bits: usize = byte_bit_length(self.magnitude[start]);
        let mut k: usize = start + 1;
        proof {
            reveal_with_fuel(be_nat, 2);
            let one = self.magnitude@.subrange(start as int, start + 1);
            assert(one.drop_last() =~= Seq::<u8>::empty());
            assert(be_nat(one) == self.magnitude@[start as int]);
        }
        let mut overflow = false;
        while k < n
            invariant
                start < k <= n,
                n == self.magnitude@.len(),
                self.magnitude@[start as int] != 0,
                be_nat(self.magnitude@.subrange(start as int, k as int)) > 0,
                !overflow ==> bits == bit_length_of(
                    be_nat(self.magnitude@.subrange(start as int, k as int)),
                ),
                overflow ==> bit_length_of(
                    be_nat(self.magnitude@.subrange(start as int, k as int)),
                ) > usize::MAX,
            decreases n - k,
        {
            proof {
                let before = self.magnitude@.subrange(start as int, k as int);
                let after = self.magnitude@.subrange(start as int, k + 1);
                assert(after.drop_last() =~= before);
                assert(after.last() == self.magnitude@[k as int]);
                lemma_bit_length_shift8(be_nat(before), self.magnitude@[k as int] as nat);
                assert(be_nat(after) == 256 * be_nat(before) + self.magnitude@[k as int]);
            }
            if !overflow {
                match bits.checked_add(8) {
                    Some(b) => {
                        bits = b;
                    },
                    None => {
                        overflow = true;
                    },
                }
            }
            k += 1;
        }
        if overflow {
            None
        } else {
            Some(bits)
        }
    }
}

/// The greatest common divisor of two numbers; that of a number and zero is the number.
pub open spec fn gcd(a: nat, b: nat) -> nat
    decreases b,
{
    if b == 0 {
        a
    } else {
        gcd(b, a % b)
    }
}

/// `+` of `num_bigint::BigUint`: the sum of the two numbers.
#[verifier::external_body]
fn biguint_add(a: &[u8], b: &[u8]) -> (r: Vec<u8>)
    ensures
        be_nat(r@) == be_nat(a@) + be_nat(b@),
{
    (num_bigint::BigUint::from_bytes_be(a) + num_bigint::BigUint::from_bytes_be(b)).to_bytes_be()
}

/// `-` of `num_bigint::BigUint`: the difference of the two numbers, of which the first must
/// not be the smaller.
#[verifier::external_body]
fn biguint_sub(a: &[u8], b: &[u8]) -> (r: Vec<u8>)
    requires
        be_nat(a@) >= be_nat(b@),
    ensures
        be_nat(r@) == be_nat(a@) - be_nat(b@),
{
    (num_bigint::BigUint::from_bytes_be(a) - num_bigint::BigUint::from_bytes_be(b)).to_bytes_be()
}

/// `*` of `num_bigint::BigUint`: the product of the two numbers.
#[verifier::external_body]
fn biguint_mul(a: &[u8], b: &[u8]) -> (r: Vec<u8>)
    ensures
        be_nat(r@) == be_nat(a@) * be_nat(b@),
{
    (num_bigint::BigUint::from_bytes_be(a) * num_bigint::BigUint::from_bytes_be(b)).to_bytes_be()
}

/// `>> 1` of `num_bigint::BigUint`: half the number, rounded down.
#[verifier::external_body]
fn biguint_half(a: &[u8]) -> (r: Vec<u8>)
    ensures
        be_nat(r@) == be_nat(a@) / 2,
{
    (num_bigint::BigUint::from_bytes_be(a) >> 1usize).to_bytes_be()
}

/// `gcd` of `num_bigint::BigUint` (its `num_integer::Integer`): the greatest common divisor.
#[verifier::external_body]
fn biguint_gcd(a: &[u8], b: &[u8]) -> (r: Vec<u8>)
    ensures
        be_nat(r@) == gcd(be_nat(a@), be_nat(b@)),
{
    num_integer::Integer::gcd(
        &num_bigint::BigUint::from_bytes_be(a),
        &num_bigint::BigUint::from_bytes_be(b),
    ).to_bytes_be()
}

/// `<` of `num_bigint::BigUint`: whether the first number is the smaller.
#[verifier::external_body]
fn biguint_less(a: &[u8], b: &[u8]) -> (r: bool)
    ensures
        r == (be_nat(a@) < be_nat(b@)),
{
    num_bigint::BigUint::from_bytes_be(a) < num_bigint::BigUint::from_bytes_be(b)
}

/// `modpow` of `num_bigint::BigUint`: the power of the base to the exponent, modulo a modulus
/// that must not be zero.
#[verifier::external_body]
fn biguint_modpow(base: &[u8], exponent: &[u8], modulus: &[u8]) -> (r: Vec<u8>)
    requires
        be_nat(modulus@) != 0,
    ensures
        be_nat(r@) == pow(be_nat(base@) as int, be_nat(exponent@)) % (be_nat(modulus@) as int),
{
    num_bigint::BigUint::from_bytes_be(base).modpow(
        &num_bigint::BigUint::from_bytes_be(exponent),
        &num_bigint::BigUint::from_bytes_be(modulus),
    ).to_bytes_be()
}

/// `%` of `num_bigint::BigUint`: the remainder of the division by a number that must not be
/// zero.
#[verifier::external_body]
fn biguint_rem(a: &[u8], modulus: &[u8]) -> (r: Vec<u8>)
    requires
        be_nat(modulus@) != 0,
    ensures
        be_nat(r@) == be_nat(a@) % be_nat(modulus@),
{
    (num_bigint::BigUint::from_bytes_be(a) % num_bigint::BigUint::from_bytes_be(modulus))
        .to_bytes_be()
}

impl BigNumber {
    /// The remainder of the magnitude of this number on division by that of `modulus`:
    /// `None` for the modulus zero.
    pub fn rem(&self, modulus: &BigNumber) -> (r: Option<BigNumber>)
        ensures
            r is Some <==> be_nat(modulus.magnitude@) != 0,
            r matches Some(v) ==> v@ == be_nat(self.magnitude@) % be_nat(modulus.magnitude@)
                && !v.negative,
    {
        let zero: [u8; 0] = [];
        proof {
            assert(zero@ =~= Seq::<u8>::empty());
        }
        if !biguint_less(zero.as_slice(), modulus.magnitude.as_slice()) {
            return None;
        }
        Some(
            BigNumber {
                negative: false,
                magnitude: biguint_rem(self.magnitude.as_slice(), modulus.magnitude.as_slice()),
            },
        )
    }

    /// The power of the magnitude of this number to that of `exponent`, modulo the magnitude
    /// of `modulus`: `None` for the modulus zero.
    pub fn modpow(&self, exponent: &BigNumber, modulus: &BigNumber) -> (r: Option<BigNumber>)
        ensures
            r is Some <==> be_nat(modulus.magnitude@) != 0,
            r matches Some(v) ==> v@ == pow(
                be_nat(self.magnitude@) as int,
                be_nat(exponent.magnitude@),
            ) % (be_nat(modulus.magnitude@) as int),
    {
        let zero: [u8; 0] = [];
        proof {
            assert(zero@ =~= Seq::<u8>::empty());
        }
        if !biguint_less(zero.as_slice(), modulus.magnitude.as_slice()) {
            return None;
        }
        let magnitude = biguint_modpow(
            self.magnitude.as_slice(),
            exponent.magnitude.as_slice(),
            modulus.magnitude.as_slice(),
        );
        Some(BigNumber { negative: false, magnitude })
    }

    /// The number one.
    pub fn one() -> (r: BigNumber)
        ensures
            r@ == 1,
    {
        let mut magnitude: Vec<u8> = Vec::new();
        magnitude.push(1);
        proof {
            reveal_with_fuel(be_nat, 2);
        }
        BigNumber { negative: false, magnitude }
    }

    /// Whether the number is above zero.
    pub fn is_positive(&self) -> (r: bool)
        ensures
            r == (self@ > 0),
    {
        let zero: [u8; 0] = [];
        proof {
            assert(zero@ =~= Seq::<u8>::empty());
        }
        !self.negative && biguint_less(zero.as_slice(), self.magnitude.as_slice())
    }

    /// Whether this number is smaller than `other`.
    pub fn less_than(&self, other: &BigNumber) -> (r: bool)
        ensures
            r == (self@ < other@),
    {
        if self.negative {
            if other.negative {
                biguint_less(other.magnitude.as_slice(), self.magnitude.as_slice())
            } else {
                // a number below or at zero against one at or above it
                let zero: [u8; 0] = [];
                proof {
                    assert(zero@ =~= Seq::<u8>::empty());
                }
                biguint_less(zero.as_slice(), self.magnitude.as_slice()) || biguint_less(
                    zero.as_slice(),
                    other.magnitude.as_slice(),
                )
            }
        } else {
            if other.negative {
                false
            } else {
                biguint_less(self.magnitude.as_slice(), other.magnitude.as_slice())
            }
        }
    }

    /// Whether this number equals `other`.
    pub fn equals(&self, other: &BigNumber) -> (r: bool)
        ensures
            r == (self@ == other@),
    {
        !self.less_than(other) && !other.less_than(self)
    }

    /// The sum of this number and `other`.
    pub fn add(&self, other: &BigNumber) -> (r: BigNumber)
        ensures
            r@ == self@ + other@,
    {
        if self.negative == other.negative {
            BigNumber {
                negative: self.negative,
                magnitude: biguint_add(self.magnitude.as_slice(), other.magnitude.as_slice()),
            }
        } else if biguint_less(self.magnitude.as_slice(), other.magnitude.as_slice()) {
            BigNumber {
                negative: other.negative,
                magnitude: biguint_sub(other.magnitude.as_slice(), self.magnitude.as_slice()),
            }
        } else {
            BigNumber {
                negative: self.negative,
                magnitude: biguint_sub(self.magnitude.as_slice(), other.magnitude.as_slice()),
            }
        }
    }

    /// The additive inverse of this number.
    pub fn neg(&self) -> (r: BigNumber)
        ensures
            r@ == -self@,
    {
        let d = self.duplicate();
        BigNumber { negative: !d.negative, magnitude: d.magnitude }
    }

    /// The difference of this number and `other`.
    pub fn sub(&self, other: &BigNumber) -> (r: BigNumber)
        ensures
            r@ == self@ - other@,
    {
        self.add(&other.neg())
    }

    /// The product of this number and `other`.
    pub fn mul(&self, other: &BigNumber) -> (r: BigNumber)
        ensures
            r@ == self@ * other@,
    {
        let magnitude = biguint_mul(self.magnitude.as_slice(), other.magnitude.as_slice());
        proof {
            let a = be_nat(self.magnitude@) as int;
            let b = be_nat(other.magnitude@) as int;
            assert((-a) * b == -(a * b)) by (nonlinear_arith);
            assert(a * (-b) == -(a * b)) by (nonlinear_arith);
            assert((-a) * (-b) == a * b) by (nonlinear_arith);
        }
        BigNumber { negative: self.negative != other.negative, magnitude }
    }

    /// Half of a number that is not below zero, rounded down.
    pub fn half(&self) -> (r: BigNumber)
        requires
            self@ >= 0,
        ensures
            r@ == self@ / 2,
    {
        BigNumber { negative: false, magnitude: biguint_half(self.magnitude.as_slice()) }
    }

    /// The greatest common divisor of the magnitudes of this number and `other`.
    pub fn gcd(&self, other: &BigNumber) -> (r: BigNumber)
        ensures
            r@ == gcd(be_nat(self.magnitude@), be_nat(other.magnitude@)),
    {
        BigNumber {
            negative: false,
            magnitude: biguint_gcd(self.magnitude.as_slice(), other.magnitude.as_slice()),
        }
    }

    /// The remainder of the magnitude on division by four.
    pub fn magnitude_mod_4(&self) -> (r: u8)
        ensures
            r == be_nat(self.magnitude@) % 4,
    {
        let n: usize = self.magnitude.len();
        if n == 0 {
            0
        } else {
            let last: u8 = self.magnitude[n - 1];
            proof {
                let v = be_nat(self.magnitude@.drop_last());
                assert(self.magnitude@.last() == last);
                assert((v * 256 + last as nat) % 4 == (last as nat) % 4) by (nonlinear_arith);
            }
            last % 4
        }
    }
}

} // verus!

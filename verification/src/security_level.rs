//! Security level of CGGMP protocol
//!
//! Security level is defined as set of parameters in the CGGMP paper. Higher security level
//! gives more security but makes protocol execution slower.
//!
//! We provide a predefined default [ReasonablySecure] security level which should be
//! sufficient for $n \le 128$.

use crate::bignumber::bit_length_of;
use crate::bignumber::BigNumber;
use crate::bytes::be_nat;
use vstd::prelude::*;

verus! {

/// Hardcoded value for parameter $m$ of security level
pub const M: usize = 128;

/// Security level of the protocol
pub trait SecurityLevel {
    /// $\kappa$ bits of security
    spec fn spec_security_bits() -> usize;

    /// $\varepsilon$ bits
    spec fn spec_epsilon() -> usize;

    /// $\ell$ parameter
    spec fn spec_ell() -> usize;

    /// $\ell'$ parameter
    spec fn spec_ell_prime() -> usize;

    /// $q$ parameter
    spec fn spec_q() -> nat;

    /// A security level has at least eight bits, and few enough that the sizes of the Paillier
    /// keys can be counted.
    proof fn lemma_security_bits()
        ensures
            8 <= Self::spec_security_bits() <= 0x1000_0000,
    ;

    /// $\kappa$ bits of security
    fn security_bits() -> (r: usize)
        ensures
            r == Self::spec_security_bits(),
    ;

    /// $\kappa/8$ bytes of security
    fn security_bytes() -> (r: usize)
        ensures
            r == Self::spec_security_bits() / 8,
    ;

    /// $\varepsilon$ bits
    fn epsilon() -> (r: usize)
        ensures
            r == Self::spec_epsilon(),
    ;

    /// $\ell$ parameter
    fn ell() -> (r: usize)
        ensures
            r == Self::spec_ell(),
    ;

    /// $\ell'$ parameter
    fn ell_prime() -> (r: usize)
        ensures
            r == Self::spec_ell_prime(),
    ;

    /// $m$ parameter, which is [`M`] at every level
    fn m() -> (r: usize)
        ensures
            r == M,
    ;

    /// $q$ parameter
    ///
    /// Note that it's not curve order, and it doesn't need to be a prime, it's another security
    /// parameter that determines security level.
    fn q() -> (r: BigNumber)
        ensures
            r@ == Self::spec_q(),
    ;
}

/// Reasonably secure security level
///
/// This security level should be sufficient for $n \le 128$.
#[derive(Clone, Copy, Debug)]
pub struct ReasonablySecure;

impl SecurityLevel for ReasonablySecure {
    open spec fn spec_security_bits() -> usize {
        384
    }

    open spec fn spec_epsilon() -> usize {
        230
    }

    open spec fn spec_ell() -> usize {
        256
    }

    open spec fn spec_ell_prime() -> usize {
        848
    }

    open spec fn spec_q() -> nat {
        0x1_0000_0000_0000_0000_0000_0000_0000_0000nat
    }

    proof fn lemma_security_bits() {
    }

    fn security_bits() -> (r: usize) {
        384
    }

    fn security_bytes() -> (r: usize) {
        48
    }

    fn epsilon() -> (r: usize) {
        230
    }

    fn ell() -> (r: usize) {
        256
    }

    fn ell_prime() -> (r: usize) {
        848
    }

    fn m() -> (r: usize) {
        M
    }

    fn q() -> (r: BigNumber) {
        let mut bytes: Vec<u8> = Vec::new();
        bytes.push(1);
        proof {
            assert(be_nat(bytes@) == 1) by {
                reveal_with_fuel(be_nat, 2);
            }
            vstd::arithmetic::power::lemma_pow0(256);
        }
        let mut k: usize = 0;
        while k < 16
            invariant
                k <= 16,
                bytes@.len() == k + 1,
                be_nat(bytes@) == vstd::arithmetic::power::pow(256, k as nat),
            decreases 16 - k,
        {
            proof {
                vstd::arithmetic::power::lemma_pow_adds(256, k as nat, 1);
                vstd::arithmetic::power::lemma_pow1(256);
                assert(bytes@.push(0u8).drop_last() =~= bytes@);
            }
            bytes.push(0);
            k += 1;
        }
        proof {
            lemma_pow_256_16();
        }
        BigNumber::from_be_bytes(bytes)
    }
}

/// `256^16` is `2^128`.
proof fn lemma_pow_256_16()
    ensures
        vstd::arithmetic::power::pow(256, 16) == 0x1_0000_0000_0000_0000_0000_0000_0000_0000,
{
    reveal_with_fuel(vstd::arithmetic::power::pow, 17);
    assert(vstd::arithmetic::power::pow(256, 16) == 256 * 256 * 256 * 256 * 256 * 256 * 256
        * 256 * 256 * 256 * 256 * 256 * 256 * 256 * 256 * 256) by {
        reveal_with_fuel(vstd::arithmetic::power::pow, 17);
    }
}

/// Checks that public paillier key meets security level constraints: `N` has at least
/// $8\kappa - 1$ bits
pub fn validate_public_paillier_key_size<L: SecurityLevel>(N: &BigNumber) -> (r: bool)
    ensures
        r == (bit_length_of(be_nat(N.magnitude@)) >= 8 * L::spec_security_bits() - 1),
{
    proof {
        L::lemma_security_bits();
    }
    match N.bit_length() {
        Some(bits) => bits >= 8 * L::security_bits() - 1,
        None => true,
    }
}

/// Checks that secret paillier key meets security level constraints: `p` and `q` have at
/// least $4\kappa$ bits each
pub fn validate_secret_paillier_key_size<L: SecurityLevel>(p: &BigNumber, q: &BigNumber) -> (r:
    bool)
    ensures
        r == (bit_length_of(be_nat(p.magnitude@)) >= 4 * L::spec_security_bits()
            && bit_length_of(be_nat(q.magnitude@)) >= 4 * L::spec_security_bits()),
{
    proof {
        L::lemma_security_bits();
    }
    let p_ok = match p.bit_length() {
        Some(bits) => bits >= 4 * L::security_bits(),
        None => true,
    };
    let q_ok = match q.bit_length() {
        Some(bits) => bits >= 4 * L::security_bits(),
        None => true,
    };
    p_ok && q_ok
}

/// Why a hex string does not decode to a byte array
#[derive(Clone, Copy, Debug, PartialEq, Eq)]
pub enum FromHexError {
    /// An invalid character was found. Valid ones are: `0...9`, `a...f` or `A...F`.
    InvalidHexCharacter { c: char, index: usize },
    /// A hex string's length needs to be even, as two digits correspond to one byte.
    OddLength,
    /// The hex string does not have two digits for each byte of the array.
    InvalidStringLength,
}

/// The value of a hex digit, if `c` is one.
pub open spec fn hex_digit(c: u8) -> Option<u8> {
    if 0x30 <= c <= 0x39 {
        Some((c - 0x30) as u8)
    } else if 0x41 <= c <= 0x46 {
        Some((c - 0x41 + 10) as u8)
    } else if 0x61 <= c <= 0x66 {
        Some((c - 0x61 + 10) as u8)
    } else {
        None
    }
}

/// Whether the first `upto` characters of `hex` are hex digits.
pub open spec fn all_hex(hex: Seq<u8>, upto: int) -> bool {
    forall|k: int| 0 <= k < upto ==> hex_digit(#[trigger] hex[k]) is Some
}

/// The byte that the `k`-th pair of digits of `hex` encodes.
pub open spec fn hex_byte(hex: Seq<u8>, k: int) -> u8 {
    (hex_digit(hex[2 * k]).unwrap() * 16 + hex_digit(hex[2 * k + 1]).unwrap()) as u8
}

/// Why `hex` does not decode to `n` bytes, if it does not: its length is odd, or is not
/// `2 * n`, or it holds a character that is no hex digit, of which the first is named.
pub open spec fn hex_failure(hex: Seq<u8>, n: int) -> Option<FromHexError> {
    if hex.len() % 2 != 0 {
        Some(FromHexError::OddLength)
    } else if hex.len() / 2 != n {
        Some(FromHexError::InvalidStringLength)
    } else if !all_hex(hex, hex.len() as int) {
        let index = choose|i: int|
            0 <= i < hex.len() && hex_digit(hex[i]) is None && all_hex(hex, i);
        Some(FromHexError::InvalidHexCharacter { c: hex[index] as char, index: index as usize })
    } else {
        None
    }
}

/// `hex::decode_to_slice` into an array of `N` bytes: each pair of hex digits gives one byte,
/// the first digit its upper half. It fails on a string of odd length, then on one that has
/// not `2 * N` characters, then on the first character that is no hex digit.
#[verifier::external_body]
fn hex_decode_to_array<const N: usize>(hex: &[u8]) -> (r: Result<[u8; N], FromHexError>)
    ensures
        r is Ok <==> hex_failure(hex@, N as int) is None,
        r matches Ok(a) ==> forall|k: int| 0 <= k < N ==> a@[k] == hex_byte(hex@, k),
        r matches Err(e) ==> Some(e) == hex_failure(hex@, N as int),
{
    let mut out = [0u8; N];
    match hex::decode_to_slice(hex, &mut out) {
        Ok(()) => Ok(out),
        Err(hex::FromHexError::InvalidHexCharacter { c, index }) => Err(
            FromHexError::InvalidHexCharacter { c, index },
        ),
        Err(hex::FromHexError::OddLength) => Err(FromHexError::OddLength),
        Err(hex::FromHexError::InvalidStringLength) => Err(FromHexError::InvalidStringLength),
    }
}

/// Static array of $\kappa/8$ bytes: a random identifier
#[derive(Clone, Copy, Debug)]
pub struct Rid<const N: usize>(pub [u8; N]);

impl<const N: usize> View for Rid<N> {
    type V = Seq<u8>;

    /// The bytes.
    open spec fn view(&self) -> Seq<u8> {
        self.0@
    }
}

impl<const N: usize> Rid<N> {
    /// The bytes.
    pub fn as_ref(&self) -> (r: &[u8])
        ensures
            r@ == self@,
    {
        self.0.as_slice()
    }

    /// Sets the `k`-th byte.
    pub fn set(&mut self, k: usize, v: u8)
        requires
            k < N,
        ensures
            final(self)@ == old(self)@.update(k as int, v),
    {
        self.0[k] = v;
    }

    /// Decodes the identifier from `2 * N` hex digits.
    pub fn from_hex(hex: &[u8]) -> (r: Result<Self, FromHexError>)
        ensures
            r is Ok <==> hex_failure(hex@, N as int) is None,
            r matches Ok(rid) ==> rid@.len() == N && forall|k: int|
                0 <= k < N ==> rid@[k] == hex_byte(hex@, k),
            r matches Err(e) ==> Some(e) == hex_failure(hex@, N as int),
    {
        match hex_decode_to_array::<N>(hex) {
            Ok(bytes) => Ok(Rid(bytes)),
            Err(e) => Err(e),
        }
    }
}

impl<const N: usize> Default for Rid<N> {
    /// The identifier of zero bytes.
    fn default() -> (r: Self)
        ensures
            r@ == Seq::new(N as nat, |k: int| 0u8),
    {
        let r = Rid([0u8; N]);
        assert(r@ =~= Seq::new(N as nat, |k: int| 0u8));
        r
    }
}

} // verus!

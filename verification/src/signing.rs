//! Signing protocol

use crate::bignumber::BigNumber;
use crate::bytes::be_nat;
use crate::key_share::InvalidKeyShare;
use crate::key_share::KeyShare;
use crate::key_share::PartyAux;
use crate::rounds::MsgId;
use crate::rounds::Outgoing;
use crate::rounds::PartyIndex;
use crate::rounds::RoundMsgs;
use crate::scalar::is_inverse;
use crate::utils::blame_from_verdicts;
use crate::utils::blamed;
use crate::utils::lagrange_defined;
use crate::utils::lagrange_value;
use crate::utils::nonzero_values;
use crate::utils::subset;
use crate::utils::AbortBlame;
use crate::bytes::bytes_eq;
use crate::point::encodings;
use crate::point::is_point;
use crate::point::point_sum;
use crate::point::sum_points;
use crate::scalar::sum_scalars;
use crate::scalar::values;
use crate::hashing::sha256;
use crate::hashing::spec_sha256;
use crate::point::identity;
use crate::point::spec_generator_mul;
use crate::point::spec_point_add;
use crate::point::spec_point_mul;
use crate::point::x_of;
use crate::point::NonZeroPoint;
use crate::point::Point;
use crate::scalar::add_mod;
use crate::scalar::group_order;
use crate::scalar::inverse;
use crate::scalar::mul_mod;
use crate::scalar::sum_mod;
use crate::scalar::NonZeroScalar;
use crate::scalar::Scalar;
use vstd::prelude::*;

verus! {

/// A (prehashed) data to be signed
///
/// `DataToSign` holds a scalar that represents data to be signed: the data is hashed, the
/// digest read as a big-endian integer and taken modulo the group order.
#[derive(Debug, Clone, Copy)]
pub struct DataToSign(Scalar);

impl View for DataToSign {
    type V = nat;

    /// The scalar's value.
    closed spec fn view(&self) -> nat {
        self.0@
    }
}

impl DataToSign {
    /// Construct a `DataToSign` by hashing `data` with SHA-256
    ///
    /// `data_to_sign = hash(data) mod q`
    pub fn digest(data: &[u8]) -> (r: Self)
        ensures
            r@ == be_nat(spec_sha256(data@)) % group_order(),
    {
        let hash = sha256(data);
        DataToSign(Scalar::from_be_bytes_mod_order(hash.as_slice()))
    }

    /// Constructs a `DataToSign` from the output of a digest
    ///
    /// `data_to_sign = hash mod q`
    pub fn from_digest(hash: &[u8]) -> (r: Self)
        ensures
            r@ == be_nat(hash@) % group_order(),
    {
        DataToSign(Scalar::from_be_bytes_mod_order(hash))
    }

    /// Constructs a `DataToSign` from scalar
    ///
    /// `scalar` must be output of cryptographic hash function applied to the message to be
    /// signed
    pub fn from_scalar(scalar: Scalar) -> (r: Self)
        ensures
            r@ == scalar@,
    {
        Self(scalar)
    }

    /// Returns a scalar that represents a data to be signed
    pub fn to_scalar(self) -> (r: Scalar)
        ensures
            r@ == self@,
    {
        self.0
    }
}

/// Presignature, can be used to issue a [partial signature](PartialSignature) without
/// interacting with other signers
///
/// A presignature is for one message: it is not `Copy`, and issuing a partial signature
/// takes it by value.
pub struct Presignature {
    /// $R$ component of presignature
    pub R: NonZeroPoint,
    /// $k$ component of presignaure
    pub k: Scalar,
    /// $\chi$ component of presignature
    pub chi: Scalar,
}

/// Partial signature issued by signer for given message
#[derive(Clone, Copy, Debug)]
pub struct PartialSignature {
    /// $r$ component of partial signature
    pub r: Scalar,
    /// $\sigma$ component of partial signature
    pub sigma: Scalar,
}

/// ECDSA signature
#[derive(Clone, Copy, Debug)]
pub struct Signature {
    /// $r$ component of signature
    pub r: NonZeroScalar,
    /// $s$ component of signature
    pub s: NonZeroScalar,
}

/// Error indicating that signature is not valid for given public key and message
#[derive(Clone, Copy, Debug, PartialEq, Eq, Structural)]
pub struct InvalidSignature;

/// The partial signature `sigma = k * m + r * chi`.
pub open spec fn partial_sigma(k: nat, chi: nat, r: nat, m: nat) -> nat {
    add_mod(mul_mod(k, m), mul_mod(r, chi))
}

/// Of `s` and `q - s`, the one in the lower half of the scalars.
pub open spec fn low_s(s: nat) -> nat {
    if group_order() - s < s {
        (group_order() - s) as nat
    } else {
        s
    }
}

/// The point whose x coordinate ECDSA compares with `r`: `(G * m + pk * r) * s^-1`.
pub open spec fn recovered_point(r: nat, s: nat, pk: Seq<u8>, m: nat) -> Seq<u8> {
    spec_point_mul(
        spec_point_add(spec_generator_mul(m), spec_point_mul(pk, r)),
        inverse(s),
    )
}

/// ECDSA verification: the recovered point is not the identity and its x coordinate, modulo
/// the group order, is `r`.
pub open spec fn signature_verifies(r: nat, s: nat, pk: Seq<u8>, m: nat) -> bool {
    recovered_point(r, s, pk, m) != identity() && r == x_of(recovered_point(r, s, pk, m))
}

/// The signature that 64 bytes encode, as its `r` and `s`: the big-endian encoding of `r`,
/// then that of `s`, both in `[1, q)`.
pub open spec fn signature_decoded(bytes: Seq<u8>) -> Option<(nat, nat)> {
    let r = be_nat(bytes.subrange(0, 32));
    let s = be_nat(bytes.subrange(32, 64));
    if bytes.len() == 64 && 0 < r < group_order() && 0 < s < group_order() {
        Some((r, s))
    } else {
        None
    }
}

/// A signature is read back from what was written of it: 64 bytes of which the first 32
/// encode `r` and the last 32 encode `s` decode to the signature `(r, s)`, and to no other.
pub proof fn lemma_signature_round_trip(sig: Signature, written: Seq<u8>)
    requires
        sig.r.wf(),
        sig.s.wf(),
        written.len() == 64,
        be_nat(written.subrange(0, 32)) == sig.r@,
        be_nat(written.subrange(32, 64)) == sig.s@,
    ensures
        signature_decoded(written) == Some((sig.r@, sig.s@)),
{
    sig.r.lemma_range();
    sig.s.lemma_range();
}

/// The `sigma` components of a sequence of partial signatures.
pub open spec fn sigmas(s: Seq<PartialSignature>) -> Seq<nat> {
    Seq::new(s.len(), |i: int| s[i].sigma@)
}

/// The presignature that 97 bytes encode, as its `R`, `k` and `chi`: the compressed encoding
/// of `R`, which is a point other than the identity, then the big-endian encodings of `k` and
/// of `chi`, both below the group order.
pub open spec fn presignature_decoded(bytes: Seq<u8>) -> Option<(Seq<u8>, nat, nat)> {
    let big_r = bytes.subrange(0, 33);
    let k = be_nat(bytes.subrange(33, 65));
    let chi = be_nat(bytes.subrange(65, 97));
    if bytes.len() == 97 && is_point(big_r) && big_r != identity() && k < group_order() && chi
        < group_order() {
        Some((big_r, k, chi))
    } else {
        None
    }
}

/// A presignature is read back from what was written of it: the 97 bytes that hold the
/// encodings of `R`, `k` and `chi` decode to the presignature, and to no other.
pub proof fn lemma_presignature_round_trip(presig: Presignature, written: Seq<u8>)
    requires
        is_point(presig.R@),
        presig.R@ != identity(),
        presig.k@ < group_order(),
        presig.chi@ < group_order(),
        written.len() == 97,
        written.subrange(0, 33) == presig.R@,
        be_nat(written.subrange(33, 65)) == presig.k@,
        be_nat(written.subrange(65, 97)) == presig.chi@,
    ensures
        presignature_decoded(written) == Some((presig.R@, presig.k@, presig.chi@)),
{
}

impl Presignature {
    /// Length of a serialized presignature
    pub fn serialized_len() -> (r: usize)
        ensures
            r == 97,
    {
        97
    }

    /// The presignature as bytes: the compressed encoding of `R`, then the big-endian
    /// encodings of `k` and of `chi`.
    pub fn to_bytes(&self) -> (r: Vec<u8>)
        ensures
            r@.len() == 97,
            r@.subrange(0, 33) == self.R@,
            be_nat(r@.subrange(33, 65)) == self.k@,
            be_nat(r@.subrange(65, 97)) == self.chi@,
            presignature_decoded(r@) == Some((self.R@, self.k@, self.chi@)),
    {
        let big_r = self.R.to_point().to_bytes();
        let k = self.k.to_be_bytes();
        let chi = self.chi.to_be_bytes();
        let mut out: Vec<u8> = Vec::new();
        let mut j: usize = 0;
        while j < 33
            invariant
                j <= 33,
                out@ == big_r@.subrange(0, j as int),
            decreases 33 - j,
        {
            out.push(big_r[j]);
            assert(out@ =~= big_r@.subrange(0, j + 1));
            j += 1;
        }
        assert(out@ =~= big_r@);
        let mut j: usize = 0;
        while j < 32
            invariant
                j <= 32,
                out@ == big_r@ + k@.subrange(0, j as int),
            decreases 32 - j,
        {
            out.push(k[j]);
            assert(out@ =~= big_r@ + k@.subrange(0, j + 1));
            j += 1;
        }
        assert(out@ =~= big_r@ + k@);
        let mut j: usize = 0;
        while j < 32
            invariant
                j <= 32,
                out@ == big_r@ + k@ + chi@.subrange(0, j as int),
            decreases 32 - j,
        {
            out.push(chi[j]);
            assert(out@ =~= big_r@ + k@ + chi@.subrange(0, j + 1));
            j += 1;
        }
        assert(out@ =~= big_r@ + k@ + chi@);
        assert(out@.subrange(0, 33) =~= big_r@);
        assert(out@.subrange(33, 65) =~= k@);
        assert(out@.subrange(65, 97) =~= chi@);
        out
    }

    /// Reads a presignature from the bytes that [`Presignature::to_bytes`] gave. `None` unless
    /// there are 97 bytes, which encode a point other than the identity and two scalars.
    pub fn from_bytes(bytes: &[u8]) -> (r: Option<Self>)
        ensures
            match r {
                Some(presig) => presignature_decoded(bytes@) == Some(
                    (presig.R@, presig.k@, presig.chi@),
                ),
                None => presignature_decoded(bytes@) is None,
            },
    {
        if bytes.len() != 97 {
            return None;
        }
        let encoded = vstd::slice::slice_subrange(bytes, 0, 33);
        let big_r = match Point::from_bytes(encoded) {
            Some(p) => p,
            None => {
                return None;
            },
        };
        // a point has one compressed encoding, and no other bytes are read as it
        if !bytes_eq(big_r.to_bytes().as_slice(), encoded) {
            return None;
        }
        let big_r = match NonZeroPoint::from_point(big_r) {
            Some(p) => p,
            None => {
                return None;
            },
        };
        let k = match Scalar::from_be_bytes(vstd::slice::slice_subrange(bytes, 33, 65)) {
            Some(k) => k,
            None => {
                return None;
            },
        };
        let chi = match Scalar::from_be_bytes(vstd::slice::slice_subrange(bytes, 65, 97)) {
            Some(chi) => chi,
            None => {
                return None;
            },
        };
        Some(Presignature { R: big_r, k, chi })
    }

    /// Issues partial signature for given message
    ///
    /// **Never reuse presignatures!** If you use the same presignatures to sign two different
    /// messages, it leaks the private key!
    pub fn issue_partial_signature(self, message_to_sign: DataToSign) -> (r: PartialSignature)
        ensures
            r.r@ == x_of(self.R@),
            r.sigma@ == partial_sigma(self.k@, self.chi@, x_of(self.R@), message_to_sign@),
    {
        let r = self.R.x_scalar();
        let m = message_to_sign.to_scalar();
        let km = self.k.mul(&m);
        let rchi = r.mul(&self.chi);
        let sigma_i = km.add(&rchi);
        PartialSignature { r, sigma: sigma_i }
    }
}

impl PartialSignature {
    /// Combines threshold amount of partial signatures into regular signature
    ///
    /// Returns `None` if input is malformed: if there is no partial signature, if `r` of the
    /// first is zero, or if the `sigma` add up to zero.
    ///
    /// `combine` may return a signature that's invalid for public key and message it was
    /// issued for. This would mean that some of signers cheated and aborted the protocol. You
    /// need to validate resulting signature to be sure that no one aborted the protocol.
    pub fn combine(partial_signatures: &[PartialSignature]) -> (r: Option<Signature>)
        ensures
            r is None <==> partial_signatures@.len() == 0 || partial_signatures@[0].r@ == 0
                || sum_mod(sigmas(partial_signatures@)) == 0,
            r matches Some(sig) ==> sig.r@ == partial_signatures@[0].r@ && sig.s@ == low_s(
                sum_mod(sigmas(partial_signatures@)),
            ) && sig.s@ <= group_order() / 2,
    {
        if partial_signatures.len() == 0 {
            return None;
        }
        let mut s = Scalar::zero();
        let mut i: usize = 0;
        assert(sigmas(partial_signatures@).subrange(0, 0) =~= Seq::<nat>::empty());
        while i < partial_signatures.len()
            invariant
                i <= partial_signatures@.len(),
                s@ == sum_mod(sigmas(partial_signatures@).subrange(0, i as int)),
            decreases partial_signatures@.len() - i,
        {
            let ghost before = sigmas(partial_signatures@).subrange(0, i as int);
            let ghost after = sigmas(partial_signatures@).subrange(0, i + 1);
            assert(after.drop_last() =~= before);
            assert(after.last() == partial_signatures@[i as int].sigma@);
            s = s.add(&partial_signatures[i].sigma);
            i += 1;
        }
        assert(sigmas(partial_signatures@).subrange(0, partial_signatures@.len() as int)
            =~= sigmas(partial_signatures@));
        match NonZeroScalar::from_scalar(partial_signatures[0].r) {
            None => None,
            Some(r) => match NonZeroScalar::from_scalar(s) {
                None => None,
                Some(s) => Some(Signature { r, s }.normalize_s()),
            },
        }
    }
}

impl Signature {
    /// Verifies that signature matches specified public key and message
    pub fn verify(&self, public_key: &Point, message: &DataToSign) -> (res: Result<
        (),
        InvalidSignature,
    >)
        ensures
            res is Ok <==> signature_verifies(self.r@, self.s@, public_key@, message@),
    {
        let m = message.to_scalar();
        let gm = Point::generator_mul(&m);
        let pr = public_key.mul(&self.r.to_scalar());
        let sum = gm.add(&pr);
        let s_inv = self.s.invert();
        let r = sum.mul(&s_inv.to_scalar());
        match NonZeroPoint::from_point(r) {
            None => Err(InvalidSignature),
            Some(r) => {
                let x = r.x_scalar();
                if self.r.to_scalar().eq(&x) {
                    Ok(())
                } else {
                    Err(InvalidSignature)
                }
            },
        }
    }

    /// Normilizes the signature
    ///
    /// Given that $(r, s)$ is valid signature, $(r, -s)$ is also a valid signature. Some
    /// applications (like Bitcoin) remove this ambiguity by restricting $s$ to be in lower
    /// half. This method normailizes the signature by picking $s$ that is in lower half.
    ///
    /// Note that signing protocol implemented within this crate ouputs normalized signature by
    /// default.
    pub fn normalize_s(self) -> (r: Self)
        ensures
            r.r@ == self.r@,
            r.s@ == low_s(self.s@),
            r.s@ <= group_order() / 2,
    {
        let neg_s = self.s.neg();
        let s = self.s.to_scalar();
        if neg_s.lt(&self.s) {
            Signature { r: self.r, s: neg_s }
        } else {
            self
        }
    }

    /// Writes serialized signature to the bytes buffer: the big-endian encoding of `r`, then
    /// that of `s`.
    ///
    /// Bytes buffer size must be at least [`Signature::serialized_len()`], otherwise the
    /// buffer is left as it is. What the buffer holds after the signature stays.
    pub fn write_to_slice(&self, out: &mut [u8])
        ensures
            final(out)@.len() == old(out)@.len(),
            old(out)@.len() < 64 ==> final(out)@ == old(out)@,
            old(out)@.len() >= 64 ==> {
                &&& be_nat(final(out)@.subrange(0, 32)) == self.r@
                &&& be_nat(final(out)@.subrange(32, 64)) == self.s@
                &&& final(out)@.subrange(64, old(out)@.len() as int) == old(out)@.subrange(
                    64,
                    old(out)@.len() as int,
                )
            },
    {
        if out.len() < Self::serialized_len() {
            return ;
        }
        let r = self.r.to_scalar().to_be_bytes();
        let s = self.s.to_scalar().to_be_bytes();
        let mut k: usize = 0;
        while k < 32
            invariant
                k <= 32,
                out@.len() == old(out)@.len(),
                out@.len() >= 64,
                forall|j: int| 0 <= j < k ==> out@[j] == r@[j],
                forall|j: int| 0 <= j < k ==> out@[32 + j] == s@[j],
                forall|j: int| 64 <= j < out@.len() ==> out@[j] == old(out)@[j],
            decreases 32 - k,
        {
            out[k] = r[k];
            out[32 + k] = s[k];
            k += 1;
        }
        assert(out@.subrange(0, 32) =~= r@);
        assert(out@.subrange(32, 64) =~= s@);
        assert(out@.subrange(64, out@.len() as int) =~= old(out)@.subrange(
            64,
            out@.len() as int,
        ));
    }

    /// Reads a signature from the bytes that [`Signature::write_to_slice`] wrote: the
    /// big-endian encoding of `r`, then that of `s`. `None` unless there are
    /// [`Signature::serialized_len()`] bytes, which encode two scalars other than zero.
    pub fn read_from_slice(bytes: &[u8]) -> (r: Option<Self>)
        ensures
            match r {
                Some(sig) => signature_decoded(bytes@) == Some((sig.r@, sig.s@)),
                None => signature_decoded(bytes@) is None,
            },
    {
        if bytes.len() != 64 {
            return None;
        }
        let r = match Scalar::from_be_bytes(vstd::slice::slice_subrange(bytes, 0, 32)) {
            Some(r) => r,
            None => {
                return None;
            },
        };
        let s = match Scalar::from_be_bytes(vstd::slice::slice_subrange(bytes, 32, 64)) {
            Some(s) => s,
            None => {
                return None;
            },
        };
        match NonZeroScalar::from_scalar(r) {
            None => None,
            Some(r) => match NonZeroScalar::from_scalar(s) {
                None => None,
                Some(s) => Some(Signature { r, s }),
            },
        }
    }

    /// Returns size of bytes buffer that can fit serialized signature
    pub fn serialized_len() -> (r: usize)
        ensures
            r == 64,
    {
        64
    }
}

/// A zero-knowledge proof as it travels: the prover's commitment and the proof, both in the
/// encoding of the library that makes and checks them.
pub struct ZkProof {
    /// The commitment.
    pub commitment: Vec<u8>,
    /// The proof.
    pub proof: Vec<u8>,
}

/// Signing protocol message
///
/// Enumerates messages from all rounds
pub enum Msg {
    /// Round 1a message
    Round1a(MsgRound1a),
    /// Round 1b message
    Round1b(MsgRound1b),
    /// Round 2 message
    Round2(MsgRound2),
    /// Round 3 message
    Round3(MsgRound3),
    /// Round 4 message
    Round4(MsgRound4),
    /// Reliability check message (optional additional round)
    ReliabilityCheck(MsgReliabilityCheck),
}

/// Message from round 1a
pub struct MsgRound1a {
    /// $K_i$
    pub K: BigNumber,
    /// $G_i$
    pub G: BigNumber,
}

/// Message from round 1b
pub struct MsgRound1b {
    /// $\psi^0_{j,i}$
    pub psi0: ZkProof,
}

/// Message from round 2
pub struct MsgRound2 {
    /// $\Gamma_i$
    pub Gamma: Point,
    /// $D_{j,i}$
    pub D: BigNumber,
    /// $F_{j,i}$
    pub F: BigNumber,
    /// $\hat D_{j,i}$
    pub hat_D: BigNumber,
    /// $\hat F_{j,i}$
    pub hat_F: BigNumber,
    /// $\psi_{j,i}$
    pub psi: ZkProof,
    /// $\hat \psi_{j,i}$
    pub hat_psi: ZkProof,
    /// $\psi'_{j,i}$
    pub psi_prime: ZkProof,
}

/// Message from round 3
pub struct MsgRound3 {
    /// $\delta_i$
    pub delta: Scalar,
    /// $\Delta_i$
    pub Delta: Point,
    /// $\psi''_{j,i}$
    pub psi_prime_prime: ZkProof,
}

/// Message from round 4
pub struct MsgRound4 {
    /// $\sigma_i$
    pub sigma: Scalar,
}

/// Message from auxiliary round for reliability check
pub struct MsgReliabilityCheck(pub [u8; 32]);

/// Error indicating that signing protocol failed
pub struct SigningError(pub Reason);

/// Why signing failed
pub enum Reason {
    /// The arguments do not fit the key share.
    InvalidArgs(InvalidArgs),
    /// The key share is not valid.
    InvalidKeyShare(InvalidKeyShare),
    /// Signing protocol was maliciously aborted by another party
    Aborted(SigningAborted),
    /// Bug occurred
    Bug(Bug),
}

/// The blame for a party of which one of the proofs ψ, ψˆ and ψ' is invalid.
pub struct PsiBlame {
    /// The party and its two messages: the ciphertexts of round 1a and the proofs of round 2.
    pub blame: AbortBlame,
    /// Whether ψ is invalid.
    pub psi_invalid: bool,
    /// Whether ψˆ is invalid.
    pub hat_psi_invalid: bool,
    /// Whether ψ' is invalid.
    pub psi_prime_invalid: bool,
}

/// Error indicating that protocol was aborted by malicious party
///
/// It _can be_ cryptographically proven, but we do not support it yet.
pub enum SigningAborted {
    /// `pi_enc::verify(K)` failed
    EncProofOfK(Vec<AbortBlame>),
    /// ψ, ψˆ, or ψ' proofs are invalid
    InvalidPsi(Vec<PsiBlame>),
    /// ψ'' proof is invalid
    InvalidPsiPrimePrime(Vec<AbortBlame>),
    /// `Delta != G * delta`
    MismatchedDelta,
    /// resulting signature is not valid
    SignatureInvalid,
    /// other parties received different broadcast messages at round1a
    Round1aNotReliable(Vec<AbortBlame>),
}

/// Arguments that do not fit the key share
#[derive(Clone, Copy, Debug, PartialEq, Eq, Structural)]
pub enum InvalidArgs {
    /// exactly `threshold` amount of parties should take part in signing
    MismatchedAmountOfParties,
    /// signer index `i` is out of bounds (must be < n)
    SignerIndexOutOfBounds,
    /// party index in S is out of bounds (must be < n)
    InvalidS,
}

/// A failure that no input of another party explains
#[derive(Clone, Copy, Debug, PartialEq, Eq, Structural)]
pub enum Bug {
    /// own paillier decryption key is not valid
    InvalidOwnPaillierKey,
    /// invalid key share: number of parties exceeds u16
    PartiesNumberExceedsU16,
    /// couldn't encrypt a scalar with paillier encryption key
    PaillierEnc(BugSource),
    /// paillier addition/multiplication failed
    PaillierOp(BugSource),
    /// π enc failed to prove statement
    PiEnc(BugSource),
    /// π aff-g failed to prove statement
    PiAffG(BugSource),
    /// π log* failed to prove statement
    PiLog(BugSource),
    /// couldn't decrypt a message
    PaillierDec(BugSource),
    /// delta is zero
    ZeroDelta,
    /// R is zero
    ZeroR,
    /// unexpected protocol output
    UnexpectedProtocolOutput,
    /// reliable broadcast: messages could not be hashed
    HashMessage,
    /// derive lagrange coef
    LagrangeCoef,
    /// subset function returned error
    Subset,
    /// a step of the protocol came out of its order
    OutOfOrder,
}

/// The value that a failed operation was to compute
#[derive(Clone, Copy, Debug, PartialEq, Eq, Structural)]
#[allow(non_camel_case_types)]
pub enum BugSource {
    G_i,
    K_i,
    gamma_i_times_K_j,
    neg_beta_ij_enc,
    D_ji,
    F_ji,
    x_i_times_K_j,
    hat_beta_ij_enc,
    hat_D,
    hat_F,
    psi0,
    psi,
    hat_psi,
    psi_prime,
    alpha,
    hat_alpha,
    psi_prime_prime,
}

/// What a party signs with, once its key share is restricted to the signers: an additive
/// share of the key among `n` signers.
pub struct SigningParty {
    /// Index of this party among the signers.
    pub i: PartyIndex,
    /// The number of signers.
    pub n: u16,
    /// The party's additive share of the secret key.
    pub x_i: Scalar,
    /// The signers' public shares, which add up to the public key.
    pub X: Vec<Point>,
    /// The shared public key.
    pub pk: Point,
    /// The party's Paillier prime `p`.
    pub p_i: BigNumber,
    /// The party's Paillier prime `q`.
    pub q_i: BigNumber,
    /// The signers' auxiliary data.
    pub R: Vec<PartyAux>,
}

/// The number of signers that a key share asks for: its threshold, or all parties where it
/// has none.
pub open spec fn signers_needed(key_share: KeyShare) -> int {
    match key_share.core.vss_setup {
        Some(vss) => vss.min_signers as int,
        None => key_share.aux.parties@.len() as int,
    }
}

/// Whether the Lagrange coefficient at zero of the `j`-th of the nodes `xs` exists.
pub open spec fn has_lagrange(j: int, xs: Seq<nat>) -> bool {
    lagrange_defined(0, j, xs)
}

/// The evaluation points of the signers `S`.
pub open spec fn signers_points(key_share: KeyShare, S: Seq<PartyIndex>) -> Seq<nat>
    recommends
        key_share.core.vss_setup is Some,
{
    Seq::new(S.len(), |k: int| key_share.core.vss_setup->Some_0.I@[S[k] as int]@)
}

/// Why a party cannot start signing, if it cannot: the first of the checks that fails.
pub open spec fn setup_failure(i: PartyIndex, key_share: KeyShare, S: Seq<PartyIndex>) -> Option<
    Reason,
> {
    let n = key_share.aux.parties@.len();
    let t = signers_needed(key_share);
    if n > u16::MAX {
        Some(Reason::Bug(Bug::PartiesNumberExceedsU16))
    } else if S.len() != t {
        Some(Reason::InvalidArgs(InvalidArgs::MismatchedAmountOfParties))
    } else if i >= t {
        Some(Reason::InvalidArgs(InvalidArgs::SignerIndexOutOfBounds))
    } else if exists|k: int| 0 <= k < S.len() && S[k] >= n {
        Some(Reason::InvalidArgs(InvalidArgs::InvalidS))
    } else if exists|k: int| 0 <= k < S.len() && S[k] >= key_share.core.public_shares@.len() {
        Some(Reason::Bug(Bug::Subset))
    } else {
        let unfolded = match key_share.core.vss_setup {
            Some(vss) => if exists|k: int| 0 <= k < S.len() && S[k] >= vss.I@.len() {
                Some(Reason::Bug(Bug::Subset))
            } else if exists|j: int|
                0 <= j < t && !has_lagrange(j, signers_points(key_share, S)) {
                Some(Reason::Bug(Bug::LagrangeCoef))
            } else {
                None
            },
            None => None,
        };
        match unfolded {
            Some(reason) => Some(reason),
            None => if point_sum(folded_publics(key_share, S))
                != key_share.core.shared_public_key@ {
                Some(Reason::InvalidKeyShare(InvalidKeyShare::SharesDontMatchPublicKey))
            } else {
                None
            },
        }
    }
}

/// The additive share that a party signs with: its share multiplied by its Lagrange
/// coefficient where the key has a threshold, and its share as it is where it has none.
pub open spec fn folded_secret(i: PartyIndex, key_share: KeyShare, S: Seq<PartyIndex>) -> nat {
    match key_share.core.vss_setup {
        Some(_) => mul_mod(
            lagrange_value(0, i as int, signers_points(key_share, S)),
            key_share.core.x@,
        ),
        None => key_share.core.x@,
    }
}

/// The public share of the `j`-th signer, folded as the secret shares are.
pub open spec fn folded_public(j: int, key_share: KeyShare, S: Seq<PartyIndex>) -> Seq<u8> {
    match key_share.core.vss_setup {
        Some(_) => spec_point_mul(
            key_share.core.public_shares@[S[j] as int]@,
            lagrange_value(0, j, signers_points(key_share, S)),
        ),
        None => key_share.core.public_shares@[S[j] as int]@,
    }
}

/// The public shares of the signers, folded as the secret shares are. They must add up to
/// the shared public key.
pub open spec fn folded_publics(key_share: KeyShare, S: Seq<PartyIndex>) -> Seq<Seq<u8>> {
    Seq::new(S.len(), |j: int| folded_public(j, key_share, S))
}

/// Whether `p` is what the `i`-th of the signers `S` signs with, given its key share: its
/// share and the signers' public shares are folded, the public shares add up to the shared
/// public key, and the primes and the signers' auxiliary data are those of the key share.
pub open spec fn is_signing_party(
    p: SigningParty,
    i: PartyIndex,
    key_share: KeyShare,
    S: Seq<PartyIndex>,
) -> bool {
    &&& p.i == i
    &&& p.n == signers_needed(key_share)
    &&& p.x_i@ == folded_secret(i, key_share, S)
    &&& encodings(p.X@) == folded_publics(key_share, S)
    &&& p.X@.len() == p.n
    &&& forall|j: int| 0 <= j < p.n ==> (#[trigger] p.X@[j])@ == folded_public(j, key_share, S)
    &&& p.pk@ == key_share.core.shared_public_key@
    &&& p.pk@ == point_sum(encodings(p.X@))
    &&& p.p_i@ == key_share.aux.p@
    &&& p.q_i@ == key_share.aux.q@
    &&& p.R@.len() == p.n
    &&& forall|j: int|
        0 <= j < p.n ==> {
            &&& (#[trigger] p.R@[j]).N@ == key_share.aux.parties@[S[j] as int].N@
            &&& p.R@[j].s@ == key_share.aux.parties@[S[j] as int].s@
            &&& p.R@[j].t@ == key_share.aux.parties@[S[j] as int].t@
        }
}

/// `generic_ec_zkp::polynomial::lagrange_coefficient`: the `j`-th Lagrange coefficient of the
/// nodes `xs` at the point `x`, as a non-zero scalar; `None` if `j` is no index of `xs`, if
/// the product of the differences `xs[j] - xs[m]` is zero, or if the coefficient is zero.
#[verifier::external_body]
fn zkp_lagrange_coefficient(x: &Scalar, j: u16, xs: &[NonZeroScalar]) -> (r: Option<[u8; 32]>)
    ensures
        r is Some <==> lagrange_defined(x@, j as int, nonzero_values(xs@)),
        r matches Some(l) ==> be_nat(l@) == lagrange_value(x@, j as int, nonzero_values(xs@)),
{
    let xs: Vec<generic_ec::Scalar<generic_ec::curves::Secp256k1>> = xs.iter().map(
        |s| generic_ec::Scalar::from_be_bytes_mod_order(s.to_scalar().to_be_bytes()),
    ).collect();
    let x = generic_ec::Scalar::from_be_bytes_mod_order(x.to_be_bytes());
    generic_ec_zkp::polynomial::lagrange_coefficient(x, usize::from(j), &xs).map(
        |l| {
            let mut out = [0u8; 32];
            out.copy_from_slice(l.to_be_bytes().as_bytes());
            out
        },
    )
}

/// The Lagrange coefficient at zero of the `j`-th of the nodes `xs`.
fn lagrange_at_zero(j: u16, xs: &[NonZeroScalar]) -> (r: Option<Scalar>)
    ensures
        r is Some <==> has_lagrange(j as int, nonzero_values(xs@)),
        r matches Some(l) ==> l@ == lagrange_value(0, j as int, nonzero_values(xs@)),
{
    let zero = Scalar::zero();
    match zkp_lagrange_coefficient(&zero, j, xs) {
        None => None,
        Some(bytes) => {
            let l = Scalar::from_be_bytes_mod_order(bytes.as_slice());
            proof {
                assert(lagrange_value(0, j as int, nonzero_values(xs@)) < group_order());
                vstd::arithmetic::div_mod::lemma_small_mod(be_nat(bytes@), group_order());
            }
            Some(l)
        },
    }
}

/// t-out-of-n signing
///
/// CGGMP paper doesn't support threshold signing out of the box. However, threshold signing
/// can be easily implemented on top of the t-out-of-t protocol by converting polynomial (VSS)
/// key shares into additive (by multiplying at lagrange coefficient). This function checks the
/// arguments and makes that conversion for the signers `S`, of which this party is the `i`-th.
/// The converted public shares must add up to the shared public key: a key share of which
/// they do not is refused.
pub fn signing_t_out_of_n(i: PartyIndex, key_share: &KeyShare, S: &[PartyIndex]) -> (r: Result<
    SigningParty,
    SigningError,
>)
    ensures
        r is Ok <==> setup_failure(i, *key_share, S@) is None,
        r matches Err(e) ==> Some(e.0) == setup_failure(i, *key_share, S@),
        r matches Ok(p) ==> is_signing_party(p, i, *key_share, S@),
{
    // Validate arguments
    if key_share.aux.parties.len() > 0xffff {
        return Err(SigningError(Reason::Bug(Bug::PartiesNumberExceedsU16)));
    }
    let n: u16 = key_share.aux.parties.len() as u16;
    let t: u16 = match &key_share.core.vss_setup {
        Some(vss) => vss.min_signers,
        None => n,
    };
    if S.len() != t as usize {
        return Err(SigningError(Reason::InvalidArgs(InvalidArgs::MismatchedAmountOfParties)));
    }
    if !(i < t) {
        return Err(SigningError(Reason::InvalidArgs(InvalidArgs::SignerIndexOutOfBounds)));
    }
    let mut k: usize = 0;
    while k < S.len()
        invariant
            k <= S@.len(),
            n == key_share.aux.parties@.len(),
            t == signers_needed(*key_share),
            S@.len() == t,
            i < t,
            forall|m: int| 0 <= m < k ==> S@[m] < n,
        decreases S@.len() - k,
    {
        if S[k] >= n {
            assert(0 <= k < S@.len() && S@[k as int] >= n);
            return Err(SigningError(Reason::InvalidArgs(InvalidArgs::InvalidS)));
        }
        k += 1;
    }

    // Assemble x_i and \vec X
    let X = match subset(S, key_share.core.public_shares.as_slice()) {
        Some(X) => X,
        None => {
            return Err(SigningError(Reason::Bug(Bug::Subset)));
        },
    };
    let (x_i, X) = match &key_share.core.vss_setup {
        Some(vss) => {
            // For t-out-of-n keys generated via VSS DKG scheme
            let I = match subset(S, vss.I.as_slice()) {
                Some(I) => I,
                None => {
                    return Err(SigningError(Reason::Bug(Bug::Subset)));
                },
            };
            assert(nonzero_values(I@) =~= signers_points(*key_share, S@));
            let mut folded: Vec<Point> = Vec::new();
            let mut j: u16 = 0;
            while j < t
                invariant
                    j <= t,
                    t == S@.len(),
                    i < t,
                    n == key_share.aux.parties@.len(),
                    t == signers_needed(*key_share),
                    forall|m: int| 0 <= m < S@.len() ==> S@[m] < n,
                    forall|m: int|
                        0 <= m < S@.len() ==> S@[m] < key_share.core.public_shares@.len(),
                    forall|m: int|
                        0 <= m < S@.len() ==> S@[m] < key_share.core.vss_setup->Some_0.I@.len(),
                    X@.len() == t,
                    folded@.len() == j,
                    nonzero_values(I@) == signers_points(*key_share, S@),
                    key_share.core.vss_setup is Some,
                    forall|m: int|
                        0 <= m < t ==> X@[m] == key_share.core.public_shares@[S@[m] as int],
                    forall|m: int|
                        0 <= m < j ==> has_lagrange(m, signers_points(*key_share, S@)),
                    forall|m: int|
                        0 <= m < j ==> folded@[m]@ == folded_public(m, *key_share, S@),
                decreases t - j,
            {
                let lambda_j = match lagrange_at_zero(j, I.as_slice()) {
                    Some(l) => l,
                    None => {
                        assert(0 <= j < t && !has_lagrange(
                            j as int,
                            signers_points(*key_share, S@),
                        ));
                        return Err(SigningError(Reason::Bug(Bug::LagrangeCoef)));
                    },
                };
                folded.push(X[j as usize].mul(&lambda_j));
                j += 1;
            }
            let lambda_i = match lagrange_at_zero(i, I.as_slice()) {
                Some(l) => l,
                None => {
                    assert(has_lagrange(i as int, signers_points(*key_share, S@)));
                    return Err(SigningError(Reason::Bug(Bug::LagrangeCoef)));
                },
            };
            let x_i = lambda_i.mul(&key_share.core.x);
            (x_i, folded)
        },
        None => {
            // For n-out-of-n keys, whose shares add up to the key
            (key_share.core.x, X)
        },
    };

    // The public shares of the signers add up to the key that they sign for
    proof {
        assert(encodings(X@) =~= folded_publics(*key_share, S@));
    }
    if !sum_points(&X).eq(&key_share.core.shared_public_key) {
        return Err(
            SigningError(Reason::InvalidKeyShare(InvalidKeyShare::SharesDontMatchPublicKey)),
        );
    }

    // Assemble rest of the data
    let mut R: Vec<PartyAux> = Vec::new();
    let mut j: usize = 0;
    while j < S.len()
        invariant
            j <= S@.len(),
            R@.len() == j,
            n == key_share.aux.parties@.len(),
            forall|m: int| 0 <= m < S@.len() ==> S@[m] < n,
            forall|m: int|
                0 <= m < j ==> {
                    &&& (#[trigger] R@[m]).N@ == key_share.aux.parties@[S@[m] as int].N@
                    &&& R@[m].s@ == key_share.aux.parties@[S@[m] as int].s@
                    &&& R@[m].t@ == key_share.aux.parties@[S@[m] as int].t@
                },
        decreases S@.len() - j,
    {
        R.push(key_share.aux.parties[S[j] as usize].duplicate());
        j += 1;
    }
    Ok(
        SigningParty {
            i,
            n: t,
            x_i,
            X,
            pk: key_share.core.shared_public_key,
            p_i: key_share.aux.p.duplicate(),
            q_i: key_share.aux.q.duplicate(),
            R,
        },
    )
}

/// What a party tells the zero-knowledge proofs of a session about who proves: the digest of
/// the execution id, then the prover's index in big-endian order. The execution id comes
/// before anything that depends on the party.
pub open spec fn shared_state_of(sid: Seq<u8>, party: PartyIndex) -> Seq<u8> {
    spec_sha256(sid) + seq![(party >> 8) as u8, (party & 0xff) as u8]
}

/// The bytes that seal the proofs of `party` to the session `sid`.
pub fn proof_shared_state(sid: &[u8], party: PartyIndex) -> (r: Vec<u8>)
    ensures
        r@ == shared_state_of(sid@, party),
        r@.subrange(0, 32) == spec_sha256(sid@),
{
    let prefix = sha256(sid);
    let mut out: Vec<u8> = Vec::new();
    let mut k: usize = 0;
    while k < 32
        invariant
            k <= 32,
            out@ == prefix@.subrange(0, k as int),
        decreases 32 - k,
    {
        out.push(prefix[k]);
        assert(out@ =~= prefix@.subrange(0, k + 1));
        k += 1;
    }
    assert(out@ =~= prefix@);
    out.push((party >> 8) as u8);
    out.push((party & 0xff) as u8);
    assert(out@ =~= shared_state_of(sid@, party));
    assert(out@.subrange(0, 32) =~= spec_sha256(sid@));
    out
}

/// Whether each peer's hash of the round 1a messages differs from this party's.
pub open spec fn hash_differs(h_i: Seq<u8>, hashes: Seq<MsgReliabilityCheck>) -> Seq<bool> {
    Seq::new(hashes.len(), |k: int| hashes[k].0@ != h_i)
}

/// Reliability check: every peer must have hashed the same round 1a messages as this party,
/// whose hash is `h_i`. The peers whose hash differs are blamed, all of them.
pub fn check_reliability(h_i: &[u8; 32], round1a_hashes: &RoundMsgs<MsgReliabilityCheck>) -> (r:
    Result<(), SigningError>)
    ensures
        r is Ok <==> forall|k: int|
            0 <= k < round1a_hashes.count() ==> round1a_hashes.messages()[k].0@ == h_i@,
        r matches Err(e) ==> e.0 matches Reason::Aborted(SigningAborted::Round1aNotReliable(list))
            && list@ == blamed(
            round1a_hashes.receiver(),
            round1a_hashes.ids(),
            round1a_hashes.ids(),
            hash_differs(h_i@, round1a_hashes.messages()),
            round1a_hashes.count() as int,
        ),
{
    let n: usize = round1a_hashes.len();
    let mut differs: Vec<bool> = Vec::new();
    let mut k: usize = 0;
    while k < n
        invariant
            k <= n,
            n == round1a_hashes.count(),
            differs@ == hash_differs(h_i@, round1a_hashes.messages()).subrange(0, k as int),
        decreases n - k,
    {
        let same = bytes_eq(round1a_hashes.message(k).0.as_slice(), h_i.as_slice());
        differs.push(!same);
        assert(differs@ =~= hash_differs(h_i@, round1a_hashes.messages()).subrange(0, k + 1));
        k += 1;
    }
    assert(differs@ =~= hash_differs(h_i@, round1a_hashes.messages()));
    let parties_have_different_hashes = blame_from_verdicts(
        round1a_hashes,
        round1a_hashes,
        differs.as_slice(),
    );
    proof {
        if parties_have_different_hashes@.len() == 0 {
            assert forall|k: int| 0 <= k < n implies round1a_hashes.messages()[k].0@
                == h_i@ by {
                assert(!differs@[k]);
            }
        } else {
            if forall|k: int| 0 <= k < n ==> round1a_hashes.messages()[k].0@ == h_i@ {
                assert forall|k: int| 0 <= k < n implies !differs@[k] by {
                    assert(round1a_hashes.messages()[k].0@ == h_i@);
                }
            }
        }
    }
    if parties_have_different_hashes.len() != 0 {
        Err(
            SigningError(
                Reason::Aborted(SigningAborted::Round1aNotReliable(parties_have_different_hashes)),
            ),
        )
    } else {
        Ok(())
    }
}

/// Checks the verdicts on the proofs ψ0 that the peers sent with their ciphertexts:
/// `invalid[k]` says that the proof of the `k`-th peer did not verify. Every peer with an
/// invalid proof is blamed.
pub fn check_enc_proofs(
    ciphertexts: &RoundMsgs<MsgRound1a>,
    psi0: &RoundMsgs<MsgRound1b>,
    invalid: &[bool],
) -> (r: Result<(), SigningError>)
    requires
        ciphertexts.count() == invalid@.len(),
        psi0.count() == invalid@.len(),
    ensures
        r is Ok <==> forall|k: int| 0 <= k < invalid@.len() ==> !invalid@[k],
        r matches Err(e) ==> e.0 matches Reason::Aborted(SigningAborted::EncProofOfK(list))
            && list@ == blamed(
            ciphertexts.receiver(),
            ciphertexts.ids(),
            psi0.ids(),
            invalid@,
            invalid@.len() as int,
        ),
{
    let faulty_parties = blame_from_verdicts(ciphertexts, psi0, invalid);
    if faulty_parties.len() != 0 {
        Err(SigningError(Reason::Aborted(SigningAborted::EncProofOfK(faulty_parties))))
    } else {
        Ok(())
    }
}

/// Checks the verdicts on the proofs ψ'' of round 3, as [`check_enc_proofs`] does for ψ0.
pub fn check_psi_prime_prime(
    round3_msgs: &RoundMsgs<MsgRound3>,
    ciphertexts: &RoundMsgs<MsgRound1a>,
    invalid: &[bool],
) -> (r: Result<(), SigningError>)
    requires
        ciphertexts.count() == invalid@.len(),
        round3_msgs.count() == invalid@.len(),
    ensures
        r is Ok <==> forall|k: int| 0 <= k < invalid@.len() ==> !invalid@[k],
        r matches Err(e) ==> e.0 matches Reason::Aborted(
            SigningAborted::InvalidPsiPrimePrime(list),
        ) && list@ == blamed(
            round3_msgs.receiver(),
            ciphertexts.ids(),
            round3_msgs.ids(),
            invalid@,
            invalid@.len() as int,
        ),
{
    let n: usize = round3_msgs.len();
    let m: usize = ciphertexts.len();
    let mut faulty_parties: Vec<AbortBlame> = Vec::new();
    let mut k: usize = 0;
    while k < n
        invariant
            k <= n,
            n == invalid@.len(),
            n == round3_msgs.count(),
            n == ciphertexts.count(),
            ciphertexts.ids().len() == n,
            round3_msgs.ids().len() == n,
            faulty_parties@ == blamed(
                round3_msgs.receiver(),
                ciphertexts.ids(),
                round3_msgs.ids(),
                invalid@,
                k as int,
            ),
        decreases n - k,
    {
        if invalid[k] {
            faulty_parties.push(
                AbortBlame::new(round3_msgs.sender(k), ciphertexts.msg_id(k), round3_msgs.msg_id(k)),
            );
        }
        k += 1;
    }
    proof {
        crate::utils::lemma_blamed_empty(
            round3_msgs.receiver(),
            ciphertexts.ids(),
            round3_msgs.ids(),
            invalid@,
            n as int,
        );
    }
    if faulty_parties.len() != 0 {
        Err(SigningError(Reason::Aborted(SigningAborted::InvalidPsiPrimePrime(faulty_parties))))
    } else {
        Ok(())
    }
}

/// The verdicts on the three proofs of one round 2 message: `true` says invalid.
#[derive(Clone, Copy, Debug, PartialEq, Eq, Structural)]
pub struct PsiVerdict {
    /// Whether ψ is invalid.
    pub psi_invalid: bool,
    /// Whether ψˆ is invalid.
    pub hat_psi_invalid: bool,
    /// Whether ψ' is invalid.
    pub psi_prime_invalid: bool,
}

impl PsiVerdict {
    /// Whether one of the three proofs is invalid.
    pub open spec fn faulty(self) -> bool {
        self.psi_invalid || self.hat_psi_invalid || self.psi_prime_invalid
    }
}

/// The blame for the first `upto` senders of round 2: one entry, in the senders' order, for
/// each with an invalid proof, with the verdicts on its three proofs.
pub open spec fn psi_blamed(
    i: PartyIndex,
    data_ids: Seq<MsgId>,
    proof_ids: Seq<MsgId>,
    verdicts: Seq<PsiVerdict>,
    upto: int,
) -> Seq<PsiBlame>
    decreases upto,
{
    if upto <= 0 {
        Seq::empty()
    } else if verdicts[upto - 1].faulty() {
        psi_blamed(i, data_ids, proof_ids, verdicts, upto - 1).push(
            PsiBlame {
                blame: AbortBlame {
                    faulty_party: crate::rounds::sender_of(i, upto - 1) as u16,
                    data_message: data_ids[upto - 1],
                    proof_message: proof_ids[upto - 1],
                },
                psi_invalid: verdicts[upto - 1].psi_invalid,
                hat_psi_invalid: verdicts[upto - 1].hat_psi_invalid,
                psi_prime_invalid: verdicts[upto - 1].psi_prime_invalid,
            },
        )
    } else {
        psi_blamed(i, data_ids, proof_ids, verdicts, upto - 1)
    }
}

/// No one is blamed for round 2 if and only if every proof is valid.
pub proof fn lemma_psi_blamed_empty(
    i: PartyIndex,
    data_ids: Seq<MsgId>,
    proof_ids: Seq<MsgId>,
    verdicts: Seq<PsiVerdict>,
    upto: int,
)
    requires
        0 <= upto <= verdicts.len(),
    ensures
        psi_blamed(i, data_ids, proof_ids, verdicts, upto).len() == 0 <==> forall|k: int|
            0 <= k < upto ==> !verdicts[k].faulty(),
    decreases upto,
{
    if upto > 0 {
        lemma_psi_blamed_empty(i, data_ids, proof_ids, verdicts, upto - 1);
    }
}

/// Checks the verdicts on the proofs ψ, ψˆ and ψ' that the peers sent in round 2. Every peer
/// of which a proof is invalid is blamed, with the verdicts on its three proofs.
pub fn check_round2_proofs(
    round2_msgs: &RoundMsgs<MsgRound2>,
    ciphertexts: &RoundMsgs<MsgRound1a>,
    verdicts: &[PsiVerdict],
) -> (r: Result<(), SigningError>)
    requires
        ciphertexts.count() == verdicts@.len(),
        round2_msgs.count() == verdicts@.len(),
    ensures
        r is Ok <==> forall|k: int| 0 <= k < verdicts@.len() ==> !verdicts@[k].faulty(),
        r matches Err(e) ==> e.0 matches Reason::Aborted(SigningAborted::InvalidPsi(list))
            && list@ == psi_blamed(
            round2_msgs.receiver(),
            ciphertexts.ids(),
            round2_msgs.ids(),
            verdicts@,
            verdicts@.len() as int,
        ),
{
    let n: usize = round2_msgs.len();
    let m: usize = ciphertexts.len();
    let mut faulty_parties: Vec<PsiBlame> = Vec::new();
    let mut k: usize = 0;
    while k < n
        invariant
            k <= n,
            n == verdicts@.len(),
            n == round2_msgs.count(),
            n == ciphertexts.count(),
            ciphertexts.ids().len() == n,
            round2_msgs.ids().len() == n,
            faulty_parties@ == psi_blamed(
                round2_msgs.receiver(),
                ciphertexts.ids(),
                round2_msgs.ids(),
                verdicts@,
                k as int,
            ),
        decreases n - k,
    {
        let v = verdicts[k];
        if v.psi_invalid || v.hat_psi_invalid || v.psi_prime_invalid {
            faulty_parties.push(
                PsiBlame {
                    blame: AbortBlame::new(
                        round2_msgs.sender(k),
                        ciphertexts.msg_id(k),
                        round2_msgs.msg_id(k),
                    ),
                    psi_invalid: v.psi_invalid,
                    hat_psi_invalid: v.hat_psi_invalid,
                    psi_prime_invalid: v.psi_prime_invalid,
                },
            );
        }
        k += 1;
    }
    proof {
        lemma_psi_blamed_empty(
            round2_msgs.receiver(),
            ciphertexts.ids(),
            round2_msgs.ids(),
            verdicts@,
            n as int,
        );
    }
    if faulty_parties.len() != 0 {
        Err(SigningError(Reason::Aborted(SigningAborted::InvalidPsi(faulty_parties))))
    } else {
        Ok(())
    }
}

/// The numbers of a sequence, each reduced modulo the group order.
pub open spec fn reduced(s: Seq<BigNumber>) -> Seq<nat> {
    Seq::new(s.len(), |k: int| (s[k]@ % (group_order() as int)) as nat)
}

/// The sum, as a scalar, of numbers that are reduced modulo the group order one by one.
pub fn sum_reduced(numbers: &[BigNumber]) -> (r: Scalar)
    ensures
        r@ == sum_mod(reduced(numbers@)),
{
    let mut acc = Scalar::zero();
    let mut k: usize = 0;
    assert(reduced(numbers@).subrange(0, 0) =~= Seq::<nat>::empty());
    while k < numbers.len()
        invariant
            k <= numbers@.len(),
            acc@ == sum_mod(reduced(numbers@).subrange(0, k as int)),
        decreases numbers@.len() - k,
    {
        let ghost before = reduced(numbers@).subrange(0, k as int);
        let ghost after = reduced(numbers@).subrange(0, k + 1);
        assert(after.drop_last() =~= before);
        let v = numbers[k].to_scalar();
        assert(after.last() == v@);
        acc = acc.add(&v);
        k += 1;
    }
    assert(reduced(numbers@).subrange(0, numbers@.len() as int) =~= reduced(numbers@));
    acc
}

/// What a party computes by itself at the start of round 2.
pub struct Round2Local {
    /// $\Gamma_i = G \cdot \gamma_i$
    pub Gamma_i: Point,
    /// The sum of the masks $\beta_{i,j}$ over the peers.
    pub beta_sum: Scalar,
    /// The sum of the masks $\hat\beta_{i,j}$ over the peers.
    pub hat_beta_sum: Scalar,
}

/// Round 2, the party's own part: $\Gamma_i$ from its secret $\gamma_i$, and the sums of the
/// masks that it drew for its peers.
pub fn round2_local(gamma_i: &Scalar, betas: &[BigNumber], hat_betas: &[BigNumber]) -> (r:
    Round2Local)
    ensures
        r.Gamma_i@ == spec_generator_mul(gamma_i@),
        r.beta_sum@ == sum_mod(reduced(betas@)),
        r.hat_beta_sum@ == sum_mod(reduced(hat_betas@)),
{
    let Gamma_i = Point::generator_mul(gamma_i);
    let beta_sum = sum_reduced(betas);
    let hat_beta_sum = sum_reduced(hat_betas);
    Round2Local { Gamma_i, beta_sum, hat_beta_sum }
}

/// The $\Gamma_j$ of a round of messages.
pub open spec fn gammas_of(msgs: Seq<MsgRound2>) -> Seq<Seq<u8>> {
    Seq::new(msgs.len(), |k: int| msgs[k].Gamma@)
}

/// The $\delta_j$ of a round of messages.
pub open spec fn deltas_of(msgs: Seq<MsgRound3>) -> Seq<nat> {
    Seq::new(msgs.len(), |k: int| msgs[k].delta@)
}

/// The $\Delta_j$ of a round of messages.
pub open spec fn big_deltas_of(msgs: Seq<MsgRound3>) -> Seq<Seq<u8>> {
    Seq::new(msgs.len(), |k: int| msgs[k].Delta@)
}

/// The $\sigma_j$ of a round of messages.
pub open spec fn sigmas_of(msgs: Seq<MsgRound4>) -> Seq<nat> {
    Seq::new(msgs.len(), |k: int| msgs[k].sigma@)
}

/// What a party computes by itself in round 3.
pub struct Round3Local {
    /// $\Gamma = \sum_j \Gamma_j$
    pub Gamma: Point,
    /// $\Delta_i = \Gamma \cdot k_i$
    pub Delta_i: Point,
    /// $\delta_i = \gamma_i k_i + \sum_j (\alpha_{i,j} + \beta_{i,j})$
    pub delta_i: Scalar,
    /// $\chi_i = x_i k_i + \sum_j (\hat\alpha_{i,j} + \hat\beta_{i,j})$
    pub chi_i: Scalar,
}

/// `a * b + c + d` in the scalars.
pub open spec fn mul_add_add(a: nat, b: nat, c: nat, d: nat) -> nat {
    add_mod(add_mod(mul_mod(a, b), c), d)
}

/// Round 3, the party's own part, once the proofs of round 2 are checked: $\Gamma$,
/// $\Delta_i$, $\delta_i$ and $\chi_i$. `alphas` and `hat_alphas` are what the party
/// decrypted from the peers' $D$ and $\hat D$.
pub fn round3_local(
    x_i: &Scalar,
    k_i: &Scalar,
    gamma_i: &Scalar,
    local: &Round2Local,
    round2_msgs: &RoundMsgs<MsgRound2>,
    alphas: &[BigNumber],
    hat_alphas: &[BigNumber],
) -> (r: Round3Local)
    ensures
        r.Gamma@ == spec_point_add(
            local.Gamma_i@,
            point_sum(gammas_of(round2_msgs.messages())),
        ),
        r.Delta_i@ == spec_point_mul(r.Gamma@, k_i@),
        r.delta_i@ == mul_add_add(
            gamma_i@,
            k_i@,
            sum_mod(reduced(alphas@)),
            local.beta_sum@,
        ),
        r.chi_i@ == mul_add_add(
            x_i@,
            k_i@,
            sum_mod(reduced(hat_alphas@)),
            local.hat_beta_sum@,
        ),
{
    let n: usize = round2_msgs.len();
    let mut gammas: Vec<Point> = Vec::new();
    let mut k: usize = 0;
    while k < n
        invariant
            k <= n,
            n == round2_msgs.count(),
            gammas@.len() == k,
            forall|j: int| 0 <= j < k ==> gammas@[j] == round2_msgs.messages()[j].Gamma,
        decreases n - k,
    {
        gammas.push(round2_msgs.message(k).Gamma);
        k += 1;
    }
    assert(encodings(gammas@) =~= gammas_of(round2_msgs.messages()));
    let Gamma = local.Gamma_i.add(&sum_points(&gammas));
    let Delta_i = Gamma.mul(k_i);

    let alpha_sum = sum_reduced(alphas);
    let hat_alpha_sum = sum_reduced(hat_alphas);

    let delta_i = gamma_i.mul(k_i).add(&alpha_sum).add(&local.beta_sum);
    let chi_i = x_i.mul(k_i).add(&hat_alpha_sum).add(&local.hat_beta_sum);
    Round3Local { Gamma, Delta_i, delta_i, chi_i }
}

/// $\delta$, the sum of the party's $\delta_i$ and its peers'.
pub open spec fn total_delta(delta_i: nat, msgs: Seq<MsgRound3>) -> nat {
    add_mod(delta_i, sum_mod(deltas_of(msgs)))
}

/// $\Delta$, the sum of the party's $\Delta_i$ and its peers'.
pub open spec fn total_big_delta(Delta_i: Seq<u8>, msgs: Seq<MsgRound3>) -> Seq<u8> {
    spec_point_add(Delta_i, point_sum(big_deltas_of(msgs)))
}

/// Why no presignature comes out of $\Gamma$, $\Delta_i$, $\delta_i$ and the peers' round 3,
/// if none does: the first of the checks that fails.
pub open spec fn presignature_check(
    Gamma: Seq<u8>,
    Delta_i: Seq<u8>,
    delta_i: nat,
    msgs: Seq<MsgRound3>,
) -> Option<Reason> {
    let delta = total_delta(delta_i, msgs);
    if spec_generator_mul(delta) != total_big_delta(Delta_i, msgs) {
        Some(Reason::Aborted(SigningAborted::MismatchedDelta))
    } else if delta == 0 {
        Some(Reason::Bug(Bug::ZeroDelta))
    } else if spec_point_mul(Gamma, inverse(delta)) == identity() {
        Some(Reason::Bug(Bug::ZeroR))
    } else {
        None
    }
}

/// Why no presignature comes out, if none does: the first of the checks that fails.
pub open spec fn presignature_failure(local: Round3Local, msgs: Seq<MsgRound3>) -> Option<
    Reason,
> {
    presignature_check(local.Gamma@, local.Delta_i@, local.delta_i@, msgs)
}

/// Presignature output, once the proofs ψ'' are checked: $\delta$ and $\Delta$ are added up
/// and compared, and $R = \Gamma \cdot \delta^{-1}$ makes the presignature with the party's
/// $k_i$ and $\chi_i$.
pub fn presignature_output(local: &Round3Local, k_i: Scalar, round3_msgs: &RoundMsgs<MsgRound3>) -> (r:
    Result<Presignature, SigningError>)
    ensures
        r is Ok <==> presignature_failure(*local, round3_msgs.messages()) is None,
        r matches Err(e) ==> presignature_failure(*local, round3_msgs.messages()) is Some && (
        match e.0 {
            Reason::Aborted(SigningAborted::MismatchedDelta) => presignature_failure(
                *local,
                round3_msgs.messages(),
            ) == Some(Reason::Aborted(SigningAborted::MismatchedDelta)),
            Reason::Bug(b) => presignature_failure(*local, round3_msgs.messages()) == Some(
                Reason::Bug(b),
            ),
            _ => false,
        }),
        r matches Ok(presig) ==> {
            &&& presig.R@ == spec_point_mul(
                local.Gamma@,
                inverse(total_delta(local.delta_i@, round3_msgs.messages())),
            )
            &&& presig.k@ == k_i@
            &&& presig.chi@ == local.chi_i@
        },
{
    let n: usize = round3_msgs.len();
    let mut deltas: Vec<Scalar> = Vec::new();
    let mut big_deltas: Vec<Point> = Vec::new();
    let mut k: usize = 0;
    while k < n
        invariant
            k <= n,
            n == round3_msgs.count(),
            deltas@.len() == k,
            big_deltas@.len() == k,
            forall|j: int| 0 <= j < k ==> deltas@[j] == round3_msgs.messages()[j].delta,
            forall|j: int| 0 <= j < k ==> big_deltas@[j] == round3_msgs.messages()[j].Delta,
        decreases n - k,
    {
        deltas.push(round3_msgs.message(k).delta);
        big_deltas.push(round3_msgs.message(k).Delta);
        k += 1;
    }
    assert(values(deltas@) =~= deltas_of(round3_msgs.messages()));
    assert(encodings(big_deltas@) =~= big_deltas_of(round3_msgs.messages()));
    let delta = local.delta_i.add(&sum_scalars(&deltas));
    let Delta = local.Delta_i.add(&sum_points(&big_deltas));

    if !Point::generator_mul(&delta).eq(&Delta) {
        // Following the protocol, party should broadcast additional proofs
        // to convince others it didn't cheat. However, since identifiable
        // abort is not implemented yet, this part of the protocol is missing
        return Err(SigningError(Reason::Aborted(SigningAborted::MismatchedDelta)));
    }
    let delta_inv = match delta.invert() {
        Some(v) => v,
        None => {
            return Err(SigningError(Reason::Bug(Bug::ZeroDelta)));
        },
    };
    let R = local.Gamma.mul(&delta_inv);
    let R = match NonZeroPoint::from_point(R) {
        Some(R) => R,
        None => {
            return Err(SigningError(Reason::Bug(Bug::ZeroR)));
        },
    };
    Ok(Presignature { R, k: k_i, chi: local.chi_i })
}

/// $s$, the sum of the party's partial signature and its peers'.
pub open spec fn total_sigma(sigma_i: nat, msgs: Seq<MsgRound4>) -> nat {
    add_mod(sigma_i, sum_mod(sigmas_of(msgs)))
}

/// Signature reconstruction: the partial signatures are added up, the signature is
/// normalized and verified against the public key and the message. A signature that is
/// malformed or does not verify shows that a signer cheated, and the protocol is aborted.
pub fn signature_output(
    partial_sig: &PartialSignature,
    partial_sigs: &RoundMsgs<MsgRound4>,
    pk: &Point,
    message_to_sign: &DataToSign,
) -> (r: Result<Signature, SigningError>)
    ensures
        r is Ok <==> partial_sig.r@ != 0 && total_sigma(
            partial_sig.sigma@,
            partial_sigs.messages(),
        ) != 0 && signature_verifies(
            partial_sig.r@,
            low_s(total_sigma(partial_sig.sigma@, partial_sigs.messages())),
            pk@,
            message_to_sign@,
        ),
        r matches Err(e) ==> e.0 matches Reason::Aborted(SigningAborted::SignatureInvalid),
        r matches Ok(sig) ==> {
            &&& sig.r@ == partial_sig.r@
            &&& sig.s@ == low_s(total_sigma(partial_sig.sigma@, partial_sigs.messages()))
            &&& sig.s@ <= group_order() / 2
            &&& signature_verifies(sig.r@, sig.s@, pk@, message_to_sign@)
        },
{
    let n: usize = partial_sigs.len();
    let mut sigmas: Vec<Scalar> = Vec::new();
    let mut k: usize = 0;
    while k < n
        invariant
            k <= n,
            n == partial_sigs.count(),
            sigmas@.len() == k,
            forall|j: int| 0 <= j < k ==> sigmas@[j] == partial_sigs.messages()[j].sigma,
        decreases n - k,
    {
        sigmas.push(partial_sigs.message(k).sigma);
        k += 1;
    }
    assert(values(sigmas@) =~= sigmas_of(partial_sigs.messages()));
    let s = partial_sig.sigma.add(&sum_scalars(&sigmas));
    let sig = match NonZeroScalar::from_scalar(partial_sig.r) {
        None => None,
        Some(r) => match NonZeroScalar::from_scalar(s) {
            None => None,
            Some(s) => Some(Signature { r, s }.normalize_s()),
        },
    };
    match sig {
        Some(sig) => {
            if sig.verify(pk, message_to_sign).is_err() {
                // Following the protocol, party should broadcast additional proofs
                // to convince others it didn't cheat. However, since identifiable
                // abort is not implemented yet, this part of the protocol is missing
                Err(SigningError(Reason::Aborted(SigningAborted::SignatureInvalid)))
            } else {
                Ok(sig)
            }
        },
        None => Err(SigningError(Reason::Aborted(SigningAborted::SignatureInvalid))),
    }
}

/// The bytes that name one run of a protocol: they go into every proof of the run, so that no
/// proof of one run is accepted in another.
#[derive(Clone, Copy, Debug)]
pub struct ExecutionId<'a> {
    id: &'a [u8],
}

impl<'a> ExecutionId<'a> {
    /// The identifier that `bytes` are.
    pub fn new(bytes: &'a [u8]) -> (r: Self)
        ensures
            r.as_bytes_spec() == bytes@,
    {
        ExecutionId { id: bytes }
    }

    /// The bytes of the identifier.
    pub closed spec fn as_bytes_spec(self) -> Seq<u8> {
        self.id@
    }

    /// The bytes of the identifier.
    pub fn as_bytes(&self) -> (r: &'a [u8])
        ensures
            r@ == self.as_bytes_spec(),
    {
        self.id
    }
}

/// Signing entry point
pub struct SigningBuilder<'r> {
    i: PartyIndex,
    parties_indexes_at_keygen: &'r [PartyIndex],
    key_share: &'r KeyShare,
    execution_id: ExecutionId<'r>,
    enforce_reliable_broadcast: bool,
}

impl<'r> SigningBuilder<'r> {
    /// Index of the signer among the signers.
    pub closed spec fn signer(self) -> PartyIndex {
        self.i
    }

    /// The signers, as the indexes that they had at key generation.
    pub closed spec fn signers(self) -> Seq<PartyIndex> {
        self.parties_indexes_at_keygen@
    }

    /// The key share to sign with.
    pub closed spec fn share(self) -> KeyShare {
        *self.key_share
    }

    /// The bytes that name the run.
    pub closed spec fn session(self) -> Seq<u8> {
        self.execution_id.as_bytes_spec()
    }

    /// Whether the reliability check of the first broadcast is made.
    pub closed spec fn reliable(self) -> bool {
        self.enforce_reliable_broadcast
    }

    /// Construct a signing builder: the reliability check is made unless it is switched off.
    pub fn new(
        eid: ExecutionId<'r>,
        i: PartyIndex,
        parties_indexes_at_keygen: &'r [PartyIndex],
        secret_key_share: &'r KeyShare,
    ) -> (r: Self)
        ensures
            r.signer() == i,
            r.signers() == parties_indexes_at_keygen@,
            r.share() == *secret_key_share,
            r.session() == eid.as_bytes_spec(),
            r.reliable(),
    {
        Self {
            i,
            parties_indexes_at_keygen,
            key_share: secret_key_share,
            execution_id: eid,
            enforce_reliable_broadcast: true,
        }
    }

    /// Switches the reliability check of the first broadcast on or off. It can be switched
    /// off where the transport itself delivers every broadcast reliably.
    pub fn enforce_reliable_broadcast(self, v: bool) -> (r: Self)
        ensures
            r.signer() == self.signer(),
            r.signers() == self.signers(),
            r.share() == self.share(),
            r.session() == self.session(),
            r.reliable() == v,
    {
        Self { enforce_reliable_broadcast: v, ..self }
    }

    /// Index of the signer among the signers.
    pub fn index(&self) -> (r: PartyIndex)
        ensures
            r == self.signer(),
    {
        self.i
    }

    /// The bytes that name the run.
    pub fn execution_id(&self) -> (r: ExecutionId<'r>)
        ensures
            r.as_bytes_spec() == self.session(),
    {
        self.execution_id
    }

    /// Whether the reliability check of the first broadcast is made.
    pub fn reliable_broadcast_enforced(&self) -> (r: bool)
        ensures
            r == self.reliable(),
    {
        self.enforce_reliable_broadcast
    }

    /// The bytes that seal the proofs of `party` to this run.
    pub fn shared_state(&self, party: PartyIndex) -> (r: Vec<u8>)
        ensures
            r@ == shared_state_of(self.session(), party),
    {
        proof_shared_state(self.execution_id.as_bytes(), party)
    }

    /// Starts presignature generation protocol: gives the party's data for the run, and the
    /// session that makes a presignature.
    pub fn generate_presignature(self) -> (r: Result<
        (SigningParty, crate::session::SigningSession),
        SigningError,
    >)
        ensures
            r is Ok <==> setup_failure(self.signer(), self.share(), self.signers()) is None,
            r matches Err(e) ==> Some(e.0) == setup_failure(
                self.signer(),
                self.share(),
                self.signers(),
            ),
            r matches Ok((p, session)) ==> {
                &&& is_signing_party(p, self.signer(), self.share(), self.signers())
                &&& session@.phase == crate::session::Phase::Secrets
                &&& session@.reliable == self.reliable()
                &&& session@.message is None
                &&& session@.x_i == p.x_i@
                &&& session@.pk == self.share().core.shared_public_key@
            },
    {
        match self.start() {
            Ok(party) => {
                let session = crate::session::SigningSession::new(
                    &party,
                    self.enforce_reliable_broadcast,
                    None,
                );
                Ok((party, session))
            },
            Err(e) => Err(e),
        }
    }

    /// Starts signing protocol: gives the party's data for the run, and the session that
    /// signs `message_to_sign`.
    pub fn sign(self, message_to_sign: DataToSign) -> (r: Result<
        (SigningParty, crate::session::SigningSession),
        SigningError,
    >)
        ensures
            r is Ok <==> setup_failure(self.signer(), self.share(), self.signers()) is None,
            r matches Err(e) ==> Some(e.0) == setup_failure(
                self.signer(),
                self.share(),
                self.signers(),
            ),
            r matches Ok((p, session)) ==> {
                &&& is_signing_party(p, self.signer(), self.share(), self.signers())
                &&& session@.phase == crate::session::Phase::Secrets
                &&& session@.reliable == self.reliable()
                &&& session@.message == Some(message_to_sign@)
                &&& session@.x_i == p.x_i@
                &&& session@.pk == self.share().core.shared_public_key@
            },
    {
        match self.start() {
            Ok(party) => {
                let session = crate::session::SigningSession::new(
                    &party,
                    self.enforce_reliable_broadcast,
                    Some(message_to_sign),
                );
                Ok((party, session))
            },
            Err(e) => Err(e),
        }
    }

    /// Starts the protocol: checks the arguments against the key share and restricts the share
    /// to the signers.
    pub fn start(&self) -> (r: Result<SigningParty, SigningError>)
        ensures
            r is Ok <==> setup_failure(self.signer(), self.share(), self.signers()) is None,
            r matches Err(e) ==> Some(e.0) == setup_failure(
                self.signer(),
                self.share(),
                self.signers(),
            ),
            r matches Ok(p) ==> is_signing_party(
                p,
                self.signer(),
                self.share(),
                self.signers(),
            ),
    {
        signing_t_out_of_n(self.i, self.key_share, self.parties_indexes_at_keygen)
    }
}

} // verus!

//! Π prm: the proof that ring-Pedersen parameters are well formed, that is, that `s` is a
//! power of `t` modulo `N`.
//!
//! The prover, who knows `lambda` with `s = t^lambda mod N`, commits to `A_k = t^(a_k) mod N`
//! for [`M`] numbers `a_k` that it drew; one bit `e_k` of challenge is derived for each from
//! the digest of the statement and the commitments; and the prover answers with
//! `z_k = a_k + e_k * lambda mod phi(N)`. The verifier checks `t^(z_k) = A_k * s^(e_k) mod N`.

use crate::bignumber::BigNumber;
use crate::bytes::be_nat;
use crate::hashing::spec_sha256;
use crate::hashing::transcript;
use crate::hashing::HashCommit;
use crate::key_share::PartyAux;
use crate::security_level::M;
use vstd::arithmetic::power::pow;
use vstd::prelude::*;

verus! {

/// The proof: the prover's commitments and its answers, [`M`] of each.
pub struct PrmProof {
    /// `A_k = t^(a_k) mod N`
    pub commitments: Vec<BigNumber>,
    /// `z_k = a_k + e_k * lambda mod phi(N)`
    pub zs: Vec<BigNumber>,
}

/// The magnitudes of a list of numbers.
pub open spec fn magnitudes(numbers: Seq<BigNumber>) -> Seq<Seq<u8>> {
    Seq::new(numbers.len(), |k: int| numbers[k].magnitude@)
}

/// What the challenge is the digest of: what seals the proof to its run and prover, the
/// statement, and the commitments.
pub open spec fn prm_transcript(shared_state: Seq<u8>, aux: PartyAux, commitments: Seq<BigNumber>) -> Seq<
    Seq<u8>,
> {
    seq![shared_state, aux.N.magnitude@, aux.s.magnitude@, aux.t.magnitude@] + magnitudes(
        commitments,
    )
}

/// The `k`-th bit of a byte string, counted from the lowest bit of its first byte.
pub open spec fn bit_of(bytes: Seq<u8>, k: int) -> bool {
    (bytes[k / 8] >> ((k % 8) as u8)) & 1 == 1
}

/// The `k`-th bit of the challenge.
pub open spec fn prm_challenge_bit(
    shared_state: Seq<u8>,
    aux: PartyAux,
    commitments: Seq<BigNumber>,
    k: int,
) -> bool {
    bit_of(spec_sha256(transcript(prm_transcript(shared_state, aux, commitments))), k)
}

/// The challenge: [`M`] bits of the digest of the statement and the commitments.
pub fn prm_challenge(shared_state: &[u8], aux: &PartyAux, commitments: &Vec<BigNumber>) -> (r:
    Vec<bool>)
    ensures
        r@.len() == M,
        forall|k: int|
            0 <= k < M ==> r@[k] == prm_challenge_bit(shared_state@, *aux, commitments@, k),
{
    let mut h = HashCommit::builder().mix_bytes(shared_state).mix_bytes(
        aux.N.magnitude.as_slice(),
    ).mix_bytes(aux.s.magnitude.as_slice()).mix_bytes(aux.t.magnitude.as_slice());
    let ghost head = seq![shared_state@, aux.N.magnitude@, aux.s.magnitude@, aux.t.magnitude@];
    assert(h@ =~= head + magnitudes(commitments@).subrange(0, 0));
    let mut k: usize = 0;
    while k < commitments.len()
        invariant
            k <= commitments@.len(),
            h@ == head + magnitudes(commitments@).subrange(0, k as int),
        decreases commitments@.len() - k,
    {
        h = h.mix_bytes(commitments[k].magnitude.as_slice());
        assert(h@ =~= head + magnitudes(commitments@).subrange(0, k + 1));
        k += 1;
    }
    assert(magnitudes(commitments@).subrange(0, commitments@.len() as int) =~= magnitudes(
        commitments@,
    ));
    let digest = h.finish();
    let mut bits: Vec<bool> = Vec::new();
    let mut k: usize = 0;
    while k < M
        invariant
            k <= M,
            bits@.len() == k,
            forall|j: int| 0 <= j < k ==> bits@[j] == bit_of(digest@, j),
        decreases M - k,
    {
        let byte: u8 = digest[k / 8];
        let shift: u8 = (k % 8) as u8;
        bits.push((byte >> shift) & 1 == 1);
        k += 1;
    }
    bits
}

/// The answer to one bit of challenge: `a + e * lambda mod phi`.
pub open spec fn prm_answer(a: nat, e: bool, lambda: nat, phi: nat) -> nat {
    if e {
        (a + lambda) % phi
    } else {
        a % phi
    }
}

/// Proves that `aux.s` is a power of `aux.t`: `lambda` is the exponent, `phi` is
/// `phi(N) = (p - 1) * (q - 1)`, and `nonces` are the [`M`] numbers that the prover drew
/// below `phi`. `None` unless there are [`M`] nonces, and `N` and `phi` are not zero.
#[verifier::loop_isolation(false)]
pub fn prm_prove(
    shared_state: &[u8],
    aux: &PartyAux,
    lambda: &BigNumber,
    phi: &BigNumber,
    nonces: &Vec<BigNumber>,
) -> (r: Option<PrmProof>)
    ensures
        r is Some <==> nonces@.len() == M && be_nat(aux.N.magnitude@) != 0 && be_nat(
            phi.magnitude@,
        ) != 0,
        r matches Some(proof) ==> {
            &&& proof.commitments@.len() == M
            &&& proof.zs@.len() == M
            &&& forall|k: int|
                0 <= k < M ==> (#[trigger] proof.commitments@[k])@ == pow(
                    be_nat(aux.t.magnitude@) as int,
                    be_nat(nonces@[k].magnitude@),
                ) % (be_nat(aux.N.magnitude@) as int)
            &&& forall|k: int|
                0 <= k < M ==> (#[trigger] proof.zs@[k])@ == prm_answer(
                    be_nat(nonces@[k].magnitude@),
                    prm_challenge_bit(shared_state@, *aux, proof.commitments@, k),
                    be_nat(lambda.magnitude@),
                    be_nat(phi.magnitude@),
                )
        },
{
    if nonces.len() != M {
        return None;
    }
    let mut commitments: Vec<BigNumber> = Vec::new();
    let mut k: usize = 0;
    while k < M
        invariant
            k <= M,
            commitments@.len() == k,
            be_nat(aux.N.magnitude@) != 0 || k == 0,
            forall|j: int|
                0 <= j < k ==> (#[trigger] commitments@[j])@ == pow(
                    be_nat(aux.t.magnitude@) as int,
                    be_nat(nonces@[j].magnitude@),
                ) % (be_nat(aux.N.magnitude@) as int),
        decreases M - k,
    {
        match aux.t.modpow(&nonces[k], &aux.N) {
            Some(a) => {
                commitments.push(a);
            },
            None => {
                return None;
            },
        }
        k += 1;
    }
    let challenge = prm_challenge(shared_state, aux, &commitments);
    let mut zs: Vec<BigNumber> = Vec::new();
    let mut k: usize = 0;
    while k < M
        invariant
            k <= M,
            zs@.len() == k,
            be_nat(phi.magnitude@) != 0 || k == 0,
            forall|j: int|
                0 <= j < k ==> (#[trigger] zs@[j])@ == prm_answer(
                    be_nat(nonces@[j].magnitude@),
                    challenge@[j],
                    be_nat(lambda.magnitude@),
                    be_nat(phi.magnitude@),
                ),
        decreases M - k,
    {
        let a = BigNumber::from_be_bytes(nonces[k].magnitude.clone());
        let l = BigNumber::from_be_bytes(lambda.magnitude.clone());
        let sum = if challenge[k] {
            a.add(&l)
        } else {
            a
        };
        match sum.rem(phi) {
            Some(z) => {
                zs.push(z);
            },
            None => {
                return None;
            },
        }
        k += 1;
    }
    Some(PrmProof { commitments, zs })
}

/// What the verifier checks of the `k`-th answer: `t^(z_k) = A_k * s^(e_k) mod N`.
pub open spec fn prm_round_accepts(aux: PartyAux, a: BigNumber, z: BigNumber, e: bool) -> bool {
    let n = be_nat(aux.N.magnitude@);
    let s = be_nat(aux.s.magnitude@);
    pow(be_nat(aux.t.magnitude@) as int, be_nat(z.magnitude@)) % (n as int) == (if e {
        be_nat(a.magnitude@) * s
    } else {
        be_nat(a.magnitude@)
    }) % n
}

/// Whether a proof is accepted: the modulus is not zero, there are [`M`] commitments and
/// answers, and every answer passes the verifier's check.
pub open spec fn prm_accepts(shared_state: Seq<u8>, aux: PartyAux, proof: PrmProof) -> bool {
    &&& be_nat(aux.N.magnitude@) != 0
    &&& proof.commitments@.len() == M
    &&& proof.zs@.len() == M
    &&& forall|k: int|
        0 <= k < M ==> prm_round_accepts(
            aux,
            #[trigger] proof.commitments@[k],
            proof.zs@[k],
            prm_challenge_bit(shared_state, aux, proof.commitments@, k),
        )
}

/// Verifies that `aux.s` is a power of `aux.t` modulo `aux.N`, as far as the proof shows it.
#[verifier::loop_isolation(false)]
pub fn prm_verify(shared_state: &[u8], aux: &PartyAux, proof: &PrmProof) -> (r: bool)
    ensures
        r == prm_accepts(shared_state@, *aux, *proof),
{
    if proof.commitments.len() != M || proof.zs.len() != M {
        return false;
    }
    let challenge = prm_challenge(shared_state, aux, &proof.commitments);
    let mut k: usize = 0;
    while k < M
        invariant
            k <= M,
            be_nat(aux.N.magnitude@) != 0 || k == 0,
            forall|j: int|
                0 <= j < k ==> prm_round_accepts(
                    *aux,
                    #[trigger] proof.commitments@[j],
                    proof.zs@[j],
                    challenge@[j],
                ),
        decreases M - k,
    {
        let lhs = match aux.t.modpow(&proof.zs[k], &aux.N) {
            Some(v) => v,
            None => {
                return false;
            },
        };
        let a = BigNumber::from_be_bytes(proof.commitments[k].magnitude.clone());
        let product = if challenge[k] {
            a.mul(&BigNumber::from_be_bytes(aux.s.magnitude.clone()))
        } else {
            a
        };
        let rhs = match product.rem(&aux.N) {
            Some(v) => v,
            None => {
                return false;
            },
        };
        if !lhs.equals(&rhs) {
            assert(!prm_round_accepts(
                *aux,
                proof.commitments@[k as int],
                proof.zs@[k as int],
                prm_challenge_bit(shared_state@, *aux, proof.commitments@, k as int),
            ));
            return false;
        }
        k += 1;
    }
    true
}

} // verus!

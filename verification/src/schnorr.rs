//! Schnorr proofs of knowledge of a discrete logarithm.

use crate::bytes::be_nat;
use crate::point::spec_generator_mul;
use crate::point::spec_point_add;
use crate::point::spec_point_mul;
use crate::point::Point;
use crate::scalar::add_mod;
use crate::scalar::group_order;
use crate::scalar::mul_mod;
use crate::scalar::Scalar;
use generic_ec::curves::Secp256k1;
use vstd::prelude::*;

verus! {

/// The prover's response `z = k + e * x`, for the committed nonce `k`, the challenge `e` and
/// the secret `x`.
pub open spec fn schnorr_response(k: nat, e: nat, x: nat) -> nat {
    add_mod(k, mul_mod(e, x))
}

/// What the verifier checks: `G * z == commit + X * e`.
pub open spec fn schnorr_accepts(z: nat, commit: Seq<u8>, e: nat, X: Seq<u8>) -> bool {
    spec_generator_mul(z) == spec_point_add(commit, spec_point_mul(X, e))
}

/// `generic_ec_zkp::schnorr_pok::prove`: the response is the committed nonce plus the
/// challenge times the secret.
#[verifier::external_body]
fn zkp_schnorr_prove(nonce: &Scalar, challenge: &Scalar, secret: &Scalar) -> (r: [u8; 32])
    ensures
        be_nat(r@) == schnorr_response(nonce@, challenge@, secret@),
{
    let mut k = generic_ec::Scalar::<Secp256k1>::from_be_bytes_mod_order(nonce.to_be_bytes());
    let committed = generic_ec_zkp::schnorr_pok::ProverSecret {
        nonce: generic_ec::SecretScalar::new(&mut k),
    };
    let challenge = generic_ec_zkp::schnorr_pok::Challenge {
        nonce: generic_ec::Scalar::from_be_bytes_mod_order(challenge.to_be_bytes()),
    };
    let x = generic_ec::Scalar::from_be_bytes_mod_order(secret.to_be_bytes());
    let proof = generic_ec_zkp::schnorr_pok::prove(&committed, &challenge, &x);
    let mut out = [0u8; 32];
    out.copy_from_slice(proof.0.to_be_bytes().as_bytes());
    out
}

/// `generic_ec_zkp::schnorr_pok::Proof::verify`: accepts if and only if the generator times
/// the response is the commitment plus the public point times the challenge.
#[verifier::external_body]
fn zkp_schnorr_verify(proof: &Scalar, commit: &Point, challenge: &Scalar, X: &Point) -> (r: bool)
    ensures
        r == schnorr_accepts(proof@, commit@, challenge@, X@),
{
    let z = generic_ec::Scalar::<Secp256k1>::from_be_bytes_mod_order(proof.to_be_bytes());
    let commit = generic_ec::Point::from_bytes(commit.to_bytes()).expect("a point");
    let e = generic_ec::Scalar::from_be_bytes_mod_order(challenge.to_be_bytes());
    let X = generic_ec::Point::from_bytes(X.to_bytes()).expect("a point");
    generic_ec_zkp::schnorr_pok::Proof(z).verify(
        &generic_ec_zkp::schnorr_pok::Commit(commit),
        &generic_ec_zkp::schnorr_pok::Challenge { nonce: e },
        &X,
    ).is_ok()
}

/// The prover's commitment to the nonce `k`: the generator multiplied by it.
pub fn commit(nonce: &Scalar) -> (r: Point)
    ensures
        r@ == spec_generator_mul(nonce@),
{
    Point::generator_mul(nonce)
}

/// Proves knowledge of `secret`: the response to `challenge` under the committed `nonce`.
pub fn prove(nonce: &Scalar, challenge: &Scalar, secret: &Scalar) -> (r: Scalar)
    ensures
        r@ == schnorr_response(nonce@, challenge@, secret@),
{
    let bytes = zkp_schnorr_prove(nonce, challenge, secret);
    let r = Scalar::from_be_bytes_mod_order(bytes.as_slice());
    proof {
        vstd::arithmetic::div_mod::lemma_small_mod(be_nat(bytes@), group_order());
    }
    r
}

/// Whether `proof` shows knowledge of the discrete logarithm of `X`, for the prover's
/// commitment and the challenge.
pub fn verify(proof: &Scalar, commit: &Point, challenge: &Scalar, X: &Point) -> (r: bool)
    ensures
        r == schnorr_accepts(proof@, commit@, challenge@, X@),
{
    zkp_schnorr_verify(proof, commit, challenge, X)
}

} // verus!

use cggmp21::bignumber::BigNumber;
use cggmp21::key_refresh::{
    complete_summands, ring_pedersen_parameters, KeyRefreshBuilder, MsgRound2 as RefreshRound2,
    MsgRound3 as RefreshProofs, PregeneratedPrimes, ProofVerdict, RefreshSecrets,
};
use cggmp21::key_share::{IncompleteKeyShare, KeyShare, PartyAux};
use cggmp21::keygen::{KeygenSecrets, MsgRound2 as KeygenRound2};
use cggmp21::point::Point;
use cggmp21::rounds::RoundMsgs;
use cggmp21::scalar::Scalar;
use cggmp21::security_level::ReasonablySecure;
use cggmp21::session::{PresignatureStep, SigningSession};
use cggmp21::signing::{
    DataToSign, ExecutionId, MsgReliabilityCheck, MsgRound1a, MsgRound1b, MsgRound2, MsgRound3,
    MsgRound4, PsiVerdict, Signature, SigningError, SigningParty, ZkProof,
};
use cggmp21::utils::{iter_peers, scalar_to_bignumber};
use generic_ec::coords::AlwaysHasAffineX;
use generic_ec::curves::Secp256k1;
use rand_chacha::ChaCha20Rng;
use rand_core::{RngCore, SeedableRng};
use sha2::Digest;

fn random_scalar(rng: &mut ChaCha20Rng) -> Scalar {
    let mut bytes = [0u8; 64];
    rng.fill_bytes(&mut bytes);
    Scalar::from_be_bytes_mod_order(&bytes)
}

fn random_bytes(rng: &mut ChaCha20Rng, len: usize) -> Vec<u8> {
    let mut bytes = vec![0u8; len];
    rng.fill_bytes(&mut bytes);
    bytes
}

/// What party `i` received in a round in which party `j` sent `all[j]`.
fn received<M>(i: u16, all: Vec<M>) -> RoundMsgs<M> {
    let mut ids = vec![];
    let mut msgs = vec![];
    for (j, m) in all.into_iter().enumerate() {
        if j != usize::from(i) {
            ids.push(10 * u64::from(i) + j as u64);
            msgs.push(m);
        }
    }
    RoundMsgs::new(i, ids, msgs).unwrap()
}

/// Key generation among `n` parties.
fn generate_key(rng: &mut ChaCha20Rng, n: u16) -> Vec<IncompleteKeyShare> {
    let builders: Vec<_> = (0..n).map(|i| cggmp21::keygen(i, n)).collect();
    let states: Vec<_> = builders
        .iter()
        .map(|b| {
            b.start(KeygenSecrets {
                x_i: random_scalar(rng),
                rid: random_bytes(rng, 48),
                sch_nonce: random_scalar(rng),
                decommit_nonce: random_bytes(rng, 32),
            })
        })
        .collect();
    let commitments: Vec<_> = states.iter().map(|s| s.my_commitment).collect();
    let decommitments: Vec<KeygenRound2> =
        states.iter().map(|s| s.my_decommitment.duplicate()).collect();
    let mut third = vec![];
    let mut proofs = vec![];
    for (i, state) in (0..n).zip(states) {
        let (state, proof) = builders[usize::from(i)]
            .round3(
                state,
                received(i, commitments.clone()),
                received(i, decommitments.iter().map(|d| d.duplicate()).collect()),
            )
            .expect("key generation failed");
        third.push(state);
        proofs.push(proof);
    }
    (0..n)
        .zip(third)
        .map(|(i, state)| {
            builders[usize::from(i)]
                .output(state, proofs[usize::from(i)], received(i, proofs.clone()))
                .expect("key generation failed")
        })
        .collect()
}

/// A number of 1536 bits that ends in `last`. The numbers are no primes: no proof is made
/// of them here.
fn long_odd(last: u8) -> BigNumber {
    let mut magnitude = vec![0u8; 192];
    magnitude[0] = 0x80;
    magnitude[191] = last;
    BigNumber::from_be_bytes(magnitude)
}

/// Key refresh among the holders of `old`.
fn refresh(rng: &mut ChaCha20Rng, old: &[IncompleteKeyShare]) -> Vec<KeyShare> {
    let n = old.len() as u16;
    let builders: Vec<KeyRefreshBuilder<ReasonablySecure>> = old
        .iter()
        .map(|s| {
            let primes =
                PregeneratedPrimes::new(long_odd(3 + 8 * s.i as u8), long_odd(7 + 8 * s.i as u8))
                    .unwrap();
            cggmp21::key_refresh(s, primes).unwrap()
        })
        .collect();
    let states: Vec<_> = builders
        .iter()
        .map(|b| {
            let modulus = b.modulus();
            let two = BigNumber::from_be_bytes(vec![2]);
            let five = BigNumber::from_be_bytes(vec![5]);
            let (s, t) = ring_pedersen_parameters(&two, &five, &modulus).unwrap();
            let secrets = RefreshSecrets {
                summands: complete_summands((1..n).map(|_| random_scalar(rng)).collect()),
                rho: random_bytes(rng, 48),
                sch_nonces: (0..n).map(|_| random_scalar(rng)).collect(),
                decommit_nonce: random_bytes(rng, 32),
            };
            b.start(secrets, PartyAux { N: modulus, s, t }).expect("the secrets fit")
        })
        .collect();
    let commitments: Vec<_> = states.iter().map(|s| s.my_commitment()).collect();
    let decommitments: Vec<RefreshRound2> = states.iter().map(|s| s.my_decommitment()).collect();
    let summands: Vec<Vec<Scalar>> =
        states.iter().map(|s| (0..n).map(|j| s.summand_for(j).unwrap()).collect()).collect();
    let mut third = vec![];
    let mut proofs: Vec<RefreshProofs> = vec![];
    for (i, state) in (0..n).zip(states) {
        let (state, proof) = builders[usize::from(i)]
            .round3(
                state,
                received(i, commitments.clone()),
                received(i, decommitments.iter().map(|d| d.duplicate()).collect()),
            )
            .expect("key refresh failed");
        third.push(state);
        proofs.push(proof);
    }
    let copy = |m: &RefreshProofs| RefreshProofs { sch_proofs: m.sch_proofs.clone() };
    let valid = ProofVerdict { mod_invalid: false, fac_invalid: false, prm_invalid: false };
    (0..n)
        .zip(third)
        .map(|(i, state)| {
            let to_me: Vec<Scalar> = summands.iter().map(|row| row[usize::from(i)]).collect();
            let out = builders[usize::from(i)]
                .output(
                    state,
                    copy(&proofs[usize::from(i)]),
                    received(i, proofs.iter().map(copy).collect()),
                    &vec![valid; usize::from(n) - 1],
                    &to_me,
                )
                .expect("key refresh failed");
            KeyShare { core: out.share.expect("a refreshed share"), aux: out.aux }
        })
        .collect()
}

fn must<T>(r: Result<T, SigningError>) -> T {
    match r {
        Ok(v) => v,
        Err(_) => panic!("signing failed"),
    }
}

fn no_proof() -> ZkProof {
    ZkProof { commitment: vec![], proof: vec![] }
}

/// Signing among the signers, with the peers' ciphertexts opened in the clear: what party
/// `me` decrypts from party `from` is the multiplier of `from` times `k_me`, less the mask
/// that `from` drew for `me`.
fn sign(
    rng: &mut ChaCha20Rng,
    shares: &[KeyShare],
    signers: &[u16],
    message: DataToSign,
) -> Vec<Signature> {
    let n = signers.len() as u16;
    let mut parties: Vec<SigningParty> = vec![];
    let mut sessions: Vec<SigningSession> = vec![];
    for i in 0..n {
        let share = &shares[usize::from(signers[usize::from(i)])];
        let builder = cggmp21::signing(ExecutionId::new(b"end to end"), i, signers, share);
        let (party, session) = must(builder.sign(message));
        parties.push(party);
        sessions.push(session);
    }
    let number = |v: u8| BigNumber::from_be_bytes(vec![v]);
    let ciphertexts = |me: u16| {
        received(me, (0..n).map(|j| MsgRound1a { K: number(j as u8), G: number(0) }).collect())
    };
    let gammas: Vec<Scalar> = (0..n).map(|_| random_scalar(rng)).collect();
    let ks: Vec<Scalar> = (0..n).map(|_| random_scalar(rng)).collect();
    for me in 0..n {
        let s = &mut sessions[usize::from(me)];
        must(s.secrets(gammas[usize::from(me)], ks[usize::from(me)]));
        let hashes = received(me, (0..n).map(|_| MsgReliabilityCheck([1; 32])).collect());
        must(s.reliability_check(&[1; 32], &hashes));
        let psi0 = received(me, (0..n).map(|_| MsgRound1b { psi0: no_proof() }).collect());
        must(s.enc_proofs(&ciphertexts(me), &psi0, &vec![false; usize::from(n) - 1]));
    }
    let mut masks = |rng: &mut ChaCha20Rng| -> Vec<Vec<BigNumber>> {
        (0..n)
            .map(|_| {
                (1..n)
                    .map(|_| BigNumber {
                        negative: rng.next_u32() % 2 == 0,
                        magnitude: random_bytes(rng, 106),
                    })
                    .collect()
            })
            .collect()
    };
    let betas = masks(rng);
    let hat_betas = masks(rng);
    let mut big_gammas: Vec<Point> = vec![];
    for me in 0..n {
        let s = &mut sessions[usize::from(me)];
        big_gammas.push(must(s.masks(&betas[usize::from(me)], &hat_betas[usize::from(me)])));
    }
    let opened = |me: u16, from: u16, multiplier: &Scalar, masks: &[Vec<BigNumber>]| {
        let slot = iter_peers(from, n).iter().position(|p| *p == me).unwrap();
        scalar_to_bignumber(multiplier)
            .mul(&scalar_to_bignumber(&ks[usize::from(me)]))
            .sub(&masks[usize::from(from)][slot])
    };
    let valid = PsiVerdict { psi_invalid: false, hat_psi_invalid: false, psi_prime_invalid: false };
    let mut round3: Vec<MsgRound3> = vec![];
    for me in 0..n {
        let round2 = received(
            me,
            (0..n)
                .map(|j| MsgRound2 {
                    Gamma: big_gammas[usize::from(j)],
                    D: number(0),
                    F: number(0),
                    hat_D: number(0),
                    hat_F: number(0),
                    psi: no_proof(),
                    hat_psi: no_proof(),
                    psi_prime: no_proof(),
                })
                .collect(),
        );
        let alphas: Vec<BigNumber> = iter_peers(me, n)
            .into_iter()
            .map(|from| opened(me, from, &gammas[usize::from(from)], &betas))
            .collect();
        let hat_alphas: Vec<BigNumber> = iter_peers(me, n)
            .into_iter()
            .map(|from| opened(me, from, &parties[usize::from(from)].x_i, &hat_betas))
            .collect();
        let (_, big_delta, delta) = must(sessions[usize::from(me)].round2(
            &round2,
            &ciphertexts(me),
            &vec![valid; usize::from(n) - 1],
            &alphas,
            &hat_alphas,
        ));
        round3.push(MsgRound3 { delta, Delta: big_delta, psi_prime_prime: no_proof() });
    }
    let copy =
        |m: &MsgRound3| MsgRound3 { delta: m.delta, Delta: m.Delta, psi_prime_prime: no_proof() };
    let mut round4: Vec<MsgRound4> = vec![];
    for me in 0..n {
        let msgs = received(me, round3.iter().map(copy).collect());
        let step = must(sessions[usize::from(me)].round3(
            &msgs,
            &ciphertexts(me),
            &vec![false; usize::from(n) - 1],
        ));
        match step {
            PresignatureStep::PartialSignature(msg) => round4.push(msg),
            PresignatureStep::Presignature(_) => panic!("a signature was asked for"),
        }
    }
    (0..n)
        .map(|me| {
            let sigmas = round4.iter().map(|m| MsgRound4 { sigma: m.sigma }).collect();
            must(sessions[usize::from(me)].round4(&received(me, sigmas)))
        })
        .collect()
}

/// ECDSA verification by the curve library alone.
fn verifies_with_curve_library(sig: &Signature, pk: &Point, message_hash: &[u8]) -> bool {
    type S = generic_ec::Scalar<Secp256k1>;
    type P = generic_ec::Point<Secp256k1>;
    let r = S::from_be_bytes(sig.r.to_scalar().to_be_bytes()).unwrap();
    let s = S::from_be_bytes(sig.s.to_scalar().to_be_bytes()).unwrap();
    let m = S::from_be_bytes_mod_order(message_hash);
    let pk = P::from_bytes(pk.to_bytes()).unwrap();
    let s_inv = s.invert().unwrap();
    let point = P::generator() * (m * s_inv) + pk * (r * s_inv);
    match generic_ec::NonZero::from_point(point) {
        Some(point) => point.x().to_scalar() == r,
        None => false,
    }
}

#[test]
fn key_generation_refresh_and_signing_of_hello() {
    let mut rng = ChaCha20Rng::from_seed([111u8; 32]);
    let n = 3;
    let generated = generate_key(&mut rng, n);
    let pk = generated[0].shared_public_key;
    let refreshed = refresh(&mut rng, &generated);
    for (old, new) in generated.iter().zip(&refreshed) {
        assert_eq!(new.validate::<ReasonablySecure>(), Ok(()));
        assert!(new.core.shared_public_key.eq(&pk));
        assert!(!new.core.x.eq(&old.x));
    }

    let message = DataToSign::digest(b"Hello");
    let signers: Vec<u16> = (0..n).collect();
    let signatures = sign(&mut rng, &refreshed, &signers, message);
    assert_eq!(signatures.len(), 3);
    for sig in &signatures {
        assert_eq!(sig.verify(&pk, &message), Ok(()));
        assert!(verifies_with_curve_library(sig, &pk, &sha2::Sha256::digest(b"Hello")));
        assert!(sig.r.to_scalar().eq(&signatures[0].r.to_scalar()));
        assert!(sig.s.to_scalar().eq(&signatures[0].s.to_scalar()));
    }
}

#[test]
fn five_parties_sign_with_shares_that_were_stored() {
    let mut rng = ChaCha20Rng::from_seed([112u8; 32]);
    let n = 5;
    let generated = generate_key(&mut rng, n);
    let pk = generated[0].shared_public_key;
    let complete = refresh(&mut rng, &generated);
    // every share is stored, and what is loaded takes its place
    let loaded: Vec<KeyShare> = complete
        .iter()
        .map(|share| {
            let stored = share.to_bytes();
            let loaded = KeyShare::from_bytes::<ReasonablySecure>(&stored).expect("a valid share");
            assert_eq!(loaded.to_bytes(), stored);
            loaded
        })
        .collect();
    let message = DataToSign::digest(b"stored and loaded");
    let signers: Vec<u16> = (0..n).collect();
    let signatures = sign(&mut rng, &loaded, &signers, message);
    assert_eq!(signatures.len(), 5);
    for sig in &signatures {
        assert_eq!(sig.verify(&pk, &message), Ok(()));
        let mut written = [0u8; 64];
        sig.write_to_slice(&mut written);
        let read = Signature::read_from_slice(&written).expect("a signature");
        assert_eq!(read.verify(&pk, &message), Ok(()));
    }
    assert!(verifies_with_curve_library(
        &signatures[0],
        &pk,
        &sha2::Sha256::digest(b"stored and loaded")
    ));
}

use cggmp21::bignumber::BigNumber;
use cggmp21::key_share::{AuxInfo, IncompleteKeyShare, KeyShare, PartyAux};
use cggmp21::keygen::{KeygenError, MsgRound1, MsgRound3, ProtocolAborted, Tag};
use cggmp21::point::{sum_points, Point};
use cggmp21::rounds::RoundMsgs;
use cggmp21::scalar::Scalar;
use cggmp21::security_level::ReasonablySecure;
use cggmp21::session::{Phase, PresignatureStep, SigningSession};
use cggmp21::signing::{
    Bug, DataToSign, ExecutionId, MsgReliabilityCheck, MsgRound1a, MsgRound1b, MsgRound2,
    MsgRound3 as SigningRound3, MsgRound4, Presignature, PsiVerdict, Reason, Signature,
    SigningAborted, SigningError, SigningParty, ZkProof,
};
use cggmp21::threshold::{
    evaluate, evaluate_points, MsgRound2Broad, MsgRound2Uni, ThresholdKeygenBuilder,
    ThresholdRound1, ThresholdSecrets,
};
use cggmp21::utils::{iter_peers, lagrange_coefficient, scalar_to_bignumber};
use rand_chacha::ChaCha20Rng;
use rand_core::{RngCore, SeedableRng};

fn random_scalar(rng: &mut ChaCha20Rng) -> Scalar {
    let mut bytes = [0u8; 64];
    rng.fill_bytes(&mut bytes);
    Scalar::from_be_bytes_mod_order(&bytes)
}

fn random_bytes(rng: &mut ChaCha20Rng, len: usize) -> Vec<u8> {
    let mut bytes = vec![0u8; len];
    rng.fill_bytes(&mut bytes);
    bytes
}

fn secrets(rng: &mut ChaCha20Rng, t: u16) -> ThresholdSecrets {
    ThresholdSecrets {
        rid: random_bytes(rng, 48),
        polynomial: (0..t).map(|_| random_scalar(rng)).collect(),
        sch_nonce: random_scalar(rng),
        decommit_nonce: random_bytes(rng, 32),
    }
}

fn received<M>(i: u16, all: Vec<M>) -> RoundMsgs<M> {
    let mut ids = vec![];
    let mut msgs = vec![];
    for (j, m) in all.into_iter().enumerate() {
        if j != usize::from(i) {
            ids.push(100 * u64::from(i) + j as u64);
            msgs.push(m);
        }
    }
    RoundMsgs::new(i, ids, msgs).unwrap()
}

struct Run {
    builders: Vec<ThresholdKeygenBuilder<ReasonablySecure>>,
    states: Vec<Option<ThresholdRound1>>,
    commitments: Vec<MsgRound1>,
    decommitments: Vec<MsgRound2Broad>,
    /// dealt[j][i]: what party j deals to party i
    dealt: Vec<Vec<MsgRound2Uni>>,
}

fn first_rounds(t: u16, n: u16, seed: u8) -> Run {
    let mut rng = ChaCha20Rng::from_seed([seed; 32]);
    let builders: Vec<_> = (0..n).map(|i| cggmp21::keygen(i, n).set_threshold(t)).collect();
    let states: Vec<ThresholdRound1> =
        builders.iter().map(|b| b.start(secrets(&mut rng, t)).unwrap()).collect();
    let commitments = states.iter().map(|s| s.my_commitment()).collect();
    let decommitments = states.iter().map(|s| s.my_decommitment()).collect();
    let dealt = states.iter().map(|s| (0..n).map(|i| s.share_for(i).unwrap()).collect()).collect();
    Run { builders, states: states.into_iter().map(Some).collect(), commitments, decommitments, dealt }
}

fn copies(ds: &[MsgRound2Broad]) -> Vec<MsgRound2Broad> {
    ds.iter().map(|d| d.duplicate()).collect()
}

fn round3(run: &mut Run, i: u16) -> Result<(cggmp21::threshold::ThresholdRound3, MsgRound3), KeygenError> {
    let to_me: Vec<MsgRound2Uni> = run.dealt.iter().map(|d| d[usize::from(i)]).collect();
    run.builders[usize::from(i)].round3(
        run.states[usize::from(i)].take().unwrap(),
        received(i, run.commitments.clone()),
        received(i, copies(&run.decommitments)),
        received(i, to_me),
    )
}

fn run_keygen(t: u16, n: u16, seed: u8) -> Vec<IncompleteKeyShare> {
    let mut run = first_rounds(t, n, seed);
    let mut states3 = vec![];
    let mut proofs = vec![];
    for i in 0..n {
        let (state, proof) = round3(&mut run, i).expect("keygen failed");
        states3.push(state);
        proofs.push(proof);
    }
    (0..n)
        .zip(states3)
        .map(|(i, state)| {
            run.builders[usize::from(i)]
                .output(state, proofs[usize::from(i)], received(i, proofs.clone()))
                .expect("keygen failed")
        })
        .collect()
}

/// The secret key that the shares of the parties `subset` give, by Lagrange interpolation at
/// zero.
fn reconstruct_secret_key(shares: &[IncompleteKeyShare], subset: &[u16]) -> Scalar {
    let points: Vec<_> = subset
        .iter()
        .map(|j| shares[0].vss_setup.as_ref().unwrap().I[usize::from(*j)])
        .collect();
    subset.iter().enumerate().fold(Scalar::zero(), |acc, (k, j)| {
        let lambda = lagrange_coefficient(Scalar::zero(), k as u16, &points).unwrap();
        acc.add(&shares[usize::from(*j)].x.mul(&lambda.to_scalar()))
    })
}

#[test]
fn threshold_keygen_works() {
    for (t, n, seed) in [(2u16, 3u16, 1u8), (5, 7, 2)] {
        let key_shares = run_keygen(t, n, seed);
        for (i, key_share) in (0u16..).zip(&key_shares) {
            assert_eq!(key_share.i, i);
            assert!(key_share.shared_public_key.eq(&key_shares[0].shared_public_key));
            assert_eq!(key_share.rid, key_shares[0].rid);
            assert_eq!(key_share.public_shares.len(), usize::from(n));
            for j in 0..usize::from(n) {
                assert!(key_share.public_shares[j].eq(&key_shares[0].public_shares[j]));
            }
            assert!(Point::generator_mul(&key_share.x)
                .eq(&key_share.public_shares[usize::from(i)]));
            let vss = key_share.vss_setup.as_ref().unwrap();
            assert_eq!(vss.min_signers, t);
            for (j, point) in vss.I.iter().enumerate() {
                assert!(point.to_scalar().eq(&Scalar::from_u16(j as u16 + 1)));
            }
            assert_eq!(key_share.validate(), Ok(()));
        }
        // any t parties hold the key
        let first: Vec<u16> = (0..t).collect();
        let last: Vec<u16> = (n - t..n).rev().collect();
        let sk = reconstruct_secret_key(&key_shares, &first);
        assert!(Point::generator_mul(&sk).eq(&key_shares[0].shared_public_key));
        assert!(reconstruct_secret_key(&key_shares, &last).eq(&sk));
        // fewer parties do not
        let fewer: Vec<u16> = (0..t - 1).collect();
        assert!(!reconstruct_secret_key(&key_shares, &fewer).eq(&sk));
    }
}

#[test]
fn threshold_keygen_needs_a_polynomial_of_the_threshold() {
    let mut rng = ChaCha20Rng::from_seed([3u8; 32]);
    let builder = cggmp21::keygen(0, 3).set_threshold(2);
    assert!(builder.start(secrets(&mut rng, 2)).is_some());
    assert!(builder.start(secrets(&mut rng, 1)).is_none());
    assert!(builder.start(secrets(&mut rng, 3)).is_none());
    let none = ThresholdKeygenBuilder::<ReasonablySecure>::new(0, 3, 0, Tag::default());
    assert!(none.start(secrets(&mut rng, 0)).is_none());
}

#[test]
fn threshold_keygen_deals_the_polynomial_at_the_parties_points() {
    let mut rng = ChaCha20Rng::from_seed([4u8; 32]);
    let s = secrets(&mut rng, 3);
    let polynomial = s.polynomial.clone();
    let state = cggmp21::keygen(1, 4).set_threshold(3).start(s).unwrap();
    let d = state.my_decommitment();
    assert_eq!(d.F.len(), 3);
    for (c, f) in polynomial.iter().zip(&d.F) {
        assert!(Point::generator_mul(c).eq(f));
    }
    for j in 0..4u16 {
        let x = Scalar::from_u16(j + 1);
        let sigma = state.share_for(j).unwrap().sigma;
        // c0 + c1 x + c2 x^2
        let expected =
            polynomial[0].add(&polynomial[1].mul(&x)).add(&polynomial[2].mul(&x).mul(&x));
        assert!(sigma.eq(&expected));
        assert!(evaluate(&polynomial, &x).eq(&expected));
        assert!(evaluate_points(&d.F, &x).eq(&Point::generator_mul(&sigma)));
    }
    assert!(state.share_for(4).is_none());
    assert!(evaluate(&vec![], &Scalar::from_u16(3)).is_zero());
    assert!(evaluate_points(&vec![], &Scalar::from_u16(3)).is_zero());
    assert!(evaluate(&polynomial, &Scalar::zero()).eq(&polynomial[0]));
}

#[test]
fn threshold_keygen_blames_what_was_not_dealt_fairly() {
    let (t, n) = (2, 4);
    let mut run = first_rounds(t, n, 5);
    // party 2 deals to party 0 what its polynomial does not give
    run.dealt[2][0] = MsgRound2Uni { sigma: run.dealt[2][0].sigma.add(&Scalar::from_u16(1)) };
    match round3(&mut run, 0) {
        Err(KeygenError::Aborted(ProtocolAborted::FeldmanVerificationFailed { parties })) => {
            assert_eq!(parties, vec![2])
        }
        _ => panic!("what party 2 dealt must be refused"),
    }
    // the other parties were dealt to fairly
    assert!(round3(&mut run, 1).is_ok());
    assert!(round3(&mut run, 3).is_ok());
}

#[test]
fn threshold_keygen_blames_a_decommitment_that_does_not_open() {
    let (t, n) = (2, 3);
    let mut run = first_rounds(t, n, 6);
    // party 1 opens to a polynomial of another degree, and deals unfairly as well
    let extra = run.decommitments[1].F[0];
    run.decommitments[1].F.push(extra);
    run.dealt[1][0] = MsgRound2Uni { sigma: Scalar::zero() };
    match round3(&mut run, 0) {
        Err(KeygenError::Aborted(ProtocolAborted::InvalidDecommitment { parties })) => {
            assert_eq!(parties, vec![1])
        }
        _ => panic!("the decommitment of 1 must be refused"),
    }
    let mut run = first_rounds(t, n, 6);
    run.decommitments[2].sch_commit = Point::zero();
    run.decommitments[0].rid.push(0);
    match round3(&mut run, 1) {
        Err(KeygenError::Aborted(ProtocolAborted::InvalidDecommitment { parties })) => {
            assert_eq!(parties, vec![0, 2])
        }
        _ => panic!("the decommitments of 0 and 2 must be refused"),
    }
}

#[test]
fn threshold_keygen_blames_an_invalid_schnorr_proof() {
    let (t, n) = (2, 3);
    let mut run = first_rounds(t, n, 7);
    let mut states3 = vec![];
    let mut proofs = vec![];
    for i in 0..n {
        let (state, proof) = round3(&mut run, i).unwrap();
        states3.push(state);
        proofs.push(proof);
    }
    let mut tampered = proofs.clone();
    tampered[0] = MsgRound3 { sch_proof: proofs[0].sch_proof.add(&Scalar::from_u16(1)) };
    let state = states3.remove(2);
    match run.builders[2].output(state, proofs[2], received(2, tampered)) {
        Err(KeygenError::Aborted(ProtocolAborted::InvalidSchnorrProof { parties })) => {
            assert_eq!(parties, vec![0])
        }
        _ => panic!("the proof of 0 must be refused"),
    }
}

fn number(v: u8) -> BigNumber {
    BigNumber::from_be_bytes(vec![v])
}

fn no_proof() -> ZkProof {
    ZkProof { commitment: vec![], proof: vec![] }
}

fn with_aux(core: IncompleteKeyShare) -> KeyShare {
    let n = core.public_shares.len();
    KeyShare {
        core,
        aux: AuxInfo {
            p: number(3),
            q: number(7),
            parties: (0..n)
                .map(|_| PartyAux { N: number(21), s: number(2), t: number(4) })
                .collect(),
        },
    }
}

fn must<T>(r: Result<T, SigningError>) -> T {
    match r {
        Ok(v) => v,
        Err(_) => panic!("signing failed"),
    }
}

enum Output {
    Presignature(Presignature),
    Signature(Signature),
}

/// Runs the signing protocol among the signers by their sessions; the peers' ciphertexts are
/// opened in the clear.
fn run_sessions(
    rng: &mut ChaCha20Rng,
    shares: &[KeyShare],
    signers: &[u16],
    message: Option<DataToSign>,
    reliable: bool,
) -> Vec<Output> {
    let n = signers.len() as u16;
    let mut parties: Vec<SigningParty> = vec![];
    let mut sessions: Vec<SigningSession> = vec![];
    for i in 0..n {
        let share = &shares[usize::from(signers[usize::from(i)])];
        let builder = cggmp21::signing(ExecutionId::new(b"run"), i, signers, share)
            .enforce_reliable_broadcast(reliable);
        let (party, session) = match message {
            Some(m) => must(builder.sign(m)),
            None => must(builder.generate_presignature()),
        };
        assert_eq!(session.phase(), Phase::Secrets);
        parties.push(party);
        sessions.push(session);
    }
    let for_all = |f: &dyn Fn(u16) -> MsgRound1a| -> Vec<MsgRound1a> { (0..n).map(f).collect() };
    let ciphertexts =
        |me: u16| received(me, for_all(&|j| MsgRound1a { K: number(j as u8), G: number(0) }));

    // Round 1
    let gammas: Vec<Scalar> = (0..n).map(|_| random_scalar(rng)).collect();
    let ks: Vec<Scalar> = (0..n).map(|_| random_scalar(rng)).collect();
    for me in 0..n {
        let s = &mut sessions[usize::from(me)];
        // a step out of order ends nothing yet: the session is asked before it gets its secrets
        must(s.secrets(gammas[usize::from(me)], ks[usize::from(me)]));
        if reliable {
            assert_eq!(s.phase(), Phase::ReliabilityCheck);
            let hashes = received(me, (0..n).map(|_| MsgReliabilityCheck([5; 32])).collect());
            must(s.reliability_check(&[5; 32], &hashes));
        }
        assert_eq!(s.phase(), Phase::EncProofs);
        let psi0 = received(me, (0..n).map(|_| MsgRound1b { psi0: no_proof() }).collect());
        must(s.enc_proofs(&ciphertexts(me), &psi0, &vec![false; usize::from(n) - 1]));
        assert_eq!(s.phase(), Phase::Masks);
    }

    // Round 2
    let mask = |rng: &mut ChaCha20Rng| BigNumber {
        negative: rng.next_u32() % 2 == 0,
        magnitude: random_bytes(rng, 106),
    };
    let betas: Vec<Vec<BigNumber>> =
        (0..n).map(|_| (1..n).map(|_| mask(rng)).collect()).collect();
    let hat_betas: Vec<Vec<BigNumber>> =
        (0..n).map(|_| (1..n).map(|_| mask(rng)).collect()).collect();
    let mut big_gammas: Vec<Point> = vec![];
    for me in 0..n {
        let s = &mut sessions[usize::from(me)];
        big_gammas.push(must(s.masks(&betas[usize::from(me)], &hat_betas[usize::from(me)])));
        assert_eq!(s.phase(), Phase::Round2);
    }
    let opened = |me: u16, from: u16, multiplier: &Scalar, masks: &[Vec<BigNumber>]| {
        let slot = iter_peers(from, n).iter().position(|p| *p == me).unwrap();
        scalar_to_bignumber(multiplier)
            .mul(&scalar_to_bignumber(&ks[usize::from(me)]))
            .sub(&masks[usize::from(from)][slot])
    };

    // Round 3
    let valid = PsiVerdict { psi_invalid: false, hat_psi_invalid: false, psi_prime_invalid: false };
    let mut round3: Vec<SigningRound3> = vec![];
    for me in 0..n {
        let round2 = received(
            me,
            (0..n)
                .map(|j| MsgRound2 {
                    Gamma: big_gammas[usize::from(j)],
                    D: number(0),
                    F: number(0),
                    hat_D: number(0),
                    hat_F: number(0),
                    psi: no_proof(),
                    hat_psi: no_proof(),
                    psi_prime: no_proof(),
                })
                .collect(),
        );
        let alphas: Vec<BigNumber> = iter_peers(me, n)
            .into_iter()
            .map(|from| opened(me, from, &gammas[usize::from(from)], &betas))
            .collect();
        let hat_alphas: Vec<BigNumber> = iter_peers(me, n)
            .into_iter()
            .map(|from| opened(me, from, &parties[usize::from(from)].x_i, &hat_betas))
            .collect();
        let s = &mut sessions[usize::from(me)];
        let (_, big_delta, delta) = must(s.round2(
            &round2,
            &ciphertexts(me),
            &vec![valid; usize::from(n) - 1],
            &alphas,
            &hat_alphas,
        ));
        assert_eq!(s.phase(), Phase::Round3);
        round3.push(SigningRound3 { delta, Delta: big_delta, psi_prime_prime: no_proof() });
    }

    // Presignature output
    let copy = |m: &SigningRound3| SigningRound3 {
        delta: m.delta,
        Delta: m.Delta,
        psi_prime_prime: no_proof(),
    };
    let mut outputs: Vec<Option<Output>> = vec![];
    let mut round4: Vec<MsgRound4> = vec![];
    for me in 0..n {
        let s = &mut sessions[usize::from(me)];
        let msgs = received(me, round3.iter().map(copy).collect());
        match must(s.round3(&msgs, &ciphertexts(me), &vec![false; usize::from(n) - 1])) {
            PresignatureStep::Presignature(presig) => {
                assert_eq!(s.phase(), Phase::Done);
                outputs.push(Some(Output::Presignature(presig)));
            }
            PresignatureStep::PartialSignature(msg) => {
                assert_eq!(s.phase(), Phase::Round4);
                outputs.push(None);
                round4.push(msg);
            }
        }
    }

    // Signing
    let sigmas = |round4: &[MsgRound4]| -> Vec<MsgRound4> {
        round4.iter().map(|m| MsgRound4 { sigma: m.sigma }).collect()
    };
    (0..n)
        .zip(outputs)
        .map(|(me, out)| match out {
            Some(out) => out,
            None => {
                let s = &mut sessions[usize::from(me)];
                let sig = must(s.round4(&received(me, sigmas(&round4))));
                assert_eq!(s.phase(), Phase::Done);
                Output::Signature(sig)
            }
        })
        .collect()
}

#[test]
fn threshold_keygen_then_signing_by_two_of_three() {
    let mut rng = ChaCha20Rng::from_seed([8u8; 32]);
    let shares: Vec<KeyShare> = run_keygen(2, 3, 8).into_iter().map(with_aux).collect();
    let pk = shares[0].core.shared_public_key;
    let message = DataToSign::digest(b"abc");
    // parties 0 and 2 sign
    let outputs = run_sessions(&mut rng, &shares, &[0, 2], Some(message), true);
    assert_eq!(outputs.len(), 2);
    for out in &outputs {
        match out {
            Output::Signature(sig) => assert_eq!(sig.verify(&pk, &message), Ok(())),
            Output::Presignature(_) => panic!("a signature was asked for"),
        }
    }
    // and so can 2 and 1, without the reliability check
    let outputs = run_sessions(&mut rng, &shares, &[2, 1], Some(message), false);
    match &outputs[1] {
        Output::Signature(sig) => assert_eq!(sig.verify(&pk, &message), Ok(())),
        Output::Presignature(_) => panic!("a signature was asked for"),
    }
}

#[test]
fn sessions_make_presignatures_that_sign_later() {
    let mut rng = ChaCha20Rng::from_seed([9u8; 32]);
    let n = 3;
    let secrets: Vec<Scalar> = (0..n).map(|_| random_scalar(&mut rng)).collect();
    let public_shares: Vec<Point> = secrets.iter().map(Point::generator_mul).collect();
    let pk = sum_points(&public_shares);
    let shares: Vec<KeyShare> = (0..n)
        .map(|i| {
            with_aux(IncompleteKeyShare {
                i: i as u16,
                shared_public_key: pk,
                public_shares: public_shares.clone(),
                x: secrets[i],
                rid: vec![],
                vss_setup: None,
            })
        })
        .collect();
    let outputs = run_sessions(&mut rng, &shares, &[0, 1, 2], None, true);
    let message = DataToSign::digest(b"signed later");
    let partial: Vec<_> = outputs
        .into_iter()
        .map(|out| match out {
            Output::Presignature(presig) => presig.issue_partial_signature(message),
            Output::Signature(_) => panic!("a presignature was asked for"),
        })
        .collect();
    let sig = cggmp21::signing::PartialSignature::combine(&partial).unwrap();
    assert_eq!(sig.verify(&pk, &message), Ok(()));
}

fn aborted(r: Result<(), SigningError>) -> Reason {
    match r {
        Err(e) => e.0,
        Ok(()) => panic!("the step must fail"),
    }
}

#[test]
fn session_refuses_steps_out_of_order() {
    let party = SigningParty {
        i: 0,
        n: 2,
        x_i: Scalar::from_u16(1),
        X: vec![],
        pk: Point::zero(),
        p_i: number(3),
        q_i: number(7),
        R: vec![],
    };
    let hashes: RoundMsgs<MsgReliabilityCheck> =
        RoundMsgs::new(0, vec![1], vec![MsgReliabilityCheck([0; 32])]).unwrap();
    // the reliability check before the secrets
    let mut s = SigningSession::new(&party, true, None);
    assert!(matches!(
        aborted(s.reliability_check(&[0; 32], &hashes)),
        Reason::Bug(Bug::OutOfOrder)
    ));
    assert_eq!(s.phase(), Phase::Aborted);
    // an aborted session takes nothing more
    assert!(matches!(
        aborted(s.secrets(Scalar::zero(), Scalar::zero())),
        Reason::Bug(Bug::OutOfOrder)
    ));
    // the secrets twice
    let mut s = SigningSession::new(&party, false, None);
    assert!(s.secrets(Scalar::zero(), Scalar::zero()).is_ok());
    assert_eq!(s.phase(), Phase::EncProofs);
    assert!(s.secrets(Scalar::zero(), Scalar::zero()).is_err());
    assert_eq!(s.phase(), Phase::Aborted);
    // the reliability check where it is not made
    let mut s = SigningSession::new(&party, false, None);
    assert!(s.secrets(Scalar::zero(), Scalar::zero()).is_ok());
    assert!(matches!(
        aborted(s.reliability_check(&[0; 32], &hashes)),
        Reason::Bug(Bug::OutOfOrder)
    ));
    // the masks and the last round before their time
    let mut s = SigningSession::new(&party, true, None);
    assert!(s.masks(&[], &[]).is_err());
    let mut s = SigningSession::new(&party, true, None);
    let none: RoundMsgs<MsgRound4> = RoundMsgs::new(0, vec![], vec![]).unwrap();
    assert!(s.round4(&none).is_err());
    assert_eq!(s.phase(), Phase::Aborted);
}

#[test]
fn session_is_aborted_by_a_failed_reliability_check() {
    let party = SigningParty {
        i: 1,
        n: 3,
        x_i: Scalar::from_u16(1),
        X: vec![],
        pk: Point::zero(),
        p_i: number(3),
        q_i: number(7),
        R: vec![],
    };
    let mut s = SigningSession::new(&party, true, Some(DataToSign::digest(b"m")));
    assert!(s.secrets(Scalar::from_u16(2), Scalar::from_u16(3)).is_ok());
    let hashes: RoundMsgs<MsgReliabilityCheck> = RoundMsgs::new(
        1,
        vec![10, 12],
        vec![MsgReliabilityCheck([0; 32]), MsgReliabilityCheck([1; 32])],
    )
    .unwrap();
    match aborted(s.reliability_check(&[0; 32], &hashes)) {
        Reason::Aborted(SigningAborted::Round1aNotReliable(list)) => {
            assert_eq!(list.len(), 1);
            assert_eq!((list[0].faulty_party, list[0].data_message), (2, 12));
        }
        _ => panic!("the reliability check must fail"),
    }
    assert_eq!(s.phase(), Phase::Aborted);
    let ciphertexts: RoundMsgs<MsgRound1a> = RoundMsgs::new(0, vec![], vec![]).unwrap();
    let psi0: RoundMsgs<MsgRound1b> = RoundMsgs::new(0, vec![], vec![]).unwrap();
    assert!(s.enc_proofs(&ciphertexts, &psi0, &[]).is_err());
}

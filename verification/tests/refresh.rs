use cggmp21::bignumber::BigNumber;
use cggmp21::key_refresh::{
    complete_summands, refresh_commitment, ring_pedersen_parameters, KeyRefreshBuilder,
    KeyRefreshError, MsgRound2, MsgRound3, PregeneratedPrimes, ProofBlame, ProofVerdict,
    RefreshAborted, RefreshOutput, RefreshRound1, RefreshRound3, RefreshSecrets,
};
use cggmp21::key_share::{IncompleteKeyShare, InvalidKeyShare, KeyShare, PartyAux};
use cggmp21::keygen::{MsgRound1, Tag};
use cggmp21::point::{sum_points, Point};
use cggmp21::rounds::RoundMsgs;
use cggmp21::scalar::Scalar;
use cggmp21::security_level::ReasonablySecure;
use cggmp21::signing::{DataToSign, PartialSignature, Presignature};
use cggmp21::zk::{prm_challenge, prm_prove, prm_verify, PrmProof};
use cggmp21::point::NonZeroPoint;
use rand_chacha::ChaCha20Rng;
use rand_core::{RngCore, SeedableRng};

type Builder<'a> = KeyRefreshBuilder<'a, ReasonablySecure>;

fn random_scalar(rng: &mut ChaCha20Rng) -> Scalar {
    let mut bytes = [0u8; 64];
    rng.fill_bytes(&mut bytes);
    Scalar::from_be_bytes_mod_order(&bytes)
}

fn random_bytes(rng: &mut ChaCha20Rng, len: usize) -> Vec<u8> {
    let mut bytes = vec![0u8; len];
    rng.fill_bytes(&mut bytes);
    bytes
}

fn number(v: u64) -> BigNumber {
    BigNumber::from_be_bytes(v.to_be_bytes().to_vec())
}

/// `2^1535 + last`: a number of 1536 bits. The tests need no primes: no proof is made.
fn long_odd(last: u8) -> BigNumber {
    let mut magnitude = vec![0u8; 192];
    magnitude[0] = 0x80;
    magnitude[191] = last;
    BigNumber::from_be_bytes(magnitude)
}

fn primes(i: u16) -> PregeneratedPrimes<ReasonablySecure> {
    PregeneratedPrimes::new(long_odd(3 + 8 * i as u8), long_odd(7 + 8 * i as u8)).unwrap()
}

fn aux(builder: &Builder) -> PartyAux {
    let n = builder.modulus();
    let (s, t) = ring_pedersen_parameters(&number(2), &number(5), &n).unwrap();
    PartyAux { N: n, s, t }
}

fn secrets(rng: &mut ChaCha20Rng, n: u16, refresh: bool) -> RefreshSecrets {
    let summands = if refresh {
        complete_summands((1..n).map(|_| random_scalar(rng)).collect())
    } else {
        vec![Scalar::zero(); usize::from(n)]
    };
    RefreshSecrets {
        summands,
        rho: random_bytes(rng, 48),
        sch_nonces: (0..n).map(|_| random_scalar(rng)).collect(),
        decommit_nonce: random_bytes(rng, 32),
    }
}

fn received<M>(i: u16, all: Vec<M>) -> RoundMsgs<M> {
    let mut ids = vec![];
    let mut msgs = vec![];
    for (j, m) in all.into_iter().enumerate() {
        if j != usize::from(i) {
            ids.push(j as u64);
            msgs.push(m);
        }
    }
    RoundMsgs::new(i, ids, msgs).unwrap()
}

fn copies(ds: &[MsgRound2]) -> Vec<MsgRound2> {
    ds.iter().map(|d| d.duplicate()).collect()
}

fn proofs(ms: &[MsgRound3]) -> Vec<MsgRound3> {
    ms.iter().map(|m| MsgRound3 { sch_proofs: m.sch_proofs.clone() }).collect()
}

struct Run<'a> {
    builders: Vec<Builder<'a>>,
    states: Vec<Option<RefreshRound1>>,
    commitments: Vec<MsgRound1>,
    decommitments: Vec<MsgRound2>,
    /// summands[k][j]: what party k drew for party j
    summands: Vec<Vec<Scalar>>,
}

fn first_rounds<'a>(builders: Vec<Builder<'a>>, seed: u8, refresh: bool) -> Run<'a> {
    let mut rng = ChaCha20Rng::from_seed([seed; 32]);
    let n = builders.len() as u16;
    let states: Vec<RefreshRound1> = builders
        .iter()
        .map(|b| b.start(secrets(&mut rng, n, refresh), aux(b)).expect("the secrets fit"))
        .collect();
    Run {
        commitments: states.iter().map(|s| s.my_commitment()).collect(),
        decommitments: states.iter().map(|s| s.my_decommitment()).collect(),
        summands: states
            .iter()
            .map(|s| (0..n).map(|j| s.summand_for(j).unwrap()).collect())
            .collect(),
        states: states.into_iter().map(Some).collect(),
        builders,
    }
}

fn round3(run: &mut Run, i: u16) -> Result<(RefreshRound3, MsgRound3), KeyRefreshError> {
    run.builders[usize::from(i)].round3(
        run.states[usize::from(i)].take().unwrap(),
        received(i, run.commitments.clone()),
        received(i, copies(&run.decommitments)),
    )
}

const VALID: ProofVerdict =
    ProofVerdict { mod_invalid: false, fac_invalid: false, prm_invalid: false };

fn finish(run: &mut Run) -> Vec<RefreshOutput> {
    let n = run.builders.len() as u16;
    let mut states3 = vec![];
    let mut all_proofs = vec![];
    for i in 0..n {
        let (state, proof) = round3(run, i).expect("refresh failed");
        states3.push(state);
        all_proofs.push(proof);
    }
    (0..n)
        .zip(states3)
        .map(|(i, state)| {
            let to_me: Vec<Scalar> = run.summands.iter().map(|row| row[usize::from(i)]).collect();
            let mine = MsgRound3 { sch_proofs: all_proofs[usize::from(i)].sch_proofs.clone() };
            run.builders[usize::from(i)]
                .output(
                    state,
                    mine,
                    received(i, proofs(&all_proofs)),
                    &vec![VALID; usize::from(n) - 1],
                    &to_me,
                )
                .expect("refresh failed")
        })
        .collect()
}

fn key_shares(rng: &mut ChaCha20Rng, n: u16) -> Vec<IncompleteKeyShare> {
    let secrets: Vec<Scalar> = (0..n).map(|_| random_scalar(rng)).collect();
    let public_shares: Vec<Point> = secrets.iter().map(Point::generator_mul).collect();
    let pk = sum_points(&public_shares);
    (0..n)
        .map(|i| IncompleteKeyShare {
            i,
            shared_public_key: pk,
            public_shares: public_shares.clone(),
            x: secrets[usize::from(i)],
            rid: vec![7; 48],
            vss_setup: None,
        })
        .collect()
}

#[test]
fn key_refresh_protocol_keeps_the_key() {
    let mut rng = ChaCha20Rng::from_seed([41u8; 32]);
    for n in [2u16, 3, 5] {
        let old = key_shares(&mut rng, n);
        let pk = old[0].shared_public_key;
        let sk = old.iter().fold(Scalar::zero(), |acc, s| acc.add(&s.x));
        let builders: Vec<Builder> =
            old.iter().map(|s| cggmp21::key_refresh(s, primes(s.i)).unwrap()).collect();
        let mut run = first_rounds(builders, 42, true);
        let outputs = finish(&mut run);

        let shares: Vec<KeyShare> = outputs
            .into_iter()
            .map(|out| KeyShare { core: out.share.expect("a share"), aux: out.aux })
            .collect();
        for (i, key_share) in (0u16..).zip(&shares) {
            assert_eq!(key_share.validate::<ReasonablySecure>(), Ok(()));
            assert_eq!(key_share.core.i, i);
            assert!(key_share.core.shared_public_key.eq(&pk));
            assert_eq!(key_share.core.rid, old[usize::from(i)].rid);
            assert!(key_share.core.vss_setup.is_none());
            assert!(sum_points(&key_share.core.public_shares).eq(&pk));
            assert!(!key_share.core.x.eq(&old[usize::from(i)].x));
            assert!(Point::generator_mul(&key_share.core.x)
                .eq(&key_share.core.public_shares[usize::from(i)]));
            assert_eq!(key_share.aux.parties.len(), usize::from(n));
            for j in 0..usize::from(n) {
                assert!(key_share.core.public_shares[j].eq(&shares[0].core.public_shares[j]));
                assert!(key_share.aux.parties[j].N.equals(&shares[0].aux.parties[j].N));
            }
            assert!(key_share.aux.p.mul(&key_share.aux.q).equals(
                &key_share.aux.parties[usize::from(i)].N
            ));
        }
        let new_sk = shares.iter().fold(Scalar::zero(), |acc, s| acc.add(&s.core.x));
        assert!(new_sk.eq(&sk));

        // the refreshed shares sign for the same key: with one signer's worth of arithmetic,
        // k = 1 / (sum of the shares' parts)
        let message = DataToSign::digest(b"Hello");
        let k = random_scalar(&mut rng);
        let r_point = Point::generator_mul(&k.invert().unwrap());
        let partial: Vec<PartialSignature> = shares
            .iter()
            .enumerate()
            .map(|(j, s)| {
                // additive shares of k and of chi = x k
                let k_j = if j == 0 { k } else { Scalar::zero() };
                Presignature {
                    R: NonZeroPoint::from_point(r_point).unwrap(),
                    k: k_j,
                    chi: s.core.x.mul(&k),
                }
                .issue_partial_signature(message)
            })
            .collect();
        let sig = PartialSignature::combine(&partial).unwrap();
        assert_eq!(sig.verify(&pk, &message), Ok(()));
    }
}

#[test]
fn aux_info_generation_makes_valid_aux_info() {
    let n = 3;
    let builders: Vec<Builder> = (0..n).map(|i| cggmp21::aux_info_gen(i, n, primes(i))).collect();
    let mut run = first_rounds(builders, 43, false);
    let outputs = finish(&mut run);
    for (i, out) in (0u16..).zip(&outputs) {
        assert!(out.share.is_none());
        assert_eq!(out.aux.validate::<ReasonablySecure>(i), Ok(()));
        assert_eq!(out.aux.parties.len(), 3);
        assert!(out.aux.parties[1].N.equals(&long_odd(11).mul(&long_odd(15))));
    }
    // summands other than zero are refused where only auxiliary data is made
    let mut rng = ChaCha20Rng::from_seed([44u8; 32]);
    let builder: Builder = cggmp21::aux_info_gen(0, 3, primes(0));
    assert!(builder.start(secrets(&mut rng, 3, true), aux(&builder)).is_none());
    assert!(builder.start(secrets(&mut rng, 2, false), aux(&builder)).is_none());
    assert!(builder.start(secrets(&mut rng, 3, false), aux(&builder)).is_some());
}

fn aborted<T>(r: Result<T, KeyRefreshError>) -> RefreshAborted {
    match r {
        Err(KeyRefreshError::Aborted(a)) => a,
        _ => panic!("the protocol must be aborted"),
    }
}

#[test]
fn key_refresh_blames_round_2() {
    let mut rng = ChaCha20Rng::from_seed([45u8; 32]);
    let old = key_shares(&mut rng, 4);
    let builders = || -> Vec<Builder> {
        old.iter().map(|s| cggmp21::key_refresh(s, primes(s.i)).unwrap()).collect()
    };
    // party 2 opens to another modulus
    let mut run = first_rounds(builders(), 46, true);
    run.decommitments[2].aux.N = long_odd(1).mul(&long_odd(1));
    assert_eq!(
        aborted(round3(&mut run, 0)),
        RefreshAborted::InvalidDecommitment { parties: vec![2] }
    );
    // party 1 shows one point too few, party 3 a short rho
    let mut run = first_rounds(builders(), 46, true);
    run.decommitments[1].Ys.pop();
    run.decommitments[3].rho.pop();
    assert_eq!(
        aborted(round3(&mut run, 0)),
        RefreshAborted::InvalidDecommitment { parties: vec![1, 3] }
    );
}

/// A run in which party `cheater` committed to what `tamper` made of its decommitment.
fn run_with<'a>(
    builders: Vec<Builder<'a>>,
    cheater: u16,
    tamper: impl Fn(&mut MsgRound2),
) -> Run<'a> {
    let mut run = first_rounds(builders, 47, true);
    let d = &mut run.decommitments[usize::from(cheater)];
    tamper(d);
    let n = run.builders.len() as u16;
    run.commitments[usize::from(cheater)] =
        MsgRound1 { commitment: refresh_commitment(&Tag::default(), n, cheater, d) };
    run
}

#[test]
fn key_refresh_blames_what_was_committed_to() {
    let mut rng = ChaCha20Rng::from_seed([48u8; 32]);
    let old = key_shares(&mut rng, 3);
    let builders = || -> Vec<Builder> {
        old.iter().map(|s| cggmp21::key_refresh(s, primes(s.i)).unwrap()).collect()
    };
    // a short modulus
    let mut run = run_with(builders(), 1, |d| d.aux.N = number(35));
    assert_eq!(aborted(round3(&mut run, 0)), RefreshAborted::InvalidAux { parties: vec![1] });
    // a ring-Pedersen parameter that shares a factor with the modulus
    let mut run = run_with(builders(), 2, |d| d.aux.s = long_odd(3 + 16));
    assert_eq!(aborted(round3(&mut run, 0)), RefreshAborted::InvalidAux { parties: vec![2] });
    // summands that do not add up to zero
    let mut run = run_with(builders(), 1, |d| d.Ys[0] = d.Ys[1]);
    assert_eq!(
        aborted(round3(&mut run, 2)),
        RefreshAborted::InvalidRerandomization { parties: vec![1] }
    );
}

#[test]
fn key_refresh_blames_round_3() {
    let mut rng = ChaCha20Rng::from_seed([49u8; 32]);
    let n = 3u16;
    let old = key_shares(&mut rng, n);
    let builders: Vec<Builder> =
        old.iter().map(|s| cggmp21::key_refresh(s, primes(s.i)).unwrap()).collect();
    let mut run = first_rounds(builders, 50, true);
    let mut states3 = vec![];
    let mut all_proofs = vec![];
    for i in 0..n {
        let (state, proof) = round3(&mut run, i).unwrap();
        states3.push(Some(state));
        all_proofs.push(proof);
    }
    let to = |i: u16| -> Vec<Scalar> { run.summands.iter().map(|row| row[usize::from(i)]).collect() };
    let mine = |i: u16| MsgRound3 { sch_proofs: all_proofs[usize::from(i)].sch_proofs.clone() };

    // party 0 is told that the proof Π fac of party 2 is invalid
    let fac = ProofVerdict { fac_invalid: true, ..VALID };
    let r = run.builders[0].output(
        states3[0].take().unwrap(),
        mine(0),
        received(0, proofs(&all_proofs)),
        &[VALID, fac],
        &to(0),
    );
    assert_eq!(
        aborted(r),
        RefreshAborted::InvalidProof { parties: vec![ProofBlame { party: 2, verdict: fac }] }
    );

    // party 1 receives a Schnorr proof of party 0 that was tampered with
    let mut tampered = proofs(&all_proofs);
    tampered[0].sch_proofs[2] = tampered[0].sch_proofs[2].add(&Scalar::from_u16(1));
    let r = run.builders[1].output(
        states3[1].take().unwrap(),
        mine(1),
        received(1, tampered),
        &[VALID, VALID],
        &to(1),
    );
    assert_eq!(aborted(r), RefreshAborted::InvalidSchnorrProof { parties: vec![0] });

    // party 2 decrypts a summand of party 1 that is not the one that party 1 showed
    let mut summands = to(2);
    summands[1] = summands[1].add(&Scalar::from_u16(1));
    let r = run.builders[2].output(
        states3[2].take().unwrap(),
        mine(2),
        received(2, proofs(&all_proofs)),
        &[VALID, VALID],
        &summands,
    );
    assert_eq!(aborted(r), RefreshAborted::InvalidSummand { parties: vec![1] });
}

#[test]
fn key_refresh_needs_primes_of_the_security_level() {
    assert!(PregeneratedPrimes::<ReasonablySecure>::new(long_odd(3), long_odd(7)).is_some());
    assert!(PregeneratedPrimes::<ReasonablySecure>::new(long_odd(3), number(7)).is_none());
    assert!(PregeneratedPrimes::<ReasonablySecure>::new(number(3), long_odd(7)).is_none());
    assert!(PregeneratedPrimes::<ReasonablySecure>::new(long_odd(3).neg(), long_odd(7)).is_none());
    let p = PregeneratedPrimes::<ReasonablySecure>::new(long_odd(3), long_odd(7)).unwrap();
    assert!(p.modulus().equals(&long_odd(3).mul(&long_odd(7))));
    let (a, b) = p.split();
    assert!(a.equals(&long_odd(3)) && b.equals(&long_odd(7)));
}

#[test]
fn key_refresh_needs_the_partys_own_modulus() {
    // party 0 opens to a modulus that is not the product of its primes
    let mut rng = ChaCha20Rng::from_seed([51u8; 32]);
    let old = key_shares(&mut rng, 2);
    let builders: Vec<Builder> =
        old.iter().map(|s| cggmp21::key_refresh(s, primes(s.i)).unwrap()).collect();
    let states: Vec<RefreshRound1> = builders
        .iter()
        .map(|b| {
            let mut own = aux(b);
            if b.index() == 0 {
                own.N = long_odd(11).mul(&long_odd(15));
            }
            b.start(secrets(&mut rng, 2, true), own).unwrap()
        })
        .collect();
    let mut run = Run {
        commitments: states.iter().map(|s| s.my_commitment()).collect(),
        decommitments: states.iter().map(|s| s.my_decommitment()).collect(),
        summands: states
            .iter()
            .map(|s| (0..2).map(|j| s.summand_for(j).unwrap()).collect())
            .collect(),
        states: states.into_iter().map(Some).collect(),
        builders,
    };
    let mut states3 = vec![];
    let mut all_proofs = vec![];
    for i in 0..2 {
        let (state, proof) = round3(&mut run, i).unwrap();
        states3.push(state);
        all_proofs.push(proof);
    }
    let to_0: Vec<Scalar> = run.summands.iter().map(|row| row[0]).collect();
    let mine = MsgRound3 { sch_proofs: all_proofs[0].sch_proofs.clone() };
    let r = run.builders[0].output(
        states3.remove(0),
        mine,
        received(0, proofs(&all_proofs)),
        &[VALID],
        &to_0,
    );
    assert_eq!(
        aborted(r),
        RefreshAborted::InvalidAuxInfo(InvalidKeyShare::PrimesDontMatchModulus)
    );
}

#[test]
fn ring_pedersen_parameters_are_powers() {
    // t = 3^2 mod 35 = 9, s = 9^3 mod 35 = 729 mod 35 = 29
    let (s, t) = ring_pedersen_parameters(&number(3), &number(3), &number(35)).unwrap();
    assert!(t.equals(&number(9)));
    assert!(s.equals(&number(29)));
    // t = 10^2 mod 7 = 2, s = 2^0 mod 7 = 1
    let (s, t) = ring_pedersen_parameters(&number(10), &number(0), &number(7)).unwrap();
    assert!(t.equals(&number(2)) && s.equals(&number(1)));
    assert!(ring_pedersen_parameters(&number(3), &number(3), &number(0)).is_none());
    assert!(number(2).modpow(&number(10), &number(1000)).unwrap().equals(&number(24)));
    assert!(number(2).modpow(&number(10), &number(1)).unwrap().equals(&number(0)));
}

#[test]
fn completed_summands_add_up_to_zero() {
    let mut rng = ChaCha20Rng::from_seed([52u8; 32]);
    let free: Vec<Scalar> = (0..4).map(|_| random_scalar(&mut rng)).collect();
    let all = complete_summands(free.clone());
    assert_eq!(all.len(), 5);
    for (a, b) in free.iter().zip(&all) {
        assert!(a.eq(b));
    }
    assert!(all.iter().fold(Scalar::zero(), |acc, y| acc.add(y)).is_zero());
    let one = complete_summands(vec![]);
    assert_eq!(one.len(), 1);
    assert!(one[0].is_zero());
    let two = complete_summands(vec![Scalar::from_u16(5)]);
    assert!(two[1].eq(&Scalar::from_u16(5).neg()));
}

#[test]
fn refresh_builder_takes_a_tag() {
    let mut rng = ChaCha20Rng::from_seed([53u8; 32]);
    let tag = Tag::from_seed(b"refresh 7");
    let builder: Builder = cggmp21::aux_info_gen(1, 2, primes(1)).set_tag(tag);
    let state = builder.start(secrets(&mut rng, 2, false), aux(&builder)).unwrap();
    let d = state.my_decommitment();
    assert_eq!(refresh_commitment(&tag, 2, 1, &d), state.my_commitment().commitment);
    assert_ne!(refresh_commitment(&Tag::default(), 2, 1, &d), state.my_commitment().commitment);
    assert_eq!(d.Ys.len(), 2);
    assert!(d.Ys[0].is_zero() && d.Ys[1].is_zero());
    assert!(state.summand_for(2).is_none());
    let share = key_shares(&mut rng, 2).remove(0);
    let builder = cggmp21::key_refresh(&share, primes(0)).unwrap();
    assert_eq!((builder.index(), builder.n()), (0, 2));
    assert!(builder.is_refresh());
    assert!(builder.pregenerated().prime_p().equals(&long_odd(3)));
    assert!(builder.modulus().equals(&long_odd(3).mul(&long_odd(7))));
    let aux_only: Builder = cggmp21::aux_info_gen(1, 2, primes(1));
    assert!(!aux_only.is_refresh());
}

#[test]
fn prm_proof_shows_that_s_is_a_power_of_t() {
    // N = 5 * 7, phi = 4 * 6: t = 2^2 = 4, s = 4^5 mod 35 = 9
    let n = number(35);
    let phi = number(24);
    let lambda = number(5);
    let (s, t) = ring_pedersen_parameters(&number(2), &lambda, &n).unwrap();
    assert!(t.equals(&number(4)) && s.equals(&number(9)));
    let aux = PartyAux { N: n, s, t };
    let mut rng = ChaCha20Rng::from_seed([54u8; 32]);
    let nonces: Vec<BigNumber> = (0..128).map(|_| number(u64::from(rng.next_u32() % 24))).collect();
    let proof = prm_prove(b"state", &aux, &lambda, &phi, &nonces).unwrap();
    assert_eq!((proof.commitments.len(), proof.zs.len()), (128, 128));
    assert!(prm_verify(b"state", &aux, &proof));
    // the challenge has bits of both kinds, and each answer follows its bit
    let challenge = prm_challenge(b"state", &aux, &proof.commitments);
    assert_eq!(challenge.len(), 128);
    assert!(challenge.iter().any(|e| *e) && challenge.iter().any(|e| !*e));
    for k in 0..128 {
        let a = &nonces[k];
        let expected = if challenge[k] { a.add(&lambda) } else { a.duplicate() };
        assert!(proof.zs[k].equals(&expected.rem(&phi).unwrap()));
    }
    // sealed to another state, or for another statement, the proof is refused
    assert!(!prm_verify(b"other", &aux, &proof));
    let other = PartyAux { N: number(35), s: number(11), t: number(4) };
    assert!(!prm_verify(b"state", &other, &proof));
    // an answer or a commitment that was changed
    let copy = |p: &PrmProof| PrmProof {
        commitments: p.commitments.iter().map(|c| c.duplicate()).collect(),
        zs: p.zs.iter().map(|z| z.duplicate()).collect(),
    };
    let mut tampered = copy(&proof);
    tampered.zs[7] = tampered.zs[7].add(&number(1));
    assert!(!prm_verify(b"state", &aux, &tampered));
    let mut short = copy(&proof);
    short.zs.pop();
    assert!(!prm_verify(b"state", &aux, &short));
    // a statement that is false: 2 is no power of 4 modulo 35
    let false_aux = PartyAux { N: number(35), s: number(2), t: number(4) };
    let forged = prm_prove(b"state", &false_aux, &lambda, &phi, &nonces).unwrap();
    assert!(!prm_verify(b"state", &false_aux, &forged));
    // what cannot be proved
    assert!(prm_prove(b"state", &aux, &lambda, &phi, &nonces[..127].to_vec()).is_none());
    assert!(prm_prove(b"state", &aux, &lambda, &number(0), &nonces).is_none());
    let zero = PartyAux { N: number(0), s: number(9), t: number(4) };
    assert!(prm_prove(b"state", &zero, &lambda, &phi, &nonces).is_none());
    assert!(!prm_verify(b"state", &zero, &proof));
}

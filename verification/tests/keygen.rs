use cggmp21::key_share::IncompleteKeyShare;
use cggmp21::keygen::{
    challenge, commitment, KeygenBuilder, KeygenError, KeygenSecrets, MsgRound1, MsgRound2,
    MsgRound3, ProtocolAborted, Round1State, Tag,
};
use cggmp21::point::{sum_points, Point};
use cggmp21::rounds::RoundMsgs;
use cggmp21::scalar::Scalar;
use cggmp21::security_level::ReasonablySecure;
use rand_chacha::ChaCha20Rng;
use rand_core::{RngCore, SeedableRng};
use sha2::Digest;

fn random_scalar(rng: &mut ChaCha20Rng) -> Scalar {
    let mut bytes = [0u8; 64];
    rng.fill_bytes(&mut bytes);
    Scalar::from_be_bytes_mod_order(&bytes)
}

fn random_bytes(rng: &mut ChaCha20Rng, len: usize) -> Vec<u8> {
    let mut bytes = vec![0u8; len];
    rng.fill_bytes(&mut bytes);
    bytes
}

fn secrets(rng: &mut ChaCha20Rng) -> KeygenSecrets {
    KeygenSecrets {
        x_i: random_scalar(rng),
        rid: random_bytes(rng, 48),
        sch_nonce: random_scalar(rng),
        decommit_nonce: random_bytes(rng, 32),
    }
}

/// What party `i` received in a round in which party `j` sent `all[j]`.
fn received<M>(i: u16, all: Vec<M>) -> RoundMsgs<M> {
    let mut ids = vec![];
    let mut msgs = vec![];
    for (j, m) in all.into_iter().enumerate() {
        if j != usize::from(i) {
            ids.push(1000 + j as u64);
            msgs.push(m);
        }
    }
    RoundMsgs::new(i, ids, msgs).unwrap()
}

fn copies(ds: &[MsgRound2]) -> Vec<MsgRound2> {
    ds.iter().map(|d| d.duplicate()).collect()
}

struct Run {
    builders: Vec<KeygenBuilder<ReasonablySecure>>,
    states: Vec<Option<Round1State>>,
    commitments: Vec<MsgRound1>,
    decommitments: Vec<MsgRound2>,
}

fn first_rounds(n: u16, seed: u8) -> Run {
    let mut rng = ChaCha20Rng::from_seed([seed; 32]);
    let builders: Vec<_> = (0..n).map(|i| cggmp21::keygen(i, n)).collect();
    let states: Vec<_> = builders.iter().map(|b| b.start(secrets(&mut rng))).collect();
    let commitments = states.iter().map(|s| s.my_commitment).collect();
    let decommitments = states.iter().map(|s| s.my_decommitment.duplicate()).collect();
    Run { builders, states: states.into_iter().map(Some).collect(), commitments, decommitments }
}

fn run_keygen(n: u16, seed: u8) -> Vec<IncompleteKeyShare> {
    let mut run = first_rounds(n, seed);
    let mut states3 = vec![];
    let mut proofs = vec![];
    for i in 0..n {
        let (state, proof) = run.builders[usize::from(i)]
            .round3(
                run.states[usize::from(i)].take().unwrap(),
                received(i, run.commitments.clone()),
                received(i, copies(&run.decommitments)),
            )
            .expect("keygen failed");
        states3.push(state);
        proofs.push(proof);
    }
    let mut shares = vec![];
    for (i, state) in (0..n).zip(states3) {
        let share = run.builders[usize::from(i)]
            .output(state, proofs[usize::from(i)], received(i, proofs.clone()))
            .expect("keygen failed");
        shares.push(share);
    }
    shares
}

fn same_points(a: &[Point], b: &[Point]) -> bool {
    a.len() == b.len() && a.iter().zip(b).all(|(x, y)| x.eq(y))
}

#[test]
fn keygen_works() {
    for (n, seed) in [(3u16, 1u8), (5, 2), (7, 3), (10, 4)] {
        let key_shares = run_keygen(n, seed);
        assert_eq!(key_shares.len(), usize::from(n));
        for (i, key_share) in (0u16..).zip(&key_shares) {
            assert_eq!(key_share.i, i);
            assert!(key_share.shared_public_key.eq(&key_shares[0].shared_public_key));
            assert!(same_points(&key_share.public_shares, &key_shares[0].public_shares));
            assert_eq!(key_share.rid, key_shares[0].rid);
            assert!(Point::generator_mul(&key_share.x)
                .eq(&key_share.public_shares[usize::from(i)]));
            assert!(key_share.vss_setup.is_none());
            assert_eq!(key_share.validate(), Ok(()));
        }
        assert!(key_shares[0].shared_public_key.eq(&sum_points(&key_shares[0].public_shares)));
        assert_eq!(key_shares[0].public_shares.len(), usize::from(n));
        assert_eq!(key_shares[0].rid.len(), 48);
        assert!(!key_shares[0].x.eq(&key_shares[1].x));
    }
}

#[test]
fn keygen_is_reproducible_from_the_seed() {
    let a = run_keygen(3, 9);
    let b = run_keygen(3, 9);
    let c = run_keygen(3, 10);
    assert_eq!(a[0].shared_public_key.to_bytes(), b[0].shared_public_key.to_bytes());
    assert_eq!(a[2].x.to_be_bytes(), b[2].x.to_be_bytes());
    assert_ne!(a[0].shared_public_key.to_bytes(), c[0].shared_public_key.to_bytes());
}

#[test]
fn keygen_rid_is_the_xor_of_the_parts() {
    let n = 3;
    let mut run = first_rounds(n, 5);
    let mut expected = vec![0u8; 48];
    for d in &run.decommitments {
        for (e, r) in expected.iter_mut().zip(&d.rid) {
            *e ^= r;
        }
    }
    let (state, proof) = run.builders[0]
        .round3(
            run.states[0].take().unwrap(),
            received(0, run.commitments.clone()),
            received(0, copies(&run.decommitments)),
        )
        .unwrap();
    assert_eq!(state.rid, expected);
    assert_eq!(state.decommitments.len(), 3);
    // the proof verifies against the challenge of party 0
    let tag = Tag::default();
    let e = challenge(&tag, 0, &expected);
    assert!(cggmp21::schnorr::verify(
        &proof.sch_proof,
        &run.decommitments[0].sch_commit,
        &e,
        &run.decommitments[0].X
    ));
    // and not against that of party 1
    let e1 = challenge(&tag, 1, &expected);
    assert!(!cggmp21::schnorr::verify(
        &proof.sch_proof,
        &run.decommitments[0].sch_commit,
        &e1,
        &run.decommitments[0].X
    ));
}

#[test]
fn keygen_commitment_binds_every_item() {
    let run = first_rounds(3, 6);
    let tag = Tag::default();
    let d = run.decommitments[1].duplicate();
    assert_eq!(commitment(&tag, 3, 1, &d), run.commitments[1].commitment);
    // another party, another number of parties, another tag
    assert_ne!(commitment(&tag, 3, 2, &d), run.commitments[1].commitment);
    assert_ne!(commitment(&tag, 4, 1, &d), run.commitments[1].commitment);
    assert_ne!(commitment(&Tag::from_seed(b"x"), 3, 1, &d), run.commitments[1].commitment);
    // another rid, public share, Schnorr commitment, nonce
    let mut other = d.duplicate();
    other.rid[0] ^= 1;
    assert_ne!(commitment(&tag, 3, 1, &other), run.commitments[1].commitment);
    let mut other = d.duplicate();
    other.X = run.decommitments[0].X;
    assert_ne!(commitment(&tag, 3, 1, &other), run.commitments[1].commitment);
    let mut other = d.duplicate();
    other.sch_commit = run.decommitments[0].sch_commit;
    assert_ne!(commitment(&tag, 3, 1, &other), run.commitments[1].commitment);
    let mut other = d.duplicate();
    other.decommit.push(0);
    assert_ne!(commitment(&tag, 3, 1, &other), run.commitments[1].commitment);
    // the boundary between two items is part of what is committed to: a byte moved from the
    // end of the rid to the start of the nonce changes the commitment
    let mut other = d.duplicate();
    let moved = other.rid.pop().unwrap();
    other.decommit.insert(0, moved);
    assert_ne!(commitment(&tag, 3, 1, &other), run.commitments[1].commitment);
}

#[test]
fn keygen_blames_a_decommitment_that_does_not_open() {
    let n = 5;
    let mut run = first_rounds(n, 7);
    // party 3 opens to another public share, party 1 sends a short rid
    run.decommitments[3].X = Point::generator_mul(&Scalar::from_u16(3));
    run.decommitments[1].rid.pop();
    for i in [0u16, 2, 4] {
        let r = run.builders[usize::from(i)].round3(
            run.states[usize::from(i)].take().unwrap(),
            received(i, run.commitments.clone()),
            received(i, copies(&run.decommitments)),
        );
        match r {
            Err(KeygenError::Aborted(ProtocolAborted::InvalidDecommitment { parties })) => {
                assert_eq!(parties, vec![1, 3])
            }
            _ => panic!("the decommitments of 1 and 3 must be refused"),
        }
    }
    // party 3 holds its own decommitment as it made it, and blames party 1 alone
    let r = run.builders[3].round3(
        run.states[3].take().unwrap(),
        received(3, run.commitments.clone()),
        received(3, copies(&run.decommitments)),
    );
    match r {
        Err(KeygenError::Aborted(ProtocolAborted::InvalidDecommitment { parties })) => {
            assert_eq!(parties, vec![1])
        }
        _ => panic!("the decommitment of 1 must be refused"),
    }
}

#[test]
fn keygen_blames_a_commitment_that_was_swapped() {
    let n = 3;
    let mut run = first_rounds(n, 8);
    run.commitments[0] = MsgRound1 { commitment: [7u8; 32] };
    let r = run.builders[2].round3(
        run.states[2].take().unwrap(),
        received(2, run.commitments.clone()),
        received(2, copies(&run.decommitments)),
    );
    match r {
        Err(KeygenError::Aborted(ProtocolAborted::InvalidDecommitment { parties })) => {
            assert_eq!(parties, vec![0])
        }
        _ => panic!("the decommitment of 0 must be refused"),
    }
}

#[test]
fn keygen_blames_an_invalid_schnorr_proof() {
    let n = 5;
    let mut run = first_rounds(n, 11);
    let mut states3 = vec![];
    let mut proofs = vec![];
    for i in 0..n {
        let (state, proof) = run.builders[usize::from(i)]
            .round3(
                run.states[usize::from(i)].take().unwrap(),
                received(i, run.commitments.clone()),
                received(i, copies(&run.decommitments)),
            )
            .unwrap();
        states3.push(state);
        proofs.push(proof);
    }
    // party 4 sends random bytes as its proof, party 2 the proof of party 0
    let mut tampered = proofs.clone();
    tampered[4] = MsgRound3 { sch_proof: Scalar::from_be_bytes_mod_order(&[0x5a; 32]) };
    tampered[2] = proofs[0];
    let state = states3.remove(1);
    let r = run.builders[1].output(state, proofs[1], received(1, tampered));
    match r {
        Err(KeygenError::Aborted(ProtocolAborted::InvalidSchnorrProof { parties })) => {
            assert_eq!(parties, vec![2, 4])
        }
        _ => panic!("the proofs of 2 and 4 must be refused"),
    }
}

#[test]
fn tag_is_the_digest_of_the_protocol_and_curve_names() {
    let expected: [u8; 32] = sha2::Sha256::new()
        .chain_update("-CGGMP21-DFNS-KEYGEN-")
        .chain_update("secp256k1")
        .finalize()
        .into();
    assert_eq!(Tag::default().as_bytes(), &expected);
    assert_eq!(Tag::from_seed(&[]).as_bytes(), &expected);
    let seeded: [u8; 32] = sha2::Sha256::new()
        .chain_update("run 1")
        .chain_update("-CGGMP21-DFNS-KEYGEN-")
        .chain_update("secp256k1")
        .finalize()
        .into();
    assert_eq!(Tag::from_seed(b"run 1").as_bytes(), &seeded);
    assert_ne!(seeded, expected);
}

#[test]
fn keygen_builder_takes_a_tag() {
    let tag = Tag::from_seed(b"another run");
    let builder = KeygenBuilder::<ReasonablySecure>::new(0, 2).set_tag(tag);
    let mut rng = ChaCha20Rng::from_seed([3u8; 32]);
    let state = builder.start(secrets(&mut rng));
    assert_eq!(
        commitment(&tag, 2, 0, &state.my_decommitment),
        state.my_commitment.commitment
    );
    assert_ne!(
        commitment(&Tag::default(), 2, 0, &state.my_decommitment),
        state.my_commitment.commitment
    );
}

use cggmp21::bignumber::BigNumber;
use cggmp21::rounds::{address_to_peers, MessageDestination, RoundMsgs};
use cggmp21::scalar::{NonZeroScalar, Scalar};
use cggmp21::security_level::ReasonablySecure;
use cggmp21::utils::{
    blame_from_verdicts, but_nth, collect_blame, collect_simple_blame, hash_message,
    hash_messages, is_in_mult_group, iter_peers, lagrange_coefficient, partition_results,
    sample_bigint_in_mult_group, scalar_to_bignumber, sqrt, subset, try_collect_blame,
    xor_array, AbortBlame, SecurityParams,
};
use rand_chacha::ChaCha20Rng;
use rand_core::{RngCore, SeedableRng};

fn big(v: i64) -> BigNumber {
    BigNumber { negative: v < 0, magnitude: v.unsigned_abs().to_be_bytes().to_vec() }
}

/// `1 << bits`
fn power_of_two(bits: usize) -> BigNumber {
    let mut magnitude = vec![0u8; bits / 8 + 1];
    magnitude[0] = 1 << (bits % 8);
    BigNumber { negative: false, magnitude }
}

fn random_scalar(rng: &mut ChaCha20Rng) -> Scalar {
    let mut bytes = [0u8; 64];
    rng.fill_bytes(&mut bytes);
    Scalar::from_be_bytes_mod_order(&bytes)
}

#[test]
fn test_sqrt() {
    assert!(sqrt(&big(-5)).equals(&big(1)));
    assert!(sqrt(&big(1)).equals(&big(1)));
    assert!(sqrt(&big(2)).equals(&big(1)));
    assert!(sqrt(&big(3)).equals(&big(1)));
    assert!(sqrt(&big(4)).equals(&big(2)));
    assert!(sqrt(&big(5)).equals(&big(2)));
    assert!(sqrt(&big(6)).equals(&big(2)));
    assert!(sqrt(&big(7)).equals(&big(2)));
    assert!(sqrt(&big(8)).equals(&big(2)));
    assert!(sqrt(&big(9)).equals(&big(3)));
    assert!(sqrt(&power_of_two(1024)).equals(&power_of_two(512)));

    let mut rng = ChaCha20Rng::from_seed([7u8; 32]);
    for _ in 0..100 {
        let mut bytes = vec![0u8; 128];
        rng.fill_bytes(&mut bytes);
        let x = BigNumber::from_be_bytes(bytes);
        let root = sqrt(&x);
        assert!(!x.less_than(&root.mul(&root)));
        let root = root.add(&big(1));
        assert!(x.less_than(&root.mul(&root)));
    }
}

#[test]
fn sqrt_of_zero_is_one() {
    assert!(sqrt(&big(0)).equals(&big(1)));
    assert!(sqrt(&BigNumber::from_be_bytes(vec![])).equals(&big(1)));
    assert!(sqrt(&big(i64::MIN + 1)).equals(&big(1)));
    assert!(sqrt(&big(1_000_000)).equals(&big(1000)));
    assert!(sqrt(&big(999_999)).equals(&big(999)));
}

#[test]
fn lagrange_coefficient_reconstructs_secret() {
    let mut rng = ChaCha20Rng::from_seed([1u8; 32]);

    // Polynomial of degree 1, f(x) = coef[0] + coef[1] * x
    let polynomial_coefs = [random_scalar(&mut rng), random_scalar(&mut rng)];
    let f = |x: &Scalar| {
        polynomial_coefs.iter().rev().fold(Scalar::zero(), |acc, coef_i| acc.mul(x).add(coef_i))
    };

    // I_j represents share index of j-th party. Each party should have a
    // distinct non-zero index
    let index = |i: u16| NonZeroScalar::from_scalar(Scalar::from_u16(i + 1)).unwrap();
    let i_0 = index(0);
    let i_1 = index(1);
    let i_2 = index(2);

    // x_j represents a secret key share of j-th party
    let x_0 = f(&i_0.to_scalar());
    let x_1 = f(&i_1.to_scalar());
    let x_2 = f(&i_2.to_scalar());

    // key shares above share a secret key `sk` in 2-out-of-3 scheme
    let sk = f(&Scalar::zero());
    assert!(sk.eq(&polynomial_coefs[0]));

    // We take x_0 and x_2 to reconstruct sk
    let lambda_0 = lagrange_coefficient(Scalar::zero(), 0, &[i_0, i_2]).unwrap();
    let lambda_2 = lagrange_coefficient(Scalar::zero(), 1, &[i_0, i_2]).unwrap();

    let reconstructed_sk = x_0.mul(&lambda_0.to_scalar()).add(&x_2.mul(&lambda_2.to_scalar()));
    assert!(sk.eq(&reconstructed_sk));

    // We can also reconstruct x_1
    let lambda_0 = lagrange_coefficient(i_1.to_scalar(), 0, &[i_0, i_2]).unwrap();
    let lambda_2 = lagrange_coefficient(i_1.to_scalar(), 1, &[i_0, i_2]).unwrap();

    let reconstructed_x_1 = x_0.mul(&lambda_0.to_scalar()).add(&x_2.mul(&lambda_2.to_scalar()));
    assert!(x_1.eq(&reconstructed_x_1));
}

#[test]
fn lagrange_coefficient_has_exact_values() {
    let index = |i: u16| NonZeroScalar::from_scalar(Scalar::from_u16(i)).unwrap();
    // nodes 1 and 3 at zero: lambda_0 = (0 - 3) / (1 - 3) = 3/2, lambda_1 = (0 - 1) / (3 - 1) = -1/2
    let nodes = [index(1), index(3)];
    let l0 = lagrange_coefficient(Scalar::zero(), 0, &nodes).unwrap().to_scalar();
    let l1 = lagrange_coefficient(Scalar::zero(), 1, &nodes).unwrap().to_scalar();
    let two = Scalar::from_u16(2);
    assert!(l0.mul(&two).eq(&Scalar::from_u16(3)));
    assert!(l1.mul(&two).eq(&Scalar::from_u16(1).neg()));
    assert!(l0.add(&l1).eq(&Scalar::from_u16(1)));
    // one node alone: the coefficient is one
    let l = lagrange_coefficient(Scalar::zero(), 0, &[index(5)]).unwrap().to_scalar();
    assert!(l.eq(&Scalar::from_u16(1)));
    // j out of range
    assert!(lagrange_coefficient(Scalar::zero(), 2, &nodes).is_none());
    assert!(lagrange_coefficient(Scalar::zero(), 0, &[]).is_none());
    // a repeated node
    assert!(lagrange_coefficient(Scalar::zero(), 0, &[index(4), index(4)]).is_none());
    // the point is another node: the coefficient would be zero
    assert!(lagrange_coefficient(Scalar::from_u16(3), 0, &nodes).is_none());
    // the point is the node itself: the coefficient is one
    let l = lagrange_coefficient(Scalar::from_u16(1), 0, &nodes).unwrap().to_scalar();
    assert!(l.eq(&Scalar::from_u16(1)));
}

#[test]
fn xor_array_xors_the_common_prefix() {
    assert_eq!(xor_array(vec![0b1100, 0b1010], &[0b1010, 0b1010]), vec![0b0110, 0]);
    assert_eq!(xor_array(vec![1, 2, 3], &[0xff]), vec![0xfe, 2, 3]);
    assert_eq!(xor_array(vec![1], &[1, 2, 3]), vec![0]);
    assert_eq!(xor_array(vec![], &[1, 2, 3]), Vec::<u8>::new());
    assert_eq!(xor_array(vec![9, 8], &[]), vec![9, 8]);
    // xoring twice gives the array back
    let a = vec![0x12, 0x34, 0x56];
    let b = [0xaa, 0xbb, 0xcc];
    assert_eq!(xor_array(xor_array(a.clone(), &b), &b), a);
}

#[test]
fn iter_peers_skips_the_party() {
    assert_eq!(iter_peers(0, 3), vec![1, 2]);
    assert_eq!(iter_peers(1, 3), vec![0, 2]);
    assert_eq!(iter_peers(2, 3), vec![0, 1]);
    assert_eq!(iter_peers(3, 3), vec![0, 1, 2]);
    assert_eq!(iter_peers(0, 0), Vec::<u16>::new());
    assert_eq!(iter_peers(0, 1), Vec::<u16>::new());
    assert_eq!(iter_peers(7, 2), vec![0, 1]);
    let peers = iter_peers(65534, 65535);
    assert_eq!(peers.len(), 65534);
    assert_eq!(peers[65533], 65533);
}

#[test]
fn but_nth_drops_one_item() {
    assert_eq!(but_nth(0, vec![1, 2, 3]), vec![2, 3]);
    assert_eq!(but_nth(1, vec![1, 2, 3]), vec![1, 3]);
    assert_eq!(but_nth(2, vec![1, 2, 3]), vec![1, 2]);
    assert_eq!(but_nth(3, vec![1, 2, 3]), vec![1, 2, 3]);
    assert_eq!(but_nth(0, Vec::<u8>::new()), Vec::<u8>::new());
    assert_eq!(but_nth(0, vec!["a"]), Vec::<&str>::new());
}

#[test]
fn partition_results_keeps_the_order() {
    let input: Vec<Result<u8, &str>> = vec![Ok(1), Err("a"), Ok(2), Ok(3), Err("b")];
    assert_eq!(partition_results(input), (vec![1, 2, 3], vec!["a", "b"]));
    let input: Vec<Result<u8, &str>> = vec![];
    assert_eq!(partition_results(input), (vec![], vec![]));
    let input: Vec<Result<u8, &str>> = vec![Err("x")];
    assert_eq!(partition_results(input), (vec![], vec!["x"]));
    let input: Vec<Result<u8, &str>> = vec![Ok(9), Ok(8)];
    assert_eq!(partition_results(input), (vec![9, 8], vec![]));
}

#[test]
fn subset_picks_by_index() {
    let list = [10u8, 20, 30, 40];
    assert_eq!(subset(&[0, 2], &list), Some(vec![10, 30]));
    assert_eq!(subset(&[3, 3, 0], &list), Some(vec![40, 40, 10]));
    assert_eq!(subset(&[], &list), Some(vec![]));
    assert_eq!(subset(&[4], &list), None);
    assert_eq!(subset(&[0, 1, 100], &list), None);
    assert_eq!(subset::<u8>(&[0], &[]), None);
    assert_eq!(subset::<u8>(&[], &[]), Some(vec![]));
}

fn round<M>(i: u16, first_id: u64, messages: Vec<M>) -> RoundMsgs<M> {
    let ids = (0..messages.len() as u64).map(|k| first_id + k).collect();
    RoundMsgs::new(i, ids, messages).unwrap()
}

#[test]
fn round_msgs_index_the_senders() {
    let msgs = round(1, 100, vec!["from 0", "from 2", "from 3"]);
    assert_eq!(msgs.me(), 1);
    assert_eq!(msgs.len(), 3);
    assert_eq!((msgs.sender(0), msgs.sender(1), msgs.sender(2)), (0, 2, 3));
    assert_eq!((msgs.msg_id(0), msgs.msg_id(2)), (100, 102));
    assert_eq!(*msgs.message(1), "from 2");
    assert_eq!(msgs.into_vec_including_me("mine"), vec!["from 0", "mine", "from 2", "from 3"]);
    let last = round(3, 0, vec![0u8, 1, 2]);
    assert_eq!((last.sender(0), last.sender(2)), (0, 2));
    assert_eq!(last.into_vec_including_me(3), vec![0, 1, 2, 3]);
    // malformed rounds
    assert!(RoundMsgs::new(0, vec![1], vec!["a", "b"]).is_none());
    assert!(RoundMsgs::new(3, vec![1, 2], vec!["a", "b"]).is_none());
    assert!(RoundMsgs::new(2, vec![1, 2], vec!["a", "b"]).is_some());
    assert!(RoundMsgs::<u8>::new(0, vec![], vec![]).is_some());
}

#[test]
fn messages_are_addressed_to_the_peers_in_order() {
    let out = address_to_peers(1, vec!["a", "b", "c"]);
    assert_eq!(out.len(), 3);
    assert_eq!(out[0].recipient, MessageDestination::OneParty(0));
    assert_eq!(out[1].recipient, MessageDestination::OneParty(2));
    assert_eq!(out[2].recipient, MessageDestination::OneParty(3));
    assert_eq!((out[0].msg, out[1].msg, out[2].msg), ("a", "b", "c"));
    assert!(address_to_peers::<u8>(0, vec![]).is_empty());
}

#[test]
fn collect_blame_names_the_faulty_senders() {
    let data = round(1, 10, vec![5u8, 6, 7]);
    let proofs = round(1, 20, vec![50u8, 60, 70]);
    let blame = collect_blame(&data, &proofs, |j, d, p| j == 2 || *d == 7 && *p == 70);
    assert_eq!(blame, vec![AbortBlame::new(2, 11, 21), AbortBlame::new(3, 12, 22)]);
    assert!(collect_blame(&data, &proofs, |_, _, _| false).is_empty());
    let all = collect_blame(&data, &proofs, |_, _, _| true);
    assert_eq!(
        all,
        vec![AbortBlame::new(0, 10, 20), AbortBlame::new(2, 11, 21), AbortBlame::new(3, 12, 22)]
    );
    // a shorter round of proofs: the senders without a proof are not asked about
    let fewer = round(1, 20, vec![50u8]);
    assert_eq!(collect_blame(&data, &fewer, |_, _, _| true), vec![AbortBlame::new(0, 10, 20)]);
}

#[test]
fn collect_simple_blame_uses_one_message_twice() {
    let data = round(0, 10, vec![5u8, 6, 7]);
    let blame = collect_simple_blame(&data, |d| *d != 6);
    assert_eq!(blame, vec![AbortBlame::new(1, 10, 10), AbortBlame::new(3, 12, 12)]);
    assert!(collect_simple_blame(&data, |_| false).is_empty());
}

#[test]
fn try_collect_blame_stops_at_the_first_failure() {
    let data = round(1, 10, vec![5u8, 6, 7]);
    let proofs = round(1, 20, vec![50u8, 60, 70]);
    let ok: Result<_, &str> = try_collect_blame(&data, &proofs, |j, _, _| Ok(j == 0));
    assert_eq!(ok, Ok(vec![AbortBlame::new(0, 10, 20)]));
    let err: Result<_, String> = try_collect_blame(&data, &proofs, |j, _, _| {
        if j >= 2 {
            Err(format!("failed at {j}"))
        } else {
            Ok(true)
        }
    });
    assert_eq!(err, Err("failed at 2".to_string()));
}

#[test]
fn blame_from_verdicts_follows_the_flags() {
    let data = round(2, 10, vec![(), (), ()]);
    let proofs = round(2, 20, vec![(), (), ()]);
    assert!(blame_from_verdicts(&data, &proofs, &[false, false, false]).is_empty());
    assert_eq!(
        blame_from_verdicts(&data, &proofs, &[true, false, true]),
        vec![AbortBlame::new(0, 10, 20), AbortBlame::new(3, 12, 22)]
    );
}

#[test]
fn scalar_to_bignumber_keeps_the_value() {
    let s = Scalar::from_u16(0x0102);
    let n = scalar_to_bignumber(&s);
    assert!(!n.negative);
    assert_eq!(n.magnitude.len(), 32);
    assert_eq!(n.magnitude[30..], [1, 2]);
    assert!(n.equals(&big(0x0102)));
    assert!(n.to_scalar().eq(&s));
    let minus_one = Scalar::from_u16(1).neg();
    assert_eq!(scalar_to_bignumber(&minus_one).magnitude, minus_one.to_be_bytes().to_vec());
}

#[test]
fn security_params_follow_the_level() {
    let params = SecurityParams::new::<ReasonablySecure>();
    assert_eq!((params.pi_aff.l_x, params.pi_aff.l_y, params.pi_aff.epsilon), (256, 848, 230));
    assert_eq!((params.pi_log.l, params.pi_log.epsilon), (256, 230));
    assert_eq!((params.pi_enc.l, params.pi_enc.epsilon), (256, 230));
    assert!(params.pi_enc.q.equals(&power_of_two(128)));
}

#[test]
fn hash_message_appends_to_the_running_hash() {
    assert_eq!(hash_message(vec![1, 2], &[3, 4]), vec![1, 2, 3, 4]);
    assert_eq!(hash_message(vec![], &[]), Vec::<u8>::new());
    // the digest of "abc", fed in two parts
    let expected = [
        0xba, 0x78, 0x16, 0xbf, 0x8f, 0x01, 0xcf, 0xea, 0x41, 0x41, 0x40, 0xde, 0x5d, 0xae, 0x22,
        0x23, 0xb0, 0x03, 0x61, 0xa3, 0x96, 0x17, 0x7a, 0x9c, 0xb4, 0x10, 0xff, 0x61, 0xf2, 0x00,
        0x15, 0xad,
    ];
    assert_eq!(hash_messages(&vec![b"a".to_vec(), b"bc".to_vec()]), expected);
    assert_eq!(hash_messages(&vec![b"abc".to_vec()]), expected);
    assert_ne!(hash_messages(&vec![b"abd".to_vec()]), expected);
}

#[test]
fn mult_group_holds_the_coprime_numbers() {
    let n = big(35);
    assert!(is_in_mult_group(&big(1), &n));
    assert!(is_in_mult_group(&big(2), &n));
    assert!(!is_in_mult_group(&big(5), &n));
    assert!(!is_in_mult_group(&big(7), &n));
    assert!(!is_in_mult_group(&big(0), &n));
    assert!(!is_in_mult_group(&big(35), &n));
    assert!(is_in_mult_group(&big(34), &n));
    // a number below zero, or not below the modulus, is none of the group
    assert!(!is_in_mult_group(&big(-2), &n));
    assert!(!is_in_mult_group(&big(-34), &n));
    assert!(!is_in_mult_group(&big(36), &n));
    assert!(!is_in_mult_group(&big(71), &n));
    assert!(!is_in_mult_group(&big(1), &big(-35)));
    assert!(!is_in_mult_group(&big(1), &big(0)));
    // modulo one there is one residue, and it is a unit
    assert!(is_in_mult_group(&big(0), &big(1)));
    let candidates = [big(0), big(14), big(25), big(4), big(3)];
    assert_eq!(sample_bigint_in_mult_group(&candidates, &n), Some(3));
    let candidates = [big(36), big(-4), big(35), big(33), big(2)];
    assert_eq!(sample_bigint_in_mult_group(&candidates, &n), Some(3));
    assert_eq!(sample_bigint_in_mult_group(&candidates[..3], &n), None);
    assert_eq!(sample_bigint_in_mult_group(&[], &n), None);
}

#[test]
fn big_number_arithmetic_is_signed() {
    assert!(big(5).add(&big(-7)).equals(&big(-2)));
    assert!(big(-5).add(&big(7)).equals(&big(2)));
    assert!(big(-5).add(&big(-7)).equals(&big(-12)));
    assert!(big(5).sub(&big(5)).equals(&big(0)));
    assert!(big(-3).mul(&big(4)).equals(&big(-12)));
    assert!(big(-3).mul(&big(-4)).equals(&big(12)));
    assert!(big(0).mul(&big(-4)).equals(&big(0)));
    assert!(big(7).half().equals(&big(3)));
    assert!(big(12).gcd(&big(18)).equals(&big(6)));
    assert!(big(0).gcd(&big(18)).equals(&big(18)));
    assert!(big(-2).less_than(&big(1)));
    assert!(big(-2).less_than(&big(-1)));
    assert!(!big(-1).less_than(&big(-2)));
    assert!(!big(0).less_than(&BigNumber { negative: true, magnitude: vec![] }));
    assert!(big(0).equals(&BigNumber { negative: true, magnitude: vec![0] }));
    assert!(big(3).is_positive());
    assert!(!big(0).is_positive());
    assert!(!big(-3).is_positive());
    assert_eq!(big(7).magnitude_mod_4(), 3);
    assert_eq!(big(256).magnitude_mod_4(), 0);
    assert!(big(9).neg().equals(&big(-9)));
    assert!(BigNumber::one().equals(&big(1)));
    assert!(big(9).duplicate().equals(&big(9)));
}

#[test]
fn any_three_of_five_shares_reconstruct_the_secret() {
    let mut rng = ChaCha20Rng::from_seed([77u8; 32]);
    let coefs = [random_scalar(&mut rng), random_scalar(&mut rng), random_scalar(&mut rng)];
    let f = |x: &Scalar| coefs.iter().rev().fold(Scalar::zero(), |acc, c| acc.mul(x).add(c));
    let nodes: Vec<NonZeroScalar> =
        (0..5u16).map(|j| NonZeroScalar::from_scalar(Scalar::from_u16(3 * j + 2)).unwrap()).collect();
    let shares: Vec<Scalar> = nodes.iter().map(|x| f(&x.to_scalar())).collect();
    let at = Scalar::from_u16(1000);
    let mut subsets = 0;
    for a in 0..5 {
        for b in (a + 1)..5 {
            for c in (b + 1)..5 {
                let chosen = [nodes[a], nodes[b], nodes[c]];
                let held = [shares[a], shares[b], shares[c]];
                let sum_at = |y: Scalar| {
                    (0..3u16).fold(Scalar::zero(), |acc, j| {
                        let l = lagrange_coefficient(y, j, &chosen).unwrap();
                        acc.add(&l.to_scalar().mul(&held[usize::from(j)]))
                    })
                };
                assert!(sum_at(Scalar::zero()).eq(&coefs[0]));
                assert!(sum_at(at).eq(&f(&at)));
                subsets += 1;
            }
        }
    }
    assert_eq!(subsets, 10);
    // two shares do not give the secret of a polynomial of degree two
    let chosen = [nodes[0], nodes[1]];
    let l0 = lagrange_coefficient(Scalar::zero(), 0, &chosen).unwrap();
    let l1 = lagrange_coefficient(Scalar::zero(), 1, &chosen).unwrap();
    let sum = l0.to_scalar().mul(&shares[0]).add(&l1.to_scalar().mul(&shares[1]));
    assert!(!sum.eq(&coefs[0]));
}

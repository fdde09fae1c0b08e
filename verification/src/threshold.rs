//! Distributed key generation with a threshold: every party shares a secret of its own with
//! a polynomial, and a party's share of the key is the sum of what the parties dealt to it.
//! Any `t` of the `n` parties can sign together, fewer learn nothing of the key.

use crate::hashing::be16;
use crate::hashing::commitment_of;
use crate::hashing::HashCommit;
use crate::key_share::IncompleteKeyShare;
use crate::key_share::VssSetup;
use crate::keygen::challenge;
use crate::keygen::challenge_of;
use crate::keygen::flagged;
use crate::keygen::lemma_flagged;
use crate::keygen::xor_all;
use crate::keygen::BugReason;
use crate::keygen::KeygenError;
use crate::keygen::MsgRound1;
use crate::keygen::MsgRound3;
use crate::keygen::ProtocolAborted;
use crate::keygen::Tag;
use crate::point::encodings;
use crate::point::identity;
use crate::point::point_sum;
use crate::point::spec_generator_mul;
use crate::point::spec_point_add;
use crate::point::spec_point_mul;
use crate::point::sum_points;
use crate::point::Point;
use crate::rounds::RoundMsgs;
use crate::scalar::add_mod;
use crate::scalar::mul_mod;
use crate::scalar::sum_mod;
use crate::scalar::sum_scalars;
use crate::scalar::values;
use crate::scalar::NonZeroScalar;
use crate::scalar::Scalar;
use crate::schnorr::schnorr_accepts;
use crate::schnorr::schnorr_response;
use crate::security_level::SecurityLevel;
use crate::utils::xor_array;
use core::marker::PhantomData;
use vstd::prelude::*;

verus! {

/// The value at `x` of the polynomial with the first `upto` of the coefficients `coefs`, the
/// constant term first, by Horner's rule from zero.
pub open spec fn poly_eval(coefs: Seq<nat>, x: nat, from: int) -> nat
    decreases coefs.len() - from,
{
    if from >= coefs.len() || from < 0 {
        0
    } else {
        add_mod(mul_mod(poly_eval(coefs, x, from + 1), x), coefs[from])
    }
}

/// The value at `x` of the polynomial whose coefficients are the points `coefs`, the constant
/// term first, by Horner's rule from the identity.
pub open spec fn poly_eval_points(coefs: Seq<Seq<u8>>, x: nat, from: int) -> Seq<u8>
    decreases coefs.len() - from,
{
    if from >= coefs.len() || from < 0 {
        identity()
    } else {
        spec_point_add(spec_point_mul(poly_eval_points(coefs, x, from + 1), x), coefs[from])
    }
}

/// The value of a polynomial at `x`.
pub fn evaluate(coefs: &Vec<Scalar>, x: &Scalar) -> (r: Scalar)
    ensures
        r@ == poly_eval(values(coefs@), x@, 0),
{
    let mut acc = Scalar::zero();
    let mut k: usize = coefs.len();
    while k > 0
        invariant
            k <= coefs@.len(),
            acc@ == poly_eval(values(coefs@), x@, k as int),
        decreases k,
    {
        k -= 1;
        acc = acc.mul(x).add(&coefs[k]);
    }
    acc
}

/// The value at `x` of a polynomial whose coefficients are points.
pub fn evaluate_points(coefs: &Vec<Point>, x: &Scalar) -> (r: Point)
    ensures
        r@ == poly_eval_points(encodings(coefs@), x@, 0),
{
    let mut acc = Point::zero();
    let mut k: usize = coefs.len();
    while k > 0
        invariant
            k <= coefs@.len(),
            acc@ == poly_eval_points(encodings(coefs@), x@, k as int),
        decreases k,
    {
        k -= 1;
        acc = acc.mul(x).add(&coefs[k]);
    }
    acc
}

/// Message of round 2 to all: the decommitment
pub struct MsgRound2Broad {
    /// The party's part of the shared random identifier.
    pub rid: Vec<u8>,
    /// The party's polynomial, each coefficient multiplied into the generator.
    pub F: Vec<Point>,
    /// The commitment of the party's Schnorr proof.
    pub sch_commit: Point,
    /// The nonce that opens the commitment of round 1.
    pub decommit: Vec<u8>,
}

impl MsgRound2Broad {
    /// A copy of the message.
    pub fn duplicate(&self) -> (r: MsgRound2Broad)
        ensures
            r.rid@ == self.rid@,
            r.F@ == self.F@,
            r.sch_commit == self.sch_commit,
            r.decommit@ == self.decommit@,
    {
        let rid = self.rid.clone();
        let decommit = self.decommit.clone();
        let F = self.F.clone();
        assert(rid@ =~= self.rid@);
        assert(decommit@ =~= self.decommit@);
        assert(F@ =~= self.F@);
        MsgRound2Broad { rid, F, sch_commit: self.sch_commit, decommit }
    }
}

/// Message of round 2 to one party: what the sender's polynomial gives at the receiver's
/// point
#[derive(Clone, Copy, Debug)]
pub struct MsgRound2Uni {
    /// $f_j(I_i)$
    pub sigma: Scalar,
}

/// What a party draws at random before the protocol starts.
pub struct ThresholdSecrets {
    /// The party's part $\rho_i$ of the random identifier: $\kappa/8$ bytes.
    pub rid: Vec<u8>,
    /// The coefficients of the party's polynomial, the constant term first: as many as the
    /// threshold.
    pub polynomial: Vec<Scalar>,
    /// The nonce of the party's Schnorr proof.
    pub sch_nonce: Scalar,
    /// The nonce of the party's commitment.
    pub decommit_nonce: Vec<u8>,
}

/// The point at which the polynomials are evaluated for party `j`: `j + 1`.
pub open spec fn point_of(j: int) -> nat {
    (j + 1) as nat
}

/// The items that party `j` of `n` commits to in a run with the threshold `t` named `tag`.
pub open spec fn threshold_items(tag: Seq<u8>, n: u16, t: u16, j: u16, d: MsgRound2Broad) -> Seq<
    Seq<u8>,
> {
    seq![tag, be16(n), be16(t), be16(j), d.rid@] + encodings(d.F@) + seq![d.sch_commit@]
}

/// The commitment of party `j` of `n`, with the threshold `t`, to what `d` shows.
pub fn threshold_commitment(tag: &Tag, n: u16, t: u16, j: u16, d: &MsgRound2Broad) -> (r: [u8; 32])
    ensures
        r@ == commitment_of(threshold_items(tag@, n, t, j, *d), d.decommit@),
{
    let mut h = HashCommit::builder().mix_bytes(tag.as_bytes().as_slice()).mix_u16(n).mix_u16(
        t,
    ).mix_u16(j).mix_bytes(d.rid.as_slice());
    assert(h@ =~= seq![tag@, be16(n), be16(t), be16(j), d.rid@]);
    let mut k: usize = 0;
    while k < d.F.len()
        invariant
            k <= d.F@.len(),
            h@ == seq![tag@, be16(n), be16(t), be16(j), d.rid@] + encodings(d.F@).subrange(
                0,
                k as int,
            ),
        decreases d.F@.len() - k,
    {
        let bytes = d.F[k].to_bytes();
        let ghost before = h@;
        h = h.mix_bytes(bytes.as_slice());
        assert(h@ =~= seq![tag@, be16(n), be16(t), be16(j), d.rid@] + encodings(d.F@).subrange(
            0,
            k + 1,
        ));
        k += 1;
    }
    assert(encodings(d.F@).subrange(0, d.F@.len() as int) =~= encodings(d.F@));
    let a = d.sch_commit.to_bytes();
    let h = h.mix_bytes(a.as_slice());
    assert(h@ =~= threshold_items(tag@, n, t, j, *d));
    h.commit(d.decommit.as_slice())
}

/// Key generation with a threshold: entry point
pub struct ThresholdKeygenBuilder<L: SecurityLevel> {
    i: u16,
    n: u16,
    t: u16,
    tag: Tag,
    _ph: PhantomData<L>,
}

/// What a party keeps after round 1.
pub struct ThresholdRound1 {
    sch_nonce: Scalar,
    my_commitment: MsgRound1,
    my_decommitment: MsgRound2Broad,
    sigmas: Vec<Scalar>,
}

/// What a party keeps after round 3.
pub struct ThresholdRound3 {
    sigma: Scalar,
    rid: Vec<u8>,
    Fs: Vec<Vec<Point>>,
    sch_commits: Vec<Point>,
    ys: Vec<Point>,
}

impl ThresholdRound1 {
    /// The party's commitment, which is its message of round 1.
    pub closed spec fn commitment(self) -> MsgRound1 {
        self.my_commitment
    }

    /// The party's decommitment, which is its message of round 2 to all.
    pub closed spec fn decommitment(self) -> MsgRound2Broad {
        self.my_decommitment
    }

    /// What the party's polynomial gives at the point of each party.
    pub closed spec fn dealt(self) -> Seq<nat> {
        values(self.sigmas@)
    }

    /// The nonce of the party's Schnorr proof.
    pub closed spec fn nonce(self) -> nat {
        self.sch_nonce@
    }

    /// The party's message of round 1.
    pub fn my_commitment(&self) -> (r: MsgRound1)
        ensures
            r == self.commitment(),
    {
        self.my_commitment
    }

    /// The party's message of round 2 to all.
    pub fn my_decommitment(&self) -> (r: MsgRound2Broad)
        ensures
            r.rid@ == self.decommitment().rid@,
            r.F@ == self.decommitment().F@,
            r.sch_commit == self.decommitment().sch_commit,
            r.decommit@ == self.decommitment().decommit@,
    {
        self.my_decommitment.duplicate()
    }

    /// The party's message of round 2 to party `j`.
    pub fn share_for(&self, j: u16) -> (r: Option<MsgRound2Uni>)
        ensures
            r is Some <==> j < self.dealt().len(),
            r matches Some(m) ==> m.sigma@ == self.dealt()[j as int],
    {
        if (j as usize) < self.sigmas.len() {
            Some(MsgRound2Uni { sigma: self.sigmas[j as usize] })
        } else {
            None
        }
    }
}

/// What a round of messages deals to their receiver.
pub open spec fn dealt_values(sigmas: Seq<MsgRound2Uni>) -> Seq<nat> {
    Seq::new(sigmas.len(), |k: int| sigmas[k].sigma@)
}

/// The polynomials of a round of decommitments.
pub open spec fn polynomials_of(ds: Seq<MsgRound2Broad>) -> Seq<Seq<Seq<u8>>> {
    Seq::new(ds.len(), |k: int| encodings(ds[k].F@))
}

/// What each polynomial gives at the point of party `l`.
pub open spec fn dealt_publicly(Fs: Seq<Seq<Seq<u8>>>, l: int) -> Seq<Seq<u8>> {
    Seq::new(Fs.len(), |j: int| poly_eval_points(Fs[j], point_of(l), 0))
}

/// The public share of party `l`: the sum of what the polynomials give at its point.
pub open spec fn public_share(Fs: Seq<Seq<Seq<u8>>>, l: int) -> Seq<u8> {
    point_sum(dealt_publicly(Fs, l))
}

/// The constant terms of the polynomials.
pub open spec fn constant_terms(Fs: Seq<Seq<Seq<u8>>>) -> Seq<Seq<u8>> {
    Seq::new(Fs.len(), |j: int| Fs[j][0])
}

impl ThresholdRound3 {
    /// The party's share of the key.
    pub closed spec fn secret(self) -> nat {
        self.sigma@
    }

    /// The random identifier.
    pub closed spec fn rid(self) -> Seq<u8> {
        self.rid@
    }

    /// The public shares of the parties.
    pub closed spec fn public_shares(self) -> Seq<Seq<u8>> {
        encodings(self.ys@)
    }

    /// The commitments of the parties' Schnorr proofs.
    pub closed spec fn sch_commits(self) -> Seq<Seq<u8>> {
        encodings(self.sch_commits@)
    }

    /// The polynomials of the parties.
    pub closed spec fn polynomials(self) -> Seq<Seq<Seq<u8>>> {
        Seq::new(self.Fs@.len(), |k: int| encodings(self.Fs@[k]@))
    }
}

impl<L: SecurityLevel> ThresholdKeygenBuilder<L> {
    /// Index of the party.
    pub closed spec fn party(self) -> u16 {
        self.i
    }

    /// Number of the parties.
    pub closed spec fn parties(self) -> u16 {
        self.n
    }

    /// The threshold.
    pub closed spec fn threshold(self) -> u16 {
        self.t
    }

    /// The tag of the run.
    pub closed spec fn tag(self) -> Seq<u8> {
        self.tag@
    }

    /// Length of a party's part of the random identifier.
    pub open spec fn rid_len() -> int {
        L::spec_security_bits() as int / 8
    }

    /// Whether `msgs` are the messages of a round for this party: one from each of the other
    /// parties.
    pub open spec fn expects<M>(self, msgs: RoundMsgs<M>) -> bool {
        self.party() < self.parties() && msgs.receiver() == self.party() && msgs.count()
            == self.parties() - 1
    }

    /// The tag of the run.
    pub fn run_tag(&self) -> (r: Tag)
        ensures
            r@ == self.tag(),
    {
        self.tag
    }

    /// Index of the party.
    pub fn index(&self) -> (r: u16)
        ensures
            r == self.party(),
    {
        self.i
    }

    /// Number of the parties.
    pub fn n(&self) -> (r: u16)
        ensures
            r == self.parties(),
    {
        self.n
    }

    /// The threshold.
    pub fn t(&self) -> (r: u16)
        ensures
            r == self.threshold(),
    {
        self.t
    }

    /// Key generation among `n` parties with the threshold `t`, for party `i`
    pub fn new(i: u16, n: u16, t: u16, tag: Tag) -> (r: Self)
        ensures
            r.party() == i,
            r.parties() == n,
            r.threshold() == t,
            r.tag() == tag@,
    {
        Self { i, n, t, tag, _ph: PhantomData }
    }

    /// Starts the protocol with round 1: the party's polynomial is committed to, coefficient
    /// by coefficient, and evaluated at the point of every party. `None` unless the polynomial
    /// has as many coefficients as the threshold, which must be at least one.
    pub fn start(&self, secrets: ThresholdSecrets) -> (r: Option<ThresholdRound1>)
        ensures
            r is Some <==> secrets.polynomial@.len() == self.threshold() && self.threshold() >= 1,
            r matches Some(state) ==> {
                &&& state.nonce() == secrets.sch_nonce@
                &&& state.decommitment().rid@ == secrets.rid@
                &&& state.decommitment().decommit@ == secrets.decommit_nonce@
                &&& state.decommitment().sch_commit@ == spec_generator_mul(secrets.sch_nonce@)
                &&& state.decommitment().F@.len() == secrets.polynomial@.len()
                &&& forall|k: int|
                    0 <= k < secrets.polynomial@.len() ==> (#[trigger] state.decommitment().F@[k])@
                        == spec_generator_mul(secrets.polynomial@[k]@)
                &&& state.dealt().len() == self.parties()
                &&& forall|j: int|
                    0 <= j < self.parties() ==> (#[trigger] state.dealt()[j]) == poly_eval(
                        values(secrets.polynomial@),
                        point_of(j),
                        0,
                    )
                &&& state.commitment().commitment@ == commitment_of(
                    threshold_items(
                        self.tag(),
                        self.parties(),
                        self.threshold(),
                        self.party(),
                        state.decommitment(),
                    ),
                    secrets.decommit_nonce@,
                )
            },
    {
        if secrets.polynomial.len() != self.t as usize || self.t < 1 {
            return None;
        }
        let mut F: Vec<Point> = Vec::new();
        let mut k: usize = 0;
        while k < secrets.polynomial.len()
            invariant
                k <= secrets.polynomial@.len(),
                F@.len() == k,
                forall|m: int|
                    0 <= m < k ==> (#[trigger] F@[m])@ == spec_generator_mul(
                        secrets.polynomial@[m]@,
                    ),
            decreases secrets.polynomial@.len() - k,
        {
            F.push(Point::generator_mul(&secrets.polynomial[k]));
            k += 1;
        }
        let mut sigmas: Vec<Scalar> = Vec::new();
        let mut j: u16 = 0;
        while j < self.n
            invariant
                j <= self.n,
                sigmas@.len() == j,
                forall|m: int|
                    0 <= m < j ==> (#[trigger] sigmas@[m])@ == poly_eval(
                        values(secrets.polynomial@),
                        point_of(m),
                        0,
                    ),
            decreases self.n - j,
        {
            // the point of party j is j + 1: one more than an index is no index itself
            let at = Scalar::from_u16(j).add(&Scalar::from_u16(1));
            proof {
                vstd::arithmetic::div_mod::lemma_small_mod(
                    (j + 1) as nat,
                    crate::scalar::group_order(),
                );
            }
            sigmas.push(evaluate(&secrets.polynomial, &at));
            j += 1;
        }
        let my_decommitment = MsgRound2Broad {
            rid: secrets.rid,
            F,
            sch_commit: crate::schnorr::commit(&secrets.sch_nonce),
            decommit: secrets.decommit_nonce,
        };
        let hash_commit = threshold_commitment(&self.tag, self.n, self.t, self.i, &my_decommitment);
        let state = ThresholdRound1 {
            sch_nonce: secrets.sch_nonce,
            my_commitment: MsgRound1 { commitment: hash_commit },
            my_decommitment,
            sigmas,
        };
        assert(state.dealt().len() == self.parties());
        assert forall|j: int| 0 <= j < self.parties() implies (#[trigger] state.dealt()[j])
            == poly_eval(values(secrets.polynomial@), point_of(j), 0) by {
            assert(state.dealt()[j] == sigmas@[j]@);
        }
        Some(state)
    }

    /// Whether the decommitment of each party fails: it does not open the party's
    /// commitment, its part of the random identifier has not the length of the security
    /// level, or its polynomial has not as many coefficients as the threshold.
    pub open spec fn decommitment_flags(
        self,
        commitments: Seq<MsgRound1>,
        decommitments: Seq<MsgRound2Broad>,
    ) -> Seq<bool> {
        Seq::new(
            decommitments.len(),
            |j: int|
                !(decommitments[j].rid@.len() == Self::rid_len() && decommitments[j].F@.len()
                    == self.threshold() && commitments[j].commitment@ == commitment_of(
                    threshold_items(
                        self.tag(),
                        self.parties(),
                        self.threshold(),
                        j as u16,
                        decommitments[j],
                    ),
                    decommitments[j].decommit@,
                )),
        )
    }

    /// Whether what each party dealt to this party fails Feldman's check: the generator
    /// multiplied by it is not what the party's polynomial gives at this party's point.
    pub open spec fn feldman_flags(
        self,
        decommitments: Seq<MsgRound2Broad>,
        sigmas: Seq<nat>,
    ) -> Seq<bool> {
        Seq::new(
            decommitments.len(),
            |j: int|
                spec_generator_mul(sigmas[j]) != poly_eval_points(
                    encodings(decommitments[j].F@),
                    point_of(self.party() as int),
                    0,
                ),
        )
    }

    /// Round 3: every decommitment is held against its commitment, and what every party dealt
    /// to this party against the party's polynomial; the parties that fail the first check are
    /// blamed, all of them, else those that fail the second. Then the parts of the random
    /// identifier are xored together, the public share of every party is computed, the
    /// party's share of the key is the sum of what was dealt to it, and the party proves that
    /// it knows its share. The proof is the message to broadcast.
    #[verifier::loop_isolation(false)]
    pub fn round3(
        &self,
        state: ThresholdRound1,
        commitments: RoundMsgs<MsgRound1>,
        decommitments: RoundMsgs<MsgRound2Broad>,
        sigmas: RoundMsgs<MsgRound2Uni>,
    ) -> (r: Result<(ThresholdRound3, MsgRound3), KeygenError>)
        requires
            self.expects(commitments),
            self.expects(decommitments),
            self.expects(sigmas),
            state.dealt().len() == self.parties(),
        ensures
            ({
                let i = self.party() as int;
                let cs = commitments.messages().insert(i, state.commitment());
                let ds = decommitments.messages().insert(i, state.decommitment());
                let ss = dealt_values(sigmas.messages()).insert(i, state.dealt()[i]);
                let bad = self.decommitment_flags(cs, ds);
                let unfair = self.feldman_flags(ds, ss);
                let rid = xor_all(
                    Seq::new(ds.len(), |k: int| ds[k].rid@),
                    Self::rid_len(),
                    ds.len() as int,
                );
                &&& r is Ok <==> (forall|j: int| 0 <= j < self.parties() ==> !bad[j]) && (
                forall|j: int| 0 <= j < self.parties() ==> !unfair[j])
                &&& r matches Err(e) ==> if exists|j: int| 0 <= j < self.parties() && bad[j] {
                    e matches KeygenError::Aborted(
                        ProtocolAborted::InvalidDecommitment { parties },
                    ) && parties@ == flagged(bad, self.parties() as int)
                } else {
                    e matches KeygenError::Aborted(
                        ProtocolAborted::FeldmanVerificationFailed { parties },
                    ) && parties@ == flagged(unfair, self.parties() as int)
                }
                &&& r matches Ok((next, msg)) ==> {
                    &&& next.rid() == rid
                    &&& next.polynomials() == polynomials_of(ds)
                    &&& next.sch_commits() == Seq::new(ds.len(), |k: int| ds[k].sch_commit@)
                    &&& next.secret() == sum_mod(ss)
                    &&& next.public_shares().len() == self.parties()
                    &&& forall|l: int|
                        0 <= l < self.parties() ==> (#[trigger] next.public_shares()[l])
                            == public_share(polynomials_of(ds), l)
                    &&& msg.sch_proof@ == schnorr_response(
                        state.nonce(),
                        challenge_of(self.tag(), self.party(), rid),
                        next.secret(),
                    )
                }
            }),
    {
        let ghost i = self.party() as int;
        let ghost cs = commitments.messages().insert(i, state.commitment());
        let ghost ds = decommitments.messages().insert(i, state.decommitment());
        let ghost ss = dealt_values(sigmas.messages()).insert(i, state.dealt()[i]);
        let ghost bad = self.decommitment_flags(cs, ds);
        let ghost unfair = self.feldman_flags(ds, ss);
        proof {
            L::lemma_security_bits();
        }
        let sch_nonce = state.sch_nonce;
        let my_sigma = MsgRound2Uni { sigma: state.sigmas[self.i as usize] };
        let commitments = commitments.into_vec_including_me(state.my_commitment);
        let decommitments = decommitments.into_vec_including_me(state.my_decommitment);
        let sigmas = sigmas.into_vec_including_me(my_sigma);
        assert(dealt_values(sigmas@) =~= ss);
        let rid_len: usize = L::security_bytes();
        let n: usize = self.n as usize;

        // Validate decommitments
        let mut blame: Vec<u16> = Vec::new();
        let mut j: u16 = 0;
        while j < self.n
            invariant
                j <= self.n,
                blame@ == flagged(bad, j as int),
            decreases self.n - j,
        {
            let d = &decommitments[j as usize];
            let c = &commitments[j as usize];
            let expected = threshold_commitment(&self.tag, self.n, self.t, j, d);
            let opens = crate::bytes::bytes_eq(c.commitment.as_slice(), expected.as_slice());
            if !(d.rid.len() == rid_len && d.F.len() == self.t as usize && opens) {
                blame.push(j);
            }
            j += 1;
        }
        proof {
            lemma_flagged(bad, self.n as int);
        }
        if blame.len() != 0 {
            proof {
                let w = blame@[0];
                assert(flagged(bad, self.n as int).contains(w));
                assert(0 <= w < self.parties() && bad[w as int]);
            }
            return Err(
                KeygenError::Aborted(ProtocolAborted::InvalidDecommitment { parties: blame }),
            );
        }
        // Validate what was dealt to this party

        let at = Scalar::from_u16(self.i).add(&Scalar::from_u16(1));
        proof {
            vstd::arithmetic::div_mod::lemma_small_mod(
                (self.i + 1) as nat,
                crate::scalar::group_order(),
            );
        }
        let mut blame: Vec<u16> = Vec::new();
        let mut j: u16 = 0;
        while j < self.n
            invariant
                j <= self.n,
                blame@ == flagged(unfair, j as int),
            decreases self.n - j,
        {
            let expected = evaluate_points(&decommitments[j as usize].F, &at);
            if !Point::generator_mul(&sigmas[j as usize].sigma).eq(&expected) {
                blame.push(j);
            }
            j += 1;
        }
        proof {
            lemma_flagged(unfair, self.n as int);
        }
        if blame.len() != 0 {
            return Err(
                KeygenError::Aborted(ProtocolAborted::FeldmanVerificationFailed { parties: blame }),
            );
        }
        // The random identifier

        let mut rid: Vec<u8> = Vec::new();
        let mut k: usize = 0;
        while k < rid_len
            invariant
                k <= rid_len,
                rid@ == Seq::new(k as nat, |m: int| 0u8),
            decreases rid_len - k,
        {
            rid.push(0);
            assert(rid@ =~= Seq::new((k + 1) as nat, |m: int| 0u8));
            k += 1;
        }
        let ghost rids = Seq::new(ds.len(), |k: int| ds[k].rid@);
        let mut j: usize = 0;
        while j < n
            invariant
                j <= n,
                rid@ == xor_all(rids, rid_len as int, j as int),
            decreases n - j,
        {
            rid = xor_array(rid, decommitments[j].rid.as_slice());
            j += 1;
        }
        // The public shares: what all the polynomials give at the point of each party

        let mut Fs: Vec<Vec<Point>> = Vec::new();
        let mut sch_commits: Vec<Point> = Vec::new();
        let mut own: Vec<Scalar> = Vec::new();
        let mut j: usize = 0;
        while j < n
            invariant
                j <= n,
                Fs@.len() == j,
                sch_commits@.len() == j,
                own@.len() == j,
                forall|m: int| 0 <= m < j ==> (#[trigger] Fs@[m])@ == ds[m].F@,
                forall|m: int| 0 <= m < j ==> #[trigger] sch_commits@[m] == ds[m].sch_commit,
                forall|m: int| 0 <= m < j ==> (#[trigger] own@[m])@ == ss[m],
            decreases n - j,
        {
            let F = decommitments[j].F.clone();
            assert(F@ =~= decommitments@[j as int].F@);
            Fs.push(F);
            sch_commits.push(decommitments[j].sch_commit);
            own.push(sigmas[j].sigma);
            j += 1;
        }
        let ghost polys = polynomials_of(ds);
        let mut ys: Vec<Point> = Vec::new();
        let mut l: u16 = 0;
        while l < self.n
            invariant
                l <= self.n,
                ys@.len() == l,
                forall|m: int| 0 <= m < l ==> (#[trigger] ys@[m])@ == public_share(polys, m),
            decreases self.n - l,
        {
            let at_l = Scalar::from_u16(l).add(&Scalar::from_u16(1));
            proof {
                vstd::arithmetic::div_mod::lemma_small_mod(
                    (l + 1) as nat,
                    crate::scalar::group_order(),
                );
            }
            let mut dealt: Vec<Point> = Vec::new();
            let mut j: usize = 0;
            while j < n
                invariant
                    j <= n,
                    dealt@.len() == j,
                    at_l@ == point_of(l as int),
                    forall|m: int|
                        0 <= m < j ==> (#[trigger] dealt@[m])@ == poly_eval_points(
                            polys[m],
                            point_of(l as int),
                            0,
                        ),
                decreases n - j,
            {
                dealt.push(evaluate_points(&Fs[j], &at_l));
                j += 1;
            }
            assert(encodings(dealt@) =~= dealt_publicly(polys, l as int));
            ys.push(sum_points(&dealt));
            l += 1;
        }
        // The party's share of the key, and the proof that it knows it

        let sigma = sum_scalars(&own);
        assert(values(own@) =~= ss);
        let challenge = challenge(&self.tag, self.i, rid.as_slice());
        let sch_proof = crate::schnorr::prove(&sch_nonce, &challenge, &sigma);
        let next = ThresholdRound3 { sigma, rid, Fs, sch_commits, ys };
        proof {
            assert(next.polynomials() =~= polynomials_of(ds));
            assert(next.sch_commits() =~= Seq::new(ds.len(), |k: int| ds[k].sch_commit@));
            assert(next.public_shares().len() == self.parties());
            assert forall|l: int| 0 <= l < self.parties() implies (
            #[trigger] next.public_shares()[l]) == public_share(polynomials_of(ds), l) by {
                assert(next.public_shares()[l] == ys@[l]@);
            }
            if exists|j: int| 0 <= j < self.parties() && bad[j] {
                let j = choose|j: int| 0 <= j < self.parties() && bad[j];
                assert(!bad[j]);
            }
        }
        Ok((next, MsgRound3 { sch_proof }))
    }

    /// Whether the Schnorr proof of each party fails.
    pub open spec fn proof_flags(self, state: ThresholdRound3, proofs: Seq<MsgRound3>) -> Seq<
        bool,
    > {
        Seq::new(
            proofs.len(),
            |j: int|
                !schnorr_accepts(
                    proofs[j].sch_proof@,
                    state.sch_commits()[j],
                    challenge_of(self.tag(), j as u16, state.rid()),
                    state.public_shares()[j],
                ),
        )
    }

    /// Output: the Schnorr proof of every party is verified against the party's public
    /// share, and the parties whose proof fails are blamed, all of them. The key share holds
    /// the public shares, the sum of the polynomials' constant terms as the shared public key,
    /// the threshold, and `j + 1` as the point of each party `j`.
    #[verifier::loop_isolation(false)]
    pub fn output(&self, state: ThresholdRound3, my_sch_proof: MsgRound3, sch_proofs: RoundMsgs<
        MsgRound3,
    >) -> (r: Result<IncompleteKeyShare, KeygenError>)
        requires
            self.expects(sch_proofs),
            state.public_shares().len() == self.parties(),
            state.sch_commits().len() == self.parties(),
            state.polynomials().len() == self.parties(),
            forall|j: int|
                0 <= j < self.parties() ==> (#[trigger] state.polynomials()[j]).len() >= 1,
        ensures
            ({
                let proofs = sch_proofs.messages().insert(self.party() as int, my_sch_proof);
                let flags = self.proof_flags(state, proofs);
                &&& r is Ok <==> forall|j: int| 0 <= j < self.parties() ==> !flags[j]
                &&& r matches Err(e) ==> e matches KeygenError::Aborted(
                    ProtocolAborted::InvalidSchnorrProof { parties },
                ) && parties@ == flagged(flags, self.parties() as int)
                &&& r matches Ok(share) ==> {
                    &&& share.i == self.party()
                    &&& share.x@ == state.secret()
                    &&& share.rid@ == state.rid()
                    &&& encodings(share.public_shares@) == state.public_shares()
                    &&& share.shared_public_key@ == point_sum(constant_terms(state.polynomials()))
                    &&& share.vss_setup matches Some(vss)
                    &&& vss.min_signers == self.threshold()
                    &&& vss.I@.len() == self.parties()
                    &&& forall|j: int|
                        0 <= j < self.parties() ==> (#[trigger] vss.I@[j])@ == point_of(j)
                }
            }),
    {
        let ghost proofs = sch_proofs.messages().insert(self.party() as int, my_sch_proof);
        let ghost flags = self.proof_flags(state, proofs);
        let sch_proofs = sch_proofs.into_vec_including_me(my_sch_proof);
        let mut blame: Vec<u16> = Vec::new();
        let mut constants: Vec<Point> = Vec::new();
        let mut I: Vec<NonZeroScalar> = Vec::new();
        let mut j: u16 = 0;
        while j < self.n
            invariant
                j <= self.n,
                blame@ == flagged(flags, j as int),
                constants@.len() == j,
                I@.len() == j,
                forall|m: int| 0 <= m < j ==> (#[trigger] constants@[m])@ == state.polynomials()[m][0],
                forall|m: int| 0 <= m < j ==> (#[trigger] I@[m])@ == point_of(m),
            decreases self.n - j,
        {
            let challenge = challenge(&self.tag, j, state.rid.as_slice());
            assert(state.sch_commits()[j as int] == state.sch_commits@[j as int]@);
            assert(state.public_shares()[j as int] == state.ys@[j as int]@);
            if !crate::schnorr::verify(
                &sch_proofs[j as usize].sch_proof,
                &state.sch_commits[j as usize],
                &challenge,
                &state.ys[j as usize],
            ) {
                blame.push(j);
            }
            assert(state.polynomials()[j as int].len() >= 1);
            assert(state.polynomials()[j as int][0] == state.Fs@[j as int]@[0]@);
            constants.push(state.Fs[j as usize][0]);
            let at = Scalar::from_u16(j).add(&Scalar::from_u16(1));
            proof {
                vstd::arithmetic::div_mod::lemma_small_mod(
                    (j + 1) as nat,
                    crate::scalar::group_order(),
                );
            }
            match NonZeroScalar::from_scalar(at) {
                Some(p) => {
                    I.push(p);
                },
                None => {},
            }
            j += 1;
        }
        proof {
            lemma_flagged(flags, self.n as int);
            assert(encodings(constants@) =~= constant_terms(state.polynomials()));
        }
        if blame.len() != 0 {
            return Err(KeygenError::Aborted(ProtocolAborted::InvalidSchnorrProof { parties: blame }));
        }
        Ok(
            IncompleteKeyShare {
                i: self.i,
                shared_public_key: sum_points(&constants),
                rid: state.rid,
                public_shares: state.ys,
                x: state.sigma,
                vss_setup: Some(VssSetup { min_signers: self.t, I }),
            },
        )
    }
}

} // verus!

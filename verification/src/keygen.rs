//! Distributed key generation (non-threshold): three rounds of broadcast, after which every
//! party holds a share of a key that no party knows.

use crate::bytes::be_nat;
use crate::hashing::be16;
use crate::hashing::commitment_of;
use crate::hashing::sha256;
use crate::hashing::spec_sha256;
use crate::hashing::transcript;
use crate::hashing::HashCommit;
use crate::key_share::IncompleteKeyShare;
use crate::point::encodings;
use crate::point::point_sum;
use crate::point::spec_generator_mul;
use crate::point::sum_points;
use crate::point::Point;
use crate::rounds::RoundMsgs;
use crate::scalar::group_order;
use crate::scalar::Scalar;
use crate::schnorr::schnorr_accepts;
use crate::schnorr::schnorr_response;
use crate::security_level::SecurityLevel;
use crate::utils::xor_array;
use crate::utils::xor_seq;
use core::marker::PhantomData;
use vstd::prelude::*;
use vstd::string::StringSliceAdditionalSpecFns;

verus! {

/// Key generation message
pub enum Msg {
    Round1(MsgRound1),
    Round2(MsgRound2),
    Round3(MsgRound3),
}

/// Message of round 1: the commitment
#[derive(Clone, Copy, Debug)]
pub struct MsgRound1 {
    /// The commitment to what round 2 opens.
    pub commitment: [u8; 32],
}

/// Message of round 2: the decommitment
pub struct MsgRound2 {
    /// The party's part of the shared random identifier.
    pub rid: Vec<u8>,
    /// The party's public share.
    pub X: Point,
    /// The commitment of the party's Schnorr proof.
    pub sch_commit: Point,
    /// The nonce that opens the commitment of round 1.
    pub decommit: Vec<u8>,
}

impl MsgRound2 {
    /// A copy of the message.
    pub fn duplicate(&self) -> (r: MsgRound2)
        ensures
            r.rid@ == self.rid@,
            r.X == self.X,
            r.sch_commit == self.sch_commit,
            r.decommit@ == self.decommit@,
    {
        let rid = self.rid.clone();
        let decommit = self.decommit.clone();
        assert(rid@ =~= self.rid@);
        assert(decommit@ =~= self.decommit@);
        MsgRound2 { rid, X: self.X, sch_commit: self.sch_commit, decommit }
    }
}

/// Message of round 3: the Schnorr proof
#[derive(Clone, Copy, Debug)]
pub struct MsgRound3 {
    /// The response of the party's Schnorr proof.
    pub sch_proof: Scalar,
}

/// The bytes that name a run of the protocol, and the curve it is run on.
#[derive(Clone, Copy, Debug)]
pub struct Tag {
    tag: [u8; 32],
}

/// The tag that `seed` gives: the digest of the seed, the protocol's name and the curve's.
pub open spec fn tag_of(seed: Seq<u8>) -> Seq<u8> {
    spec_sha256(seed + "-CGGMP21-DFNS-KEYGEN-".spec_bytes() + "secp256k1".spec_bytes())
}

impl View for Tag {
    type V = Seq<u8>;

    /// The bytes of the tag.
    closed spec fn view(&self) -> Seq<u8> {
        self.tag@
    }
}

impl Tag {
    /// The tag for a run that `seed` names.
    pub fn from_seed(seed: &[u8]) -> (r: Tag)
        ensures
            r@ == tag_of(seed@),
    {
        let mut data: Vec<u8> = Vec::new();
        append(&mut data, seed);
        append(&mut data, "-CGGMP21-DFNS-KEYGEN-".as_bytes());
        append(&mut data, "secp256k1".as_bytes());
        Tag { tag: sha256(data.as_slice()) }
    }

    /// The bytes of the tag.
    pub fn as_bytes(&self) -> (r: &[u8; 32])
        ensures
            r@ == self@,
    {
        &self.tag
    }
}

impl Default for Tag {
    /// The tag of a run that nothing names.
    fn default() -> (r: Tag)
        ensures
            r@ == tag_of(Seq::empty()),
    {
        let empty: [u8; 0] = [];
        let r = Tag::from_seed(empty.as_slice());
        assert(empty@ =~= Seq::<u8>::empty());
        r
    }
}

/// Appends `data` to `buffer`.
fn append(buffer: &mut Vec<u8>, data: &[u8])
    ensures
        final(buffer)@ == old(buffer)@ + data@,
{
    let ghost before = buffer@;
    let mut k: usize = 0;
    while k < data.len()
        invariant
            k <= data@.len(),
            buffer@ == before + data@.subrange(0, k as int),
        decreases data@.len() - k,
    {
        buffer.push(data[k]);
        assert(buffer@ =~= before + data@.subrange(0, k + 1));
        k += 1;
    }
    assert(data@.subrange(0, data@.len() as int) =~= data@);
}

/// Protocol was aborted by malicious party
///
/// It _can be_ cryptographically proven, but we do not support it yet.
#[derive(Debug)]
pub enum ProtocolAborted {
    /// party decommitment doesn't match commitment
    InvalidDecommitment { parties: Vec<u16> },
    /// party provided invalid schnorr proof
    InvalidSchnorrProof { parties: Vec<u16> },
    /// party secret share is not consistent with its committed polynomial
    FeldmanVerificationFailed { parties: Vec<u16> },
}

/// Keygen failed error
#[derive(Debug)]
pub enum KeygenError {
    /// protocol was aborted by malicious party
    Aborted(ProtocolAborted),
    /// bug occurred
    Bug(Bug),
}

/// Bug occurred
///
/// Please, report this issue
#[derive(Clone, Copy, Debug, PartialEq, Eq, Structural)]
pub struct Bug(pub BugReason);

/// What went wrong
#[derive(Clone, Copy, Debug, PartialEq, Eq, Structural)]
pub enum BugReason {
    /// The messages of a round are not those of the builder's party among its parties.
    UnexpectedMessages,
}

/// What a party draws at random before the protocol starts.
pub struct KeygenSecrets {
    /// The party's secret share $x_i$.
    pub x_i: Scalar,
    /// The party's part $\rho_i$ of the random identifier: $\kappa/8$ bytes.
    pub rid: Vec<u8>,
    /// The nonce of the party's Schnorr proof.
    pub sch_nonce: Scalar,
    /// The nonce of the party's commitment.
    pub decommit_nonce: Vec<u8>,
}

/// The items that party `j` of `n` commits to in a run named `tag`: the tag, the number of
/// parties, the party's index, and what its decommitment shows.
pub open spec fn committed_items(tag: Seq<u8>, n: u16, j: u16, d: MsgRound2) -> Seq<Seq<u8>> {
    seq![tag, be16(n), be16(j), d.rid@, d.X@, d.sch_commit@]
}

/// Whether the decommitment `d` of party `j` opens the commitment `c`, with a part of the
/// random identifier that has the length `rid_len`.
pub open spec fn decommitment_valid(
    tag: Seq<u8>,
    n: u16,
    j: u16,
    rid_len: int,
    c: MsgRound1,
    d: MsgRound2,
) -> bool {
    d.rid@.len() == rid_len && c.commitment@ == commitment_of(
        committed_items(tag, n, j, d),
        d.decommit@,
    )
}

/// The indexes below `upto` at which `flags` is `true`, in increasing order.
pub open spec fn flagged(flags: Seq<bool>, upto: int) -> Seq<u16>
    decreases upto,
{
    if upto <= 0 {
        Seq::empty()
    } else if flags[upto - 1] {
        flagged(flags, upto - 1).push((upto - 1) as u16)
    } else {
        flagged(flags, upto - 1)
    }
}

/// The flagged indexes are exactly those at which the flag is `true`.
pub proof fn lemma_flagged(flags: Seq<bool>, upto: int)
    requires
        0 <= upto <= flags.len(),
        upto <= u16::MAX,
    ensures
        flagged(flags, upto).len() == 0 <==> forall|k: int| 0 <= k < upto ==> !flags[k],
        forall|j: u16| #[trigger]
            flagged(flags, upto).contains(j) <==> j < upto && flags[j as int],
    decreases upto,
{
    if upto > 0 {
        lemma_flagged(flags, upto - 1);
        let prev = flagged(flags, upto - 1);
        let cur = flagged(flags, upto);
        let last = (upto - 1) as u16;
        assert(cur == if flags[upto - 1] {
            prev.push(last)
        } else {
            prev
        });
        assert forall|j: u16| cur.contains(j) implies j < upto && flags[j as int] by {
            let e = choose|e: int| 0 <= e < cur.len() && cur[e] == j;
            assert(0 <= e < cur.len() && cur[e] == j);
            if e < prev.len() {
                assert(prev[e] == j);
                assert(prev.contains(j));
                assert(j < upto - 1 && flags[j as int]);
            } else {
                assert(flags[upto - 1]);
                assert(e == prev.len());
                assert(j == last);
                assert(last as int == upto - 1);
            }
        }
        assert forall|j: u16| j < upto && flags[j as int] implies cur.contains(j) by {
            if j == last {
                assert(cur[cur.len() - 1] == j);
            } else {
                assert(prev.contains(j));
                let e = choose|e: int| 0 <= e < prev.len() && prev[e] == j;
                assert(cur[e] == j);
            }
        }
    }
}

/// The exclusive or of the first `upto` of the byte strings `parts`, each of the length
/// `len`, starting from zero.
pub open spec fn xor_all(parts: Seq<Seq<u8>>, len: int, upto: int) -> Seq<u8>
    decreases upto,
{
    if upto <= 0 {
        Seq::new(len as nat, |k: int| 0u8)
    } else {
        xor_seq(xor_all(parts, len, upto - 1), parts[upto - 1])
    }
}

/// The challenge for the Schnorr proof of party `j`: the digest of the tag, the party's index
/// and the shared random identifier, as a scalar.
pub open spec fn challenge_of(tag: Seq<u8>, j: u16, rid: Seq<u8>) -> nat {
    be_nat(spec_sha256(transcript(seq![tag, be16(j), rid]))) % group_order()
}

/// The challenge for the Schnorr proof of party `j`.
pub fn challenge(tag: &Tag, j: u16, rid: &[u8]) -> (r: Scalar)
    ensures
        r@ == challenge_of(tag@, j, rid@),
{
    let t = HashCommit::builder().mix_bytes(tag.as_bytes().as_slice()).mix_u16(j).mix_bytes(rid);
    assert(t@ =~= seq![tag@, be16(j), rid@]);
    let hash = t.finish();
    Scalar::from_be_bytes_mod_order(hash.as_slice())
}

/// The commitment of party `j` of `n` to what `d` shows.
pub fn commitment(tag: &Tag, n: u16, j: u16, d: &MsgRound2) -> (r: [u8; 32])
    ensures
        r@ == commitment_of(committed_items(tag@, n, j, *d), d.decommit@),
{
    let x = d.X.to_bytes();
    let a = d.sch_commit.to_bytes();
    let t = HashCommit::builder().mix_bytes(tag.as_bytes().as_slice()).mix_u16(n).mix_u16(
        j,
    ).mix_bytes(d.rid.as_slice()).mix_bytes(x.as_slice()).mix_bytes(a.as_slice());
    assert(t@ =~= committed_items(tag@, n, j, *d));
    t.commit(d.decommit.as_slice())
}

/// The rids of a list of decommitments.
pub open spec fn rids_of(ds: Seq<MsgRound2>) -> Seq<Seq<u8>> {
    Seq::new(ds.len(), |k: int| ds[k].rid@)
}

/// The public shares of a list of decommitments.
pub open spec fn shares_of(ds: Seq<MsgRound2>) -> Seq<Seq<u8>> {
    Seq::new(ds.len(), |k: int| ds[k].X@)
}

/// Key generation entry point
pub struct KeygenBuilder<L: SecurityLevel> {
    i: u16,
    n: u16,
    tag: Tag,
    _ph: PhantomData<L>,
}

/// What a party keeps after round 1.
pub struct Round1State {
    /// The party's secret share.
    pub x_i: Scalar,
    /// The nonce of the party's Schnorr proof.
    pub sch_nonce: Scalar,
    /// The party's commitment, sent in round 1.
    pub my_commitment: MsgRound1,
    /// The party's decommitment, to send in round 2.
    pub my_decommitment: MsgRound2,
}

/// What a party keeps after round 3.
pub struct Round3State {
    /// The party's secret share.
    pub x_i: Scalar,
    /// The random identifier that the parties drew together.
    pub rid: Vec<u8>,
    /// The decommitments of all parties, that of party `j` at index `j`.
    pub decommitments: Vec<MsgRound2>,
}

impl<L: SecurityLevel> KeygenBuilder<L> {
    /// The tag of the run.
    pub fn run_tag(&self) -> (r: Tag)
        ensures
            r@ == self.tag(),
    {
        self.tag
    }

    /// Index of the party.
    pub closed spec fn party(self) -> u16 {
        self.i
    }

    /// Number of the parties.
    pub closed spec fn parties(self) -> u16 {
        self.n
    }

    /// The tag of the run.
    pub closed spec fn tag(self) -> Seq<u8> {
        self.tag@
    }

    /// Length of a party's part of the random identifier.
    pub open spec fn rid_len() -> int {
        L::spec_security_bits() as int / 8
    }

    /// Whether `msgs` are the messages of a round for this party: one from each of the other
    /// parties.
    pub open spec fn expects<M>(self, msgs: RoundMsgs<M>) -> bool {
        self.party() < self.parties() && msgs.receiver() == self.party() && msgs.count()
            == self.parties() - 1
    }

    /// Key generation among `n` parties, for party `i`
    pub fn new(i: u16, n: u16) -> (r: Self)
        ensures
            r.party() == i,
            r.parties() == n,
            r.tag() == tag_of(Seq::empty()),
    {
        Self { i, n, tag: Tag::default(), _ph: PhantomData }
    }

    /// Index of the party.
    pub fn index(&self) -> (r: u16)
        ensures
            r == self.party(),
    {
        self.i
    }

    /// Number of the parties.
    pub fn n(&self) -> (r: u16)
        ensures
            r == self.parties(),
    {
        self.n
    }

    /// Makes the key one that `t` of the parties can sign with
    pub fn set_threshold(self, t: u16) -> (r: crate::threshold::ThresholdKeygenBuilder<L>)
        ensures
            r.party() == self.party(),
            r.parties() == self.parties(),
            r.threshold() == t,
            r.tag() == self.tag(),
    {
        crate::threshold::ThresholdKeygenBuilder::new(self.i, self.n, t, self.tag)
    }

    /// Names the run
    pub fn set_tag(self, tag: Tag) -> (r: Self)
        ensures
            r.party() == self.party(),
            r.parties() == self.parties(),
            r.tag() == tag@,
    {
        Self { i: self.i, n: self.n, tag, _ph: PhantomData }
    }

    /// Starts the protocol with round 1: the party's public share and the commitment of its
    /// Schnorr proof are made from its secrets, and what round 2 will show is committed to.
    /// The commitment is the message to broadcast in round 1, the decommitment that of round 2.
    pub fn start(&self, secrets: KeygenSecrets) -> (r: Round1State)
        ensures
            r.x_i@ == secrets.x_i@,
            r.sch_nonce@ == secrets.sch_nonce@,
            r.my_decommitment.rid@ == secrets.rid@,
            r.my_decommitment.decommit@ == secrets.decommit_nonce@,
            r.my_decommitment.X@ == spec_generator_mul(secrets.x_i@),
            r.my_decommitment.sch_commit@ == spec_generator_mul(secrets.sch_nonce@),
            r.my_commitment.commitment@ == commitment_of(
                committed_items(self.tag(), self.parties(), self.party(), r.my_decommitment),
                secrets.decommit_nonce@,
            ),
    {
        let X_i = Point::generator_mul(&secrets.x_i);
        let sch_commit = crate::schnorr::commit(&secrets.sch_nonce);
        let my_decommitment = MsgRound2 {
            rid: secrets.rid,
            X: X_i,
            sch_commit,
            decommit: secrets.decommit_nonce,
        };
        let hash_commit = commitment(&self.tag, self.n, self.i, &my_decommitment);
        Round1State {
            x_i: secrets.x_i,
            sch_nonce: secrets.sch_nonce,
            my_commitment: MsgRound1 { commitment: hash_commit },
            my_decommitment,
        }
    }

    /// Whether each of the first `upto` decommitments fails to open its commitment.
    pub open spec fn decommitment_flags(
        self,
        commitments: Seq<MsgRound1>,
        decommitments: Seq<MsgRound2>,
    ) -> Seq<bool> {
        Seq::new(
            decommitments.len(),
            |j: int|
                !decommitment_valid(
                    self.tag(),
                    self.parties(),
                    j as u16,
                    Self::rid_len(),
                    commitments[j],
                    decommitments[j],
                ),
        )
    }

    /// Round 3: every decommitment is held against its commitment, and the parties whose
    /// decommitment does not open their commitment are blamed, all of them. Then the parts of
    /// the random identifier are xored together, and the party proves that it knows its secret
    /// share. The proof is the message to broadcast.
    pub fn round3(
        &self,
        state: Round1State,
        commitments: RoundMsgs<MsgRound1>,
        decommitments: RoundMsgs<MsgRound2>,
    ) -> (r: Result<(Round3State, MsgRound3), KeygenError>)
        requires
            self.expects(commitments),
            self.expects(decommitments),
        ensures
            ({
                let cs = commitments.messages().insert(self.party() as int, state.my_commitment);
                let ds = decommitments.messages().insert(
                    self.party() as int,
                    state.my_decommitment,
                );
                let flags = self.decommitment_flags(cs, ds);
                let rid = xor_all(rids_of(ds), Self::rid_len(), ds.len() as int);
                &&& r is Ok <==> forall|j: int| 0 <= j < self.parties() ==> !flags[j]
                &&& r matches Err(e) ==> e matches KeygenError::Aborted(
                    ProtocolAborted::InvalidDecommitment { parties },
                ) && parties@ == flagged(flags, self.parties() as int)
                &&& r matches Ok((next, msg)) ==> {
                    &&& next.x_i@ == state.x_i@
                    &&& next.rid@ == rid
                    &&& next.decommitments@ == ds
                    &&& msg.sch_proof@ == schnorr_response(
                        state.sch_nonce@,
                        challenge_of(self.tag(), self.party(), rid),
                        state.x_i@,
                    )
                }
            }),
    {
        let ghost cs = commitments.messages().insert(self.party() as int, state.my_commitment);
        let ghost ds = decommitments.messages().insert(
            self.party() as int,
            state.my_decommitment,
        );
        let ghost flags = self.decommitment_flags(cs, ds);
        proof {
            L::lemma_security_bits();
        }
        let x_i = state.x_i;
        let sch_nonce = state.sch_nonce;
        let commitments = commitments.into_vec_including_me(state.my_commitment);
        let decommitments = decommitments.into_vec_including_me(state.my_decommitment);
        let rid_len: usize = L::security_bytes();

        // Validate decommitments
        let mut blame: Vec<u16> = Vec::new();
        let mut j: u16 = 0;
        while j < self.n
            invariant
                j <= self.n,
                commitments@ == cs,
                decommitments@ == ds,
                cs.len() == self.n,
                ds.len() == self.n,
                rid_len == Self::rid_len(),
                flags == self.decommitment_flags(cs, ds),
                blame@ == flagged(flags, j as int),
            decreases self.n - j,
        {
            let d = &decommitments[j as usize];
            let c = &commitments[j as usize];
            let expected = commitment(&self.tag, self.n, j, d);
            let opens = crate::bytes::bytes_eq(c.commitment.as_slice(), expected.as_slice());
            if !(d.rid.len() == rid_len && opens) {
                blame.push(j);
            }
            j += 1;
        }
        proof {
            lemma_flagged(flags, self.n as int);
        }
        if blame.len() != 0 {
            return Err(KeygenError::Aborted(ProtocolAborted::InvalidDecommitment { parties: blame }));
        }
        // Calculate challenge

        let mut rid: Vec<u8> = Vec::new();
        let mut k: usize = 0;
        while k < rid_len
            invariant
                k <= rid_len,
                rid@ == Seq::new(k as nat, |m: int| 0u8),
            decreases rid_len - k,
        {
            rid.push(0);
            assert(rid@ =~= Seq::new((k + 1) as nat, |m: int| 0u8));
            k += 1;
        }
        let mut j: usize = 0;
        while j < decommitments.len()
            invariant
                j <= decommitments@.len(),
                decommitments@ == ds,
                rid@ == xor_all(rids_of(ds), rid_len as int, j as int),
            decreases decommitments@.len() - j,
        {
            rid = xor_array(rid, decommitments[j].rid.as_slice());
            j += 1;
        }
        let challenge = challenge(&self.tag, self.i, rid.as_slice());

        // Prove knowledge of `x_i`
        let sch_proof = crate::schnorr::prove(&sch_nonce, &challenge, &x_i);
        Ok((Round3State { x_i, rid, decommitments }, MsgRound3 { sch_proof }))
    }

    /// Whether the Schnorr proof of each party fails.
    pub open spec fn proof_flags(
        self,
        rid: Seq<u8>,
        decommitments: Seq<MsgRound2>,
        proofs: Seq<MsgRound3>,
    ) -> Seq<bool> {
        Seq::new(
            decommitments.len(),
            |j: int|
                !schnorr_accepts(
                    proofs[j].sch_proof@,
                    decommitments[j].sch_commit@,
                    challenge_of(self.tag(), j as u16, rid),
                    decommitments[j].X@,
                ),
        )
    }

    /// Output: the Schnorr proof of every party is verified, each against the challenge of
    /// its party, and the parties whose proof fails are blamed, all of them. The key share
    /// holds the public shares of all parties, their sum as the shared public key, the random
    /// identifier, and the party's secret share.
    pub fn output(
        &self,
        state: Round3State,
        my_sch_proof: MsgRound3,
        sch_proofs: RoundMsgs<MsgRound3>,
    ) -> (r: Result<IncompleteKeyShare, KeygenError>)
        requires
            self.expects(sch_proofs),
            state.decommitments@.len() == self.parties(),
        ensures
            ({
                let proofs = sch_proofs.messages().insert(self.party() as int, my_sch_proof);
                let flags = self.proof_flags(state.rid@, state.decommitments@, proofs);
                &&& r is Ok <==> forall|j: int| 0 <= j < self.parties() ==> !flags[j]
                &&& r matches Err(e) ==> e matches KeygenError::Aborted(
                    ProtocolAborted::InvalidSchnorrProof { parties },
                ) && parties@ == flagged(flags, self.parties() as int)
                &&& r matches Ok(share) ==> {
                    &&& share.i == self.party()
                    &&& share.x@ == state.x_i@
                    &&& share.rid@ == state.rid@
                    &&& share.vss_setup is None
                    &&& encodings(share.public_shares@) == shares_of(state.decommitments@)
                    &&& share.shared_public_key@ == point_sum(shares_of(state.decommitments@))
                }
            }),
    {
        let ghost proofs = sch_proofs.messages().insert(self.party() as int, my_sch_proof);
        let ghost flags = self.proof_flags(state.rid@, state.decommitments@, proofs);
        let sch_proofs = sch_proofs.into_vec_including_me(my_sch_proof);
        let mut blame: Vec<u16> = Vec::new();
        let mut public_shares: Vec<Point> = Vec::new();
        let mut j: u16 = 0;
        while j < self.n
            invariant
                j <= self.n,
                sch_proofs@ == proofs,
                proofs.len() == self.n,
                state.decommitments@.len() == self.n,
                flags == self.proof_flags(state.rid@, state.decommitments@, proofs),
                blame@ == flagged(flags, j as int),
                public_shares@.len() == j,
                forall|m: int| 0 <= m < j ==> public_shares@[m] == state.decommitments@[m].X,
            decreases self.n - j,
        {
            let decommitment = &state.decommitments[j as usize];
            let challenge = challenge(&self.tag, j, state.rid.as_slice());
            if !crate::schnorr::verify(
                &sch_proofs[j as usize].sch_proof,
                &decommitment.sch_commit,
                &challenge,
                &decommitment.X,
            ) {
                blame.push(j);
            }
            public_shares.push(decommitment.X);
            j += 1;
        }
        proof {
            lemma_flagged(flags, self.n as int);
            assert(encodings(public_shares@) =~= shares_of(state.decommitments@));
        }
        if blame.len() != 0 {
            return Err(KeygenError::Aborted(ProtocolAborted::InvalidSchnorrProof { parties: blame }));
        }
        Ok(
            IncompleteKeyShare {
                i: self.i,
                shared_public_key: sum_points(&public_shares),
                rid: state.rid,
                public_shares,
                x: state.x_i,
                vss_setup: None,
            },
        )
    }
}

/// What key generation gives party `i` with the secret share `x_i`, once the decommitments
/// `ds` of all parties are accepted: their public shares, the sum of these as the shared
/// public key, and the exclusive or of their parts of the random identifier.
pub open spec fn is_keygen_output(
    share: IncompleteKeyShare,
    i: u16,
    x_i: nat,
    ds: Seq<MsgRound2>,
    rid_len: int,
) -> bool {
    &&& share.i == i
    &&& share.x@ == x_i
    &&& share.vss_setup is None
    &&& encodings(share.public_shares@) == shares_of(ds)
    &&& share.shared_public_key@ == point_sum(shares_of(ds))
    &&& share.rid@ == xor_all(rids_of(ds), rid_len, ds.len() as int)
}

/// Consistency of key generation: two parties that accepted the same decommitments hold the
/// same shared public key, the same public shares and the same random identifier; the
/// public shares add up to the shared public key; and a party whose own decommitment shows
/// the generator multiplied by its secret share holds a share that is valid, of which the
/// public share at the party's index is the generator multiplied by its secret share.
pub proof fn lemma_keygen_consistency(
    a: IncompleteKeyShare,
    b: IncompleteKeyShare,
    x_a: nat,
    x_b: nat,
    ds: Seq<MsgRound2>,
    rid_len: int,
)
    requires
        ds.len() <= u16::MAX,
        a.i < ds.len(),
        b.i < ds.len(),
        is_keygen_output(a, a.i, x_a, ds, rid_len),
        is_keygen_output(b, b.i, x_b, ds, rid_len),
        ds[a.i as int].X@ == spec_generator_mul(x_a),
    ensures
        a.shared_public_key@ == b.shared_public_key@,
        encodings(a.public_shares@) == encodings(b.public_shares@),
        a.rid@ == b.rid@,
        a.shared_public_key@ == point_sum(encodings(a.public_shares@)),
        a.public_shares@[a.i as int]@ == spec_generator_mul(a.x@),
        a.failure() is None,
{
    assert(encodings(a.public_shares@).len() == ds.len());
    assert(encodings(a.public_shares@)[a.i as int] == shares_of(ds)[a.i as int]);
}

} // verus!

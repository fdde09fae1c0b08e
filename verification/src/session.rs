//! The signing protocol as a state machine: a session takes what the party drew, computed
//! with its Paillier key, or received, and says what it sends and what it waits for next.
//!
//! Whoever drives a session sends its messages and receives those of the peers, encrypts and
//! decrypts, and makes and checks the range proofs; the session keeps the order of the rounds,
//! does the arithmetic on the curve, and decides on every abort.

use crate::bignumber::BigNumber;
use crate::point::identity;
use crate::point::point_sum;
use crate::point::spec_generator_mul;
use crate::point::spec_point_add;
use crate::point::spec_point_mul;
use crate::point::x_of;
use crate::point::Point;
use crate::rounds::RoundMsgs;
use crate::scalar::group_order;
use crate::scalar::inverse;
use crate::scalar::sum_mod;
use crate::scalar::Scalar;
use crate::signing::check_enc_proofs;
use crate::signing::check_psi_prime_prime;
use crate::signing::check_reliability;
use crate::signing::check_round2_proofs;
use crate::signing::gammas_of;
use crate::signing::hash_differs;
use crate::signing::low_s;
use crate::signing::mul_add_add;
use crate::signing::partial_sigma;
use crate::signing::presignature_check;
use crate::signing::presignature_output;
use crate::signing::psi_blamed;
use crate::signing::reduced;
use crate::signing::round2_local;
use crate::signing::round3_local;
use crate::signing::signature_output;
use crate::signing::signature_verifies;
use crate::signing::total_delta;
use crate::signing::total_sigma;
use crate::signing::Bug;
use crate::signing::DataToSign;
use crate::signing::MsgReliabilityCheck;
use crate::signing::MsgRound1a;
use crate::signing::MsgRound1b;
use crate::signing::MsgRound2;
use crate::signing::MsgRound3;
use crate::signing::MsgRound4;
use crate::signing::PartialSignature;
use crate::signing::Presignature;
use crate::signing::PsiVerdict;
use crate::signing::Reason;
use crate::signing::Round2Local;
use crate::signing::Round3Local;
use crate::signing::Signature;
use crate::signing::SigningAborted;
use crate::signing::SigningError;
use crate::signing::SigningParty;
use crate::utils::blamed;
use vstd::prelude::*;

verus! {

/// Where a session stands: what it waits for.
#[derive(Clone, Copy, Debug, PartialEq, Eq, Structural)]
pub enum Phase {
    /// The party's secrets $\gamma_i$ and $k_i$ of round 1.
    Secrets,
    /// The peers' hashes of the round 1a messages (reliability check).
    ReliabilityCheck,
    /// The verdicts on the peers' proofs ψ0.
    EncProofs,
    /// The masks that the party drew for its peers in round 2.
    Masks,
    /// The peers' messages of round 2, the verdicts on their proofs and what the party
    /// decrypted.
    Round2,
    /// The peers' messages of round 3 and the verdicts on their proofs.
    Round3,
    /// The peers' partial signatures.
    Round4,
    /// Nothing: the session gave its output.
    Done,
    /// Nothing: the session was aborted.
    Aborted,
}

/// What a session holds.
pub struct SessionModel {
    /// What the session waits for.
    pub phase: Phase,
    /// Whether the reliability check is made.
    pub reliable: bool,
    /// The message to sign, if the session is to sign one.
    pub message: Option<nat>,
    /// The party's share of the secret key.
    pub x_i: nat,
    /// The shared public key.
    pub pk: Seq<u8>,
    /// $\gamma_i$
    pub gamma_i: nat,
    /// $k_i$
    pub k_i: nat,
    /// $\Gamma_i$
    pub Gamma_i: Seq<u8>,
    /// The sum of the masks $\beta_{i,j}$
    pub beta_sum: nat,
    /// The sum of the masks $\hat\beta_{i,j}$
    pub hat_beta_sum: nat,
    /// $\Gamma$
    pub Gamma: Seq<u8>,
    /// $\Delta_i$
    pub Delta_i: Seq<u8>,
    /// $\delta_i$
    pub delta_i: nat,
    /// $\chi_i$
    pub chi_i: nat,
    /// $r$ of the party's partial signature
    pub r: nat,
    /// $\sigma_i$ of the party's partial signature
    pub sigma_i: nat,
}

/// What a session gives when the presignature is made.
pub enum PresignatureStep {
    /// The presignature: the session was to sign no message, and is done.
    Presignature(Presignature),
    /// The party's partial signature, to broadcast in round 4.
    PartialSignature(MsgRound4),
}

/// One party's run of the signing protocol.
pub struct SigningSession {
    phase: Phase,
    reliable: bool,
    message: Option<DataToSign>,
    x_i: Scalar,
    pk: Point,
    gamma_i: Scalar,
    k_i: Scalar,
    round2: Round2Local,
    round3: Round3Local,
    partial: PartialSignature,
}

impl View for SigningSession {
    type V = SessionModel;

    closed spec fn view(&self) -> SessionModel {
        SessionModel {
            phase: self.phase,
            reliable: self.reliable,
            message: match self.message {
                Some(m) => Some(m@),
                None => None,
            },
            x_i: self.x_i@,
            pk: self.pk@,
            gamma_i: self.gamma_i@,
            k_i: self.k_i@,
            Gamma_i: self.round2.Gamma_i@,
            beta_sum: self.round2.beta_sum@,
            hat_beta_sum: self.round2.hat_beta_sum@,
            Gamma: self.round3.Gamma@,
            Delta_i: self.round3.Delta_i@,
            delta_i: self.round3.delta_i@,
            chi_i: self.round3.chi_i@,
            r: self.partial.r@,
            sigma_i: self.partial.sigma@,
        }
    }
}

impl SessionModel {
    /// This session in another phase.
    pub open spec fn at(self, phase: Phase) -> SessionModel {
        SessionModel { phase, ..self }
    }

    /// The phase after the ciphertexts and the proofs of round 1 are there: the reliability
    /// check if it is made, else the verdicts on the proofs.
    pub open spec fn after_round1(self) -> Phase {
        if self.reliable {
            Phase::ReliabilityCheck
        } else {
            Phase::EncProofs
        }
    }

    /// $R = \Gamma \cdot \delta^{-1}$ of the presignature that the peers' round 3 gives.
    pub open spec fn presignature_r(self, msgs: Seq<MsgRound3>) -> Seq<u8> {
        spec_point_mul(self.Gamma, inverse(total_delta(self.delta_i, msgs)))
    }

    /// Why no presignature comes out of the peers' round 3, if none does.
    pub open spec fn presignature_failure(self, msgs: Seq<MsgRound3>) -> Option<Reason> {
        presignature_check(self.Gamma, self.Delta_i, self.delta_i, msgs)
    }
}

impl SigningSession {
    /// Begins a session for a party that is to sign `message`, or to make a presignature if
    /// there is none.
    pub fn new(party: &SigningParty, reliable: bool, message: Option<DataToSign>) -> (r: Self)
        ensures
            r@.phase == Phase::Secrets,
            r@.reliable == reliable,
            r@.x_i == party.x_i@,
            r@.pk == party.pk@,
            r@.message == match message {
                Some(m) => Some(m@),
                None => None::<nat>,
            },
    {
        let zero = Scalar::zero();
        let nothing = Point::zero();
        SigningSession {
            phase: Phase::Secrets,
            reliable,
            message,
            x_i: party.x_i,
            pk: party.pk,
            gamma_i: zero,
            k_i: zero,
            round2: Round2Local { Gamma_i: nothing, beta_sum: zero, hat_beta_sum: zero },
            round3: Round3Local { Gamma: nothing, Delta_i: nothing, delta_i: zero, chi_i: zero },
            partial: PartialSignature { r: zero, sigma: zero },
        }
    }

    /// What the session waits for.
    pub fn phase(&self) -> (r: Phase)
        ensures
            r == self@.phase,
    {
        self.phase
    }

    /// Ends the session because a step came out of order.
    fn out_of_order(&mut self) -> (r: SigningError)
        ensures
            final(self)@ == old(self)@.at(Phase::Aborted),
            r.0 == Reason::Bug(Bug::OutOfOrder),
    {
        self.phase = Phase::Aborted;
        SigningError(Reason::Bug(Bug::OutOfOrder))
    }

    /// Round 1: takes the secrets $\gamma_i$ and $k_i$ that the party drew. The party
    /// encrypts them, proves ψ0 to each peer and sends both; once the peers' ciphertexts and
    /// proofs are there, the session waits for the reliability check, if it is made, or for
    /// the verdicts on the proofs.
    pub fn secrets(&mut self, gamma_i: Scalar, k_i: Scalar) -> (r: Result<(), SigningError>)
        ensures
            r is Ok <==> old(self)@.phase == Phase::Secrets,
            r is Ok ==> final(self)@ == (SessionModel {
                phase: old(self)@.after_round1(),
                gamma_i: gamma_i@,
                k_i: k_i@,
                ..old(self)@
            }),
            r matches Err(e) ==> e.0 == Reason::Bug(Bug::OutOfOrder) && final(self)@ == old(
                self,
            )@.at(Phase::Aborted),
    {
        if self.phase != Phase::Secrets {
            return Err(self.out_of_order());
        }
        self.gamma_i = gamma_i;
        self.k_i = k_i;
        self.phase = if self.reliable {
            Phase::ReliabilityCheck
        } else {
            Phase::EncProofs
        };
        Ok(())
    }

    /// Reliability check: takes the party's hash `h_i` of the round 1a messages and the
    /// peers'. The session is aborted, and every peer whose hash differs is blamed, unless all
    /// the hashes are that of the party.
    pub fn reliability_check(
        &mut self,
        h_i: &[u8; 32],
        round1a_hashes: &RoundMsgs<MsgReliabilityCheck>,
    ) -> (r: Result<(), SigningError>)
        ensures
            r is Ok <==> old(self)@.phase == Phase::ReliabilityCheck && forall|k: int|
                0 <= k < round1a_hashes.count() ==> round1a_hashes.messages()[k].0@ == h_i@,
            r is Ok ==> final(self)@ == old(self)@.at(Phase::EncProofs),
            r is Err ==> final(self)@ == old(self)@.at(Phase::Aborted),
            r matches Err(e) ==> if old(self)@.phase == Phase::ReliabilityCheck {
                e.0 matches Reason::Aborted(SigningAborted::Round1aNotReliable(list)) && list@
                    == blamed(
                    round1a_hashes.receiver(),
                    round1a_hashes.ids(),
                    round1a_hashes.ids(),
                    hash_differs(h_i@, round1a_hashes.messages()),
                    round1a_hashes.count() as int,
                )
            } else {
                e.0 == Reason::Bug(Bug::OutOfOrder)
            },
    {
        if self.phase != Phase::ReliabilityCheck {
            return Err(self.out_of_order());
        }
        match check_reliability(h_i, round1a_hashes) {
            Ok(()) => {
                self.phase = Phase::EncProofs;
                Ok(())
            },
            Err(e) => {
                self.phase = Phase::Aborted;
                Err(e)
            },
        }
    }

    /// Takes the verdicts on the proofs ψ0 of round 1b: `invalid[k]` says that the proof of
    /// the `k`-th peer did not verify. The session is aborted, and every peer with an invalid
    /// proof is blamed, unless all the proofs are valid.
    pub fn enc_proofs(
        &mut self,
        ciphertexts: &RoundMsgs<MsgRound1a>,
        psi0: &RoundMsgs<MsgRound1b>,
        invalid: &[bool],
    ) -> (r: Result<(), SigningError>)
        requires
            ciphertexts.count() == invalid@.len(),
            psi0.count() == invalid@.len(),
        ensures
            r is Ok <==> old(self)@.phase == Phase::EncProofs && forall|k: int|
                0 <= k < invalid@.len() ==> !invalid@[k],
            r is Ok ==> final(self)@ == old(self)@.at(Phase::Masks),
            r is Err ==> final(self)@ == old(self)@.at(Phase::Aborted),
            r matches Err(e) ==> if old(self)@.phase == Phase::EncProofs {
                e.0 matches Reason::Aborted(SigningAborted::EncProofOfK(list)) && list@ == blamed(
                    ciphertexts.receiver(),
                    ciphertexts.ids(),
                    psi0.ids(),
                    invalid@,
                    invalid@.len() as int,
                )
            } else {
                e.0 == Reason::Bug(Bug::OutOfOrder)
            },
    {
        if self.phase != Phase::EncProofs {
            return Err(self.out_of_order());
        }
        match check_enc_proofs(ciphertexts, psi0, invalid) {
            Ok(()) => {
                self.phase = Phase::Masks;
                Ok(())
            },
            Err(e) => {
                self.phase = Phase::Aborted;
                Err(e)
            },
        }
    }

    /// Round 2: takes the masks $\beta_{i,j}$ and $\hat\beta_{i,j}$ that the party drew for
    /// its peers, and gives $\Gamma_i = G \cdot \gamma_i$, which goes into the party's
    /// messages and proofs of the round.
    pub fn masks(&mut self, betas: &[BigNumber], hat_betas: &[BigNumber]) -> (r: Result<
        Point,
        SigningError,
    >)
        ensures
            r is Ok <==> old(self)@.phase == Phase::Masks,
            r matches Ok(Gamma_i) ==> Gamma_i@ == spec_generator_mul(old(self)@.gamma_i)
                && final(self)@ == (SessionModel {
                phase: Phase::Round2,
                Gamma_i: Gamma_i@,
                beta_sum: sum_mod(reduced(betas@)),
                hat_beta_sum: sum_mod(reduced(hat_betas@)),
                ..old(self)@
            }),
            r matches Err(e) ==> e.0 == Reason::Bug(Bug::OutOfOrder) && final(self)@ == old(
                self,
            )@.at(Phase::Aborted),
    {
        if self.phase != Phase::Masks {
            return Err(self.out_of_order());
        }
        let local = round2_local(&self.gamma_i, betas, hat_betas);
        let Gamma_i = local.Gamma_i;
        self.round2 = local;
        self.phase = Phase::Round2;
        Ok(Gamma_i)
    }

    /// Round 3: takes the peers' messages of round 2, the verdicts on their proofs, and what
    /// the party decrypted from their $D$ and $\hat D$. The session is aborted, and every
    /// peer of which a proof is invalid is blamed, unless all the proofs are valid. Then
    /// $\Gamma$, $\Delta_i$, $\delta_i$ and $\chi_i$ are computed; the first three go into the
    /// party's messages and proofs of the round.
    pub fn round2(
        &mut self,
        round2_msgs: &RoundMsgs<MsgRound2>,
        ciphertexts: &RoundMsgs<MsgRound1a>,
        verdicts: &[PsiVerdict],
        alphas: &[BigNumber],
        hat_alphas: &[BigNumber],
    ) -> (r: Result<(Point, Point, Scalar), SigningError>)
        requires
            ciphertexts.count() == verdicts@.len(),
            round2_msgs.count() == verdicts@.len(),
        ensures
            r is Ok <==> old(self)@.phase == Phase::Round2 && forall|k: int|
                0 <= k < verdicts@.len() ==> !verdicts@[k].faulty(),
            r matches Ok((Gamma, Delta_i, delta_i)) ==> {
                &&& Gamma@ == spec_point_add(
                    old(self)@.Gamma_i,
                    point_sum(gammas_of(round2_msgs.messages())),
                )
                &&& Delta_i@ == spec_point_mul(Gamma@, old(self)@.k_i)
                &&& delta_i@ == mul_add_add(
                    old(self)@.gamma_i,
                    old(self)@.k_i,
                    sum_mod(reduced(alphas@)),
                    old(self)@.beta_sum,
                )
                &&& final(self)@ == (SessionModel {
                    phase: Phase::Round3,
                    Gamma: Gamma@,
                    Delta_i: Delta_i@,
                    delta_i: delta_i@,
                    chi_i: mul_add_add(
                        old(self)@.x_i,
                        old(self)@.k_i,
                        sum_mod(reduced(hat_alphas@)),
                        old(self)@.hat_beta_sum,
                    ),
                    ..old(self)@
                })
            },
            r is Err ==> final(self)@ == old(self)@.at(Phase::Aborted),
            r matches Err(e) ==> if old(self)@.phase == Phase::Round2 {
                e.0 matches Reason::Aborted(SigningAborted::InvalidPsi(list)) && list@
                    == psi_blamed(
                    round2_msgs.receiver(),
                    ciphertexts.ids(),
                    round2_msgs.ids(),
                    verdicts@,
                    verdicts@.len() as int,
                )
            } else {
                e.0 == Reason::Bug(Bug::OutOfOrder)
            },
    {
        if self.phase != Phase::Round2 {
            return Err(self.out_of_order());
        }
        match check_round2_proofs(round2_msgs, ciphertexts, verdicts) {
            Ok(()) => {},
            Err(e) => {
                self.phase = Phase::Aborted;
                return Err(e);
            },
        }
        let local = round3_local(
            &self.x_i,
            &self.k_i,
            &self.gamma_i,
            &self.round2,
            round2_msgs,
            alphas,
            hat_alphas,
        );
        let out = (local.Gamma, local.Delta_i, local.delta_i);
        self.round3 = local;
        self.phase = Phase::Round3;
        Ok(out)
    }

    /// Presignature output: takes the peers' messages of round 3 and the verdicts on their
    /// proofs ψ''. The session is aborted, and every peer with an invalid proof is blamed,
    /// unless all the proofs are valid; it is aborted too if $\delta$ and $\Delta$ do not
    /// match. The presignature is the output if the session has no message to sign. If it has
    /// one, the party's partial signature is issued, which is the message of round 4.
    pub fn round3(
        &mut self,
        round3_msgs: &RoundMsgs<MsgRound3>,
        ciphertexts: &RoundMsgs<MsgRound1a>,
        invalid: &[bool],
    ) -> (r: Result<PresignatureStep, SigningError>)
        requires
            ciphertexts.count() == invalid@.len(),
            round3_msgs.count() == invalid@.len(),
        ensures
            r is Ok <==> old(self)@.phase == Phase::Round3 && (forall|k: int|
                0 <= k < invalid@.len() ==> !invalid@[k]) && old(self)@.presignature_failure(
                round3_msgs.messages(),
            ) is None,
            r matches Ok(PresignatureStep::Presignature(presig)) ==> {
                &&& old(self)@.message is None
                &&& presig.R@ == old(self)@.presignature_r(round3_msgs.messages())
                &&& presig.k@ == old(self)@.k_i
                &&& presig.chi@ == old(self)@.chi_i
                &&& final(self)@ == old(self)@.at(Phase::Done)
            },
            r matches Ok(PresignatureStep::PartialSignature(msg)) ==> {
                &&& old(self)@.message is Some
                &&& msg.sigma@ == partial_sigma(
                    old(self)@.k_i,
                    old(self)@.chi_i,
                    x_of(old(self)@.presignature_r(round3_msgs.messages())),
                    old(self)@.message->Some_0,
                )
                &&& final(self)@ == (SessionModel {
                    phase: Phase::Round4,
                    r: x_of(old(self)@.presignature_r(round3_msgs.messages())),
                    sigma_i: msg.sigma@,
                    ..old(self)@
                })
            },
            r is Err ==> final(self)@ == old(self)@.at(Phase::Aborted),
            r matches Err(e) ==> if old(self)@.phase != Phase::Round3 {
                e.0 == Reason::Bug(Bug::OutOfOrder)
            } else if exists|k: int| 0 <= k < invalid@.len() && invalid@[k] {
                e.0 matches Reason::Aborted(SigningAborted::InvalidPsiPrimePrime(list)) && list@
                    == blamed(
                    round3_msgs.receiver(),
                    ciphertexts.ids(),
                    round3_msgs.ids(),
                    invalid@,
                    invalid@.len() as int,
                )
            } else {
                match e.0 {
                    Reason::Aborted(SigningAborted::MismatchedDelta) => old(
                        self,
                    )@.presignature_failure(round3_msgs.messages()) == Some(
                        Reason::Aborted(SigningAborted::MismatchedDelta),
                    ),
                    Reason::Bug(b) => old(self)@.presignature_failure(round3_msgs.messages())
                        == Some(Reason::Bug(b)),
                    _ => false,
                }
            },
    {
        if self.phase != Phase::Round3 {
            return Err(self.out_of_order());
        }
        match check_psi_prime_prime(round3_msgs, ciphertexts, invalid) {
            Ok(()) => {},
            Err(e) => {
                self.phase = Phase::Aborted;
                return Err(e);
            },
        }
        let presig = match presignature_output(&self.round3, self.k_i, round3_msgs) {
            Ok(presig) => presig,
            Err(e) => {
                self.phase = Phase::Aborted;
                return Err(e);
            },
        };
        // If message is not specified, protocol terminates here and outputs the presignature
        match self.message {
            None => {
                self.phase = Phase::Done;
                Ok(PresignatureStep::Presignature(presig))
            },
            Some(message_to_sign) => {
                let partial_sig = presig.issue_partial_signature(message_to_sign);
                self.partial = partial_sig;
                self.phase = Phase::Round4;
                Ok(PresignatureStep::PartialSignature(MsgRound4 { sigma: partial_sig.sigma }))
            },
        }
    }

    /// Signature reconstruction: takes the peers' partial signatures. The signature is the
    /// output if it is well formed and verifies against the shared public key and the
    /// message; else the session is aborted, because a signer cheated.
    pub fn round4(&mut self, partial_sigs: &RoundMsgs<MsgRound4>) -> (r: Result<
        Signature,
        SigningError,
    >)
        ensures
            r is Ok <==> old(self)@.phase == Phase::Round4 && old(self)@.message is Some && old(
                self,
            )@.r != 0 && total_sigma(old(self)@.sigma_i, partial_sigs.messages()) != 0
                && signature_verifies(
                old(self)@.r,
                low_s(total_sigma(old(self)@.sigma_i, partial_sigs.messages())),
                old(self)@.pk,
                old(self)@.message->Some_0,
            ),
            r matches Ok(sig) ==> {
                &&& sig.r@ == old(self)@.r
                &&& sig.s@ == low_s(total_sigma(old(self)@.sigma_i, partial_sigs.messages()))
                &&& sig.s@ <= group_order() / 2
                &&& signature_verifies(sig.r@, sig.s@, old(self)@.pk, old(self)@.message->Some_0)
                &&& final(self)@ == old(self)@.at(Phase::Done)
            },
            r is Err ==> final(self)@ == old(self)@.at(Phase::Aborted),
            r matches Err(e) ==> if old(self)@.phase == Phase::Round4 && old(self)@.message
                is Some {
                e.0 matches Reason::Aborted(SigningAborted::SignatureInvalid)
            } else {
                e.0 == Reason::Bug(Bug::OutOfOrder)
            },
    {
        if self.phase != Phase::Round4 {
            return Err(self.out_of_order());
        }
        let message_to_sign = match self.message {
            Some(m) => m,
            None => {
                return Err(self.out_of_order());
            },
        };
        match signature_output(&self.partial, partial_sigs, &self.pk, &message_to_sign) {
            Ok(sig) => {
                self.phase = Phase::Done;
                Ok(sig)
            },
            Err(e) => {
                self.phase = Phase::Aborted;
                Err(e)
            },
        }
    }
}

} // verus!

//! Key refresh: the parties rerandomize their shares of a key, which stays the same.
//!
//! Every party draws one summand for each party, which add up to zero, and shows the
//! generator multiplied by each. A party's new secret share is its share plus the summands
//! that the parties drew for it; its new public share is its public share plus what the
//! parties showed for it.

use crate::bignumber::bit_length_of;
use crate::bignumber::BigNumber;
use crate::bytes::be_nat;
use crate::hashing::be16;
use crate::hashing::commitment_of;
use crate::hashing::HashCommit;
use crate::key_share::AuxInfo;
use crate::key_share::IncompleteKeyShare;
use crate::key_share::InvalidKeyShare;
use crate::key_share::PartyAux;
use crate::keygen::challenge;
use crate::keygen::challenge_of;
use crate::keygen::flagged;
use crate::keygen::lemma_flagged;
use crate::keygen::xor_all;
use crate::keygen::MsgRound1;
use crate::keygen::Tag;
use crate::point::identity;
use crate::rounds::RoundMsgs;
use crate::scalar::neg_mod;
use crate::schnorr::schnorr_accepts;
use crate::schnorr::schnorr_response;
use crate::security_level::validate_secret_paillier_key_size;
use crate::security_level::SecurityLevel;
use crate::utils::xor_array;
use core::marker::PhantomData;
use vstd::arithmetic::power::pow;
use crate::point::encodings;
use crate::point::point_sum;
use crate::point::spec_generator_mul;
use crate::point::spec_point_add;
use crate::point::sum_points;
use crate::point::Point;
use crate::scalar::add_mod;
use crate::scalar::group_order;
use crate::scalar::sum_mod;
use crate::scalar::sum_scalars;
use crate::scalar::values;
use crate::scalar::Scalar;
use vstd::arithmetic::div_mod::lemma_add_mod_noop;
use vstd::arithmetic::div_mod::lemma_mod_twice;
use vstd::arithmetic::div_mod::lemma_small_mod;
use vstd::prelude::*;

verus! {

/// Why a key share cannot be refreshed
#[derive(Debug, PartialEq, Eq)]
pub enum KeyRefreshError {
    /// Shares with a threshold are not refreshed.
    ThresholdShare,
    /// There is not one summand, or one list of public shifts, for each party.
    WrongNumberOfParties,
    /// The refreshed share is not a valid share of the same key.
    InvalidRefreshedShare(InvalidKeyShare),
    /// Protocol was aborted by malicious party
    Aborted(RefreshAborted),
}

/// Protocol was aborted by malicious party
#[derive(Debug, PartialEq, Eq)]
#[allow(inconsistent_fields)]
pub enum RefreshAborted {
    /// party decommitment doesn't match commitment
    InvalidDecommitment { parties: Vec<u16> },
    /// party's Paillier modulus is too short, or its ring-Pedersen parameters are not in the
    /// multiplicative group of the modulus
    InvalidAux { parties: Vec<u16> },
    /// what the party showed for its summands does not add up to zero
    InvalidRerandomization { parties: Vec<u16> },
    /// party provided an invalid proof Π mod, Π fac or Π prm
    InvalidProof { parties: Vec<ProofBlame> },
    /// party provided invalid schnorr proof
    InvalidSchnorrProof { parties: Vec<u16> },
    /// the summand that the party sent is not the one that it showed
    InvalidSummand { parties: Vec<u16> },
    /// the auxiliary data that comes out is not valid
    InvalidAuxInfo(InvalidKeyShare),
}

/// What the protocol gives a party.
pub struct RefreshOutput {
    /// The refreshed share of the key: none where only auxiliary data was made.
    pub share: Option<IncompleteKeyShare>,
    /// The auxiliary data.
    pub aux: AuxInfo,
}

/// The blame for a party of which one of the proofs Π mod, Π fac and Π prm is invalid.
#[derive(Clone, Copy, Debug, PartialEq, Eq, Structural)]
pub struct ProofBlame {
    /// The party.
    pub party: u16,
    /// The verdicts on its proofs.
    pub verdict: ProofVerdict,
}

/// The verdicts on the three proofs of one party: `true` says invalid.
#[derive(Clone, Copy, Debug, PartialEq, Eq, Structural)]
pub struct ProofVerdict {
    /// Whether Π mod is invalid: the modulus is no product of two Blum primes.
    pub mod_invalid: bool,
    /// Whether Π fac is invalid: the modulus has a small factor.
    pub fac_invalid: bool,
    /// Whether Π prm is invalid: the ring-Pedersen parameters are not well formed.
    pub prm_invalid: bool,
}

impl ProofVerdict {
    /// Whether one of the three proofs is invalid.
    pub open spec fn faulty(self) -> bool {
        self.mod_invalid || self.fac_invalid || self.prm_invalid
    }
}

/// Whether the summands that a party drew add up to zero.
pub fn summands_cancel(summands: &Vec<Scalar>) -> (r: bool)
    ensures
        r == (sum_mod(values(summands@)) == 0),
{
    sum_scalars(summands).is_zero()
}

/// A party's secret share after the refresh: its share plus the sum of the summands that the
/// parties drew for it.
pub open spec fn refreshed_secret(x: nat, received: Seq<nat>) -> nat {
    add_mod(x, sum_mod(received))
}

/// The secret share of a party after the refresh: `received[k]` is the summand that party
/// `k` drew for it.
pub fn refresh_secret_share(x: &Scalar, received: &Vec<Scalar>) -> (r: Scalar)
    ensures
        r@ == refreshed_secret(x@, values(received@)),
{
    x.add(&sum_scalars(received))
}

/// The shift of one party's public share: the sum of what the parties showed for it.
pub open spec fn public_shift(shown: Seq<Point>) -> Seq<u8> {
    point_sum(encodings(shown))
}

/// The public shares after the refresh: each is the public share plus the sum of what the
/// parties showed for its party. `shown[j][k]` is what party `k` showed for party `j`.
pub fn refresh_public_shares(public_shares: &Vec<Point>, shown: &Vec<Vec<Point>>) -> (r: Option<
    Vec<Point>,
>)
    ensures
        r is Some <==> shown@.len() == public_shares@.len(),
        r matches Some(v) ==> v@.len() == public_shares@.len() && forall|j: int|
            0 <= j < v@.len() ==> (#[trigger] v@[j])@ == spec_point_add(
                public_shares@[j]@,
                public_shift(shown@[j]@),
            ),
{
    if shown.len() != public_shares.len() {
        return None;
    }
    let mut out: Vec<Point> = Vec::new();
    let mut j: usize = 0;
    while j < public_shares.len()
        invariant
            j <= public_shares@.len(),
            shown@.len() == public_shares@.len(),
            out@.len() == j,
            forall|m: int|
                0 <= m < j ==> (#[trigger] out@[m])@ == spec_point_add(
                    public_shares@[m]@,
                    public_shift(shown@[m]@),
                ),
        decreases public_shares@.len() - j,
    {
        out.push(public_shares[j].add(&sum_points(&shown[j])));
        j += 1;
    }
    Some(out)
}

/// The lists of a list of lists.
pub open spec fn rows(shown: Seq<Vec<Point>>) -> Seq<Seq<Point>> {
    Seq::new(shown.len(), |j: int| shown[j]@)
}

/// The public shares after the refresh, as encodings: `shown[j]` is what the parties showed
/// for party `j`.
pub open spec fn refreshed_publics(public_shares: Seq<Point>, shown: Seq<Seq<Point>>) -> Seq<
    Seq<u8>,
> {
    Seq::new(
        public_shares.len(),
        |j: int| spec_point_add(public_shares[j]@, public_shift(shown[j])),
    )
}

/// Why a share is not refreshed, if it is not: it has a threshold; there is not one summand
/// and one list of public shifts for each party; or what comes out is no valid share of the
/// key.
pub open spec fn refresh_failure(
    old_share: IncompleteKeyShare,
    received: Seq<Scalar>,
    shown: Seq<Seq<Point>>,
) -> Option<KeyRefreshError> {
    if old_share.vss_setup is Some {
        Some(KeyRefreshError::ThresholdShare)
    } else if received.len() != old_share.public_shares@.len() || shown.len()
        != old_share.public_shares@.len() {
        Some(KeyRefreshError::WrongNumberOfParties)
    } else {
        match crate::key_share::additive_failure(
            old_share.i,
            refreshed_secret(old_share.x@, values(received)),
            old_share.shared_public_key@,
            refreshed_publics(old_share.public_shares@, shown),
        ) {
            Some(e) => Some(KeyRefreshError::InvalidRefreshedShare(e)),
            None => None,
        }
    }
}

/// Refreshes a key share without a threshold: the secret share and the public shares are
/// rerandomized, the shared public key and the random identifier stay, and the new share must
/// be a valid share of that key, or the refresh fails.
pub fn refresh_key_share(
    old_share: &IncompleteKeyShare,
    received: &Vec<Scalar>,
    shown: &Vec<Vec<Point>>,
) -> (r: Result<IncompleteKeyShare, KeyRefreshError>)
    ensures
        r is Ok <==> refresh_failure(*old_share, received@, rows(shown@)) is None,
        r matches Err(e) ==> refresh_failure(*old_share, received@, rows(shown@)) == Some(e),
        r matches Ok(share) ==> {
            &&& old_share.vss_setup is None
            &&& share.i == old_share.i
            &&& share.shared_public_key@ == old_share.shared_public_key@
            &&& share.rid@ == old_share.rid@
            &&& share.vss_setup is None
            &&& share.x@ == refreshed_secret(old_share.x@, values(received@))
            &&& share.public_shares@.len() == old_share.public_shares@.len()
            &&& forall|j: int|
                0 <= j < share.public_shares@.len() ==> (#[trigger] share.public_shares@[j])@
                    == spec_point_add(old_share.public_shares@[j]@, public_shift(shown@[j]@))
            &&& share.failure() is None
            &&& share.public_shares@[share.i as int]@ == spec_generator_mul(share.x@)
            &&& share.shared_public_key@ == point_sum(encodings(share.public_shares@))
        },
{
    if old_share.vss_setup.is_some() {
        return Err(KeyRefreshError::ThresholdShare);
    }
    if received.len() != old_share.public_shares.len() {
        return Err(KeyRefreshError::WrongNumberOfParties);
    }
    let public_shares = match refresh_public_shares(&old_share.public_shares, shown) {
        Some(v) => v,
        None => {
            return Err(KeyRefreshError::WrongNumberOfParties);
        },
    };
    let rid = old_share.rid.clone();
    assert(rid@ =~= old_share.rid@);
    let share = IncompleteKeyShare {
        i: old_share.i,
        shared_public_key: old_share.shared_public_key,
        public_shares,
        x: refresh_secret_share(&old_share.x, received),
        rid,
        vss_setup: None,
    };
    proof {
        share.lemma_additive_failure();
        assert(encodings(share.public_shares@) =~= refreshed_publics(
            old_share.public_shares@,
            rows(shown@),
        ));
    }
    match share.validate() {
        Ok(()) => Ok(share),
        Err(e) => Err(KeyRefreshError::InvalidRefreshedShare(e)),
    }
}

/// The sum of the first `upto` numbers as an integer, without reduction.
pub open spec fn plain_sum(s: Seq<nat>, upto: int) -> int
    decreases upto,
{
    if upto <= 0 {
        0
    } else {
        plain_sum(s, upto - 1) + s[upto - 1]
    }
}

/// The sum modulo the group order is the plain sum, reduced.
pub proof fn lemma_sum_mod_is_plain(s: Seq<nat>)
    ensures
        sum_mod(s) == plain_sum(s, s.len() as int) % (group_order() as int),
    decreases s.len(),
{
    let q = group_order() as int;
    if s.len() == 0 {
        lemma_small_mod(0, group_order());
    } else {
        let head = s.drop_last();
        lemma_sum_mod_is_plain(head);
        lemma_plain_sum_prefix(s, head, head.len() as int);
        let a = plain_sum(head, head.len() as int);
        lemma_add_mod_noop(a, s.last() as int, q);
        lemma_mod_twice(a, q);
        lemma_add_mod_noop(a % q, s.last() as int, q);
    }
}

/// The plain sum of the first numbers depends on them alone.
pub proof fn lemma_plain_sum_prefix(a: Seq<nat>, b: Seq<nat>, upto: int)
    requires
        upto <= a.len(),
        upto <= b.len(),
        forall|k: int| 0 <= k < upto ==> a[k] == b[k],
    ensures
        plain_sum(a, upto) == plain_sum(b, upto),
    decreases upto,
{
    if upto > 0 {
        lemma_plain_sum_prefix(a, b, upto - 1);
    }
}

/// The summands that the first `rows` parties drew for party `j`.
pub open spec fn column(summands: Seq<Seq<nat>>, j: int, rows: int) -> Seq<nat> {
    Seq::new(rows as nat, |k: int| summands[k][j])
}

/// The plain sum of all the summands of the first `rows` parties, row by row.
pub open spec fn grid_sum_by_rows(summands: Seq<Seq<nat>>, n: int, rows: int) -> int
    decreases rows,
{
    if rows <= 0 {
        0
    } else {
        grid_sum_by_rows(summands, n, rows - 1) + plain_sum(summands[rows - 1], n)
    }
}

/// The plain sum of the summands that the first `rows` parties drew for the first `cols`
/// parties, column by column.
pub open spec fn grid_sum_by_columns(summands: Seq<Seq<nat>>, rows: int, cols: int) -> int
    decreases cols,
{
    if cols <= 0 {
        0
    } else {
        grid_sum_by_columns(summands, rows, cols - 1) + plain_sum(
            column(summands, cols - 1, rows),
            rows,
        )
    }
}

/// A grid of numbers adds up to the same by rows and by columns.
pub proof fn lemma_grid_sums_agree(summands: Seq<Seq<nat>>, n: int, rows: int)
    requires
        0 <= rows <= summands.len(),
        0 <= n,
        forall|k: int| 0 <= k < rows ==> (#[trigger] summands[k]).len() == n,
    ensures
        grid_sum_by_rows(summands, n, rows) == grid_sum_by_columns(summands, rows, n),
    decreases rows,
{
    if rows == 0 {
        lemma_empty_columns(summands, n);
    } else {
        lemma_grid_sums_agree(summands, n, rows - 1);
        lemma_add_row(summands, rows, n, n);
    }
}

/// Without rows every column adds up to zero.
proof fn lemma_empty_columns(summands: Seq<Seq<nat>>, cols: int)
    requires
        0 <= cols,
    ensures
        grid_sum_by_columns(summands, 0, cols) == 0,
    decreases cols,
{
    if cols > 0 {
        lemma_empty_columns(summands, cols - 1);
    }
}

/// One more row adds its first numbers to the sum by columns.
proof fn lemma_add_row(summands: Seq<Seq<nat>>, rows: int, n: int, cols: int)
    requires
        1 <= rows <= summands.len(),
        0 <= cols <= n,
        forall|k: int| 0 <= k < rows ==> (#[trigger] summands[k]).len() == n,
    ensures
        grid_sum_by_columns(summands, rows, cols) == grid_sum_by_columns(
            summands,
            rows - 1,
            cols,
        ) + plain_sum(summands[rows - 1], cols),
    decreases cols,
{
    if cols > 0 {
        lemma_add_row(summands, rows, n, cols - 1);
        let long = column(summands, cols - 1, rows);
        let short = column(summands, cols - 1, rows - 1);
        lemma_plain_sum_prefix(long, short, rows - 1);
        assert(long[rows - 1] == summands[rows - 1][cols - 1]);
    }
}

/// The secret shares of the first `upto` parties after the refresh, as plain numbers.
pub open spec fn refreshed_shares(shares: Seq<nat>, summands: Seq<Seq<nat>>, upto: int) -> Seq<
    nat,
> {
    Seq::new(
        upto as nat,
        |j: int| refreshed_secret(shares[j], column(summands, j, summands.len() as int)),
    )
}

/// Key refresh keeps the secret key: if the summands that each party drew add up to zero
/// modulo the group order, the refreshed secret shares add up to what the shares added up to.
/// `summands[k][j]` is the summand that party `k` drew for party `j`.
pub proof fn lemma_refresh_keeps_secret_key(shares: Seq<nat>, summands: Seq<Seq<nat>>)
    requires
        summands.len() == shares.len(),
        forall|k: int| 0 <= k < summands.len() ==> (#[trigger] summands[k]).len() == shares.len(),
        forall|k: int| 0 <= k < summands.len() ==> sum_mod(#[trigger] summands[k]) == 0,
    ensures
        sum_mod(refreshed_shares(shares, summands, shares.len() as int)) == sum_mod(shares),
{
    let n = shares.len() as int;
    let q = group_order() as int;
    let fresh = refreshed_shares(shares, summands, n);
    lemma_sum_mod_is_plain(fresh);
    lemma_sum_mod_is_plain(shares);
    // The refreshed shares add up to the shares plus all the summands, modulo q.
    lemma_fresh_sum(shares, summands, n);
    // All the summands add up to zero modulo q, row by row.
    lemma_rows_cancel(summands, n, n);
    lemma_grid_sums_agree(summands, n, n);
    let a = plain_sum(shares, n);
    let g = grid_sum_by_columns(summands, n, n);
    lemma_add_mod_noop(a, g, q);
    lemma_small_mod(0, group_order());
    lemma_mod_twice(a, q);
    assert((a % q + 0) % q == a % q);
}

/// Rows that add up to zero modulo the group order add up to zero together.
proof fn lemma_rows_cancel(summands: Seq<Seq<nat>>, n: int, rows: int)
    requires
        0 <= rows <= summands.len(),
        0 <= n,
        forall|k: int| 0 <= k < rows ==> (#[trigger] summands[k]).len() == n,
        forall|k: int| 0 <= k < rows ==> sum_mod(#[trigger] summands[k]) == 0,
    ensures
        grid_sum_by_rows(summands, n, rows) % (group_order() as int) == 0,
    decreases rows,
{
    let q = group_order() as int;
    if rows == 0 {
        lemma_small_mod(0, group_order());
    } else {
        lemma_rows_cancel(summands, n, rows - 1);
        lemma_sum_mod_is_plain(summands[rows - 1]);
        lemma_add_mod_noop(
            grid_sum_by_rows(summands, n, rows - 1),
            plain_sum(summands[rows - 1], n),
            q,
        );
        lemma_small_mod(0, group_order());
    }
}

/// The refreshed shares of the first parties add up, modulo the group order, to their shares
/// plus the summands drawn for them.
proof fn lemma_fresh_sum(shares: Seq<nat>, summands: Seq<Seq<nat>>, upto: int)
    requires
        0 <= upto <= shares.len(),
        summands.len() == shares.len(),
    ensures
        plain_sum(refreshed_shares(shares, summands, shares.len() as int), upto) % (
        group_order() as int) == (plain_sum(shares, upto) + grid_sum_by_columns(
            summands,
            summands.len() as int,
            upto,
        )) % (group_order() as int),
    decreases upto,
{
    let q = group_order() as int;
    let n = shares.len() as int;
    let fresh = refreshed_shares(shares, summands, n);
    if upto > 0 {
        lemma_fresh_sum(shares, summands, upto - 1);
        let col = column(summands, upto - 1, n);
        lemma_sum_mod_is_plain(col);
        let x = shares[upto - 1] as int;
        let c = plain_sum(col, n);
        let f = fresh[upto - 1] as int;
        // f = (x + c mod q) mod q = (x + c) mod q
        lemma_add_mod_noop(x, c, q);
        lemma_mod_twice(c, q);
        lemma_add_mod_noop(x, c % q, q);
        assert(f == (x + c) % q);
        let pf = plain_sum(fresh, upto - 1);
        let ps = plain_sum(shares, upto - 1);
        let pg = grid_sum_by_columns(summands, n, upto - 1);
        // (pf + f) mod q = (pf mod q + f mod q) mod q = ((ps + pg) mod q + (x + c) mod q) mod q
        lemma_add_mod_noop(pf, f, q);
        lemma_add_mod_noop(ps + pg, x + c, q);
        lemma_mod_twice(x + c, q);
        assert(ps + pg + x + c == (ps + x) + (pg + c));
    }
}

/// Two primes that were generated ahead of the protocol, of the size that the security
/// level `L` asks for.
pub struct PregeneratedPrimes<L: SecurityLevel> {
    p: BigNumber,
    q: BigNumber,
    _ph: PhantomData<L>,
}

impl<L: SecurityLevel> PregeneratedPrimes<L> {
    /// The prime `p`, as it is written.
    pub closed spec fn p_number(self) -> BigNumber {
        self.p
    }

    /// The prime `q`, as it is written.
    pub closed spec fn q_number(self) -> BigNumber {
        self.q
    }

    /// The prime `p`.
    pub open spec fn p(self) -> int {
        self.p_number()@
    }

    /// The prime `q`.
    pub open spec fn q(self) -> int {
        self.q_number()@
    }

    /// Takes two primes: `None` unless both are above zero and have at least $4\kappa$ bits.
    pub fn new(p: BigNumber, q: BigNumber) -> (r: Option<Self>)
        ensures
            r is Some <==> !p.negative && !q.negative && bit_length_of(be_nat(p.magnitude@)) >= 4
                * L::spec_security_bits() && bit_length_of(be_nat(q.magnitude@)) >= 4
                * L::spec_security_bits(),
            r matches Some(primes) ==> primes.p() == p@ && primes.q() == q@,
    {
        if p.negative || q.negative || !validate_secret_paillier_key_size::<L>(&p, &q) {
            None
        } else {
            Some(Self { p, q, _ph: PhantomData })
        }
    }

    /// A copy of the prime `p`.
    pub fn prime_p(&self) -> (r: BigNumber)
        ensures
            crate::key_share::same_number(r, self.p_number()),
            r@ == self.p(),
    {
        self.p.duplicate()
    }

    /// A copy of the prime `q`.
    pub fn prime_q(&self) -> (r: BigNumber)
        ensures
            crate::key_share::same_number(r, self.q_number()),
            r@ == self.q(),
    {
        self.q.duplicate()
    }

    /// The two primes.
    pub fn split(self) -> (r: (BigNumber, BigNumber))
        ensures
            r.0@ == self.p(),
            r.1@ == self.q(),
    {
        (self.p, self.q)
    }

    /// The Paillier modulus `N = p * q`.
    pub fn modulus(&self) -> (r: BigNumber)
        ensures
            r@ == self.p() * self.q(),
    {
        self.p.mul(&self.q)
    }
}

/// Ring-Pedersen parameters from what the party drew: `t = r^2 mod N` and
/// `s = t^lambda mod N`. `None` for the modulus zero.
pub fn ring_pedersen_parameters(r: &BigNumber, lambda: &BigNumber, N: &BigNumber) -> (out: Option<
    (BigNumber, BigNumber),
>)
    ensures
        out is Some <==> be_nat(N.magnitude@) != 0,
        out matches Some((s, t)) ==> {
            &&& t@ == pow(be_nat(r.magnitude@) as int, 2) % (be_nat(N.magnitude@) as int)
            &&& s@ == pow(t@, be_nat(lambda.magnitude@)) % (be_nat(N.magnitude@) as int)
        },
{
    let mut two: Vec<u8> = Vec::new();
    two.push(2);
    proof {
        reveal_with_fuel(be_nat, 2);
    }
    let two = BigNumber::from_be_bytes(two);
    let t = match r.modpow(&two, N) {
        Some(t) => t,
        None => {
            return None;
        },
    };
    match t.modpow(lambda, N) {
        Some(s) => Some((s, t)),
        None => None,
    }
}

/// The summands of a party: those that it drew freely, and one more that makes them add up
/// to zero.
pub fn complete_summands(free: Vec<Scalar>) -> (r: Vec<Scalar>)
    ensures
        r@.len() == free@.len() + 1,
        r@.subrange(0, free@.len() as int) == free@,
        r@.last()@ == neg_mod(sum_mod(values(free@))),
        sum_mod(values(r@)) == 0,
{
    let last = sum_scalars(&free).neg();
    let mut out = free;
    let ghost before = out@;
    out.push(last);
    proof {
        assert(out@.subrange(0, before.len() as int) =~= before);
        assert(values(out@).drop_last() =~= values(before));
        let s = sum_mod(values(before));
        let q = group_order();
        lemma_small_mod(s, q);
        if s == 0 {
            lemma_small_mod(0, q);
            assert(neg_mod(s) == (q - 0) as nat % q);
            assert(q % q == 0) by (nonlinear_arith)
                requires
                    q > 0,
            ;
        } else {
            lemma_small_mod((q - s) as nat, q);
            assert((s + (q - s)) as nat % q == 0) by (nonlinear_arith)
                requires
                    q > 0,
            ;
        }
    }
    out
}

/// Message of round 2: the decommitment
pub struct MsgRound2 {
    /// The party's Paillier modulus and ring-Pedersen parameters.
    pub aux: PartyAux,
    /// The party's part of the shared random identifier.
    pub rho: Vec<u8>,
    /// The generator multiplied by each of the party's summands: `Ys[j]` is for party `j`.
    pub Ys: Vec<Point>,
    /// The commitments of the party's Schnorr proofs, one for each summand.
    pub sch_commits: Vec<Point>,
    /// The nonce that opens the commitment of round 1.
    pub decommit: Vec<u8>,
}

impl MsgRound2 {
    /// A copy of the message.
    pub fn duplicate(&self) -> (r: MsgRound2)
        ensures
            r.aux.N.magnitude@ == self.aux.N.magnitude@,
            r.aux.s.magnitude@ == self.aux.s.magnitude@,
            r.aux.t.magnitude@ == self.aux.t.magnitude@,
            r.aux.N@ == self.aux.N@,
            r.aux.s@ == self.aux.s@,
            r.aux.t@ == self.aux.t@,
            r.rho@ == self.rho@,
            r.Ys@ == self.Ys@,
            r.sch_commits@ == self.sch_commits@,
            r.decommit@ == self.decommit@,
    {
        let rho = self.rho.clone();
        let Ys = self.Ys.clone();
        let sch_commits = self.sch_commits.clone();
        let decommit = self.decommit.clone();
        assert(rho@ =~= self.rho@);
        assert(Ys@ =~= self.Ys@);
        assert(sch_commits@ =~= self.sch_commits@);
        assert(decommit@ =~= self.decommit@);
        MsgRound2 { aux: self.aux.duplicate(), rho, Ys, sch_commits, decommit }
    }
}

/// Message of round 3: the Schnorr proofs, one for each summand
pub struct MsgRound3 {
    /// The responses of the party's Schnorr proofs: `sch_proofs[j]` is for the summand of
    /// party `j`.
    pub sch_proofs: Vec<Scalar>,
}

/// What a party draws at random before the protocol starts.
pub struct RefreshSecrets {
    /// The party's summands, one for each party, which add up to zero: all zero where only
    /// the auxiliary data is made.
    pub summands: Vec<Scalar>,
    /// The party's part $\rho_i$ of the random identifier: $\kappa/8$ bytes.
    pub rho: Vec<u8>,
    /// The nonces of the party's Schnorr proofs, one for each summand.
    pub sch_nonces: Vec<Scalar>,
    /// The nonce of the party's commitment.
    pub decommit_nonce: Vec<u8>,
}

/// The items that party `j` of `n` commits to in a run named `tag`: the tag, the number of
/// parties, the party's index, its modulus and ring-Pedersen parameters, its part of the random
/// identifier, what it shows for its summands, and the commitments of its Schnorr proofs.
pub open spec fn refresh_items(tag: Seq<u8>, n: u16, j: u16, d: MsgRound2) -> Seq<Seq<u8>> {
    seq![
        tag,
        be16(n),
        be16(j),
        d.aux.N.magnitude@,
        d.aux.s.magnitude@,
        d.aux.t.magnitude@,
        d.rho@,
        be16(d.Ys@.len() as u16),
    ] + encodings(d.Ys@) + encodings(d.sch_commits@)
}

/// Mixes the encodings of a list of points into a hash.
fn mix_points(h: HashCommit, points: &Vec<Point>) -> (r: HashCommit)
    ensures
        r@ == h@ + encodings(points@),
{
    let ghost start = h@;
    let mut h = h;
    let mut k: usize = 0;
    assert(h@ =~= start + encodings(points@).subrange(0, 0));
    while k < points.len()
        invariant
            k <= points@.len(),
            h@ == start + encodings(points@).subrange(0, k as int),
        decreases points@.len() - k,
    {
        let bytes = points[k].to_bytes();
        h = h.mix_bytes(bytes.as_slice());
        assert(h@ =~= start + encodings(points@).subrange(0, k + 1));
        k += 1;
    }
    assert(encodings(points@).subrange(0, points@.len() as int) =~= encodings(points@));
    h
}

/// The commitment of party `j` of `n` to what `d` shows.
pub fn refresh_commitment(tag: &Tag, n: u16, j: u16, d: &MsgRound2) -> (r: [u8; 32])
    requires
        d.Ys@.len() <= u16::MAX,
    ensures
        r@ == commitment_of(refresh_items(tag@, n, j, *d), d.decommit@),
{
    let h = HashCommit::builder().mix_bytes(tag.as_bytes().as_slice()).mix_u16(n).mix_u16(
        j,
    ).mix_bytes(d.aux.N.magnitude.as_slice()).mix_bytes(d.aux.s.magnitude.as_slice()).mix_bytes(
        d.aux.t.magnitude.as_slice(),
    ).mix_bytes(d.rho.as_slice()).mix_u16(d.Ys.len() as u16);
    assert(h@ =~= seq![
        tag@,
        be16(n),
        be16(j),
        d.aux.N.magnitude@,
        d.aux.s.magnitude@,
        d.aux.t.magnitude@,
        d.rho@,
        be16(d.Ys@.len() as u16),
    ]);
    let h = mix_points(h, &d.Ys);
    let h = mix_points(h, &d.sch_commits);
    assert(h@ =~= refresh_items(tag@, n, j, *d));
    h.commit(d.decommit.as_slice())
}

/// Key refresh, or the generation of auxiliary data alone: entry point
pub struct KeyRefreshBuilder<'a, L: SecurityLevel> {
    i: u16,
    n: u16,
    tag: Tag,
    primes: PregeneratedPrimes<L>,
    old_share: Option<&'a IncompleteKeyShare>,
}

/// Generation of auxiliary data alone: entry point
pub type AuxInfoGenerationBuilder<'a, L> = KeyRefreshBuilder<'a, L>;

/// What a party keeps after round 1.
pub struct RefreshRound1 {
    summands: Vec<Scalar>,
    sch_nonces: Vec<Scalar>,
    my_commitment: MsgRound1,
    my_decommitment: MsgRound2,
}

/// What a party keeps after round 3.
pub struct RefreshRound3 {
    rho: Vec<u8>,
    decommitments: Vec<MsgRound2>,
}

impl RefreshRound1 {
    /// The party's commitment, which is its message of round 1.
    pub closed spec fn commitment(self) -> MsgRound1 {
        self.my_commitment
    }

    /// The party's decommitment, which is its message of round 2.
    pub closed spec fn decommitment(self) -> MsgRound2 {
        self.my_decommitment
    }

    /// The party's summands.
    pub closed spec fn summands(self) -> Seq<nat> {
        values(self.summands@)
    }

    /// The nonces of the party's Schnorr proofs.
    pub closed spec fn nonces(self) -> Seq<nat> {
        values(self.sch_nonces@)
    }

    /// The party's message of round 1.
    pub fn my_commitment(&self) -> (r: MsgRound1)
        ensures
            r == self.commitment(),
    {
        self.my_commitment
    }

    /// The party's message of round 2.
    pub fn my_decommitment(&self) -> (r: MsgRound2)
        ensures
            r.aux.N@ == self.decommitment().aux.N@,
            r.aux.s@ == self.decommitment().aux.s@,
            r.aux.t@ == self.decommitment().aux.t@,
            r.rho@ == self.decommitment().rho@,
            r.Ys@ == self.decommitment().Ys@,
            r.sch_commits@ == self.decommitment().sch_commits@,
            r.decommit@ == self.decommitment().decommit@,
    {
        self.my_decommitment.duplicate()
    }

    /// The summand that the party drew for party `j`, which it sends to that party
    /// encrypted.
    pub fn summand_for(&self, j: u16) -> (r: Option<Scalar>)
        ensures
            r is Some <==> j < self.summands().len(),
            r matches Some(y) ==> y@ == self.summands()[j as int],
    {
        if (j as usize) < self.summands.len() {
            Some(self.summands[j as usize])
        } else {
            None
        }
    }
}

impl RefreshRound3 {
    /// The random identifier.
    pub closed spec fn rid(self) -> Seq<u8> {
        self.rho@
    }

    /// The decommitments of all parties.
    pub closed spec fn decommitments(self) -> Seq<MsgRound2> {
        self.decommitments@
    }

    /// The random identifier of the run.
    pub fn rho(&self) -> (r: &Vec<u8>)
        ensures
            r@ == self.rid(),
    {
        &self.rho
    }
}

/// Whether all the scalars are zero.
fn all_zero(scalars: &Vec<Scalar>) -> (r: bool)
    ensures
        r == forall|k: int| 0 <= k < scalars@.len() ==> (#[trigger] scalars@[k])@ == 0,
{
    let mut k: usize = 0;
    while k < scalars.len()
        invariant
            k <= scalars@.len(),
            forall|m: int| 0 <= m < k ==> (#[trigger] scalars@[m])@ == 0,
        decreases scalars@.len() - k,
    {
        if !scalars[k].is_zero() {
            return false;
        }
        k += 1;
    }
    true
}

/// What the first `upto` of a party's Schnorr proofs must be.
pub open spec fn responses(nonces: Seq<nat>, e: nat, summands: Seq<nat>, upto: int) -> Seq<nat> {
    Seq::new(upto as nat, |k: int| schnorr_response(nonces[k], e, summands[k]))
}

impl<'a, L: SecurityLevel> KeyRefreshBuilder<'a, L> {
    /// Index of the party.
    pub closed spec fn party(self) -> u16 {
        self.i
    }

    /// Number of the parties.
    pub closed spec fn parties(self) -> u16 {
        self.n
    }

    /// The tag of the run.
    pub closed spec fn tag(self) -> Seq<u8> {
        self.tag@
    }

    /// The share that is refreshed; where there is none, auxiliary data alone is made.
    pub closed spec fn refreshed(self) -> Option<IncompleteKeyShare> {
        match self.old_share {
            Some(share) => Some(*share),
            None => None,
        }
    }

    /// Whether the shares of a key are refreshed; if not, auxiliary data alone is made.
    pub open spec fn refreshes(self) -> bool {
        self.refreshed() is Some
    }

    /// The party's primes.
    pub closed spec fn primes(self) -> PregeneratedPrimes<L> {
        self.primes
    }

    /// The party's Paillier modulus.
    pub fn modulus(&self) -> (r: BigNumber)
        ensures
            r@ == self.primes().p() * self.primes().q(),
    {
        self.primes.modulus()
    }

    /// Length of a party's part of the random identifier.
    pub open spec fn rid_len() -> int {
        L::spec_security_bits() as int / 8
    }

    /// Whether `msgs` are the messages of a round for this party: one from each of the other
    /// parties.
    pub open spec fn expects<M>(self, msgs: RoundMsgs<M>) -> bool {
        self.party() < self.parties() && msgs.receiver() == self.party() && msgs.count()
            == self.parties() - 1
    }

    /// Index of the party.
    pub fn index(&self) -> (r: u16)
        ensures
            r == self.party(),
    {
        self.i
    }

    /// Number of the parties.
    pub fn n(&self) -> (r: u16)
        ensures
            r == self.parties(),
    {
        self.n
    }

    /// The tag of the run.
    pub fn run_tag(&self) -> (r: Tag)
        ensures
            r@ == self.tag(),
    {
        self.tag
    }

    /// Whether the shares of a key are refreshed.
    pub fn is_refresh(&self) -> (r: bool)
        ensures
            r == self.refreshes(),
    {
        self.old_share.is_some()
    }

    /// The party's primes.
    pub fn pregenerated(&self) -> (r: &PregeneratedPrimes<L>)
        ensures
            *r == self.primes(),
    {
        &self.primes
    }

    /// Generation of auxiliary data among `n` parties, for party `i`
    pub fn new_aux_gen(i: u16, n: u16, pregenerated: PregeneratedPrimes<L>) -> (r: Self)
        ensures
            r.party() == i,
            r.parties() == n,
            r.tag() == crate::keygen::tag_of(Seq::empty()),
            r.primes() == pregenerated,
            !r.refreshes(),
    {
        Self { i, n, tag: Tag::default(), primes: pregenerated, old_share: None }
    }

    /// Refresh of a key share: `None` for a share of more parties than can be counted.
    pub fn new(key_share: &'a IncompleteKeyShare, pregenerated: PregeneratedPrimes<L>) -> (r:
        Option<Self>)
        ensures
            r is Some <==> key_share.public_shares@.len() <= u16::MAX,
            r matches Some(b) ==> {
                &&& b.party() == key_share.i
                &&& b.parties() == key_share.public_shares@.len()
                &&& b.tag() == crate::keygen::tag_of(Seq::empty())
                &&& b.primes() == pregenerated
                &&& b.refreshed() == Some(*key_share)
            },
    {
        if key_share.public_shares.len() > 0xffff {
            return None;
        }
        Some(
            Self {
                i: key_share.i,
                n: key_share.public_shares.len() as u16,
                tag: Tag::default(),
                primes: pregenerated,
                old_share: Some(key_share),
            },
        )
    }

    /// Names the run
    pub fn set_tag(self, tag: Tag) -> (r: Self)
        ensures
            r.party() == self.party(),
            r.parties() == self.parties(),
            r.tag() == tag@,
            r.primes() == self.primes(),
            r.refreshed() == self.refreshed(),
    {
        Self { i: self.i, n: self.n, tag, primes: self.primes, old_share: self.old_share }
    }

    /// Whether the secrets fit the run: one summand and one nonce for each party, and summands
    /// that are all zero where only auxiliary data is made.
    pub open spec fn accepts(self, secrets: RefreshSecrets) -> bool {
        &&& secrets.summands@.len() == self.parties()
        &&& secrets.sch_nonces@.len() == self.parties()
        &&& !self.refreshes() ==> forall|k: int|
            0 <= k < secrets.summands@.len() ==> (#[trigger] secrets.summands@[k])@ == 0
    }

    /// Starts the protocol with round 1: the party shows the generator multiplied by each of
    /// its summands, commits to a Schnorr proof for each, and commits to all of this together
    /// with its modulus and ring-Pedersen parameters. `None` unless the secrets fit the run.
    #[verifier::loop_isolation(false)]
    pub fn start(&self, secrets: RefreshSecrets, aux: PartyAux) -> (r: Option<RefreshRound1>)
        ensures
            r is Some <==> self.accepts(secrets),
            r matches Some(state) ==> {
                &&& state.summands() == values(secrets.summands@)
                &&& state.nonces() == values(secrets.sch_nonces@)
                &&& state.decommitment().aux == aux
                &&& state.decommitment().rho@ == secrets.rho@
                &&& state.decommitment().decommit@ == secrets.decommit_nonce@
                &&& state.decommitment().Ys@.len() == self.parties()
                &&& state.decommitment().sch_commits@.len() == self.parties()
                &&& forall|k: int|
                    0 <= k < self.parties() ==> (#[trigger] state.decommitment().Ys@[k])@
                        == spec_generator_mul(secrets.summands@[k]@)
                &&& forall|k: int|
                    0 <= k < self.parties() ==> (#[trigger] state.decommitment().sch_commits@[k])@
                        == spec_generator_mul(secrets.sch_nonces@[k]@)
                &&& state.commitment().commitment@ == commitment_of(
                    refresh_items(self.tag(), self.parties(), self.party(), state.decommitment()),
                    secrets.decommit_nonce@,
                )
            },
    {
        let n: usize = self.n as usize;
        if secrets.summands.len() != n || secrets.sch_nonces.len() != n {
            return None;
        }
        if self.old_share.is_none() && !all_zero(&secrets.summands) {
            return None;
        }
        let mut Ys: Vec<Point> = Vec::new();
        let mut sch_commits: Vec<Point> = Vec::new();
        let mut k: usize = 0;
        while k < n
            invariant
                k <= n,
                Ys@.len() == k,
                sch_commits@.len() == k,
                forall|m: int|
                    0 <= m < k ==> (#[trigger] Ys@[m])@ == spec_generator_mul(
                        secrets.summands@[m]@,
                    ),
                forall|m: int|
                    0 <= m < k ==> (#[trigger] sch_commits@[m])@ == spec_generator_mul(
                        secrets.sch_nonces@[m]@,
                    ),
            decreases n - k,
        {
            Ys.push(Point::generator_mul(&secrets.summands[k]));
            sch_commits.push(crate::schnorr::commit(&secrets.sch_nonces[k]));
            k += 1;
        }
        let my_decommitment = MsgRound2 {
            aux,
            rho: secrets.rho,
            Ys,
            sch_commits,
            decommit: secrets.decommit_nonce,
        };
        let hash_commit = refresh_commitment(&self.tag, self.n, self.i, &my_decommitment);
        Some(
            RefreshRound1 {
                summands: secrets.summands,
                sch_nonces: secrets.sch_nonces,
                my_commitment: MsgRound1 { commitment: hash_commit },
                my_decommitment,
            },
        )
    }

    /// Whether the decommitment `d` of party `j` opens the commitment `c` and has the shape
    /// that the run asks for.
    pub open spec fn opens(self, j: int, c: MsgRound1, d: MsgRound2) -> bool {
        &&& d.rho@.len() == Self::rid_len()
        &&& d.Ys@.len() == self.parties()
        &&& d.sch_commits@.len() == self.parties()
        &&& c.commitment@ == commitment_of(
            refresh_items(self.tag(), self.parties(), j as u16, d),
            d.decommit@,
        )
    }

    /// Whether the decommitment of each party fails to open its commitment.
    pub open spec fn decommitment_flags(self, cs: Seq<MsgRound1>, ds: Seq<MsgRound2>) -> Seq<
        bool,
    > {
        Seq::new(ds.len(), |j: int| !self.opens(j, cs[j], ds[j]))
    }

    /// Whether the modulus or the ring-Pedersen parameters of each party are refused.
    pub open spec fn aux_flags(ds: Seq<MsgRound2>) -> Seq<bool> {
        Seq::new(ds.len(), |j: int| ds[j].aux.failure::<L>() is Some)
    }

    /// Whether what each party showed for its summands fails to add up to zero.
    pub open spec fn rerandomization_flags(ds: Seq<MsgRound2>) -> Seq<bool> {
        Seq::new(ds.len(), |j: int| point_sum(encodings(ds[j].Ys@)) != identity())
    }

    /// Why round 3 is aborted, if it is: the first of the three checks that a party fails,
    /// with all the parties that fail it.
    pub open spec fn round3_failure(self, cs: Seq<MsgRound1>, ds: Seq<MsgRound2>) -> Option<
        (int, Seq<u16>),
    > {
        let n = self.parties() as int;
        let bad = flagged(self.decommitment_flags(cs, ds), n);
        let weak = flagged(Self::aux_flags(ds), n);
        let skewed = flagged(Self::rerandomization_flags(ds), n);
        if bad.len() != 0 {
            Some((0, bad))
        } else if weak.len() != 0 {
            Some((1, weak))
        } else if skewed.len() != 0 {
            Some((2, skewed))
        } else {
            None
        }
    }

    /// Round 3: every decommitment is held against its commitment; every modulus must be
    /// long enough and every ring-Pedersen parameter in the multiplicative group of its
    /// modulus; and what every party showed for its summands must add up to zero. The parties
    /// that fail the first of these checks that anyone fails are blamed, all of them. Then the
    /// parts of the random identifier are xored together, and the party proves for each of its
    /// summands that it knows it. The proofs are the message to broadcast.
    #[verifier::loop_isolation(false)]
    pub fn round3(
        &self,
        state: RefreshRound1,
        commitments: RoundMsgs<MsgRound1>,
        decommitments: RoundMsgs<MsgRound2>,
    ) -> (r: Result<(RefreshRound3, MsgRound3), KeyRefreshError>)
        requires
            self.expects(commitments),
            self.expects(decommitments),
            state.summands().len() == self.parties(),
            state.nonces().len() == self.parties(),
        ensures
            ({
                let i = self.party() as int;
                let cs = commitments.messages().insert(i, state.commitment());
                let ds = decommitments.messages().insert(i, state.decommitment());
                let rid = xor_all(
                    Seq::new(ds.len(), |k: int| ds[k].rho@),
                    Self::rid_len(),
                    ds.len() as int,
                );
                &&& r is Ok <==> self.round3_failure(cs, ds) is None
                &&& r matches Err(e) ==> match e {
                    KeyRefreshError::Aborted(RefreshAborted::InvalidDecommitment { parties }) =>
                        self.round3_failure(cs, ds) == Some((0int, parties@)),
                    KeyRefreshError::Aborted(RefreshAborted::InvalidAux { parties }) =>
                        self.round3_failure(cs, ds) == Some((1int, parties@)),
                    KeyRefreshError::Aborted(
                        RefreshAborted::InvalidRerandomization { parties },
                    ) => self.round3_failure(cs, ds) == Some((2int, parties@)),
                    _ => false,
                }
                &&& r matches Ok((next, msg)) ==> {
                    &&& next.rid() == rid
                    &&& next.decommitments() == ds
                    &&& values(msg.sch_proofs@) == responses(
                        state.nonces(),
                        challenge_of(self.tag(), self.party(), rid),
                        state.summands(),
                        self.parties() as int,
                    )
                }
            }),
    {
        let ghost i = self.party() as int;
        let ghost cs = commitments.messages().insert(i, state.commitment());
        let ghost ds = decommitments.messages().insert(i, state.decommitment());
        let ghost bad = self.decommitment_flags(cs, ds);
        let ghost weak = Self::aux_flags(ds);
        let ghost skewed = Self::rerandomization_flags(ds);
        proof {
            L::lemma_security_bits();
        }
        let summands = state.summands;
        let sch_nonces = state.sch_nonces;
        let commitments = commitments.into_vec_including_me(state.my_commitment);
        let decommitments = decommitments.into_vec_including_me(state.my_decommitment);
        let rid_len: usize = L::security_bytes();
        let n: usize = self.n as usize;

        // Validate decommitments
        let mut blame: Vec<u16> = Vec::new();
        let mut j: u16 = 0;
        while j < self.n
            invariant
                j <= self.n,
                blame@ == flagged(bad, j as int),
            decreases self.n - j,
        {
            let d = &decommitments[j as usize];
            let c = &commitments[j as usize];
            let shaped = d.rho.len() == rid_len && d.Ys.len() == n && d.sch_commits.len() == n;
            let opens = if shaped {
                let expected = refresh_commitment(&self.tag, self.n, j, d);
                crate::bytes::bytes_eq(c.commitment.as_slice(), expected.as_slice())
            } else {
                false
            };
            if !opens {
                blame.push(j);
            }
            j += 1;
        }
        if blame.len() != 0 {
            return Err(
                KeyRefreshError::Aborted(RefreshAborted::InvalidDecommitment { parties: blame }),
            );
        }
        // Validate the moduli and the ring-Pedersen parameters

        let mut blame: Vec<u16> = Vec::new();
        let mut j: u16 = 0;
        while j < self.n
            invariant
                j <= self.n,
                blame@ == flagged(weak, j as int),
            decreases self.n - j,
        {
            if decommitments[j as usize].aux.validate::<L>().is_err() {
                blame.push(j);
            }
            j += 1;
        }
        if blame.len() != 0 {
            return Err(KeyRefreshError::Aborted(RefreshAborted::InvalidAux { parties: blame }));
        }
        // What each party showed for its summands must add up to zero

        let mut blame: Vec<u16> = Vec::new();
        let mut j: u16 = 0;
        while j < self.n
            invariant
                j <= self.n,
                blame@ == flagged(skewed, j as int),
            decreases self.n - j,
        {
            if !sum_points(&decommitments[j as usize].Ys).is_zero() {
                blame.push(j);
            }
            j += 1;
        }
        if blame.len() != 0 {
            return Err(
                KeyRefreshError::Aborted(RefreshAborted::InvalidRerandomization { parties: blame }),
            );
        }
        // The random identifier

        let mut rho: Vec<u8> = Vec::new();
        let mut k: usize = 0;
        while k < rid_len
            invariant
                k <= rid_len,
                rho@ == Seq::new(k as nat, |m: int| 0u8),
            decreases rid_len - k,
        {
            rho.push(0);
            assert(rho@ =~= Seq::new((k + 1) as nat, |m: int| 0u8));
            k += 1;
        }
        let ghost rhos = Seq::new(ds.len(), |k: int| ds[k].rho@);
        let mut j: usize = 0;
        while j < n
            invariant
                j <= n,
                rho@ == xor_all(rhos, rid_len as int, j as int),
            decreases n - j,
        {
            rho = xor_array(rho, decommitments[j].rho.as_slice());
            j += 1;
        }
        // The proofs that the party knows its summands

        let challenge = challenge(&self.tag, self.i, rho.as_slice());
        let mut sch_proofs: Vec<Scalar> = Vec::new();
        let mut k: usize = 0;
        while k < n
            invariant
                k <= n,
                sch_proofs@.len() == k,
                forall|m: int|
                    0 <= m < k ==> (#[trigger] sch_proofs@[m])@ == schnorr_response(
                        sch_nonces@[m]@,
                        challenge@,
                        summands@[m]@,
                    ),
            decreases n - k,
        {
            sch_proofs.push(crate::schnorr::prove(&sch_nonces[k], &challenge, &summands[k]));
            k += 1;
        }
        proof {
            assert(values(sch_proofs@) =~= responses(
                values(sch_nonces@),
                challenge@,
                values(summands@),
                n as int,
            ));
        }
        Ok((RefreshRound3 { rho, decommitments }, MsgRound3 { sch_proofs }))
    }
}

/// The blame for the first `upto` peers of party `i`: one entry, in the peers' order, for
/// each of which a proof is invalid.
pub open spec fn proof_blamed(i: u16, verdicts: Seq<ProofVerdict>, upto: int) -> Seq<ProofBlame>
    decreases upto,
{
    if upto <= 0 {
        Seq::empty()
    } else if verdicts[upto - 1].faulty() {
        proof_blamed(i, verdicts, upto - 1).push(
            ProofBlame {
                party: crate::rounds::sender_of(i, upto - 1) as u16,
                verdict: verdicts[upto - 1],
            },
        )
    } else {
        proof_blamed(i, verdicts, upto - 1)
    }
}

/// No one is blamed for a proof if and only if every proof is valid.
pub proof fn lemma_proof_blamed_empty(i: u16, verdicts: Seq<ProofVerdict>, upto: int)
    requires
        0 <= upto <= verdicts.len(),
    ensures
        proof_blamed(i, verdicts, upto).len() == 0 <==> forall|k: int|
            0 <= k < upto ==> !verdicts[k].faulty(),
    decreases upto,
{
    if upto > 0 {
        lemma_proof_blamed_empty(i, verdicts, upto - 1);
    }
}

/// What the parties showed for the summands of party `j`, in the order of the parties.
pub open spec fn shown_for(ds: Seq<MsgRound2>, j: int) -> Seq<Point> {
    Seq::new(ds.len(), |k: int| ds[k].Ys@[j])
}

/// What the parties showed for the summands of each party.
pub open spec fn shown_by_all(ds: Seq<MsgRound2>) -> Seq<Seq<Point>> {
    Seq::new(ds.len(), |j: int| shown_for(ds, j))
}

/// The public data of the parties, as their decommitments show it.
pub open spec fn opened_aux(ds: Seq<MsgRound2>) -> Seq<PartyAux> {
    Seq::new(ds.len(), |j: int| ds[j].aux)
}

impl<'a, L: SecurityLevel> KeyRefreshBuilder<'a, L> {
    /// Whether the Schnorr proofs of party `j` fail: there is not one for each summand, or
    /// one does not verify against what the party showed for that summand.
    pub open spec fn schnorr_fails(self, rid: Seq<u8>, j: int, d: MsgRound2, m: MsgRound3) -> bool {
        m.sch_proofs@.len() != self.parties() || exists|k: int|
            0 <= k < self.parties() && !schnorr_accepts(
                (#[trigger] m.sch_proofs@[k])@,
                d.sch_commits@[k]@,
                challenge_of(self.tag(), j as u16, rid),
                d.Ys@[k]@,
            )
    }

    /// Whether the Schnorr proofs of each party fail.
    pub open spec fn schnorr_flags(self, rid: Seq<u8>, ds: Seq<MsgRound2>, ms: Seq<MsgRound3>) -> Seq<
        bool,
    > {
        Seq::new(ds.len(), |j: int| self.schnorr_fails(rid, j, ds[j], ms[j]))
    }

    /// Whether the summand that each party sent to this party is not the one that it showed.
    pub open spec fn summand_flags(self, ds: Seq<MsgRound2>, received: Seq<Scalar>) -> Seq<bool> {
        Seq::new(
            ds.len(),
            |j: int| spec_generator_mul(received[j]@) != ds[j].Ys@[self.party() as int]@,
        )
    }

    /// Whether the Schnorr proofs of one party fail.
    #[verifier::loop_isolation(false)]
    fn check_schnorr(&self, rid: &Vec<u8>, j: u16, d: &MsgRound2, m: &MsgRound3) -> (r: bool)
        requires
            d.Ys@.len() == self.parties(),
            d.sch_commits@.len() == self.parties(),
        ensures
            r == self.schnorr_fails(rid@, j as int, *d, *m),
    {
        let n: usize = self.n as usize;
        if m.sch_proofs.len() != n {
            return true;
        }
        let e = challenge(&self.tag, j, rid.as_slice());
        let mut k: usize = 0;
        while k < n
            invariant
                k <= n,
                forall|a: int|
                    0 <= a < k ==> schnorr_accepts(
                        (#[trigger] m.sch_proofs@[a])@,
                        d.sch_commits@[a]@,
                        e@,
                        d.Ys@[a]@,
                    ),
            decreases n - k,
        {
            if !crate::schnorr::verify(&m.sch_proofs[k], &d.sch_commits[k], &e, &d.Ys[k]) {
                assert(0 <= k < self.parties() && !schnorr_accepts(
                    m.sch_proofs@[k as int]@,
                    d.sch_commits@[k as int]@,
                    challenge_of(self.tag(), j, rid@),
                    d.Ys@[k as int]@,
                ));
                return true;
            }
            k += 1;
        }
        false
    }

    /// Output: takes the verdicts on the peers' proofs Π mod, Π fac and Π prm, the parties'
    /// Schnorr proofs, and the summands that the parties drew for this party, as it decrypted
    /// them. The parties with an invalid proof are blamed, all of them; else those whose
    /// Schnorr proofs fail; else those whose summand is not the one that they showed. Then the
    /// auxiliary data is put together from the party's primes and the parties' decommitments,
    /// and must be valid; and where the shares of a key are refreshed, `old_share` is updated
    /// as [`refresh_key_share`] says.
    #[verifier::loop_isolation(false)]
    pub fn output(
        &self,
        state: RefreshRound3,
        my_sch_proofs: MsgRound3,
        sch_proofs: RoundMsgs<MsgRound3>,
        verdicts: &[ProofVerdict],
        received: &Vec<Scalar>,
    ) -> (r: Result<RefreshOutput, KeyRefreshError>)
        requires
            self.expects(sch_proofs),
            verdicts@.len() == self.parties() - 1,
            state.decommitments().len() == self.parties(),
            forall|j: int|
                0 <= j < self.parties() ==> (#[trigger] state.decommitments()[j]).Ys@.len()
                    == self.parties() && state.decommitments()[j].sch_commits@.len()
                    == self.parties(),
        ensures
            ({
                let i = self.party();
                let n = self.parties() as int;
                let ds = state.decommitments();
                let ms = sch_proofs.messages().insert(i as int, my_sch_proofs);
                let unproved = proof_blamed(i, verdicts@, verdicts@.len() as int);
                let unknown = flagged(self.schnorr_flags(state.rid(), ds, ms), n);
                let unlike = flagged(self.summand_flags(ds, received@), n);
                let counted = received@.len() == n && (self.refreshed() matches Some(old)
                    ==> old.public_shares@.len() == n);
                let aux_failure = crate::key_share::aux_failure_of::<L>(
                    self.primes().p_number(),
                    self.primes().q_number(),
                    opened_aux(ds),
                    i,
                );
                let share_failure = match self.refreshed() {
                    Some(old) => refresh_failure(old, received@, shown_by_all(ds)),
                    None => None,
                };
                &&& r is Ok <==> unproved.len() == 0 && unknown.len() == 0 && counted
                    && unlike.len() == 0 && aux_failure is None && share_failure is None
                &&& r matches Err(e) ==> match e {
                    KeyRefreshError::Aborted(RefreshAborted::InvalidProof { parties }) => parties@
                        == unproved && unproved.len() != 0,
                    KeyRefreshError::Aborted(RefreshAborted::InvalidSchnorrProof { parties }) =>
                        unproved.len() == 0 && parties@ == unknown && unknown.len() != 0,
                    KeyRefreshError::Aborted(RefreshAborted::InvalidSummand { parties }) =>
                        unproved.len() == 0 && unknown.len() == 0 && counted && parties@
                            == unlike && unlike.len() != 0,
                    KeyRefreshError::Aborted(RefreshAborted::InvalidAuxInfo(f)) => unproved.len()
                        == 0 && unknown.len() == 0 && counted && unlike.len() == 0
                        && aux_failure == Some(f),
                    KeyRefreshError::Aborted(_) => false,
                    other => unproved.len() == 0 && unknown.len() == 0 && if counted {
                        unlike.len() == 0 && aux_failure is None && share_failure == Some(other)
                    } else {
                        other == KeyRefreshError::WrongNumberOfParties
                    },
                }
                &&& r matches Ok(out) ==> {
                    &&& unproved.len() == 0
                    &&& unknown.len() == 0
                    &&& received@.len() == n
                    &&& unlike.len() == 0
                    &&& out.aux.p@ == self.primes().p()
                    &&& out.aux.q@ == self.primes().q()
                    &&& out.aux.parties@.len() == n
                    &&& forall|j: int|
                        0 <= j < n ==> (#[trigger] out.aux.parties@[j]).N@ == ds[j].aux.N@
                            && out.aux.parties@[j].s@ == ds[j].aux.s@ && out.aux.parties@[j].t@
                            == ds[j].aux.t@
                    &&& out.aux.valid::<L>(i)
                    &&& self.refreshes() <==> out.share is Some
                    &&& out.share matches Some(share) ==> {
                        &&& self.refreshed() matches Some(old)
                        &&& share.i == old.i
                        &&& share.shared_public_key@ == old.shared_public_key@
                        &&& share.x@ == refreshed_secret(old.x@, values(received@))
                        &&& share.public_shares@.len() == n
                        &&& forall|j: int|
                            0 <= j < n ==> (#[trigger] share.public_shares@[j])@ == spec_point_add(
                                old.public_shares@[j]@,
                                public_shift(shown_for(ds, j)),
                            )
                        &&& share.failure() is None
                        &&& share.rid@ == old.rid@
                        &&& share.vss_setup is None
                        &&& share.public_shares@[share.i as int]@ == spec_generator_mul(share.x@)
                        &&& share.shared_public_key@ == point_sum(
                            encodings(share.public_shares@),
                        )
                    }
                }
            }),
    {
        let ghost i = self.party();
        let ghost ds = state.decommitments();
        let ghost ms = sch_proofs.messages().insert(i as int, my_sch_proofs);
        let ghost known = self.schnorr_flags(state.rid(), ds, ms);
        let ghost like = self.summand_flags(ds, received@);
        let n: usize = self.n as usize;

        // The proofs of the peers
        let mut blame: Vec<ProofBlame> = Vec::new();
        let mut k: usize = 0;
        while k < verdicts.len()
            invariant
                k <= verdicts@.len(),
                blame@ == proof_blamed(self.i, verdicts@, k as int),
            decreases verdicts@.len() - k,
        {
            let v = verdicts[k];
            if v.mod_invalid || v.fac_invalid || v.prm_invalid {
                let party: u16 = if k < self.i as usize {
                    k as u16
                } else {
                    (k + 1) as u16
                };
                blame.push(ProofBlame { party, verdict: v });
            }
            k += 1;
        }
        if blame.len() != 0 {
            return Err(KeyRefreshError::Aborted(RefreshAborted::InvalidProof { parties: blame }));
        }
        // The Schnorr proofs

        let sch_proofs = sch_proofs.into_vec_including_me(my_sch_proofs);
        let mut blame: Vec<u16> = Vec::new();
        let mut j: u16 = 0;
        while j < self.n
            invariant
                j <= self.n,
                blame@ == flagged(known, j as int),
            decreases self.n - j,
        {
            if self.check_schnorr(
                &state.rho,
                j,
                &state.decommitments[j as usize],
                &sch_proofs[j as usize],
            ) {
                blame.push(j);
            }
            j += 1;
        }
        if blame.len() != 0 {
            return Err(
                KeyRefreshError::Aborted(RefreshAborted::InvalidSchnorrProof { parties: blame }),
            );
        }
        // The summands that were sent to this party

        if received.len() != n {
            return Err(KeyRefreshError::WrongNumberOfParties);
        }
        match self.old_share {
            Some(old) => {
                if old.public_shares.len() != n {
                    return Err(KeyRefreshError::WrongNumberOfParties);
                }
            },
            None => {},
        }
        let mut blame: Vec<u16> = Vec::new();
        let mut j: u16 = 0;
        while j < self.n
            invariant
                j <= self.n,
                blame@ == flagged(like, j as int),
            decreases self.n - j,
        {
            let shown = &state.decommitments[j as usize].Ys[self.i as usize];
            if !Point::generator_mul(&received[j as usize]).eq(shown) {
                blame.push(j);
            }
            j += 1;
        }
        if blame.len() != 0 {
            return Err(KeyRefreshError::Aborted(RefreshAborted::InvalidSummand { parties: blame }));
        }
        // The auxiliary data

        let mut parties: Vec<PartyAux> = Vec::new();
        let mut j: usize = 0;
        while j < n
            invariant
                j <= n,
                parties@.len() == j,
                forall|m: int|
                    0 <= m < j ==> (#[trigger] parties@[m]).N@ == ds[m].aux.N@ && parties@[m].s@
                        == ds[m].aux.s@ && parties@[m].t@ == ds[m].aux.t@,
                forall|m: int|
                    0 <= m < j ==> crate::key_share::same_number(
                        (#[trigger] parties@[m]).N,
                        ds[m].aux.N,
                    ) && crate::key_share::same_number(parties@[m].s, ds[m].aux.s)
                        && crate::key_share::same_number(parties@[m].t, ds[m].aux.t),
            decreases n - j,
        {
            parties.push(state.decommitments[j].aux.duplicate());
            j += 1;
        }
        let aux = AuxInfo { p: self.primes.p.duplicate(), q: self.primes.q.duplicate(), parties };
        proof {
            crate::key_share::lemma_aux_failure_of_numbers::<L>(
                aux.p,
                aux.q,
                aux.parties@,
                self.primes().p_number(),
                self.primes().q_number(),
                opened_aux(ds),
                self.i,
            );
        }
        match aux.validate::<L>(self.i) {
            Ok(()) => {},
            Err(e) => {
                return Err(KeyRefreshError::Aborted(RefreshAborted::InvalidAuxInfo(e)));
            },
        }
        // The share of the key

        let old = match self.old_share {
            Some(old) => old,
            None => {
                return Ok(RefreshOutput { share: None, aux });
            },
        };
        let mut shown: Vec<Vec<Point>> = Vec::new();
        let mut j: usize = 0;
        while j < n
            invariant
                j <= n,
                shown@.len() == j,
                forall|m: int| 0 <= m < j ==> (#[trigger] shown@[m])@ == shown_for(ds, m),
            decreases n - j,
        {
            let mut column: Vec<Point> = Vec::new();
            let mut k: usize = 0;
            while k < n
                invariant
                    k <= n,
                    j < n,
                    column@.len() == k,
                    forall|m: int| 0 <= m < k ==> #[trigger] column@[m] == ds[m].Ys@[j as int],
                decreases n - k,
            {
                column.push(state.decommitments[k].Ys[j]);
                k += 1;
            }
            assert(column@ =~= shown_for(ds, j as int));
            shown.push(column);
            j += 1;
        }
        assert(rows(shown@) =~= shown_by_all(ds));
        match refresh_key_share(old, received, &shown) {
            Ok(share) => Ok(RefreshOutput { share: Some(share), aux }),
            Err(e) => Err(e),
        }
    }
}

} // verus!

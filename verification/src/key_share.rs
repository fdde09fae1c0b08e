//! Key shares: what a party holds after key generation and after the auxiliary data was made.

use crate::bignumber::bit_length_of;
use crate::bignumber::gcd;
use crate::bignumber::BigNumber;
use crate::bytes::be_nat;
use crate::point::encodings;
use crate::point::point_sum;
use crate::point::spec_generator_mul;
use crate::point::spec_point_add;
use crate::point::spec_point_mul;
use crate::point::sum_points;
use crate::point::Point;
use crate::security_level::validate_public_paillier_key_size;
use crate::security_level::validate_secret_paillier_key_size;
use crate::security_level::SecurityLevel;
use crate::utils::in_mult_group;
use crate::utils::lagrange_coefficient;
use crate::utils::lagrange_defined;
use crate::utils::lagrange_value;
use crate::utils::nonzero_values;
use crate::scalar::NonZeroScalar;
use crate::scalar::Scalar;
use vstd::prelude::*;

verus! {

/// Parameters of a key that was shared with a threshold.
pub struct VssSetup {
    /// The number of signers that can sign together.
    pub min_signers: u16,
    /// The point at which each party's share evaluates the sharing polynomial: `I[j]` is that
    /// of party `j`.
    pub I: Vec<NonZeroScalar>,
}

/// What key generation gives a party: its share of the secret key and the public data of
/// all parties.
pub struct IncompleteKeyShare {
    /// Index of the party that holds this share.
    pub i: u16,
    /// The public key that the parties share.
    pub shared_public_key: Point,
    /// The public share of each party: `public_shares[j]` is the generator multiplied by the
    /// secret share of party `j`.
    pub public_shares: Vec<Point>,
    /// The secret share of this party.
    pub x: Scalar,
    /// The random identifier that the parties drew together.
    pub rid: Vec<u8>,
    /// Present if the key was shared with a threshold.
    pub vss_setup: Option<VssSetup>,
}

/// The public auxiliary data of one party.
pub struct PartyAux {
    /// The Paillier modulus `N = p * q`.
    pub N: BigNumber,
    /// Ring-Pedersen parameter `s`.
    pub s: BigNumber,
    /// Ring-Pedersen parameter `t`.
    pub t: BigNumber,
}

impl PartyAux {
    /// A copy of the data.
    pub fn duplicate(&self) -> (r: PartyAux)
        ensures
            same_number(r.N, self.N),
            same_number(r.s, self.s),
            same_number(r.t, self.t),
            r.N@ == self.N@,
            r.s@ == self.s@,
            r.t@ == self.t@,
            r.N.magnitude@ == self.N.magnitude@,
            r.s.magnitude@ == self.s.magnitude@,
            r.t.magnitude@ == self.t.magnitude@,
    {
        PartyAux { N: self.N.duplicate(), s: self.s.duplicate(), t: self.t.duplicate() }
    }
}

/// The auxiliary data of a party: its own Paillier primes and the public data of all.
pub struct AuxInfo {
    /// Secret prime `p`.
    pub p: BigNumber,
    /// Secret prime `q`.
    pub q: BigNumber,
    /// The public data of each party: `parties[j]` is that of party `j`.
    pub parties: Vec<PartyAux>,
}

/// A key share that can sign: the share of the key and the auxiliary data.
pub struct KeyShare {
    /// The share of the key.
    pub core: IncompleteKeyShare,
    /// The auxiliary data.
    pub aux: AuxInfo,
}

/// A key share that does not hold what a key share must.
#[derive(Clone, Copy, Debug, PartialEq, Eq, Structural)]
pub enum InvalidKeyShare {
    /// The party's index is not below the number of parties.
    PartyIndexOutOfBounds,
    /// The secret share does not match the party's public share.
    PartySecretShareDoesntMatchPublicShare,
    /// The public shares do not add up to the shared public key.
    SharesDontMatchPublicKey,
    /// The threshold parameters do not fit the number of parties.
    InvalidVssSetup,
    /// Two parties have the same evaluation point.
    RepeatedEvaluationPoint,
    /// The auxiliary data is for another number of parties.
    AuxWrongNumberOfParties,
    /// A Paillier modulus is too short.
    PaillierPublicKeyTooSmall,
    /// A Paillier prime is too short.
    PaillierSecretKeyTooSmall,
    /// A Paillier prime is not 3 modulo 4.
    PrimeNotBlum,
    /// The party's modulus is not the product of its primes.
    PrimesDontMatchModulus,
    /// The party's primes have a divisor in common.
    PrimesNotCoprime,
    /// A ring-Pedersen parameter is not in the multiplicative group of its modulus.
    InvalidRingPedersenParameters,
    /// A public share is not the value, at its party's point, of the polynomial that the key
    /// was shared with.
    SharesDontMatchPolynomial,
}

/// The first `upto` public shares, each multiplied by the Lagrange coefficient of its node
/// among the first `t` nodes at the point `x`, and added up from the left.
pub open spec fn interpolated(x: nat, nodes: Seq<nat>, shares: Seq<Seq<u8>>, upto: int) -> Seq<u8>
    decreases upto,
{
    if upto <= 0 {
        crate::point::identity()
    } else if upto == 1 {
        spec_point_mul(shares[0], lagrange_value(x, 0, nodes))
    } else {
        spec_point_add(
            interpolated(x, nodes, shares, upto - 1),
            spec_point_mul(shares[upto - 1], lagrange_value(x, upto - 1, nodes)),
        )
    }
}

/// Whether the Lagrange coefficients at `x` of all the nodes exist.
pub open spec fn interpolates(x: nat, nodes: Seq<nat>) -> bool {
    forall|j: int| 0 <= j < nodes.len() ==> lagrange_defined(x, j, nodes)
}

/// The public key that the shares at `nodes` give at the point `x`: `None` where a Lagrange
/// coefficient does not exist.
pub fn interpolate(x: &Scalar, nodes: &[NonZeroScalar], shares: &[Point]) -> (r: Option<Point>)
    requires
        nodes@.len() <= shares@.len(),
        nodes@.len() <= u16::MAX,
    ensures
        r is Some <==> interpolates(x@, nonzero_values(nodes@)),
        r matches Some(p) ==> p@ == interpolated(
            x@,
            nonzero_values(nodes@),
            encodings(shares@),
            nodes@.len() as int,
        ),
{
    let t: usize = nodes.len();
    let mut terms: Vec<Point> = Vec::new();
    let mut j: usize = 0;
    let mut acc = Point::zero();
    while j < t
        invariant
            j <= t,
            t == nodes@.len(),
            t <= shares@.len(),
            t <= u16::MAX,
            forall|m: int| 0 <= m < j ==> lagrange_defined(x@, m, nonzero_values(nodes@)),
            acc@ == interpolated(x@, nonzero_values(nodes@), encodings(shares@), j as int),
        decreases t - j,
    {
        let lambda = match lagrange_coefficient(*x, j as u16, nodes) {
            Some(l) => l,
            None => {
                return None;
            },
        };
        let term = shares[j].mul(&lambda.to_scalar());
        if j == 0 {
            acc = term;
        } else {
            acc = acc.add(&term);
        }
        j += 1;
    }
    Some(acc)
}

/// Whether the public share of party `j` is the value at the party's point of the polynomial
/// that the key was shared with: the first `t` public shares give that polynomial, so they
/// give its value at every other point by interpolation.
pub open spec fn on_polynomial(I: Seq<NonZeroScalar>, shares: Seq<Seq<u8>>, t: int, j: int) -> bool {
    let nodes = nonzero_values(I.subrange(0, t));
    interpolates(I[j]@, nodes) && shares[j] == interpolated(I[j]@, nodes, shares, t)
}

/// What is wrong with a share without a threshold that party `i` holds, if anything: `x` is
/// its secret share, `pk` the shared public key, and `shares` are the public shares.
pub open spec fn additive_failure(i: u16, x: nat, pk: Seq<u8>, shares: Seq<Seq<u8>>) -> Option<
    InvalidKeyShare,
> {
    if shares.len() > u16::MAX || i >= shares.len() {
        Some(InvalidKeyShare::PartyIndexOutOfBounds)
    } else if spec_generator_mul(x) != shares[i as int] {
        Some(InvalidKeyShare::PartySecretShareDoesntMatchPublicShare)
    } else if pk != point_sum(shares) {
        Some(InvalidKeyShare::SharesDontMatchPublicKey)
    } else {
        None
    }
}

impl IncompleteKeyShare {
    /// What is wrong with a share without a threshold is what [`additive_failure`] says.
    pub proof fn lemma_additive_failure(self)
        requires
            self.vss_setup is None,
        ensures
            self.failure() == additive_failure(
                self.i,
                self.x@,
                self.shared_public_key@,
                encodings(self.public_shares@),
            ),
    {
        if self.i < self.public_shares@.len() {
            assert(encodings(self.public_shares@)[self.i as int] == self.public_shares@[self.i
                as int]@);
        }
    }

    /// Whether the first `upto` evaluation points differ from one another.
    pub open spec fn distinct_points(I: Seq<NonZeroScalar>, upto: int) -> bool {
        forall|a: int, b: int| 0 <= a < b < upto ==> (#[trigger] I[a])@ != (#[trigger] I[b])@
    }

    /// What is wrong with the share, if anything: the first violation in the order of
    /// [`InvalidKeyShare`].
    pub open spec fn failure(self) -> Option<InvalidKeyShare> {
        let n = self.public_shares@.len();
        if n > u16::MAX || self.i >= n {
            Some(InvalidKeyShare::PartyIndexOutOfBounds)
        } else if spec_generator_mul(self.x@) != self.public_shares@[self.i as int]@ {
            Some(InvalidKeyShare::PartySecretShareDoesntMatchPublicShare)
        } else {
            match self.vss_setup {
                None => if self.shared_public_key@ != point_sum(encodings(self.public_shares@)) {
                    Some(InvalidKeyShare::SharesDontMatchPublicKey)
                } else {
                    None
                },
                Some(vss) => if vss.I@.len() != n || vss.min_signers < 1 || vss.min_signers
                    > n {
                    Some(InvalidKeyShare::InvalidVssSetup)
                } else if !Self::distinct_points(vss.I@, n as int) {
                    Some(InvalidKeyShare::RepeatedEvaluationPoint)
                } else if !interpolates(
                    0,
                    nonzero_values(vss.I@.subrange(0, vss.min_signers as int)),
                ) {
                    Some(InvalidKeyShare::InvalidVssSetup)
                } else if self.shared_public_key@ != interpolated(
                    0,
                    nonzero_values(vss.I@.subrange(0, vss.min_signers as int)),
                    encodings(self.public_shares@),
                    vss.min_signers as int,
                ) {
                    Some(InvalidKeyShare::SharesDontMatchPublicKey)
                } else if exists|j: int|
                    vss.min_signers <= j < n && !on_polynomial(
                        vss.I@,
                        encodings(self.public_shares@),
                        vss.min_signers as int,
                        j,
                    ) {
                    Some(InvalidKeyShare::SharesDontMatchPolynomial)
                } else {
                    None
                },
            }
        }
    }

    /// Validates the share: the party is one of the parties, its secret share matches its
    /// public share, and the public shares give the shared public key: as their sum where the
    /// key has no threshold, and by interpolation at zero of as many shares as the threshold
    /// says where it has one, whose evaluation points must differ from one another. Where the
    /// key has a threshold, every other public share must be what those shares give at its
    /// party's point.
    #[verifier::loop_isolation(false)]
    pub fn validate(&self) -> (r: Result<(), InvalidKeyShare>)
        ensures
            r is Ok <==> self.failure() is None,
            r matches Err(e) ==> self.failure() == Some(e),
    {
        let n: usize = self.public_shares.len();
        if n > 0xffff || self.i as usize >= n {
            return Err(InvalidKeyShare::PartyIndexOutOfBounds);
        }
        if !Point::generator_mul(&self.x).eq(&self.public_shares[self.i as usize]) {
            return Err(InvalidKeyShare::PartySecretShareDoesntMatchPublicShare);
        }
        match &self.vss_setup {
            None => {
                if !self.shared_public_key.eq(&sum_points(&self.public_shares)) {
                    return Err(InvalidKeyShare::SharesDontMatchPublicKey);
                }
                Ok(())
            },
            Some(vss) => {
                if vss.I.len() != n || vss.min_signers < 1 || vss.min_signers as usize > n {
                    return Err(InvalidKeyShare::InvalidVssSetup);
                }
                let mut b: usize = 0;
                while b < n
                    invariant
                        b <= n,
                        n == vss.I@.len(),
                        Self::distinct_points(vss.I@, b as int),
                    decreases n - b,
                {
                    let mut a: usize = 0;
                    while a < b
                        invariant
                            a <= b < n,
                            n == vss.I@.len(),
                            Self::distinct_points(vss.I@, b as int),
                            forall|m: int| 0 <= m < a ==> (#[trigger] vss.I@[m])@ != vss.I@[b as int]@,
                        decreases b - a,
                    {
                        if vss.I[a].to_scalar().eq(&vss.I[b].to_scalar()) {
                            assert(vss.I@[a as int]@ == vss.I@[b as int]@);
                            assert(!Self::distinct_points(vss.I@, n as int));
                            return Err(InvalidKeyShare::RepeatedEvaluationPoint);
                        }
                        a += 1;
                    }
                    b += 1;
                }
                let t: usize = vss.min_signers as usize;
                let nodes = vstd::slice::slice_subrange(vss.I.as_slice(), 0, t);
                let zero = Scalar::zero();
                match interpolate(&zero, nodes, self.public_shares.as_slice()) {
                    None => {
                        return Err(InvalidKeyShare::InvalidVssSetup);
                    },
                    Some(pk) => {
                        if !self.shared_public_key.eq(&pk) {
                            return Err(InvalidKeyShare::SharesDontMatchPublicKey);
                        }
                    },
                }
                let mut j: usize = t;
                while j < n
                    invariant
                        t <= j <= n,
                        n == self.public_shares@.len(),
                        n == vss.I@.len(),
                        t == vss.min_signers,
                        nodes@ == vss.I@.subrange(0, t as int),
                        forall|m: int|
                            t <= m < j ==> on_polynomial(
                                vss.I@,
                                encodings(self.public_shares@),
                                t as int,
                                m,
                            ),
                    decreases n - j,
                {
                    let point = vss.I[j].to_scalar();
                    let on = match interpolate(&point, nodes, self.public_shares.as_slice()) {
                        None => false,
                        Some(share) => share.eq(&self.public_shares[j]),
                    };
                    proof {
                        assert(encodings(self.public_shares@)[j as int]
                            == self.public_shares@[j as int]@);
                    }
                    if !on {
                        assert(!on_polynomial(
                            vss.I@,
                            encodings(self.public_shares@),
                            t as int,
                            j as int,
                        ));
                        return Err(InvalidKeyShare::SharesDontMatchPolynomial);
                    }
                    j += 1;
                }
                Ok(())
            },
        }
    }
}

impl PartyAux {
    /// What is wrong with a party's public data at the security level `L`, if anything: the
    /// modulus has fewer than $8\kappa - 1$ bits, or a ring-Pedersen parameter is not in the
    /// multiplicative group of the modulus.
    pub open spec fn failure<L: SecurityLevel>(self) -> Option<InvalidKeyShare> {
        if bit_length_of(be_nat(self.N.magnitude@)) < 8 * L::spec_security_bits() - 1 {
            Some(InvalidKeyShare::PaillierPublicKeyTooSmall)
        } else if !in_mult_group(self.s, self.N) || !in_mult_group(self.t, self.N) {
            Some(InvalidKeyShare::InvalidRingPedersenParameters)
        } else {
            None
        }
    }

    /// Validates a party's public data at the security level `L`.
    pub fn validate<L: SecurityLevel>(&self) -> (r: Result<(), InvalidKeyShare>)
        ensures
            r is Ok <==> self.failure::<L>() is None,
            r matches Err(e) ==> self.failure::<L>() == Some(e),
    {
        if !validate_public_paillier_key_size::<L>(&self.N) {
            return Err(InvalidKeyShare::PaillierPublicKeyTooSmall);
        }
        if !crate::utils::is_in_mult_group(&self.s, &self.N) || !crate::utils::is_in_mult_group(
            &self.t,
            &self.N,
        ) {
            return Err(InvalidKeyShare::InvalidRingPedersenParameters);
        }
        Ok(())
    }
}

/// What is wrong with the public data of the first `upto` parties at the security level `L`,
/// if anything: the failure of the first party that has one.
pub open spec fn first_aux_failure<L: SecurityLevel>(parties: Seq<PartyAux>, upto: int) -> Option<
    InvalidKeyShare,
>
    decreases upto,
{
    if upto <= 0 {
        None
    } else {
        match first_aux_failure::<L>(parties, upto - 1) {
            Some(e) => Some(e),
            None => parties[upto - 1].failure::<L>(),
        }
    }
}

/// What is wrong with the primes `p` and `q` of party `i` at the security level `L`, if
/// anything: the party is none of the parties, a prime is too short or not 3 modulo 4, the
/// primes have a divisor in common, or they do not multiply to the party's modulus.
pub open spec fn primes_failure_of<L: SecurityLevel>(
    p: BigNumber,
    q: BigNumber,
    parties: Seq<PartyAux>,
    i: u16,
) -> Option<InvalidKeyShare> {
    let pm = be_nat(p.magnitude@);
    let qm = be_nat(q.magnitude@);
    if i >= parties.len() {
        Some(InvalidKeyShare::PartyIndexOutOfBounds)
    } else if bit_length_of(pm) < 4 * L::spec_security_bits() || bit_length_of(qm) < 4
        * L::spec_security_bits() {
        Some(InvalidKeyShare::PaillierSecretKeyTooSmall)
    } else if pm % 4 != 3 || qm % 4 != 3 {
        Some(InvalidKeyShare::PrimeNotBlum)
    } else if gcd(pm, qm) != 1 {
        Some(InvalidKeyShare::PrimesNotCoprime)
    } else if p@ * q@ != parties[i as int].N@ {
        Some(InvalidKeyShare::PrimesDontMatchModulus)
    } else {
        None
    }
}

/// What is wrong with the auxiliary data of party `i` at the security level `L`, if
/// anything: the failure of the first party whose public data has one, or else that of the
/// party's primes.
pub open spec fn aux_failure_of<L: SecurityLevel>(
    p: BigNumber,
    q: BigNumber,
    parties: Seq<PartyAux>,
    i: u16,
) -> Option<InvalidKeyShare> {
    match first_aux_failure::<L>(parties, parties.len() as int) {
        Some(e) => Some(e),
        None => primes_failure_of::<L>(p, q, parties, i),
    }
}

/// Whether two numbers are the same number, written the same.
pub open spec fn same_number(a: BigNumber, b: BigNumber) -> bool {
    a.negative == b.negative && a.magnitude@ == b.magnitude@
}

/// What is wrong with auxiliary data depends on the numbers alone, not on where they are
/// held.
pub proof fn lemma_aux_failure_of_numbers<L: SecurityLevel>(
    p: BigNumber,
    q: BigNumber,
    parties: Seq<PartyAux>,
    p2: BigNumber,
    q2: BigNumber,
    parties2: Seq<PartyAux>,
    i: u16,
)
    requires
        same_number(p, p2),
        same_number(q, q2),
        parties.len() == parties2.len(),
        forall|j: int|
            0 <= j < parties.len() ==> same_number((#[trigger] parties[j]).N, parties2[j].N)
                && same_number(parties[j].s, parties2[j].s) && same_number(
                parties[j].t,
                parties2[j].t,
            ),
    ensures
        aux_failure_of::<L>(p, q, parties, i) == aux_failure_of::<L>(p2, q2, parties2, i),
{
    lemma_first_aux_failure_of_numbers::<L>(parties, parties2, parties.len() as int);
    if i < parties.len() {
        assert(same_number(parties[i as int].N, parties2[i as int].N));
    }
}

/// What is wrong with the parties' public data depends on the numbers alone.
proof fn lemma_first_aux_failure_of_numbers<L: SecurityLevel>(
    parties: Seq<PartyAux>,
    parties2: Seq<PartyAux>,
    upto: int,
)
    requires
        upto <= parties.len(),
        parties.len() == parties2.len(),
        forall|j: int|
            0 <= j < parties.len() ==> same_number((#[trigger] parties[j]).N, parties2[j].N)
                && same_number(parties[j].s, parties2[j].s) && same_number(
                parties[j].t,
                parties2[j].t,
            ),
    ensures
        first_aux_failure::<L>(parties, upto) == first_aux_failure::<L>(parties2, upto),
    decreases upto,
{
    if upto > 0 {
        lemma_first_aux_failure_of_numbers::<L>(parties, parties2, upto - 1);
        assert(same_number(parties[upto - 1].N, parties2[upto - 1].N));
    }
}

/// No party's public data has a failure if and only if there is no first failure.
pub proof fn lemma_first_aux_failure<L: SecurityLevel>(parties: Seq<PartyAux>, upto: int)
    requires
        0 <= upto <= parties.len(),
    ensures
        first_aux_failure::<L>(parties, upto) is None <==> forall|j: int|
            0 <= j < upto ==> (#[trigger] parties[j]).failure::<L>() is None,
    decreases upto,
{
    if upto > 0 {
        lemma_first_aux_failure::<L>(parties, upto - 1);
    }
}

impl AuxInfo {
    /// What is wrong with the auxiliary data of party `i` at the security level `L`, if
    /// anything.
    pub open spec fn failure<L: SecurityLevel>(self, i: u16) -> Option<InvalidKeyShare> {
        aux_failure_of::<L>(self.p, self.q, self.parties@, i)
    }

    /// Whether the auxiliary data of party `i` holds what it must at the security level `L`:
    /// the public data of every party is valid, and the party's primes are long enough, are
    /// both 3 modulo 4, have no divisor in common and multiply to the party's modulus.
    pub open spec fn valid<L: SecurityLevel>(self, i: u16) -> bool {
        self.failure::<L>(i) is None
    }

    /// Validates the auxiliary data of party `i` at the security level `L`. The error is that
    /// of the first party whose public data is not valid, or else that of the party's primes.
    pub fn validate<L: SecurityLevel>(&self, i: u16) -> (r: Result<(), InvalidKeyShare>)
        ensures
            r is Ok <==> self.valid::<L>(i),
            r matches Err(e) ==> self.failure::<L>(i) == Some(e),
    {
        let mut j: usize = 0;
        while j < self.parties.len()
            invariant
                j <= self.parties@.len(),
                first_aux_failure::<L>(self.parties@, j as int) is None,
            decreases self.parties@.len() - j,
        {
            match self.parties[j].validate::<L>() {
                Err(e) => {
                    proof {
                        lemma_first_failure_stays::<L>(
                            self.parties@,
                            j + 1,
                            self.parties@.len() as int,
                        );
                    }
                    return Err(e);
                },
                Ok(()) => {},
            }
            j += 1;
        }
        if i as usize >= self.parties.len() {
            return Err(InvalidKeyShare::PartyIndexOutOfBounds);
        }
        if !validate_secret_paillier_key_size::<L>(&self.p, &self.q) {
            return Err(InvalidKeyShare::PaillierSecretKeyTooSmall);
        }
        if self.p.magnitude_mod_4() != 3 || self.q.magnitude_mod_4() != 3 {
            return Err(InvalidKeyShare::PrimeNotBlum);
        }
        if !self.p.gcd(&self.q).equals(&BigNumber::one()) {
            return Err(InvalidKeyShare::PrimesNotCoprime);
        }
        if !self.p.mul(&self.q).equals(&self.parties[i as usize].N) {
            return Err(InvalidKeyShare::PrimesDontMatchModulus);
        }
        Ok(())
    }
}

/// A first failure stays the first when more parties are looked at.
proof fn lemma_first_failure_stays<L: SecurityLevel>(parties: Seq<PartyAux>, from: int, upto: int)
    requires
        0 < from <= upto <= parties.len(),
        first_aux_failure::<L>(parties, from) is Some,
    ensures
        first_aux_failure::<L>(parties, upto) == first_aux_failure::<L>(parties, from),
    decreases upto - from,
{
    if from < upto {
        lemma_first_failure_stays::<L>(parties, from, upto - 1);
    }
}

impl KeyShare {
    /// Whether the key share holds what it must at the security level `L`: both parts are
    /// valid, and the auxiliary data is that of as many parties as the key has.
    pub open spec fn valid<L: SecurityLevel>(self) -> bool {
        &&& self.core.failure() is None
        &&& self.aux.parties@.len() == self.core.public_shares@.len()
        &&& self.aux.valid::<L>(self.core.i)
    }

    /// What is wrong with the key share at the security level `L`, if anything: what is
    /// wrong with the share of the key, if anything is; else that the auxiliary data is for
    /// another number of parties, if it is; else what is wrong with the auxiliary data.
    pub open spec fn failure<L: SecurityLevel>(self) -> Option<InvalidKeyShare> {
        match self.core.failure() {
            Some(e) => Some(e),
            None => if self.aux.parties@.len() != self.core.public_shares@.len() {
                Some(InvalidKeyShare::AuxWrongNumberOfParties)
            } else {
                self.aux.failure::<L>(self.core.i)
            },
        }
    }

    /// Validates the key share at the security level `L`: the error is that of the share of
    /// the key, if it has one; else that the auxiliary data is for another number of parties,
    /// if it is; else that of the auxiliary data.
    pub fn validate<L: SecurityLevel>(&self) -> (r: Result<(), InvalidKeyShare>)
        ensures
            r is Ok <==> self.valid::<L>(),
            r is Ok <==> self.failure::<L>() is None,
            r matches Err(e) ==> self.failure::<L>() == Some(e),
    {
        match self.core.validate() {
            Err(e) => {
                return Err(e);
            },
            Ok(()) => {},
        }
        if self.aux.parties.len() != self.core.public_shares.len() {
            return Err(InvalidKeyShare::AuxWrongNumberOfParties);
        }
        self.aux.validate::<L>(self.core.i)
    }
}

} // verus!

//! Threshold ECDSA of CGGMP'21: distributed key generation, signing with or without a
//! presignature, and what they share. Each protocol is a set of steps from a party's state
//! and what it received to its next state and what it sends; whoever drives the steps moves
//! the messages.

#![allow(non_snake_case)]

use crate::key_refresh::AuxInfoGenerationBuilder;
use crate::key_refresh::KeyRefreshBuilder;
use crate::key_refresh::PregeneratedPrimes;
use crate::key_share::IncompleteKeyShare;
use crate::key_share::KeyShare;
use crate::keygen::KeygenBuilder;
use crate::keygen::tag_of;
use crate::rounds::PartyIndex;
use crate::security_level::ReasonablySecure;
use crate::security_level::SecurityLevel;
use crate::signing::ExecutionId;
use crate::signing::SigningBuilder;
use vstd::prelude::*;

pub mod bignumber;
pub mod bytes;
pub mod hashing;
pub mod interpolation;
pub mod key_refresh;
pub mod key_share;
pub mod keygen;
pub mod persist;
pub mod point;
pub mod progress;
pub mod rounds;
pub mod scalar;
pub mod schnorr;
pub mod security_level;
pub mod session;
pub mod signing;
pub mod threshold;
pub mod utils;
pub mod zk;

verus! {

/// Distributed key generation protocol
///
/// Instantiates [KeygenBuilder] with [ReasonablySecure] security level
/// and sha2-256 digest.
pub fn keygen(i: u16, n: u16) -> (r: KeygenBuilder<ReasonablySecure>)
    ensures
        r.party() == i,
        r.parties() == n,
        r.tag() == tag_of(Seq::empty()),
{
    KeygenBuilder::new(i, n)
}

/// Protocol for finalizing the keygen by generating aux info.
///
/// Index `i` of party should be the same as index inside the keyshare you are
/// going to use this aux info with
pub fn aux_info_gen<'a, L: SecurityLevel>(
    i: u16,
    n: u16,
    pregenerated: PregeneratedPrimes<L>,
) -> (r: AuxInfoGenerationBuilder<'a, L>)
    ensures
        r.party() == i,
        r.parties() == n,
        r.primes() == pregenerated,
        !r.refreshes(),
{
    KeyRefreshBuilder::new_aux_gen(i, n, pregenerated)
}

/// Protocol for performing key refresh. Can be used to perform initial refresh
/// with aux info generation, or for a refersh of a complete keyshare.
///
/// Doesn't work with threshold key shares at this point. `None` for a share of more parties
/// than can be counted.
pub fn key_refresh<'a, L: SecurityLevel>(
    key_share: &'a IncompleteKeyShare,
    pregenerated: PregeneratedPrimes<L>,
) -> (r: Option<KeyRefreshBuilder<'a, L>>)
    ensures
        r is Some <==> key_share.public_shares@.len() <= u16::MAX,
        r matches Some(b) ==> b.party() == key_share.i && b.parties()
            == key_share.public_shares@.len() && b.primes() == pregenerated && b.refreshed() == Some(
            *key_share,
        ),
{
    KeyRefreshBuilder::new(key_share, pregenerated)
}

/// Signing protocol
///
/// Instantiates [SigningBuilder] for the `i`-th of the signers `parties_indexes_at_keygen`,
/// in the run that `eid` names.
pub fn signing<'r>(
    eid: ExecutionId<'r>,
    i: PartyIndex,
    parties_indexes_at_keygen: &'r [PartyIndex],
    key_share: &'r KeyShare,
) -> (r: SigningBuilder<'r>)
    ensures
        r.signer() == i,
        r.signers() == parties_indexes_at_keygen@,
        r.share() == *key_share,
        r.session() == eid.as_bytes_spec(),
        r.reliable(),
{
    SigningBuilder::new(eid, i, parties_indexes_at_keygen, key_share)
}

} // verus!

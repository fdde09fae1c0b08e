//! SHA-256, the digest of the protocols' transcripts.

use crate::bytes::bytes_eq;
use digest::Digest;
use vstd::prelude::*;

verus! {

/// Length in bytes of a SHA-256 digest.
pub const DIGEST_LEN: usize = 32;

/// The SHA-256 digest of a byte string.
pub uninterp spec fn spec_sha256(data: Seq<u8>) -> Seq<u8>;

/// `sha2::Sha256::digest`: the SHA-256 digest of `data`, which is 32 bytes long.
#[verifier::external_body]
pub(crate) fn sha256_digest(data: &[u8]) -> (r: [u8; 32])
    ensures
        r@ == spec_sha256(data@),
{
    let mut out = [0u8; 32];
    out.copy_from_slice(&sha2::Sha256::digest(data));
    out
}

/// The SHA-256 digest of `data`.
pub fn sha256(data: &[u8]) -> (r: [u8; 32])
    ensures
        r@ == spec_sha256(data@),
{
    sha256_digest(data)
}

/// The eight bytes of `v` in big-endian order.
pub open spec fn be64(v: u64) -> Seq<u8> {
    seq![
        (v >> 56) as u8,
        ((v >> 48) & 0xff) as u8,
        ((v >> 40) & 0xff) as u8,
        ((v >> 32) & 0xff) as u8,
        ((v >> 24) & 0xff) as u8,
        ((v >> 16) & 0xff) as u8,
        ((v >> 8) & 0xff) as u8,
        (v & 0xff) as u8,
    ]
}

/// The two bytes of `v` in big-endian order.
pub open spec fn be16(v: u16) -> Seq<u8> {
    seq![(v >> 8) as u8, (v & 0xff) as u8]
}

/// An item as it enters a transcript: its length in eight bytes, then its bytes. The length
/// keeps two lists of items apart that would read the same when written one after the other.
pub open spec fn framed(item: Seq<u8>) -> Seq<u8> {
    be64(item.len() as u64) + item
}

/// The transcript of a list of items: each framed, in their order.
pub open spec fn transcript(items: Seq<Seq<u8>>) -> Seq<u8>
    decreases items.len(),
{
    if items.len() == 0 {
        Seq::empty()
    } else {
        transcript(items.drop_last()) + framed(items.last())
    }
}

/// The commitment to a list of items under a nonce: the digest of the transcript of the
/// items followed by the nonce.
pub open spec fn commitment_of(items: Seq<Seq<u8>>, nonce: Seq<u8>) -> Seq<u8> {
    spec_sha256(transcript(items.push(nonce)))
}

/// The two bytes of `v` in big-endian order.
pub fn u16_be_bytes(v: u16) -> (r: [u8; 2])
    ensures
        r@ == be16(v),
{
    let r = [(v >> 8) as u8, (v & 0xff) as u8];
    assert(r@ =~= be16(v));
    r
}

/// Commits to a tuple of items by hashing, and opens such commitments.
///
/// The items are mixed in one by one; [`HashCommit::commit`] then adds the nonce and gives
/// the commitment, and [`HashCommit::verify`] tells whether a commitment opens to the items
/// and a nonce.
pub struct HashCommit {
    buffer: Vec<u8>,
    items: Ghost<Seq<Seq<u8>>>,
}

impl View for HashCommit {
    type V = Seq<Seq<u8>>;

    /// The items mixed in so far.
    closed spec fn view(&self) -> Seq<Seq<u8>> {
        self.items@
    }
}

impl HashCommit {
    #[verifier::type_invariant]
    pub closed spec fn wf(self) -> bool {
        self.buffer@ == transcript(self.items@)
    }

    /// Starts with no item.
    pub fn builder() -> (r: HashCommit)
        ensures
            r@ == Seq::<Seq<u8>>::empty(),
    {
        HashCommit { buffer: Vec::new(), items: Ghost(Seq::empty()) }
    }

    /// Mixes in a byte string.
    pub fn mix_bytes(self, data: &[u8]) -> (r: HashCommit)
        ensures
            r@ == self@.push(data@),
    {
        proof {
            use_type_invariant(&self);
        }
        let ghost items = self.items@.push(data@);
        let mut buffer = self.buffer;
        let ghost before = buffer@;
        let len: u64 = data.len() as u64;
        buffer.push((len >> 56) as u8);
        buffer.push(((len >> 48) & 0xff) as u8);
        buffer.push(((len >> 40) & 0xff) as u8);
        buffer.push(((len >> 32) & 0xff) as u8);
        buffer.push(((len >> 24) & 0xff) as u8);
        buffer.push(((len >> 16) & 0xff) as u8);
        buffer.push(((len >> 8) & 0xff) as u8);
        buffer.push((len & 0xff) as u8);
        assert(buffer@ =~= before + be64(len));
        let mut k: usize = 0;
        while k < data.len()
            invariant
                k <= data@.len(),
                buffer@ == before + be64(len) + data@.subrange(0, k as int),
            decreases data@.len() - k,
        {
            buffer.push(data[k]);
            assert(buffer@ =~= before + be64(len) + data@.subrange(0, k + 1));
            k += 1;
        }
        proof {
            assert(data@.subrange(0, data@.len() as int) =~= data@);
            assert(items.drop_last() =~= self.items@);
            assert(buffer@ =~= before + framed(data@));
        }
        HashCommit { buffer, items: Ghost(items) }
    }

    /// Mixes in a number, as its two bytes in big-endian order.
    pub fn mix_u16(self, v: u16) -> (r: HashCommit)
        ensures
            r@ == self@.push(be16(v)),
    {
        let bytes = u16_be_bytes(v);
        self.mix_bytes(bytes.as_slice())
    }

    /// The transcript of what was mixed in.
    pub fn into_bytes(self) -> (r: Vec<u8>)
        ensures
            r@ == transcript(self@),
    {
        proof {
            use_type_invariant(&self);
        }
        self.buffer
    }

    /// The digest of what was mixed in.
    pub fn finish(self) -> (r: [u8; 32])
        ensures
            r@ == spec_sha256(transcript(self@)),
    {
        proof {
            use_type_invariant(&self);
        }
        sha256(self.buffer.as_slice())
    }

    /// The commitment to the items under `nonce`.
    pub fn commit(self, nonce: &[u8]) -> (r: [u8; 32])
        ensures
            r@ == commitment_of(self@, nonce@),
    {
        self.mix_bytes(nonce).finish()
    }

    /// Whether `commitment` opens to the items and `nonce`.
    pub fn verify(self, commitment: &[u8; 32], nonce: &[u8]) -> (r: bool)
        ensures
            r == (commitment@ == commitment_of(self@, nonce@)),
    {
        let expected = self.commit(nonce);
        bytes_eq(commitment.as_slice(), expected.as_slice())
    }
}

} // verus!

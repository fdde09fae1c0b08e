//! Key shares as they are stored.
//!
//! An object is stored as the transcript of its fields: each field is a byte string, written
//! with its length before it. What was stored is read back unchanged, and nothing else is
//! read as an object: bytes that are no transcript, fields that encode no scalar or point,
//! and objects that do not hold what they must are all refused.

use crate::bytes::be_nat;
use crate::bytes::bytes_eq;
use crate::hashing::be16;
use crate::hashing::be64;
use crate::hashing::framed;
use crate::hashing::transcript;
use crate::hashing::u16_be_bytes;
use crate::bignumber::BigNumber;
use crate::key_share::lemma_aux_failure_of_numbers;
use crate::key_share::same_number;
use crate::key_share::AuxInfo;
use crate::key_share::IncompleteKeyShare;
use crate::key_share::InvalidKeyShare;
use crate::key_share::KeyShare;
use crate::key_share::PartyAux;
use crate::key_share::VssSetup;
use crate::security_level::SecurityLevel;
use crate::point::encodings;
use crate::point::is_point;
use crate::point::Point;
use crate::scalar::group_order;
use crate::scalar::NonZeroScalar;
use crate::scalar::Scalar;
use vstd::prelude::*;

verus! {

/// The byte strings of a list of fields.
pub open spec fn views(items: Seq<Vec<u8>>) -> Seq<Seq<u8>> {
    Seq::new(items.len(), |k: int| items[k]@)
}

/// The fields that a transcript holds, read from its start: `None` for bytes that are no
/// transcript.
pub open spec fn parsed(bytes: Seq<u8>) -> Option<Seq<Seq<u8>>>
    decreases bytes.len(),
{
    if bytes.len() == 0 {
        Some(Seq::empty())
    } else if bytes.len() < 8 {
        None
    } else {
        let len = be_nat(bytes.subrange(0, 8));
        if 8 + len > bytes.len() {
            None
        } else {
            match parsed(bytes.subrange(8 + len as int, bytes.len() as int)) {
                Some(rest) => Some(seq![bytes.subrange(8, 8 + len as int)] + rest),
                None => None,
            }
        }
    }
}

/// The eight bytes of a number encode it.
pub proof fn lemma_be64(v: u64)
    ensures
        be64(v).len() == 8,
        be_nat(be64(v)) == v,
{
    let b = be64(v);
    let b0 = (v >> 56) as u8;
    let b1 = ((v >> 48) & 0xff) as u8;
    let b2 = ((v >> 40) & 0xff) as u8;
    let b3 = ((v >> 32) & 0xff) as u8;
    let b4 = ((v >> 24) & 0xff) as u8;
    let b5 = ((v >> 16) & 0xff) as u8;
    let b6 = ((v >> 8) & 0xff) as u8;
    let b7 = (v & 0xff) as u8;
    assert(b =~= seq![b0, b1, b2, b3, b4, b5, b6, b7]);
    let s1 = seq![b0];
    let s2 = seq![b0, b1];
    let s3 = seq![b0, b1, b2];
    let s4 = seq![b0, b1, b2, b3];
    let s5 = seq![b0, b1, b2, b3, b4];
    let s6 = seq![b0, b1, b2, b3, b4, b5];
    let s7 = seq![b0, b1, b2, b3, b4, b5, b6];
    assert(s1.drop_last() =~= Seq::<u8>::empty());
    assert(s2.drop_last() =~= s1);
    assert(s3.drop_last() =~= s2);
    assert(s4.drop_last() =~= s3);
    assert(s5.drop_last() =~= s4);
    assert(s6.drop_last() =~= s5);
    assert(s7.drop_last() =~= s6);
    assert(b.drop_last() =~= s7);
    assert(be_nat(s1) == b0) by {
        reveal_with_fuel(be_nat, 2);
    }
    assert(be_nat(s2) == be_nat(s1) * 256 + b1);
    assert(be_nat(s3) == be_nat(s2) * 256 + b2);
    assert(be_nat(s4) == be_nat(s3) * 256 + b3);
    assert(be_nat(s5) == be_nat(s4) * 256 + b4);
    assert(be_nat(s6) == be_nat(s5) * 256 + b5);
    assert(be_nat(s7) == be_nat(s6) * 256 + b6);
    assert(be_nat(b) == be_nat(s7) * 256 + b7);
    assert(((((((b0 as u64 * 256 + b1 as u64) * 256 + b2 as u64) * 256 + b3 as u64) * 256
        + b4 as u64) * 256 + b5 as u64) * 256 + b6 as u64) * 256 + b7 as u64 == v)
        by (bit_vector)
        requires
            b0 == (v >> 56) as u8,
            b1 == ((v >> 48) & 0xff) as u8,
            b2 == ((v >> 40) & 0xff) as u8,
            b3 == ((v >> 32) & 0xff) as u8,
            b4 == ((v >> 24) & 0xff) as u8,
            b5 == ((v >> 16) & 0xff) as u8,
            b6 == ((v >> 8) & 0xff) as u8,
            b7 == (v & 0xff) as u8,
    ;
}

/// The transcript of a list of fields is that of its first field, then that of the others.
pub proof fn lemma_transcript_front(first: Seq<u8>, rest: Seq<Seq<u8>>)
    ensures
        transcript(seq![first] + rest) == framed(first) + transcript(rest),
    decreases rest.len(),
{
    let all = seq![first] + rest;
    if rest.len() == 0 {
        assert(all =~= seq![first]);
        assert(all.drop_last() =~= Seq::<Seq<u8>>::empty());
        assert(all.last() == first);
        assert(transcript(rest) =~= Seq::<u8>::empty());
        assert(transcript(all.drop_last()) =~= Seq::<u8>::empty());
        assert(transcript(all) == transcript(all.drop_last()) + framed(all.last()));
        assert(transcript(all) =~= framed(first));
        assert(framed(first) + transcript(rest) =~= framed(first));
    } else {
        lemma_transcript_front(first, rest.drop_last());
        assert(all.drop_last() =~= seq![first] + rest.drop_last());
        assert(all.last() == rest.last());
        assert(transcript(all) =~= framed(first) + transcript(rest));
    }
}

/// What was written as a transcript is read back: a transcript holds the fields that it was
/// made of, and no others.
pub proof fn lemma_parse_transcript(items: Seq<Seq<u8>>)
    requires
        forall|k: int| 0 <= k < items.len() ==> (#[trigger] items[k]).len() <= u64::MAX,
    ensures
        parsed(transcript(items)) == Some(items),
    decreases items.len(),
{
    if items.len() == 0 {
    } else {
        let first = items[0];
        let rest = items.subrange(1, items.len() as int);
        assert(items =~= seq![first] + rest);
        lemma_transcript_front(first, rest);
        lemma_parse_transcript(rest);
        let bytes = transcript(items);
        let head = be64(first.len() as u64);
        lemma_be64(first.len() as u64);
        assert(bytes =~= head + first + transcript(rest));
        assert(bytes.subrange(0, 8) =~= head);
        assert(bytes.subrange(8, 8 + first.len() as int) =~= first);
        assert(bytes.subrange(8 + first.len() as int, bytes.len() as int) =~= transcript(rest));
    }
}

/// The transcript of a list of fields.
pub fn write_fields(items: &Vec<Vec<u8>>) -> (r: Vec<u8>)
    ensures
        r@ == transcript(views(items@)),
{
    let mut h = crate::hashing::HashCommit::builder();
    let mut k: usize = 0;
    assert(views(items@).subrange(0, 0) =~= Seq::<Seq<u8>>::empty());
    while k < items.len()
        invariant
            k <= items@.len(),
            h@ == views(items@).subrange(0, k as int),
        decreases items@.len() - k,
    {
        h = h.mix_bytes(items[k].as_slice());
        assert(h@ =~= views(items@).subrange(0, k + 1));
        k += 1;
    }
    assert(views(items@).subrange(0, items@.len() as int) =~= views(items@));
    h.into_bytes()
}

/// The number that eight bytes encode.
fn read_be64(bytes: &[u8]) -> (r: u64)
    requires
        bytes@.len() == 8,
    ensures
        r == be_nat(bytes@),
{
    let mut v: u64 = 0;
    let mut k: usize = 0;
    assert(bytes@.subrange(0, 0) =~= Seq::<u8>::empty());
    proof {
        vstd::arithmetic::power::lemma_pow0(256);
    }
    while k < 8
        invariant
            k <= 8,
            bytes@.len() == 8,
            v == be_nat(bytes@.subrange(0, k as int)),
            v < vstd::arithmetic::power::pow(256, k as nat),
        decreases 8 - k,
    {
        proof {
            let before = bytes@.subrange(0, k as int);
            let after = bytes@.subrange(0, k + 1);
            assert(after.drop_last() =~= before);
            assert(after.last() == bytes@[k as int]);
            vstd::arithmetic::power::lemma_pow_adds(256, k as nat, 1);
            vstd::arithmetic::power::lemma_pow1(256);
            lemma_pow_256_8();
            vstd::arithmetic::power::lemma_pow_increases(256, (k + 1) as nat, 8);
            assert((v + 1) * 256 <= vstd::arithmetic::power::pow(256, k as nat) * 256)
                by (nonlinear_arith)
                requires
                    v + 1 <= vstd::arithmetic::power::pow(256, k as nat),
            ;
        }
        v = v * 256 + bytes[k] as u64;
        k += 1;
    }
    assert(bytes@.subrange(0, 8) =~= bytes@);
    v
}

/// `256^8` is `2^64`.
proof fn lemma_pow_256_8()
    ensures
        vstd::arithmetic::power::pow(256, 8) == 0x1_0000_0000_0000_0000,
{
    reveal_with_fuel(vstd::arithmetic::power::pow, 9);
    assert(vstd::arithmetic::power::pow(256, 8) == 256 * 256 * 256 * 256 * 256 * 256 * 256
        * 256) by {
        reveal_with_fuel(vstd::arithmetic::power::pow, 9);
    }
}

/// Reads the fields of a transcript: `None` for bytes that are no transcript.
pub fn read_fields(bytes: &[u8]) -> (r: Option<Vec<Vec<u8>>>)
    ensures
        match r {
            Some(items) => parsed(bytes@) == Some(views(items@)),
            None => parsed(bytes@) is None,
        },
{
    let n: usize = bytes.len();
    let mut items: Vec<Vec<u8>> = Vec::new();
    let mut pos: usize = 0;
    assert(bytes@.subrange(0, n as int) =~= bytes@);
    while pos < n
        invariant
            pos <= n,
            n == bytes@.len(),
            parsed(bytes@) == match parsed(bytes@.subrange(pos as int, n as int)) {
                Some(rest) => Some(views(items@) + rest),
                None => None,
            },
        decreases n - pos,
    {
        let ghost tail = bytes@.subrange(pos as int, n as int);
        if n - pos < 8 {
            return None;
        }
        let len = read_be64(vstd::slice::slice_subrange(bytes, pos, pos + 8));
        assert(bytes@.subrange(pos as int, pos + 8) =~= tail.subrange(0, 8));
        if len > (n - pos - 8) as u64 {
            return None;
        }
        let start: usize = pos + 8;
        let end: usize = start + len as usize;
        let item = vstd::slice::slice_to_vec(vstd::slice::slice_subrange(bytes, start, end));
        proof {
            assert(item@ =~= tail.subrange(8, 8 + len as int));
            assert(bytes@.subrange(end as int, n as int) =~= tail.subrange(
                8 + len as int,
                tail.len() as int,
            ));
            let rest = parsed(bytes@.subrange(end as int, n as int));
            if rest is Some {
                assert(views(items@.push(item)) + rest->Some_0 =~= views(items@) + (seq![item@]
                    + rest->Some_0));
            }
        }
        items.push(item);
        pos = end;
    }
    proof {
        assert(bytes@.subrange(n as int, n as int) =~= Seq::<u8>::empty());
        assert(views(items@) + Seq::<Seq<u8>>::empty() =~= views(items@));
    }
    Some(items)
}

/// What is read as a list of fields is the transcript of those fields.
pub proof fn lemma_parsed_is_transcript(bytes: Seq<u8>)
    requires
        parsed(bytes) is Some,
    ensures
        transcript(parsed(bytes)->Some_0) == bytes,
        forall|k: int|
            0 <= k < parsed(bytes)->Some_0.len() ==> (#[trigger] parsed(bytes)->Some_0[k]).len()
                <= u64::MAX,
    decreases bytes.len(),
{
    if bytes.len() == 0 {
        assert(transcript(Seq::<Seq<u8>>::empty()) =~= bytes);
    } else {
        let head = bytes.subrange(0, 8);
        let len = be_nat(head);
        let first = bytes.subrange(8, 8 + len as int);
        let tail = bytes.subrange(8 + len as int, bytes.len() as int);
        let rest = parsed(tail)->Some_0;
        lemma_parsed_is_transcript(tail);
        crate::bytes::lemma_be_nat_bound(head);
        lemma_pow_256_8();
        lemma_be64(len as u64);
        crate::bytes::lemma_be_nat_injective(be64(len as u64), head);
        lemma_transcript_front(first, rest);
        assert(bytes =~= head + first + tail);
        let items = seq![first] + rest;
        assert forall|k: int| 0 <= k < items.len() implies (#[trigger] items[k]).len()
            <= u64::MAX by {
            if k > 0 {
                assert(items[k] == rest[k - 1]);
            }
        }
    }
}

/// Two lists of fields with one transcript are one list.
pub proof fn lemma_transcript_injective(a: Seq<Seq<u8>>, b: Seq<Seq<u8>>)
    requires
        forall|k: int| 0 <= k < a.len() ==> (#[trigger] a[k]).len() <= u64::MAX,
        forall|k: int| 0 <= k < b.len() ==> (#[trigger] b[k]).len() <= u64::MAX,
        transcript(a) == transcript(b),
    ensures
        a == b,
{
    lemma_parse_transcript(a);
    lemma_parse_transcript(b);
}

/// Two numbers with the same two bytes are one number.
pub proof fn lemma_be16_injective(v: u16, w: u16)
    requires
        be16(v) == be16(w),
    ensures
        v == w,
{
    let hv = (v >> 8) as u8;
    let lv = (v & 0xff) as u8;
    let hw = (w >> 8) as u8;
    let lw = (w & 0xff) as u8;
    assert(be16(v)[0] == hv && be16(v)[1] == lv);
    assert(be16(w)[0] == hw && be16(w)[1] == lw);
    assert(v == w) by (bit_vector)
        requires
            (v >> 8) as u8 == (w >> 8) as u8,
            (v & 0xff) as u8 == (w & 0xff) as u8,
    ;
}

/// Reads a number from its two bytes: `None` unless there are two.
fn read_u16(item: &[u8]) -> (r: Option<u16>)
    ensures
        r is Some <==> item@.len() == 2,
        r matches Some(v) ==> be16(v) == item@,
{
    if item.len() != 2 {
        return None;
    }
    let hi: u8 = item[0];
    let lo: u8 = item[1];
    let v: u16 = ((hi as u16) << 8) | lo as u16;
    assert((v >> 8) as u8 == hi && (v & 0xff) as u8 == lo) by (bit_vector)
        requires
            v == ((hi as u16) << 8) | lo as u16,
    ;
    assert(be16(v) =~= item@);
    Some(v)
}

/// Reads a point from its compressed encoding: `None` for other bytes, those that encode the
/// same point in another way among them.
fn read_point(item: &[u8]) -> (r: Option<Point>)
    ensures
        r is Some <==> is_point(item@),
        r matches Some(p) ==> p@ == item@,
{
    if item.len() != 33 {
        return None;
    }
    match Point::from_bytes(item) {
        Some(p) => {
            if bytes_eq(p.to_bytes().as_slice(), item) {
                Some(p)
            } else {
                None
            }
        },
        None => None,
    }
}

/// Reads a scalar from its 32 bytes: `None` unless they encode a number below the group
/// order.
fn read_scalar(item: &[u8]) -> (r: Option<Scalar>)
    ensures
        r is Some <==> item@.len() == 32 && be_nat(item@) < group_order(),
        r matches Some(s) ==> s.encoding() == item@,
{
    match Scalar::from_be_bytes(item) {
        Some(s) => {
            proof {
                s.lemma_encoding();
                crate::bytes::lemma_be_nat_injective(s.encoding(), item@);
            }
            Some(s)
        },
        None => None,
    }
}

/// The encodings of a list of evaluation points.
pub open spec fn node_fields(nodes: Seq<NonZeroScalar>) -> Seq<Seq<u8>> {
    Seq::new(nodes.len(), |k: int| nodes[k].encoding())
}

/// Whether a field holds a list of points.
pub open spec fn points_readable(item: Seq<u8>) -> bool {
    parsed(item) matches Some(list) && forall|k: int|
        0 <= k < list.len() ==> is_point(#[trigger] list[k])
}

/// Whether a field holds a list of scalars other than zero.
pub open spec fn nodes_readable(item: Seq<u8>) -> bool {
    parsed(item) matches Some(list) && forall|k: int|
        0 <= k < list.len() ==> (#[trigger] list[k]).len() == 32 && 0 < be_nat(list[k])
            < group_order()
}

/// Reads a list of points from the field that holds it.
fn read_points(item: &[u8]) -> (r: Option<Vec<Point>>)
    ensures
        r is Some <==> points_readable(item@),
        r matches Some(points) ==> parsed(item@) == Some(encodings(points@)),
{
    let list = match read_fields(item) {
        Some(list) => list,
        None => {
            return None;
        },
    };
    let mut points: Vec<Point> = Vec::new();
    let mut k: usize = 0;
    while k < list.len()
        invariant
            k <= list@.len(),
            parsed(item@) == Some(views(list@)),
            points@.len() == k,
            forall|m: int| 0 <= m < k ==> (#[trigger] points@[m])@ == list@[m]@,
            forall|m: int| 0 <= m < k ==> is_point(#[trigger] views(list@)[m]),
        decreases list@.len() - k,
    {
        match read_point(list[k].as_slice()) {
            Some(p) => {
                points.push(p);
            },
            None => {
                proof {
                    let fields = views(list@);
                    assert(fields[k as int] == list@[k as int]@);
                    assert(!is_point(fields[k as int]));
                    assert(parsed(item@)->Some_0 == fields);
                    assert(!points_readable(item@));
                }
                return None;
            },
        }
        assert(views(list@)[k as int] == list@[k as int]@);
        k += 1;
    }
    assert(encodings(points@) =~= views(list@));
    Some(points)
}

/// Reads a list of scalars other than zero from the field that holds it.
fn read_nodes(item: &[u8]) -> (r: Option<Vec<NonZeroScalar>>)
    ensures
        r is Some <==> nodes_readable(item@),
        r matches Some(nodes) ==> parsed(item@) == Some(node_fields(nodes@)),
{
    let list = match read_fields(item) {
        Some(list) => list,
        None => {
            return None;
        },
    };
    let mut nodes: Vec<NonZeroScalar> = Vec::new();
    let mut k: usize = 0;
    while k < list.len()
        invariant
            k <= list@.len(),
            parsed(item@) == Some(views(list@)),
            nodes@.len() == k,
            forall|m: int| 0 <= m < k ==> (#[trigger] nodes@[m]).encoding() == list@[m]@,
            forall|m: int|
                0 <= m < k ==> (#[trigger] views(list@)[m]).len() == 32 && 0 < be_nat(
                    views(list@)[m],
                ) < group_order(),
        decreases list@.len() - k,
    {
        let ghost fields = views(list@);
        assert(fields[k as int] == list@[k as int]@);
        let s = match read_scalar(list[k].as_slice()) {
            Some(s) => s,
            None => {
                proof {
                    assert(!(fields[k as int].len() == 32 && 0 < be_nat(fields[k as int])
                        < group_order()));
                    assert(parsed(item@)->Some_0 == fields);
                    assert(!nodes_readable(item@));
                }
                return None;
            },
        };
        proof {
            s.lemma_encoding();
        }
        match NonZeroScalar::from_scalar(s) {
            Some(node) => {
                proof {
                    node.lemma_encoding();
                    s.lemma_encoding();
                    crate::bytes::lemma_be_nat_injective(node.encoding(), s.encoding());
                }
                nodes.push(node);
            },
            None => {
                proof {
                    assert(be_nat(fields[k as int]) == 0);
                    assert(parsed(item@)->Some_0 == fields);
                    assert(!nodes_readable(item@));
                }
                return None;
            },
        }
        k += 1;
    }
    assert(node_fields(nodes@) =~= views(list@));
    Some(nodes)
}

/// Writes a list of points as one field.
fn write_points(points: &Vec<Point>) -> (r: Vec<u8>)
    ensures
        r@ == transcript(encodings(points@)),
        forall|k: int| 0 <= k < points@.len() ==> is_point(#[trigger] points@[k]@),
{
    let mut h = crate::hashing::HashCommit::builder();
    let mut k: usize = 0;
    assert(encodings(points@).subrange(0, 0) =~= Seq::<Seq<u8>>::empty());
    while k < points.len()
        invariant
            k <= points@.len(),
            h@ == encodings(points@).subrange(0, k as int),
            forall|m: int| 0 <= m < k ==> is_point(#[trigger] points@[m]@),
        decreases points@.len() - k,
    {
        let encoded = points[k].to_bytes();
        h = h.mix_bytes(encoded.as_slice());
        assert(h@ =~= encodings(points@).subrange(0, k + 1));
        k += 1;
    }
    assert(encodings(points@).subrange(0, points@.len() as int) =~= encodings(points@));
    h.into_bytes()
}

/// Writes a list of evaluation points as one field.
fn write_nodes(nodes: &Vec<NonZeroScalar>) -> (r: Vec<u8>)
    ensures
        r@ == transcript(node_fields(nodes@)),
        forall|k: int| 0 <= k < nodes@.len() ==> 0 < (#[trigger] nodes@[k])@ < group_order(),
{
    let mut h = crate::hashing::HashCommit::builder();
    let mut k: usize = 0;
    assert(node_fields(nodes@).subrange(0, 0) =~= Seq::<Seq<u8>>::empty());
    while k < nodes.len()
        invariant
            k <= nodes@.len(),
            h@ == node_fields(nodes@).subrange(0, k as int),
            forall|m: int| 0 <= m < k ==> 0 < (#[trigger] nodes@[m])@ < group_order(),
        decreases nodes@.len() - k,
    {
        let encoded = nodes[k].to_scalar().to_be_bytes();
        h = h.mix_bytes(encoded.as_slice());
        assert(h@ =~= node_fields(nodes@).subrange(0, k + 1));
        k += 1;
    }
    assert(node_fields(nodes@).subrange(0, nodes@.len() as int) =~= node_fields(nodes@));
    h.into_bytes()
}

/// Why stored bytes were refused.
#[derive(Clone, Copy, Debug, PartialEq, Eq)]
pub enum LoadError {
    /// No object is stored as these bytes.
    Malformed,
    /// The bytes hold an object that does not hold what it must.
    Invalid(InvalidKeyShare),
}

/// Whether a field is short enough for its length to be written before it.
pub open spec fn fits(item: Seq<u8>) -> bool {
    item.len() <= u64::MAX
}

/// The bytes that a program holds in a vector are few enough to be a field.
proof fn lemma_held_fits(held: &Vec<u8>)
    ensures
        fits(held@),
{
    assert(held.len() == held@.len());
}

/// The bytes that a program holds in a slice are few enough to be a field.
proof fn lemma_slice_fits(held: &[u8])
    ensures
        fits(held@),
{
    assert(held.len() == held@.len());
}

/// The field that holds the threshold: empty for a key without one.
pub open spec fn threshold_field(vss: Option<VssSetup>) -> Seq<u8> {
    match vss {
        Some(vss) => be16(vss.min_signers),
        None => Seq::empty(),
    }
}

/// The field that holds the evaluation points: empty for a key without a threshold.
pub open spec fn nodes_field(vss: Option<VssSetup>) -> Seq<u8> {
    match vss {
        Some(vss) => transcript(node_fields(vss.I@)),
        None => Seq::empty(),
    }
}

/// Whether a list of fields holds a share of a key: the party's index, the shared public key,
/// the secret share, the identifier, the public shares, the threshold and the evaluation
/// points, in this order.
pub open spec fn share_readable(items: Seq<Seq<u8>>) -> bool {
    &&& items.len() == 7
    &&& items[0].len() == 2
    &&& is_point(items[1])
    &&& items[2].len() == 32
    &&& be_nat(items[2]) < group_order()
    &&& points_readable(items[4])
    &&& if items[5].len() == 0 {
        items[6].len() == 0
    } else {
        items[5].len() == 2 && nodes_readable(items[6])
    }
}

/// Whether two shares hold the same.
pub open spec fn same_share(a: IncompleteKeyShare, b: IncompleteKeyShare) -> bool {
    &&& a.i == b.i
    &&& a.shared_public_key == b.shared_public_key
    &&& a.x == b.x
    &&& a.rid@ == b.rid@
    &&& a.public_shares@ == b.public_shares@
    &&& match (a.vss_setup, b.vss_setup) {
        (None, None) => true,
        (Some(v), Some(w)) => v.min_signers == w.min_signers && v.I@ == w.I@,
        _ => false,
    }
}

impl IncompleteKeyShare {
    /// The fields that the share is stored as.
    pub open spec fn fields(self) -> Seq<Seq<u8>> {
        seq![
            be16(self.i),
            self.shared_public_key@,
            self.x.encoding(),
            self.rid@,
            transcript(encodings(self.public_shares@)),
            threshold_field(self.vss_setup),
            nodes_field(self.vss_setup),
        ]
    }

    /// The bytes that the share is stored as.
    pub open spec fn stored(self) -> Seq<u8> {
        transcript(self.fields())
    }

    /// Whether the parts of the share are points and scalars, and few enough to be stored.
    /// Every share that a program holds is.
    pub open spec fn well_formed(self) -> bool {
        &&& is_point(self.shared_public_key@)
        &&& self.x@ < group_order()
        &&& forall|k: int|
            0 <= k < self.public_shares@.len() ==> is_point(#[trigger] self.public_shares@[k]@)
        &&& match self.vss_setup {
            Some(vss) => forall|k: int|
                0 <= k < vss.I@.len() ==> 0 < (#[trigger] vss.I@[k])@ < group_order(),
            None => true,
        }
        &&& forall|k: int| 0 <= k < 7 ==> fits(#[trigger] self.fields()[k])
    }

    /// Whether `bytes` are what this share is stored as.
    pub open spec fn stored_as(self, bytes: Seq<u8>) -> bool {
        self.well_formed() && self.stored() == bytes
    }

    /// The fields of a share are read as a share.
    pub proof fn lemma_fields_readable(self)
        requires
            self.well_formed(),
        ensures
            parsed(self.stored()) == Some(self.fields()),
            share_readable(self.fields()),
    {
        let items = self.fields();
        assert forall|k: int| 0 <= k < items.len() implies (#[trigger] items[k]).len()
            <= u64::MAX by {
            assert(fits(self.fields()[k]));
        }
        lemma_parse_transcript(items);
        self.x.lemma_encoding();
        let shares = encodings(self.public_shares@);
        assert forall|k: int| 0 <= k < shares.len() implies (#[trigger] shares[k]).len()
            <= u64::MAX && is_point(shares[k]) by {
            assert(shares[k] == self.public_shares@[k]@);
        }
        lemma_parse_transcript(shares);
        assert(points_readable(items[4]));
        match self.vss_setup {
            Some(vss) => {
                let nodes = node_fields(vss.I@);
                assert forall|k: int| 0 <= k < nodes.len() implies (#[trigger] nodes[k]).len()
                    == 32 && 0 < be_nat(nodes[k]) < group_order() by {
                    vss.I@[k].lemma_encoding();
                    assert(nodes[k] == vss.I@[k].encoding());
                }
                lemma_parse_transcript(nodes);
                assert(nodes_readable(items[6]));
                assert(items[5].len() == 2);
            },
            None => {},
        }
    }

    /// Bytes are stored as one share at most, and shares that hold the same are valid
    /// together.
    pub proof fn lemma_stored_once(self, other: IncompleteKeyShare, bytes: Seq<u8>)
        requires
            self.stored_as(bytes),
            other.stored_as(bytes),
        ensures
            same_share(self, other),
            self.failure() == other.failure(),
    {
        self.lemma_fields_readable();
        other.lemma_fields_readable();
        let a = self.fields();
        let b = other.fields();
        assert(a == b);
        assert(a[0] == b[0] && a[1] == b[1] && a[2] == b[2] && a[3] == b[3] && a[4] == b[4]
            && a[5] == b[5] && a[6] == b[6]);
        lemma_be16_injective(self.i, other.i);
        self.shared_public_key.lemma_eq(other.shared_public_key);
        self.x.lemma_encoding();
        other.x.lemma_encoding();
        self.x.lemma_eq(other.x);
        let p = encodings(self.public_shares@);
        let q = encodings(other.public_shares@);
        assert forall|k: int| 0 <= k < p.len() implies (#[trigger] p[k]).len() <= u64::MAX by {
            assert(p[k] == self.public_shares@[k]@);
        }
        assert forall|k: int| 0 <= k < q.len() implies (#[trigger] q[k]).len() <= u64::MAX by {
            assert(q[k] == other.public_shares@[k]@);
        }
        lemma_transcript_injective(p, q);
        assert forall|k: int| 0 <= k < self.public_shares@.len() implies self.public_shares@[k]
            == other.public_shares@[k] by {
            assert(p[k] == self.public_shares@[k]@);
            assert(q[k] == other.public_shares@[k]@);
            self.public_shares@[k].lemma_eq(other.public_shares@[k]);
        }
        assert(self.public_shares@ =~= other.public_shares@);
        match (self.vss_setup, other.vss_setup) {
            (Some(v), Some(w)) => {
                lemma_be16_injective(v.min_signers, w.min_signers);
                let m = node_fields(v.I@);
                let n = node_fields(w.I@);
                assert forall|k: int| 0 <= k < m.len() implies (#[trigger] m[k]).len()
                    <= u64::MAX by {
                    v.I@[k].lemma_encoding();
                }
                assert forall|k: int| 0 <= k < n.len() implies (#[trigger] n[k]).len()
                    <= u64::MAX by {
                    w.I@[k].lemma_encoding();
                }
                lemma_transcript_injective(m, n);
                assert forall|k: int| 0 <= k < v.I@.len() implies v.I@[k] == w.I@[k] by {
                    assert(m[k] == v.I@[k].encoding());
                    assert(n[k] == w.I@[k].encoding());
                    v.I@[k].lemma_encoding();
                    w.I@[k].lemma_encoding();
                    v.I@[k].lemma_eq(w.I@[k]);
                }
                assert(v.I@ =~= w.I@);
            },
            (None, None) => {},
            (Some(v), None) => {
                assert(a[5].len() == 2);
            },
            (None, Some(w)) => {
                assert(b[5].len() == 2);
            },
        }
    }

    /// The bytes that the share is stored as.
    pub fn to_bytes(&self) -> (r: Vec<u8>)
        ensures
            self.stored_as(r@),
    {
        let mut items: Vec<Vec<u8>> = Vec::new();
        items.push(vstd::slice::slice_to_vec(u16_be_bytes(self.i).as_slice()));
        items.push(vstd::slice::slice_to_vec(self.shared_public_key.to_bytes().as_slice()));
        items.push(vstd::slice::slice_to_vec(self.x.to_be_bytes().as_slice()));
        let rid = self.rid.clone();
        assert(rid@ =~= self.rid@);
        items.push(rid);
        items.push(write_points(&self.public_shares));
        match &self.vss_setup {
            Some(vss) => {
                items.push(vstd::slice::slice_to_vec(u16_be_bytes(vss.min_signers).as_slice()));
                items.push(write_nodes(&vss.I));
            },
            None => {
                items.push(Vec::new());
                items.push(Vec::new());
            },
        }
        let ghost fields = views(items@);
        assert(fields =~= self.fields()) by {
            assert(fields[0] =~= be16(self.i));
            assert(fields[1] =~= self.shared_public_key@);
            assert(fields[2] =~= self.x.encoding());
            assert(fields[3] =~= self.rid@);
            assert(fields[4] =~= transcript(encodings(self.public_shares@)));
            assert(fields[5] =~= threshold_field(self.vss_setup));
            assert(fields[6] =~= nodes_field(self.vss_setup));
        }
        assert forall|m: int| 0 <= m < 7 implies fits(#[trigger] fields[m]) by {
            lemma_held_fits(&items@[m]);
        }
        write_fields(&items)
    }

    /// The share that a list of fields holds, if it holds one.
    fn from_fields(items: &Vec<Vec<u8>>) -> (r: Option<IncompleteKeyShare>)
        ensures
            r is Some <==> share_readable(views(items@)),
            r matches Some(share) ==> share.fields() == views(items@) && share.well_formed(),
    {
        let ghost fields = views(items@);
        if items.len() != 7 {
            return None;
        }
        assert(fields[0] == items@[0]@ && fields[1] == items@[1]@ && fields[2] == items@[2]@
            && fields[3] == items@[3]@ && fields[4] == items@[4]@ && fields[5] == items@[5]@
            && fields[6] == items@[6]@);
        let i = match read_u16(items[0].as_slice()) {
            Some(i) => i,
            None => {
                return None;
            },
        };
        let shared_public_key = match read_point(items[1].as_slice()) {
            Some(p) => p,
            None => {
                return None;
            },
        };
        let x = match read_scalar(items[2].as_slice()) {
            Some(x) => x,
            None => {
                return None;
            },
        };
        let rid = items[3].clone();
        assert(rid@ =~= items@[3]@);
        let public_shares = match read_points(items[4].as_slice()) {
            Some(points) => points,
            None => {
                return None;
            },
        };
        let vss_setup = if items[5].len() == 0 {
            if items[6].len() != 0 {
                return None;
            }
            None
        } else {
            let min_signers = match read_u16(items[5].as_slice()) {
                Some(t) => t,
                None => {
                    return None;
                },
            };
            let nodes = match read_nodes(items[6].as_slice()) {
                Some(nodes) => nodes,
                None => {
                    return None;
                },
            };
            Some(VssSetup { min_signers, I: nodes })
        };
        let share = IncompleteKeyShare { i, shared_public_key, public_shares, x, rid, vss_setup };
        proof {
            x.lemma_encoding();
            lemma_parsed_is_transcript(fields[4]);
            assert forall|k: int| 0 <= k < share.public_shares@.len() implies is_point(
                #[trigger] share.public_shares@[k]@,
            ) by {
                assert(encodings(share.public_shares@)[k] == share.public_shares@[k]@);
            }
            if share.vss_setup is Some {
                let ghost vss = share.vss_setup->Some_0;
                lemma_parsed_is_transcript(fields[6]);
                assert forall|k: int| 0 <= k < vss.I@.len() implies 0 < (#[trigger] vss.I@[k])@
                    < group_order() by {
                    vss.I@[k].lemma_encoding();
                    assert(node_fields(vss.I@)[k] == vss.I@[k].encoding());
                }
            } else {
                assert(fields[5] =~= Seq::<u8>::empty());
                assert(fields[6] =~= Seq::<u8>::empty());
            }
            assert(share.fields() =~= fields);
        }
        assert forall|m: int| 0 <= m < 7 implies fits(#[trigger] fields[m]) by {
            lemma_held_fits(&items@[m]);
        }
        Some(share)
    }

    /// Whether `r` is what loading `bytes` gives: the valid share that is stored as them; or
    /// that they are malformed, where no share is stored as them; or what is wrong with the
    /// share that is.
    pub open spec fn loaded(bytes: Seq<u8>, r: Result<IncompleteKeyShare, LoadError>) -> bool {
        match r {
            Ok(share) => share.stored_as(bytes) && share.failure() is None,
            Err(LoadError::Malformed) => forall|share: IncompleteKeyShare|
                !#[trigger] share.stored_as(bytes),
            Err(LoadError::Invalid(e)) => exists|share: IncompleteKeyShare|
                #[trigger] share.stored_as(bytes) && share.failure() == Some(e),
        }
    }

    /// A valid share that was stored is loaded again, unchanged.
    pub proof fn lemma_round_trip(self, bytes: Seq<u8>, r: Result<IncompleteKeyShare, LoadError>)
        requires
            self.stored_as(bytes),
            self.failure() is None,
            Self::loaded(bytes, r),
        ensures
            r matches Ok(share) && same_share(self, share) && share.failure() is None,
    {
        match r {
            Ok(share) => {
                self.lemma_stored_once(share, bytes);
            },
            Err(LoadError::Malformed) => {
                assert(self.stored_as(bytes));
            },
            Err(LoadError::Invalid(e)) => {
                let share = choose|share: IncompleteKeyShare|
                    #[trigger] share.stored_as(bytes) && share.failure() == Some(e);
                self.lemma_stored_once(share, bytes);
            },
        }
    }

    /// The share that is stored as `bytes`, if one is.
    fn read(bytes: &[u8]) -> (r: Option<IncompleteKeyShare>)
        ensures
            match r {
                Some(share) => share.stored_as(bytes@),
                None => forall|share: IncompleteKeyShare| !#[trigger] share.stored_as(bytes@),
            },
    {
        let items = match read_fields(bytes) {
            Some(items) => items,
            None => {
                assert forall|share: IncompleteKeyShare| !#[trigger] share.stored_as(
                    bytes@,
                ) by {
                    if share.stored_as(bytes@) {
                        share.lemma_fields_readable();
                    }
                }
                return None;
            },
        };
        match Self::from_fields(&items) {
            Some(share) => {
                proof {
                    lemma_parsed_is_transcript(bytes@);
                }
                Some(share)
            },
            None => {
                assert forall|share: IncompleteKeyShare| !#[trigger] share.stored_as(
                    bytes@,
                ) by {
                    if share.stored_as(bytes@) {
                        share.lemma_fields_readable();
                    }
                }
                None
            },
        }
    }

    /// Reads a share from the bytes that [`IncompleteKeyShare::to_bytes`] gave, and validates
    /// it. Bytes that no share is stored as are refused as malformed; a share that does not
    /// hold what it must is refused with what is wrong with it.
    pub fn from_bytes(bytes: &[u8]) -> (r: Result<IncompleteKeyShare, LoadError>)
        ensures
            Self::loaded(bytes@, r),
    {
        let share = match Self::read(bytes) {
            Some(share) => share,
            None => {
                return Err(LoadError::Malformed);
            },
        };
        match share.validate() {
            Ok(()) => Ok(share),
            Err(e) => {
                assert(share.stored_as(bytes@) && share.failure() == Some(e));
                Err(LoadError::Invalid(e))
            },
        }
    }
}

/// The field that holds a number: a byte that says whether it is below zero, then its
/// magnitude.
pub open spec fn number_field(b: BigNumber) -> Seq<u8> {
    seq![if b.negative { 1u8 } else { 0u8 }] + b.magnitude@
}

/// Whether a field holds a number.
pub open spec fn number_readable(item: Seq<u8>) -> bool {
    item.len() >= 1 && item[0] <= 1
}

/// The fields that hold the public data of a party: its modulus and its two ring-Pedersen
/// parameters.
pub open spec fn party_fields(party: PartyAux) -> Seq<Seq<u8>> {
    seq![number_field(party.N), number_field(party.s), number_field(party.t)]
}

/// Whether the numbers of a party are short enough to be stored.
pub open spec fn party_well_formed(party: PartyAux) -> bool {
    &&& fits(number_field(party.N))
    &&& fits(number_field(party.s))
    &&& fits(number_field(party.t))
    &&& fits(transcript(party_fields(party)))
}

/// Whether a field holds the public data of a party.
pub open spec fn party_readable(item: Seq<u8>) -> bool {
    parsed(item) matches Some(list) && list.len() == 3 && number_readable(list[0])
        && number_readable(list[1]) && number_readable(list[2])
}

/// The fields that hold the public data of the parties, one for each.
pub open spec fn parties_fields(parties: Seq<PartyAux>) -> Seq<Seq<u8>> {
    Seq::new(parties.len(), |k: int| transcript(party_fields(parties[k])))
}

/// Whether a field holds the public data of a list of parties.
pub open spec fn parties_readable(item: Seq<u8>) -> bool {
    parsed(item) matches Some(list) && forall|k: int|
        0 <= k < list.len() ==> party_readable(#[trigger] list[k])
}

/// Whether a list of fields holds auxiliary data: the two primes, then the public data of
/// the parties.
pub open spec fn aux_readable(items: Seq<Seq<u8>>) -> bool {
    &&& items.len() == 3
    &&& number_readable(items[0])
    &&& number_readable(items[1])
    &&& parties_readable(items[2])
}

/// Whether two parties have the same public data.
pub open spec fn same_party(a: PartyAux, b: PartyAux) -> bool {
    same_number(a.N, b.N) && same_number(a.s, b.s) && same_number(a.t, b.t)
}

/// Whether two values hold the same auxiliary data.
pub open spec fn same_aux(a: AuxInfo, b: AuxInfo) -> bool {
    &&& same_number(a.p, b.p)
    &&& same_number(a.q, b.q)
    &&& a.parties@.len() == b.parties@.len()
    &&& forall|k: int|
        0 <= k < a.parties@.len() ==> same_party(#[trigger] a.parties@[k], b.parties@[k])
}

/// Numbers that are stored as the same field are the same number.
pub proof fn lemma_number_field_injective(a: BigNumber, b: BigNumber)
    requires
        number_field(a) == number_field(b),
    ensures
        same_number(a, b),
{
    let f = number_field(a);
    let g = number_field(b);
    assert(f[0] == g[0]);
    assert(a.magnitude@ =~= f.subrange(1, f.len() as int));
    assert(b.magnitude@ =~= g.subrange(1, g.len() as int));
}

/// The public data of a party is read from the field that it is stored as.
pub proof fn lemma_party_readable(party: PartyAux)
    requires
        party_well_formed(party),
    ensures
        parsed(transcript(party_fields(party))) == Some(party_fields(party)),
        party_readable(transcript(party_fields(party))),
{
    let items = party_fields(party);
    assert forall|k: int| 0 <= k < items.len() implies (#[trigger] items[k]).len()
        <= u64::MAX by {}
    lemma_parse_transcript(items);
}

/// Parties that are stored as the same field have the same public data.
pub proof fn lemma_party_field_injective(a: PartyAux, b: PartyAux)
    requires
        party_well_formed(a),
        party_well_formed(b),
        transcript(party_fields(a)) == transcript(party_fields(b)),
    ensures
        same_party(a, b),
{
    lemma_party_readable(a);
    lemma_party_readable(b);
    let f = party_fields(a);
    let g = party_fields(b);
    assert(f[0] == g[0] && f[1] == g[1] && f[2] == g[2]);
    lemma_number_field_injective(a.N, b.N);
    lemma_number_field_injective(a.s, b.s);
    lemma_number_field_injective(a.t, b.t);
}

/// Writes a number as one field.
fn write_number(b: &BigNumber) -> (r: Vec<u8>)
    ensures
        r@ == number_field(*b),
        fits(r@),
{
    let mut out: Vec<u8> = Vec::new();
    out.push(if b.negative { 1u8 } else { 0u8 });
    let ghost sign = out@;
    let mut k: usize = 0;
    while k < b.magnitude.len()
        invariant
            k <= b.magnitude@.len(),
            out@ == sign + b.magnitude@.subrange(0, k as int),
        decreases b.magnitude@.len() - k,
    {
        out.push(b.magnitude[k]);
        assert(out@ =~= sign + b.magnitude@.subrange(0, k + 1));
        k += 1;
    }
    assert(out@ =~= number_field(*b));
    proof {
        lemma_held_fits(&out);
    }
    out
}

/// Reads a number from the field that holds it.
fn read_number(item: &[u8]) -> (r: Option<BigNumber>)
    ensures
        r is Some <==> number_readable(item@),
        r matches Some(b) ==> number_field(b) == item@,
{
    if item.len() < 1 || item[0] > 1 {
        return None;
    }
    let magnitude = vstd::slice::slice_to_vec(vstd::slice::slice_subrange(item, 1, item.len()));
    let b = BigNumber { negative: item[0] == 1, magnitude };
    assert(number_field(b) =~= item@);
    Some(b)
}

/// Writes the public data of a party as one field.
fn write_party(party: &PartyAux) -> (r: Vec<u8>)
    ensures
        r@ == transcript(party_fields(*party)),
        party_well_formed(*party),
{
    let mut items: Vec<Vec<u8>> = Vec::new();
    items.push(write_number(&party.N));
    items.push(write_number(&party.s));
    items.push(write_number(&party.t));
    assert(views(items@) =~= party_fields(*party));
    let out = write_fields(&items);
    proof {
        lemma_held_fits(&out);
    }
    out
}

/// Reads the public data of a party from the field that holds it.
fn read_party(item: &[u8]) -> (r: Option<PartyAux>)
    ensures
        r is Some <==> party_readable(item@),
        r matches Some(party) ==> transcript(party_fields(party)) == item@ && party_well_formed(
            party,
        ),
{
    let list = match read_fields(item) {
        Some(list) => list,
        None => {
            return None;
        },
    };
    if list.len() != 3 {
        return None;
    }
    let ghost fields = views(list@);
    assert(fields[0] == list@[0]@ && fields[1] == list@[1]@ && fields[2] == list@[2]@);
    let N = match read_number(list[0].as_slice()) {
        Some(b) => b,
        None => {
            return None;
        },
    };
    let s = match read_number(list[1].as_slice()) {
        Some(b) => b,
        None => {
            return None;
        },
    };
    let t = match read_number(list[2].as_slice()) {
        Some(b) => b,
        None => {
            return None;
        },
    };
    let party = PartyAux { N, s, t };
    proof {
        lemma_parsed_is_transcript(item@);
        assert(party_fields(party) =~= fields);
    }
    proof {
        lemma_slice_fits(item);
        lemma_held_fits(&list@[0]);
        lemma_held_fits(&list@[1]);
        lemma_held_fits(&list@[2]);
    }
    Some(party)
}

/// Writes the public data of the parties as one field.
fn write_parties(parties: &Vec<PartyAux>) -> (r: Vec<u8>)
    ensures
        r@ == transcript(parties_fields(parties@)),
        fits(r@),
        forall|k: int| 0 <= k < parties@.len() ==> party_well_formed(#[trigger] parties@[k]),
{
    let mut h = crate::hashing::HashCommit::builder();
    let mut k: usize = 0;
    assert(parties_fields(parties@).subrange(0, 0) =~= Seq::<Seq<u8>>::empty());
    while k < parties.len()
        invariant
            k <= parties@.len(),
            h@ == parties_fields(parties@).subrange(0, k as int),
            forall|m: int| 0 <= m < k ==> party_well_formed(#[trigger] parties@[m]),
        decreases parties@.len() - k,
    {
        let field = write_party(&parties[k]);
        h = h.mix_bytes(field.as_slice());
        assert(h@ =~= parties_fields(parties@).subrange(0, k + 1));
        k += 1;
    }
    assert(parties_fields(parties@).subrange(0, parties@.len() as int) =~= parties_fields(
        parties@,
    ));
    let out = h.into_bytes();
    proof {
        lemma_held_fits(&out);
    }
    out
}

/// Reads the public data of the parties from the field that holds it.
fn read_parties(item: &[u8]) -> (r: Option<Vec<PartyAux>>)
    ensures
        r is Some <==> parties_readable(item@),
        r matches Some(parties) ==> transcript(parties_fields(parties@)) == item@ && fits(item@)
            && forall|k: int|
            0 <= k < parties@.len() ==> party_well_formed(#[trigger] parties@[k]),
{
    let list = match read_fields(item) {
        Some(list) => list,
        None => {
            return None;
        },
    };
    let ghost fields = views(list@);
    let mut parties: Vec<PartyAux> = Vec::new();
    let mut k: usize = 0;
    while k < list.len()
        invariant
            k <= list@.len(),
            fields == views(list@),
            parsed(item@) == Some(fields),
            parties@.len() == k,
            forall|m: int|
                0 <= m < k ==> transcript(party_fields(#[trigger] parties@[m])) == fields[m],
            forall|m: int| 0 <= m < k ==> party_well_formed(#[trigger] parties@[m]),
            forall|m: int| 0 <= m < k ==> party_readable(#[trigger] fields[m]),
        decreases list@.len() - k,
    {
        assert(fields[k as int] == list@[k as int]@);
        match read_party(list[k].as_slice()) {
            Some(party) => {
                parties.push(party);
            },
            None => {
                proof {
                    assert(!party_readable(fields[k as int]));
                    assert(parsed(item@)->Some_0 == fields);
                    assert(!parties_readable(item@));
                }
                return None;
            },
        }
        k += 1;
    }
    proof {
        lemma_parsed_is_transcript(item@);
        assert(parties_fields(parties@) =~= fields);
    }
    proof {
        lemma_slice_fits(item);
    }
    Some(parties)
}

impl AuxInfo {
    /// The fields that the auxiliary data is stored as.
    pub open spec fn fields(self) -> Seq<Seq<u8>> {
        seq![
            number_field(self.p),
            number_field(self.q),
            transcript(parties_fields(self.parties@)),
        ]
    }

    /// The bytes that the auxiliary data is stored as.
    pub open spec fn stored(self) -> Seq<u8> {
        transcript(self.fields())
    }

    /// Whether the numbers are few and short enough to be stored. Those of every value that
    /// a program holds are.
    pub open spec fn well_formed(self) -> bool {
        &&& fits(number_field(self.p))
        &&& fits(number_field(self.q))
        &&& fits(transcript(parties_fields(self.parties@)))
        &&& forall|k: int|
            0 <= k < self.parties@.len() ==> party_well_formed(#[trigger] self.parties@[k])
    }

    /// Whether `bytes` are what this auxiliary data is stored as.
    pub open spec fn stored_as(self, bytes: Seq<u8>) -> bool {
        self.well_formed() && self.stored() == bytes
    }

    /// The fields of auxiliary data are read as auxiliary data.
    pub proof fn lemma_fields_readable(self)
        requires
            self.well_formed(),
        ensures
            parsed(self.stored()) == Some(self.fields()),
            parsed(self.fields()[2]) == Some(parties_fields(self.parties@)),
            aux_readable(self.fields()),
    {
        let items = self.fields();
        assert forall|k: int| 0 <= k < items.len() implies (#[trigger] items[k]).len()
            <= u64::MAX by {}
        lemma_parse_transcript(items);
        let list = parties_fields(self.parties@);
        assert forall|k: int| 0 <= k < list.len() implies (#[trigger] list[k]).len() <= u64::MAX
            && party_readable(list[k]) by {
            assert(party_well_formed(self.parties@[k]));
            lemma_party_readable(self.parties@[k]);
        }
        lemma_parse_transcript(list);
        assert(parties_readable(items[2]));
    }

    /// Bytes are stored as one set of numbers at most, and what is wrong with auxiliary data
    /// depends on its numbers alone.
    pub proof fn lemma_stored_once<L: SecurityLevel>(self, other: AuxInfo, bytes: Seq<u8>, i: u16)
        requires
            self.stored_as(bytes),
            other.stored_as(bytes),
        ensures
            same_aux(self, other),
            self.failure::<L>(i) == other.failure::<L>(i),
    {
        self.lemma_fields_readable();
        other.lemma_fields_readable();
        let a = self.fields();
        let b = other.fields();
        assert(a == b);
        assert(a[0] == b[0] && a[1] == b[1] && a[2] == b[2]);
        lemma_number_field_injective(self.p, other.p);
        lemma_number_field_injective(self.q, other.q);
        let m = parties_fields(self.parties@);
        let n = parties_fields(other.parties@);
        assert(m == n);
        assert forall|k: int| 0 <= k < self.parties@.len() implies same_party(
            #[trigger] self.parties@[k],
            other.parties@[k],
        ) by {
            assert(m[k] == transcript(party_fields(self.parties@[k])));
            assert(n[k] == transcript(party_fields(other.parties@[k])));
            assert(party_well_formed(self.parties@[k]));
            assert(party_well_formed(other.parties@[k]));
            lemma_party_field_injective(self.parties@[k], other.parties@[k]);
        }
        lemma_aux_failure_of_numbers::<L>(
            self.p,
            self.q,
            self.parties@,
            other.p,
            other.q,
            other.parties@,
            i,
        );
    }

    /// The bytes that the auxiliary data is stored as.
    pub fn to_bytes(&self) -> (r: Vec<u8>)
        ensures
            self.stored_as(r@),
    {
        let mut items: Vec<Vec<u8>> = Vec::new();
        items.push(write_number(&self.p));
        items.push(write_number(&self.q));
        items.push(write_parties(&self.parties));
        assert(views(items@) =~= self.fields());
        write_fields(&items)
    }

    /// Whether `r` is what loading `bytes` as the auxiliary data of party `i` gives at the
    /// security level `L`: the valid data that is stored as them; or that they are malformed,
    /// where no data is stored as them; or what is wrong with the data that is.
    pub open spec fn loaded<L: SecurityLevel>(
        bytes: Seq<u8>,
        i: u16,
        r: Result<AuxInfo, LoadError>,
    ) -> bool {
        match r {
            Ok(aux) => aux.stored_as(bytes) && aux.failure::<L>(i) is None,
            Err(LoadError::Malformed) => forall|aux: AuxInfo| !#[trigger] aux.stored_as(bytes),
            Err(LoadError::Invalid(e)) => exists|aux: AuxInfo|
                #[trigger] aux.stored_as(bytes) && aux.failure::<L>(i) == Some(e),
        }
    }

    /// Valid auxiliary data that was stored is loaded again, unchanged.
    pub proof fn lemma_round_trip<L: SecurityLevel>(
        self,
        bytes: Seq<u8>,
        i: u16,
        r: Result<AuxInfo, LoadError>,
    )
        requires
            self.stored_as(bytes),
            self.failure::<L>(i) is None,
            Self::loaded::<L>(bytes, i, r),
        ensures
            r matches Ok(aux) && same_aux(self, aux) && aux.failure::<L>(i) is None,
    {
        match r {
            Ok(aux) => {
                self.lemma_stored_once::<L>(aux, bytes, i);
            },
            Err(LoadError::Malformed) => {
                assert(self.stored_as(bytes));
            },
            Err(LoadError::Invalid(e)) => {
                let aux = choose|aux: AuxInfo|
                    #[trigger] aux.stored_as(bytes) && aux.failure::<L>(i) == Some(e);
                self.lemma_stored_once::<L>(aux, bytes, i);
            },
        }
    }

    /// The auxiliary data that is stored as `bytes`, if any is.
    fn read(bytes: &[u8]) -> (r: Option<AuxInfo>)
        ensures
            match r {
                Some(aux) => aux.stored_as(bytes@),
                None => forall|aux: AuxInfo| !#[trigger] aux.stored_as(bytes@),
            },
    {
        let items = match read_fields(bytes) {
            Some(items) => items,
            None => {
                assert forall|aux: AuxInfo| !#[trigger] aux.stored_as(bytes@) by {
                    if aux.stored_as(bytes@) {
                        aux.lemma_fields_readable();
                    }
                }
                return None;
            },
        };
        let ghost fields = views(items@);
        proof {
            assert forall|aux: AuxInfo| #[trigger] aux.stored_as(bytes@) implies aux_readable(
                fields,
            ) by {
                aux.lemma_fields_readable();
            }
        }
        if items.len() != 3 {
            return None;
        }
        assert(fields[0] == items@[0]@ && fields[1] == items@[1]@ && fields[2] == items@[2]@);
        let p = match read_number(items[0].as_slice()) {
            Some(b) => b,
            None => {
                return None;
            },
        };
        let q = match read_number(items[1].as_slice()) {
            Some(b) => b,
            None => {
                return None;
            },
        };
        let parties = match read_parties(items[2].as_slice()) {
            Some(parties) => parties,
            None => {
                return None;
            },
        };
        let aux = AuxInfo { p, q, parties };
        proof {
            lemma_parsed_is_transcript(bytes@);
            assert(aux.fields() =~= fields);
        }
        proof {
            lemma_held_fits(&items@[0]);
            lemma_held_fits(&items@[1]);
        }
        Some(aux)
    }

    /// Reads the auxiliary data of party `i` from the bytes that [`AuxInfo::to_bytes`] gave,
    /// and validates it at the security level `L`. Bytes that no auxiliary data is stored as
    /// are refused as malformed; data that does not hold what it must is refused with what is
    /// wrong with it.
    pub fn from_bytes<L: SecurityLevel>(bytes: &[u8], i: u16) -> (r: Result<AuxInfo, LoadError>)
        ensures
            Self::loaded::<L>(bytes@, i, r),
    {
        let aux = match Self::read(bytes) {
            Some(aux) => aux,
            None => {
                return Err(LoadError::Malformed);
            },
        };
        match aux.validate::<L>(i) {
            Ok(()) => Ok(aux),
            Err(e) => {
                assert(aux.stored_as(bytes@) && aux.failure::<L>(i) == Some(e));
                Err(LoadError::Invalid(e))
            },
        }
    }
}

/// Whether two key shares hold the same.
pub open spec fn same_key_share(a: KeyShare, b: KeyShare) -> bool {
    same_share(a.core, b.core) && same_aux(a.aux, b.aux)
}

impl KeyShare {
    /// The fields that the key share is stored as: the share of the key and the auxiliary
    /// data, each as it is stored.
    pub open spec fn fields(self) -> Seq<Seq<u8>> {
        seq![self.core.stored(), self.aux.stored()]
    }

    /// The bytes that the key share is stored as.
    pub open spec fn stored(self) -> Seq<u8> {
        transcript(self.fields())
    }

    /// Whether both parts can be stored. Those of every key share that a program holds can.
    pub open spec fn well_formed(self) -> bool {
        &&& self.core.well_formed()
        &&& self.aux.well_formed()
        &&& fits(self.core.stored())
        &&& fits(self.aux.stored())
    }

    /// Whether `bytes` are what this key share is stored as.
    pub open spec fn stored_as(self, bytes: Seq<u8>) -> bool {
        self.well_formed() && self.stored() == bytes
    }

    /// The fields of a key share are read back from what it is stored as.
    pub proof fn lemma_fields_readable(self)
        requires
            self.well_formed(),
        ensures
            parsed(self.stored()) == Some(self.fields()),
    {
        let items = self.fields();
        assert forall|k: int| 0 <= k < items.len() implies (#[trigger] items[k]).len()
            <= u64::MAX by {}
        lemma_parse_transcript(items);
    }

    /// Bytes are stored as one key share at most, and key shares that hold the same are
    /// valid together.
    pub proof fn lemma_stored_once<L: SecurityLevel>(self, other: KeyShare, bytes: Seq<u8>)
        requires
            self.stored_as(bytes),
            other.stored_as(bytes),
        ensures
            same_key_share(self, other),
            self.failure::<L>() == other.failure::<L>(),
    {
        self.lemma_fields_readable();
        other.lemma_fields_readable();
        let a = self.fields();
        let b = other.fields();
        assert(a == b);
        assert(a[0] == b[0] && a[1] == b[1]);
        self.core.lemma_stored_once(other.core, a[0]);
        self.aux.lemma_stored_once::<L>(other.aux, a[1], self.core.i);
    }

    /// Whether `r` is what loading `bytes` gives at the security level `L`: the valid key
    /// share that is stored as them; or that they are malformed, where no key share is stored
    /// as them; or what is wrong with the key share that is.
    pub open spec fn loaded<L: SecurityLevel>(bytes: Seq<u8>, r: Result<KeyShare, LoadError>) -> bool {
        match r {
            Ok(share) => share.stored_as(bytes) && share.failure::<L>() is None,
            Err(LoadError::Malformed) => forall|share: KeyShare| !#[trigger] share.stored_as(bytes),
            Err(LoadError::Invalid(e)) => exists|share: KeyShare|
                #[trigger] share.stored_as(bytes) && share.failure::<L>() == Some(e),
        }
    }

    /// A valid key share that was stored is loaded again, unchanged.
    pub proof fn lemma_round_trip<L: SecurityLevel>(
        self,
        bytes: Seq<u8>,
        r: Result<KeyShare, LoadError>,
    )
        requires
            self.stored_as(bytes),
            self.failure::<L>() is None,
            Self::loaded::<L>(bytes, r),
        ensures
            r matches Ok(share) && same_key_share(self, share) && share.failure::<L>() is None,
    {
        match r {
            Ok(share) => {
                self.lemma_stored_once::<L>(share, bytes);
            },
            Err(LoadError::Malformed) => {
                assert(self.stored_as(bytes));
            },
            Err(LoadError::Invalid(e)) => {
                let share = choose|share: KeyShare|
                    #[trigger] share.stored_as(bytes) && share.failure::<L>() == Some(e);
                self.lemma_stored_once::<L>(share, bytes);
            },
        }
    }

    /// The bytes that the key share is stored as.
    pub fn to_bytes(&self) -> (r: Vec<u8>)
        ensures
            self.stored_as(r@),
    {
        let mut items: Vec<Vec<u8>> = Vec::new();
        let core = self.core.to_bytes();
        let aux = self.aux.to_bytes();
        proof {
            lemma_held_fits(&core);
            lemma_held_fits(&aux);
        }
        items.push(core);
        items.push(aux);
        assert(views(items@) =~= self.fields());
        write_fields(&items)
    }

    /// Reads a key share from the bytes that [`KeyShare::to_bytes`] gave, and validates it at
    /// the security level `L`. Bytes that no key share is stored as are refused as malformed;
    /// a key share that does not hold what it must is refused with what is wrong with it.
    pub fn from_bytes<L: SecurityLevel>(bytes: &[u8]) -> (r: Result<KeyShare, LoadError>)
        ensures
            Self::loaded::<L>(bytes@, r),
    {
        let items = match read_fields(bytes) {
            Some(items) => items,
            None => {
                assert forall|share: KeyShare| !#[trigger] share.stored_as(bytes@) by {
                    if share.stored_as(bytes@) {
                        share.lemma_fields_readable();
                    }
                }
                return Err(LoadError::Malformed);
            },
        };
        let ghost fields = views(items@);
        proof {
            assert forall|share: KeyShare| #[trigger] share.stored_as(bytes@) implies fields
                == share.fields() by {
                share.lemma_fields_readable();
            }
        }
        if items.len() != 2 {
            assert forall|share: KeyShare| !#[trigger] share.stored_as(bytes@) by {
                if share.stored_as(bytes@) {
                    assert(share.fields().len() == 2);
                }
            }
            return Err(LoadError::Malformed);
        }
        assert(fields[0] == items@[0]@ && fields[1] == items@[1]@);
        let core = match IncompleteKeyShare::read(items[0].as_slice()) {
            Some(core) => core,
            None => {
                assert forall|share: KeyShare| !#[trigger] share.stored_as(bytes@) by {
                    if share.stored_as(bytes@) {
                        assert(share.fields()[0] == share.core.stored());
                        assert(share.core.stored_as(fields[0]));
                    }
                }
                return Err(LoadError::Malformed);
            },
        };
        let aux = match AuxInfo::read(items[1].as_slice()) {
            Some(aux) => aux,
            None => {
                assert forall|share: KeyShare| !#[trigger] share.stored_as(bytes@) by {
                    if share.stored_as(bytes@) {
                        assert(share.fields()[1] == share.aux.stored());
                        assert(share.aux.stored_as(fields[1]));
                    }
                }
                return Err(LoadError::Malformed);
            },
        };
        let share = KeyShare { core, aux };
        proof {
            lemma_parsed_is_transcript(bytes@);
            assert(share.fields() =~= fields);
        }
        proof {
            lemma_held_fits(&items@[0]);
            lemma_held_fits(&items@[1]);
        }
        match share.validate::<L>() {
            Ok(()) => Ok(share),
            Err(e) => {
                assert(share.stored_as(bytes@) && share.failure::<L>() == Some(e));
                Err(LoadError::Invalid(e))
            },
        }
    }
}

} // verus!

//! Byte strings read as big-endian natural numbers.

use vstd::arithmetic::power::pow;
use vstd::arithmetic::power::lemma_pow0;
use vstd::arithmetic::power::lemma_pow1;
use vstd::arithmetic::power::lemma_pow_adds;
use vstd::arithmetic::power::lemma_pow_positive;
use vstd::prelude::*;

verus! {

/// The natural number that `s` encodes in big-endian order.
pub open spec fn be_nat(s: Seq<u8>) -> nat
    decreases s.len(),
{
    if s.len() == 0 {
        0
    } else {
        be_nat(s.drop_last()) * 256 + s.last() as nat
    }
}

/// `256^n`, the number of byte strings of length `n`.
pub open spec fn byte_range(n: nat) -> nat {
    pow(256, n) as nat
}

/// A byte string of length `n` encodes a number below `256^n`.
pub proof fn lemma_be_nat_bound(s: Seq<u8>)
    ensures
        be_nat(s) < byte_range(s.len()),
    decreases s.len(),
{
    if s.len() == 0 {
        lemma_pow0(256);
    } else {
        lemma_be_nat_bound(s.drop_last());
        let n = (s.len() - 1) as nat;
        lemma_pow_adds(256, n, 1);
        lemma_pow1(256);
        lemma_pow_positive(256, n);
        assert(pow(256, s.len()) == pow(256, n) * 256);
        assert(be_nat(s.drop_last()) + 1 <= pow(256, n));
        assert((be_nat(s.drop_last()) + 1) * 256 <= pow(256, n) * 256) by (nonlinear_arith)
            requires
                be_nat(s.drop_last()) + 1 <= pow(256, n),
        ;
    }
}

/// Two byte strings of one length that encode the same number are equal.
pub proof fn lemma_be_nat_injective(a: Seq<u8>, b: Seq<u8>)
    requires
        a.len() == b.len(),
        be_nat(a) == be_nat(b),
    ensures
        a == b,
    decreases a.len(),
{
    if a.len() > 0 {
        let x = be_nat(a.drop_last());
        let y = be_nat(b.drop_last());
        assert(x * 256 + a.last() as nat == y * 256 + b.last() as nat);
        assert(x == y && a.last() == b.last()) by (nonlinear_arith)
            requires
                x * 256 + a.last() as nat == y * 256 + b.last() as nat,
                a.last() < 256,
                b.last() < 256,
        ;
        lemma_be_nat_injective(a.drop_last(), b.drop_last());
        assert(a =~= a.drop_last().push(a.last()));
        assert(b =~= b.drop_last().push(b.last()));
    } else {
        assert(a =~= b);
    }
}

/// A string of zero bytes encodes zero.
pub proof fn lemma_be_nat_zeros(s: Seq<u8>)
    requires
        forall|i: int| 0 <= i < s.len() ==> s[i] == 0u8,
    ensures
        be_nat(s) == 0,
    decreases s.len(),
{
    if s.len() > 0 {
        lemma_be_nat_zeros(s.drop_last());
    }
}

/// Splitting a byte string: the head is scaled by the range of the tail.
pub proof fn lemma_be_nat_concat(a: Seq<u8>, b: Seq<u8>)
    ensures
        be_nat(a + b) == be_nat(a) * byte_range(b.len()) + be_nat(b),
    decreases b.len(),
{
    if b.len() == 0 {
        assert(a + b =~= a);
        lemma_pow0(256);
        assert(be_nat(a) * 1 == be_nat(a)) by (nonlinear_arith);
    } else {
        let n = (b.len() - 1) as nat;
        lemma_be_nat_concat(a, b.drop_last());
        assert((a + b).drop_last() =~= a + b.drop_last());
        assert((a + b).last() == b.last());
        lemma_pow_adds(256, n, 1);
        lemma_pow1(256);
        lemma_pow_positive(256, n);
        let p = pow(256, n);
        let x = be_nat(a) as int;
        let y = be_nat(b.drop_last()) as int;
        assert(pow(256, b.len()) == p * 256);
        assert(be_nat(a + b) == (x * p + y) * 256 + b.last() as nat);
        assert((x * p + y) * 256 == x * (p * 256) + y * 256) by (nonlinear_arith);
    }
}

/// Leading zero bytes do not change the number.
pub proof fn lemma_be_nat_leading_zeros(a: Seq<u8>, b: Seq<u8>)
    requires
        forall|i: int| 0 <= i < a.len() ==> a[i] == 0u8,
    ensures
        be_nat(a + b) == be_nat(b),
{
    lemma_be_nat_concat(a, b);
    lemma_be_nat_zeros(a);
    assert(0 * byte_range(b.len()) == 0) by (nonlinear_arith);
}

/// The first index at which `a` and `b` differ decides their order as numbers.
pub proof fn lemma_be_nat_order(a: Seq<u8>, b: Seq<u8>, k: int)
    requires
        a.len() == b.len(),
        0 <= k < a.len(),
        a.subrange(0, k) == b.subrange(0, k),
        a[k] < b[k],
    ensures
        be_nat(a) < be_nat(b),
{
    let n = a.len() as int;
    let ah = a.subrange(0, k + 1);
    let bh = b.subrange(0, k + 1);
    let at = a.subrange(k + 1, n);
    let bt = b.subrange(k + 1, n);
    assert(a =~= ah + at);
    assert(b =~= bh + bt);
    lemma_be_nat_concat(ah, at);
    lemma_be_nat_concat(bh, bt);
    lemma_be_nat_bound(at);
    lemma_be_nat_bound(bt);
    assert(ah.drop_last() =~= a.subrange(0, k));
    assert(bh.drop_last() =~= b.subrange(0, k));
    assert(ah.last() == a[k]);
    assert(bh.last() == b[k]);
    assert(be_nat(ah) + 1 <= be_nat(bh));
    let r = byte_range(at.len());
    let x = be_nat(ah) as int;
    let y = be_nat(bh) as int;
    assert(x * r + r <= y * r) by (nonlinear_arith)
        requires
            x + 1 <= y,
            r >= 0,
    ;
}

/// Whether two byte strings are equal.
pub fn bytes_eq(a: &[u8], b: &[u8]) -> (r: bool)
    ensures
        r == (a@ == b@),
{
    if a.len() != b.len() {
        return false;
    }
    let n: usize = a.len();
    let mut i: usize = 0;
    while i < n
        invariant
            n == a@.len(),
            n == b@.len(),
            i <= n,
            a@.subrange(0, i as int) == b@.subrange(0, i as int),
        decreases n - i,
    {
        if a[i] != b[i] {
            return false;
        }
        assert(a@.subrange(0, i + 1) =~= a@.subrange(0, i as int).push(a@[i as int]));
        assert(b@.subrange(0, i + 1) =~= b@.subrange(0, i as int).push(b@[i as int]));
        i += 1;
    }
    assert(a@ =~= a@.subrange(0, n as int));
    assert(b@ =~= b@.subrange(0, n as int));
    true
}

/// Whether `a` encodes a smaller number than `b`, for strings of one length.
pub fn bytes_lt(a: &[u8], b: &[u8]) -> (r: bool)
    requires
        a@.len() == b@.len(),
    ensures
        r == (be_nat(a@) < be_nat(b@)),
{
    let n: usize = a.len();
    let mut i: usize = 0;
    while i < n
        invariant
            n == a@.len(),
            n == b@.len(),
            i <= n,
            a@.subrange(0, i as int) == b@.subrange(0, i as int),
        decreases n - i,
    {
        if a[i] < b[i] {
            proof {
                lemma_be_nat_order(a@, b@, i as int);
            }
            return true;
        }
        if a[i] > b[i] {
            proof {
                lemma_be_nat_order(b@, a@, i as int);
            }
            return false;
        }
        assert(a@.subrange(0, i + 1) =~= a@.subrange(0, i as int).push(a@[i as int]));
        assert(b@.subrange(0, i + 1) =~= b@.subrange(0, i as int).push(b@[i as int]));
        i += 1;
    }
    assert(a@ =~= a@.subrange(0, n as int));
    assert(b@ =~= b@.subrange(0, n as int));
    false
}

} // verus!

//! Helpers shared by the protocols.

use crate::bignumber::BigNumber;
use crate::rounds::sender_of;
use crate::rounds::MsgId;
use crate::rounds::PartyIndex;
use crate::rounds::RoundMsgs;
use crate::scalar::inverse;
use crate::scalar::mul_mod;
use crate::scalar::sub_mod;
use crate::scalar::NonZeroScalar;
use crate::scalar::Scalar;
use crate::security_level::SecurityLevel;
use vstd::prelude::*;

verus! {

/// Byte-wise exclusive or of `a` with `b`, as far as the shorter of the two reaches.
pub open spec fn xor_seq(a: Seq<u8>, b: Seq<u8>) -> Seq<u8> {
    Seq::new(
        a.len(),
        |k: int|
            if k < b.len() {
                a[k] ^ b[k]
            } else {
                a[k]
            },
    )
}

/// Xors the bytes of `b` into `a`: each byte of `a` that has a counterpart in `b` is replaced
/// by the exclusive or of the two, and the others stay.
pub fn xor_array(a: Vec<u8>, b: &[u8]) -> (r: Vec<u8>)
    ensures
        r@ == xor_seq(a@, b@),
{
    let mut a = a;
    let ghost old_a = a@;
    let n: usize = if a.len() < b.len() {
        a.len()
    } else {
        b.len()
    };
    let mut k: usize = 0;
    while k < n
        invariant
            k <= n,
            n <= b@.len(),
            n <= old_a.len(),
            n == old_a.len() || n == b@.len(),
            a@.len() == old_a.len(),
            forall|j: int| 0 <= j < k ==> a@[j] == old_a[j] ^ b@[j],
            forall|j: int| k <= j < a@.len() ==> a@[j] == old_a[j],
        decreases n - k,
    {
        let v: u8 = a[k] ^ b[k];
        a.set(k, v);
        k += 1;
    }
    assert(a@ =~= xor_seq(old_a, b@));
    a
}

/// The parties other than `i` among the `n` first, in increasing order.
pub open spec fn peers(i: PartyIndex, n: u16) -> Seq<u16> {
    Seq::new(
        if i < n {
            (n - 1) as nat
        } else {
            n as nat
        },
        |k: int| sender_of(i, k) as u16,
    )
}

/// Lists the peers of the `i`-th of `n` parties: every index below `n` but `i`, in increasing
/// order.
pub fn iter_peers(i: u16, n: u16) -> (r: Vec<u16>)
    ensures
        r@ == peers(i, n),
        forall|x: u16| r@.contains(x) <==> x < n && x != i,
{
    let mut out: Vec<u16> = Vec::new();
    let mut x: u16 = 0;
    while x < n
        invariant
            x <= n,
            out@.len() == if i < x {
                (x - 1) as nat
            } else {
                x as nat
            },
            forall|k: int| 0 <= k < out@.len() ==> out@[k] == sender_of(i, k) as u16,
        decreases n - x,
    {
        if x != i {
            out.push(x);
        }
        x += 1;
    }
    assert(out@ =~= peers(i, n));
    assert forall|x: u16| out@.contains(x) <==> x < n && x != i by {
        if x < n && x != i {
            let k: int = if x < i {
                x as int
            } else {
                x - 1
            };
            assert(out@[k] == x);
        }
    }
    out
}

/// Drops the `n`-th item of a list, if it has one, and keeps the others in their order.
pub fn but_nth<T>(n: u16, iter: Vec<T>) -> (r: Vec<T>)
    ensures
        r@ == if n < iter@.len() {
            iter@.remove(n as int)
        } else {
            iter@
        },
{
    let mut iter = iter;
    if (n as usize) < iter.len() {
        iter.remove(n as usize);
    }
    iter
}

/// The `Ok` values of a sequence of results, in their order.
pub open spec fn oks_of<A, B>(s: Seq<Result<A, B>>) -> Seq<A>
    decreases s.len(),
{
    if s.len() == 0 {
        Seq::empty()
    } else {
        match s.last() {
            Ok(a) => oks_of(s.drop_last()).push(a),
            Err(_) => oks_of(s.drop_last()),
        }
    }
}

/// The `Err` values of a sequence of results, in their order.
pub open spec fn errs_of<A, B>(s: Seq<Result<A, B>>) -> Seq<B>
    decreases s.len(),
{
    if s.len() == 0 {
        Seq::empty()
    } else {
        match s.last() {
            Ok(_) => errs_of(s.drop_last()),
            Err(b) => errs_of(s.drop_last()).push(b),
        }
    }
}

/// Parts a list of results into the values and the errors, each kept in its order.
pub fn partition_results<A, B>(iter: Vec<Result<A, B>>) -> (r: (Vec<A>, Vec<B>))
    ensures
        r.0@ == oks_of(iter@),
        r.1@ == errs_of(iter@),
        r.0@.len() + r.1@.len() == iter@.len(),
{
    let ghost all = iter@;
    let mut iter = iter;
    let mut oks: Vec<A> = Vec::new();
    let mut errs: Vec<B> = Vec::new();
    // The list is taken apart from its end, so both results come out reversed.
    while iter.len() > 0
        invariant
            iter@.len() <= all.len(),
            iter@ == all.subrange(0, iter@.len() as int),
            oks_of(all) == oks_of(iter@) + oks@.reverse(),
            errs_of(all) == errs_of(iter@) + errs@.reverse(),
            oks@.len() + errs@.len() + iter@.len() == all.len(),
        decreases iter@.len(),
    {
        let ghost before = iter@;
        let ghost oks_before = oks@;
        let ghost errs_before = errs@;
        let item = iter.pop();
        assert(iter@ =~= before.drop_last());
        assert(iter@ =~= all.subrange(0, iter@.len() as int));
        match item {
            Some(Ok(a)) => {
                oks.push(a);
                assert(oks@.reverse() =~= seq![a] + oks_before.reverse());
                assert(oks_of(before) == oks_of(iter@).push(a));
                assert(oks_of(iter@).push(a) + oks_before.reverse() =~= oks_of(iter@)
                    + oks@.reverse());
            },
            Some(Err(b)) => {
                errs.push(b);
                assert(errs@.reverse() =~= seq![b] + errs_before.reverse());
                assert(errs_of(before) == errs_of(iter@).push(b));
                assert(errs_of(iter@).push(b) + errs_before.reverse() =~= errs_of(iter@)
                    + errs@.reverse());
            },
            None => {},
        }
    }
    assert(oks_of(iter@) =~= Seq::<A>::empty());
    assert(errs_of(iter@) =~= Seq::<B>::empty());
    let ghost oks_rev = oks@;
    let ghost errs_rev = errs@;
    reverse_vec(&mut oks);
    reverse_vec(&mut errs);
    assert(oks@ =~= oks_of(all));
    assert(errs@ =~= errs_of(all));
    (oks, errs)
}

/// Reverses a list in place.
pub fn reverse_vec<T>(v: &mut Vec<T>)
    ensures
        final(v)@ == old(v)@.reverse(),
{
    let ghost before = v@;
    let mut out: Vec<T> = Vec::new();
    while v.len() > 0
        invariant
            v@.len() <= before.len(),
            v@ == before.subrange(0, v@.len() as int),
            out@.len() + v@.len() == before.len(),
            forall|k: int| 0 <= k < out@.len() ==> out@[k] == before[before.len() - 1 - k],
        decreases v@.len(),
    {
        let ghost cur = v@;
        let item = v.pop();
        assert(v@ =~= before.subrange(0, v@.len() as int));
        match item {
            Some(x) => {
                out.push(x);
            },
            None => {},
        }
    }
    assert(out@ =~= before.reverse());
    *v = out;
}

/// Picks `list[indexes[0]], list[indexes[1]], ...`: `None` if one of the indexes is out of
/// the list's range.
pub fn subset<T: Copy>(indexes: &[u16], list: &[T]) -> (r: Option<Vec<T>>)
    ensures
        r is Some <==> forall|k: int| 0 <= k < indexes@.len() ==> indexes@[k] < list@.len(),
        r matches Some(v) ==> v@.len() == indexes@.len() && forall|k: int|
            0 <= k < indexes@.len() ==> v@[k] == list@[indexes@[k] as int],
{
    let mut out: Vec<T> = Vec::new();
    let mut k: usize = 0;
    while k < indexes.len()
        invariant
            k <= indexes@.len(),
            out@.len() == k,
            forall|j: int| 0 <= j < k ==> indexes@[j] < list@.len(),
            forall|j: int| 0 <= j < k ==> out@[j] == list@[indexes@[j] as int],
        decreases indexes@.len() - k,
    {
        let idx: usize = indexes[k] as usize;
        if idx >= list.len() {
            return None;
        }
        out.push(list[idx]);
        k += 1;
    }
    Some(out)
}

/// The product, modulo the group order, of `x - xs[m]` over the indexes `m` below `upto`
/// other than `j`.
pub open spec fn prod_diff(x: nat, xs: Seq<nat>, j: int, upto: int) -> nat
    decreases upto,
{
    if upto <= 0 {
        1
    } else if upto - 1 == j {
        prod_diff(x, xs, j, upto - 1)
    } else {
        mul_mod(prod_diff(x, xs, j, upto - 1), sub_mod(x, xs[upto - 1]))
    }
}

/// The value of the `j`-th Lagrange basis polynomial of the nodes `xs` at the point `x`:
/// the product of `x - xs[m]` divided by the product of `xs[j] - xs[m]`, over `m` other
/// than `j`.
pub open spec fn lagrange_value(x: nat, j: int, xs: Seq<nat>) -> nat {
    mul_mod(
        prod_diff(x, xs, j, xs.len() as int),
        inverse(prod_diff(xs[j], xs, j, xs.len() as int)),
    )
}

/// Whether the `j`-th Lagrange coefficient of the nodes `xs` at the point `x` exists as a
/// non-zero scalar: `j` is an index of `xs`, `xs[j]` differs from every other node, and the
/// coefficient is not zero.
pub open spec fn lagrange_defined(x: nat, j: int, xs: Seq<nat>) -> bool {
    &&& 0 <= j < xs.len()
    &&& prod_diff(xs[j], xs, j, xs.len() as int) != 0
    &&& lagrange_value(x, j, xs) != 0
}

/// The values of a sequence of non-zero scalars.
pub open spec fn nonzero_values(s: Seq<NonZeroScalar>) -> Seq<nat> {
    Seq::new(s.len(), |i: int| s[i]@)
}

/// The product of `x - xs[m]` over all `m` but `j`.
fn product_of_differences(x: &Scalar, j: u16, xs: &[NonZeroScalar]) -> (r: Scalar)
    ensures
        r@ == prod_diff(x@, nonzero_values(xs@), j as int, xs@.len() as int),
{
    let mut acc = Scalar::from_u16(1);
    let mut m: usize = 0;
    while m < xs.len()
        invariant
            m <= xs@.len(),
            acc@ == prod_diff(x@, nonzero_values(xs@), j as int, m as int),
        decreases xs@.len() - m,
    {
        if m != j as usize {
            let x_m = xs[m].to_scalar();
            let d = x.sub(&x_m);
            acc = acc.mul(&d);
        }
        m += 1;
    }
    acc
}

/// Lagrange coefficient `lambda_j` for interpolating at the point `x` a polynomial known at
/// the nodes `xs`.
///
/// `None` if `j` is no index of `xs`, if `xs[j]` equals another node (the denominator is then
/// zero), or if `x` equals a node other than `xs[j]` (the coefficient is then zero).
pub fn lagrange_coefficient(x: Scalar, j: u16, xs: &[NonZeroScalar]) -> (r: Option<
    NonZeroScalar,
>)
    ensures
        r is Some <==> lagrange_defined(x@, j as int, nonzero_values(xs@)),
        r matches Some(l) ==> l@ == lagrange_value(x@, j as int, nonzero_values(xs@)),
{
    if j as usize >= xs.len() {
        return None;
    }
    let nom = product_of_differences(&x, j, xs);
    let x_j = xs[j as usize].to_scalar();
    let denom = product_of_differences(&x_j, j, xs);
    match denom.invert() {
        None => None,
        Some(denom_inv) => NonZeroScalar::from_scalar(nom.mul(&denom_inv)),
    }
}

/// Who is to blame for a fault, and the two messages that show it.
#[derive(Clone, Copy, Debug, PartialEq, Eq, Structural)]
pub struct AbortBlame {
    /// Party which can be blamed for breaking the protocol
    pub faulty_party: PartyIndex,
    /// Message with initial data
    pub data_message: MsgId,
    /// Message with some kind of proof related to the data
    pub proof_message: MsgId,
}

impl AbortBlame {
    pub fn new(faulty_party: PartyIndex, data_message: MsgId, proof_message: MsgId) -> (r:
        Self)
        ensures
            r == (AbortBlame { faulty_party, data_message, proof_message }),
    {
        Self { faulty_party, data_message, proof_message }
    }
}

/// The blame for the first `upto` senders of a round: one entry, in the senders' order, for
/// each whose verdict is `true`, naming the sender and its two messages.
pub open spec fn blamed(
    i: PartyIndex,
    data_ids: Seq<MsgId>,
    proof_ids: Seq<MsgId>,
    faulty: Seq<bool>,
    upto: int,
) -> Seq<AbortBlame>
    decreases upto,
{
    if upto <= 0 {
        Seq::empty()
    } else if faulty[upto - 1] {
        blamed(i, data_ids, proof_ids, faulty, upto - 1).push(
            AbortBlame {
                faulty_party: sender_of(i, upto - 1) as u16,
                data_message: data_ids[upto - 1],
                proof_message: proof_ids[upto - 1],
            },
        )
    } else {
        blamed(i, data_ids, proof_ids, faulty, upto - 1)
    }
}

/// The number of senders that two rounds have in common.
pub open spec fn common_count<D, P>(data: RoundMsgs<D>, proofs: RoundMsgs<P>) -> int {
    if data.count() <= proofs.count() {
        data.count() as int
    } else {
        proofs.count() as int
    }
}

/// Collects the blame for a round of data and a round of proofs: `filter` is asked about each
/// sender's pair of messages, in the senders' order, and says `true` for a faulty pair. The
/// result names exactly the senders with a faulty pair.
pub fn collect_blame<D, P, F: Fn(PartyIndex, &D, &P) -> bool>(
    data_messages: &RoundMsgs<D>,
    proof_messages: &RoundMsgs<P>,
    filter: F,
) -> (r: Vec<AbortBlame>)
    requires
        forall|j: PartyIndex, d: &D, p: &P| call_requires(filter, (j, d, p)),
    ensures
        exists|faulty: Seq<bool>|
            {
                &&& faulty.len() == common_count(*data_messages, *proof_messages)
                &&& forall|k: int|
                    0 <= k < faulty.len() ==> call_ensures(
                        filter,
                        (
                            sender_of(data_messages.receiver(), k) as u16,
                            &data_messages.messages()[k],
                            &proof_messages.messages()[k],
                        ),
                        #[trigger] faulty[k],
                    )
                &&& r@ == blamed(
                    data_messages.receiver(),
                    data_messages.ids(),
                    proof_messages.ids(),
                    faulty,
                    faulty.len() as int,
                )
            },
{
    let n: usize = if data_messages.len() <= proof_messages.len() {
        data_messages.len()
    } else {
        proof_messages.len()
    };
    let mut out: Vec<AbortBlame> = Vec::new();
    let ghost mut faulty: Seq<bool> = Seq::empty();
    let mut k: usize = 0;
    while k < n
        invariant
            k <= n,
            n == common_count(*data_messages, *proof_messages),
            n <= data_messages.count(),
            n <= proof_messages.count(),
            data_messages.ids().len() == data_messages.count(),
            proof_messages.ids().len() == proof_messages.count(),
            faulty.len() == k,
            forall|j: PartyIndex, d: &D, p: &P| call_requires(filter, (j, d, p)),
            forall|m: int|
                0 <= m < k ==> call_ensures(
                    filter,
                    (
                        sender_of(data_messages.receiver(), m) as u16,
                        &data_messages.messages()[m],
                        &proof_messages.messages()[m],
                    ),
                    #[trigger] faulty[m],
                ),
            out@ == blamed(
                data_messages.receiver(),
                data_messages.ids(),
                proof_messages.ids(),
                faulty,
                k as int,
            ),
        decreases n - k,
    {
        let j = data_messages.sender(k);
        let verdict = filter(j, data_messages.message(k), proof_messages.message(k));
        let ghost before = faulty;
        proof {
            faulty = faulty.push(verdict);
            lemma_blamed_prefix(
                data_messages.receiver(),
                data_messages.ids(),
                proof_messages.ids(),
                before,
                faulty,
                k as int,
            );
        }
        if verdict {
            out.push(AbortBlame::new(j, data_messages.msg_id(k), proof_messages.msg_id(k)));
        }
        k += 1;
    }
    out
}

/// The blame for the first senders depends on their verdicts alone.
pub proof fn lemma_blamed_prefix(
    i: PartyIndex,
    data_ids: Seq<MsgId>,
    proof_ids: Seq<MsgId>,
    a: Seq<bool>,
    b: Seq<bool>,
    upto: int,
)
    requires
        upto <= a.len(),
        upto <= b.len(),
        forall|k: int| 0 <= k < upto ==> a[k] == b[k],
    ensures
        blamed(i, data_ids, proof_ids, a, upto) == blamed(i, data_ids, proof_ids, b, upto),
    decreases upto,
{
    if upto > 0 {
        lemma_blamed_prefix(i, data_ids, proof_ids, a, b, upto - 1);
    }
}

/// Collects the blame for one round of messages: `filter` says `true` for a faulty message.
/// Each entry names the sender and its message, as the data and as the proof.
pub fn collect_simple_blame<D, F: Fn(&D) -> bool>(messages: &RoundMsgs<D>, filter: F) -> (r:
    Vec<AbortBlame>)
    requires
        forall|d: &D| call_requires(filter, (d,)),
    ensures
        exists|faulty: Seq<bool>|
            {
                &&& faulty.len() == messages.count()
                &&& forall|k: int|
                    0 <= k < faulty.len() ==> call_ensures(
                        filter,
                        (&messages.messages()[k],),
                        #[trigger] faulty[k],
                    )
                &&& r@ == blamed(
                    messages.receiver(),
                    messages.ids(),
                    messages.ids(),
                    faulty,
                    faulty.len() as int,
                )
            },
{
    let n: usize = messages.len();
    let mut out: Vec<AbortBlame> = Vec::new();
    let ghost mut faulty: Seq<bool> = Seq::empty();
    let mut k: usize = 0;
    while k < n
        invariant
            k <= n,
            n == messages.count(),
            messages.ids().len() == messages.count(),
            faulty.len() == k,
            forall|d: &D| call_requires(filter, (d,)),
            forall|m: int|
                0 <= m < k ==> call_ensures(
                    filter,
                    (&messages.messages()[m],),
                    #[trigger] faulty[m],
                ),
            out@ == blamed(messages.receiver(), messages.ids(), messages.ids(), faulty, k as int),
        decreases n - k,
    {
        let verdict = filter(messages.message(k));
        let ghost before = faulty;
        proof {
            faulty = faulty.push(verdict);
            lemma_blamed_prefix(
                messages.receiver(),
                messages.ids(),
                messages.ids(),
                before,
                faulty,
                k as int,
            );
        }
        if verdict {
            let id = messages.msg_id(k);
            out.push(AbortBlame::new(messages.sender(k), id, id));
        }
        k += 1;
    }
    out
}

/// As [`collect_blame`], with a `filter` that can fail: the first failure ends the collection
/// and is returned, and the senders after it are not asked about.
pub fn try_collect_blame<E, D, P, F: Fn(PartyIndex, &D, &P) -> Result<bool, E>>(
    data_messages: &RoundMsgs<D>,
    proof_messages: &RoundMsgs<P>,
    filter: F,
) -> (r: Result<Vec<AbortBlame>, E>)
    requires
        forall|j: PartyIndex, d: &D, p: &P| call_requires(filter, (j, d, p)),
    ensures
        exists|faulty: Seq<bool>|
            {
                &&& faulty.len() <= common_count(*data_messages, *proof_messages)
                &&& forall|k: int|
                    0 <= k < faulty.len() ==> call_ensures(
                        filter,
                        (
                            sender_of(data_messages.receiver(), k) as u16,
                            &data_messages.messages()[k],
                            &proof_messages.messages()[k],
                        ),
                        Ok::<bool, E>(#[trigger] faulty[k]),
                    )
                &&& match r {
                    Ok(v) => faulty.len() == common_count(*data_messages, *proof_messages)
                        && v@ == blamed(
                        data_messages.receiver(),
                        data_messages.ids(),
                        proof_messages.ids(),
                        faulty,
                        faulty.len() as int,
                    ),
                    Err(e) => faulty.len() < common_count(*data_messages, *proof_messages)
                        && call_ensures(
                        filter,
                        (
                            sender_of(data_messages.receiver(), faulty.len() as int) as u16,
                            &data_messages.messages()[faulty.len() as int],
                            &proof_messages.messages()[faulty.len() as int],
                        ),
                        Err::<bool, E>(e),
                    ),
                }
            },
{
    let n: usize = if data_messages.len() <= proof_messages.len() {
        data_messages.len()
    } else {
        proof_messages.len()
    };
    let mut out: Vec<AbortBlame> = Vec::new();
    let ghost mut faulty: Seq<bool> = Seq::empty();
    let mut k: usize = 0;
    while k < n
        invariant
            k <= n,
            n == common_count(*data_messages, *proof_messages),
            n <= data_messages.count(),
            n <= proof_messages.count(),
            data_messages.ids().len() == data_messages.count(),
            proof_messages.ids().len() == proof_messages.count(),
            faulty.len() == k,
            forall|j: PartyIndex, d: &D, p: &P| call_requires(filter, (j, d, p)),
            forall|m: int|
                0 <= m < k ==> call_ensures(
                    filter,
                    (
                        sender_of(data_messages.receiver(), m) as u16,
                        &data_messages.messages()[m],
                        &proof_messages.messages()[m],
                    ),
                    Ok::<bool, E>(#[trigger] faulty[m]),
                ),
            out@ == blamed(
                data_messages.receiver(),
                data_messages.ids(),
                proof_messages.ids(),
                faulty,
                k as int,
            ),
        decreases n - k,
    {
        let j = data_messages.sender(k);
        match filter(j, data_messages.message(k), proof_messages.message(k)) {
            Err(e) => {
                return Err(e);
            },
            Ok(verdict) => {
                let ghost before = faulty;
                proof {
                    faulty = faulty.push(verdict);
                    lemma_blamed_prefix(
                        data_messages.receiver(),
                        data_messages.ids(),
                        proof_messages.ids(),
                        before,
                        faulty,
                        k as int,
                    );
                }
                if verdict {
                    out.push(
                        AbortBlame::new(j, data_messages.msg_id(k), proof_messages.msg_id(k)),
                    );
                }
            },
        }
        k += 1;
    }
    Ok(out)
}

/// Every entry of the blame names a sender whose verdict is `true`.
pub proof fn lemma_blamed_sound(
    i: PartyIndex,
    data_ids: Seq<MsgId>,
    proof_ids: Seq<MsgId>,
    faulty: Seq<bool>,
    upto: int,
    e: int,
) -> (k: int)
    requires
        0 <= upto <= faulty.len(),
        upto < u16::MAX,
        0 <= e < blamed(i, data_ids, proof_ids, faulty, upto).len(),
    ensures
        0 <= k < upto,
        faulty[k],
        blamed(i, data_ids, proof_ids, faulty, upto)[e].faulty_party == sender_of(i, k),
    decreases upto,
{
    let prev = blamed(i, data_ids, proof_ids, faulty, upto - 1);
    if e < prev.len() {
        lemma_blamed_sound(i, data_ids, proof_ids, faulty, upto - 1, e)
    } else {
        upto - 1
    }
}

/// Every sender whose verdict is `true` is named by an entry of the blame.
pub proof fn lemma_blamed_complete(
    i: PartyIndex,
    data_ids: Seq<MsgId>,
    proof_ids: Seq<MsgId>,
    faulty: Seq<bool>,
    upto: int,
    k: int,
) -> (e: int)
    requires
        0 <= k < upto <= faulty.len(),
        upto < u16::MAX,
        faulty[k],
    ensures
        0 <= e < blamed(i, data_ids, proof_ids, faulty, upto).len(),
        blamed(i, data_ids, proof_ids, faulty, upto)[e].faulty_party == sender_of(i, k),
    decreases upto,
{
    let prev = blamed(i, data_ids, proof_ids, faulty, upto - 1);
    if k == upto - 1 {
        prev.len() as int
    } else {
        let e = lemma_blamed_complete(i, data_ids, proof_ids, faulty, upto - 1, k);
        if faulty[upto - 1] {
            assert(blamed(i, data_ids, proof_ids, faulty, upto)[e] == prev[e]);
        }
        e
    }
}

/// No one is blamed if and only if no verdict is `true`.
pub proof fn lemma_blamed_empty(
    i: PartyIndex,
    data_ids: Seq<MsgId>,
    proof_ids: Seq<MsgId>,
    faulty: Seq<bool>,
    upto: int,
)
    requires
        0 <= upto <= faulty.len(),
    ensures
        blamed(i, data_ids, proof_ids, faulty, upto).len() == 0 <==> forall|k: int|
            0 <= k < upto ==> !faulty[k],
    decreases upto,
{
    if upto > 0 {
        lemma_blamed_empty(i, data_ids, proof_ids, faulty, upto - 1);
    }
}

/// The blame that a list of verdicts gives: `faulty[k]` says whether the `k`-th sender's pair
/// of messages is faulty.
pub fn blame_from_verdicts<D, P>(
    data_messages: &RoundMsgs<D>,
    proof_messages: &RoundMsgs<P>,
    faulty: &[bool],
) -> (r: Vec<AbortBlame>)
    requires
        data_messages.count() == faulty@.len(),
        proof_messages.count() == faulty@.len(),
    ensures
        r@ == blamed(
            data_messages.receiver(),
            data_messages.ids(),
            proof_messages.ids(),
            faulty@,
            faulty@.len() as int,
        ),
        r@.len() == 0 <==> forall|k: int| 0 <= k < faulty@.len() ==> !faulty@[k],
{
    let n: usize = data_messages.len();
    let m: usize = proof_messages.len();
    let mut out: Vec<AbortBlame> = Vec::new();
    let mut k: usize = 0;
    while k < n
        invariant
            k <= n,
            n == faulty@.len(),
            n == data_messages.count(),
            n == proof_messages.count(),
            data_messages.ids().len() == n,
            proof_messages.ids().len() == n,
            out@ == blamed(
                data_messages.receiver(),
                data_messages.ids(),
                proof_messages.ids(),
                faulty@,
                k as int,
            ),
        decreases n - k,
    {
        if faulty[k] {
            out.push(
                AbortBlame::new(
                    data_messages.sender(k),
                    data_messages.msg_id(k),
                    proof_messages.msg_id(k),
                ),
            );
        }
        k += 1;
    }
    proof {
        lemma_blamed_empty(
            data_messages.receiver(),
            data_messages.ids(),
            proof_messages.ids(),
            faulty@,
            n as int,
        );
    }
    out
}

/// Converts a scalar into a big number: the integer in `[0, q)` that the scalar stands for.
pub fn scalar_to_bignumber(scalar: &Scalar) -> (r: BigNumber)
    ensures
        r@ == scalar@,
        !r.negative,
        r.magnitude@.len() == 32,
{
    let bytes = scalar.to_be_bytes();
    let mut magnitude: Vec<u8> = Vec::new();
    let mut k: usize = 0;
    while k < 32
        invariant
            k <= 32,
            magnitude@ == bytes@.subrange(0, k as int),
        decreases 32 - k,
    {
        magnitude.push(bytes[k]);
        assert(magnitude@ =~= bytes@.subrange(0, k + 1));
        k += 1;
    }
    assert(magnitude@ =~= bytes@);
    BigNumber::from_be_bytes(magnitude)
}

/// Parameters of the proof Π aff-g
pub struct PiAffParams {
    /// Bound on the multiplicand is $2^{l_x}$
    pub l_x: usize,
    /// Bound on the mask is $2^{l_y}$
    pub l_y: usize,
    /// Slack of the ranges
    pub epsilon: usize,
}

/// Parameters of the proof Π log*
pub struct PiLogParams {
    /// Bound on the plaintext is $2^l$
    pub l: usize,
    /// Slack of the range
    pub epsilon: usize,
}

/// Parameters of the proof Π enc
pub struct PiEncParams {
    /// Bound on the plaintext is $2^l$
    pub l: usize,
    /// Slack of the range
    pub epsilon: usize,
    /// The security parameter $q$
    pub q: BigNumber,
}

/// The parameters of the range proofs of the signing protocol, as a security level gives them.
pub struct SecurityParams {
    pub pi_aff: PiAffParams,
    pub pi_log: PiLogParams,
    pub pi_enc: PiEncParams,
}

impl SecurityParams {
    /// The parameters of the security level `L`: every bound on a plaintext is $\ell$, the
    /// bound on a mask is $\ell'$, and the slack is $\varepsilon$.
    pub fn new<L: SecurityLevel>() -> (r: Self)
        ensures
            r.pi_aff.l_x == L::spec_ell(),
            r.pi_aff.l_y == L::spec_ell_prime(),
            r.pi_aff.epsilon == L::spec_epsilon(),
            r.pi_log.l == L::spec_ell(),
            r.pi_log.epsilon == L::spec_epsilon(),
            r.pi_enc.l == L::spec_ell(),
            r.pi_enc.epsilon == L::spec_epsilon(),
            r.pi_enc.q@ == L::spec_q(),
    {
        Self {
            pi_aff: PiAffParams { l_x: L::ell(), l_y: L::ell_prime(), epsilon: L::epsilon() },
            pi_log: PiLogParams { l: L::ell(), epsilon: L::epsilon() },
            pi_enc: PiEncParams { l: L::ell(), epsilon: L::epsilon(), q: L::q() },
        }
    }
}

/// Feeds a message to a running hash: `message`, the encoding of the message, is appended
/// to what was fed before.
pub fn hash_message(digest: Vec<u8>, message: &[u8]) -> (r: Vec<u8>)
    ensures
        r@ == digest@ + message@,
{
    let mut digest = digest;
    let ghost before = digest@;
    let mut k: usize = 0;
    while k < message.len()
        invariant
            k <= message@.len(),
            digest@ == before + message@.subrange(0, k as int),
        decreases message@.len() - k,
    {
        digest.push(message[k]);
        assert(digest@ =~= before + message@.subrange(0, k + 1));
        k += 1;
    }
    assert(message@.subrange(0, message@.len() as int) =~= message@);
    digest
}

/// The first `upto` byte strings of `parts`, written one after the other.
pub open spec fn concatenated(parts: Seq<Seq<u8>>, upto: int) -> Seq<u8>
    decreases upto,
{
    if upto <= 0 {
        Seq::empty()
    } else {
        concatenated(parts, upto - 1) + parts[upto - 1]
    }
}

/// The byte strings of a list of encoded messages.
pub open spec fn encoded_views(parts: Seq<Vec<u8>>) -> Seq<Seq<u8>> {
    Seq::new(parts.len(), |k: int| parts[k]@)
}

/// The digest of a round of messages: that of their encodings, fed one after the other in
/// the order of the parties.
pub fn hash_messages(encoded: &Vec<Vec<u8>>) -> (r: [u8; 32])
    ensures
        r@ == crate::hashing::spec_sha256(
            concatenated(encoded_views(encoded@), encoded@.len() as int),
        ),
{
    let mut digest: Vec<u8> = Vec::new();
    let mut k: usize = 0;
    while k < encoded.len()
        invariant
            k <= encoded@.len(),
            digest@ == concatenated(encoded_views(encoded@), k as int),
        decreases encoded@.len() - k,
    {
        digest = hash_message(digest, encoded[k].as_slice());
        k += 1;
    }
    crate::hashing::sha256(digest.as_slice())
}

/// Whether `r` is the square root of `x`, rounded down.
pub open spec fn is_floor_sqrt(r: int, x: int) -> bool {
    r >= 0 && r * r <= x < (r + 1) * (r + 1)
}

/// Binary search for rounded down square root. For non-positive numbers returns
/// one
pub fn sqrt(x: &BigNumber) -> (r: BigNumber)
    ensures
        x@ <= 0 ==> r@ == 1,
        x@ > 0 ==> is_floor_sqrt(r@, x@),
{
    let mut low = BigNumber::one();
    if !x.is_positive() {
        return low;
    }
    let one = BigNumber::one();
    let mut high = x.duplicate();
    proof {
        assert(1 * 1 == 1) by (nonlinear_arith);
    }
    while low.less_than(&high.sub(&one))
        invariant
            one@ == 1,
            x@ > 0,
            1 <= low@ <= high@,
            low@ * low@ <= x@,
            x@ < high@ * high@ || high@ == x@,
        decreases high@ - low@,
    {
        let mid = high.add(&low).half();
        let test = mid.mul(&mid);
        if test.equals(x) {
            proof {
                let m = mid@;
                assert((m + 1) * (m + 1) == m * m + 2 * m + 1) by (nonlinear_arith);
            }
            return mid;
        }
        if test.less_than(x) {
            low = mid;
        } else {
            high = mid;
        }
    }
    proof {
        let l = low@;
        let h = high@;
        assert(h <= l + 1);
        if x@ < h * h {
            assert(h * h <= (l + 1) * (l + 1)) by (nonlinear_arith)
                requires
                    0 <= h <= l + 1,
            ;
        } else {
            assert((l + 1) * (l + 1) > l + 1) by (nonlinear_arith)
                requires
                    l >= 1,
            ;
        }
    }
    low
}

/// Whether `x` is in $\Z^*_N$: it is not below zero, it is below `N`, and it has no divisor
/// in common with `N`.
pub open spec fn in_mult_group(x: BigNumber, N: BigNumber) -> bool {
    0 <= x@ < N@ && crate::bignumber::gcd(
        crate::bytes::be_nat(x.magnitude@),
        crate::bytes::be_nat(N.magnitude@),
    ) == 1
}

/// Whether `x` is in $\Z^*_N$: it is not below zero, it is below `N`, and it has no divisor
/// in common with `N`.
pub fn is_in_mult_group(x: &BigNumber, N: &BigNumber) -> (r: bool)
    ensures
        r == in_mult_group(*x, *N),
{
    let zero = BigNumber::from_be_bytes(Vec::new());
    if x.less_than(&zero) || !x.less_than(N) {
        return false;
    }
    x.gcd(N).equals(&BigNumber::one())
}

/// Samples $x \gets \Z^*_N$ from candidates that were drawn: the first candidate that is in
/// $\Z^*_N$, given as its index, or `None` if there is none such. Whoever draws the candidates
/// draws more until one is taken.
pub fn sample_bigint_in_mult_group(candidates: &[BigNumber], N: &BigNumber) -> (r: Option<usize>)
    ensures
        match r {
            Some(k) => k < candidates@.len() && in_mult_group(candidates@[k as int], *N)
                && forall|j: int| 0 <= j < k ==> !in_mult_group(#[trigger] candidates@[j], *N),
            None => forall|j: int|
                0 <= j < candidates@.len() ==> !in_mult_group(#[trigger] candidates@[j], *N),
        },
{
    let mut k: usize = 0;
    while k < candidates.len()
        invariant
            k <= candidates@.len(),
            forall|j: int| 0 <= j < k ==> !in_mult_group(#[trigger] candidates@[j], *N),
        decreases candidates@.len() - k,
    {
        if is_in_mult_group(&candidates[k], N) {
            return Some(k);
        }
        k += 1;
    }
    None
}

} // verus!

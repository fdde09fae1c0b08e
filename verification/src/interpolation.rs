//! Reconstruction of a shared secret from shares.
//!
//! Where a secret is shared with a polynomial, the shares of as many parties as the
//! polynomial has coefficients give it back: multiplied by their Lagrange coefficients at
//! zero, they add up to the polynomial's constant term. The laws ask that the differences of
//! the parties' points have inverses modulo the group order, as those of distinct points
//! have.

use crate::scalar::add_mod;
use crate::scalar::group_order;
use crate::scalar::inverse;
use crate::scalar::is_inverse;
use crate::scalar::mul_mod;
use crate::scalar::neg_mod;
use crate::scalar::sub_mod;
use crate::threshold::poly_eval;
use crate::utils::lagrange_value;
use crate::utils::prod_diff;
use vstd::arithmetic::div_mod::lemma_add_mod_noop;
use vstd::arithmetic::div_mod::lemma_mod_multiples_vanish;
use vstd::arithmetic::div_mod::lemma_mul_mod_noop_general;
use vstd::arithmetic::div_mod::lemma_small_mod;
use vstd::prelude::*;

verus! {

/// Whether two integers are congruent modulo the group order.
pub open spec fn congruent(a: int, b: int) -> bool {
    a % (group_order() as int) == b % (group_order() as int)
}

/// Sums of congruent integers are congruent.
pub proof fn lemma_congruent_add(a: int, a2: int, b: int, b2: int)
    requires
        congruent(a, a2),
        congruent(b, b2),
    ensures
        congruent(a + b, a2 + b2),
{
    let q = group_order() as int;
    lemma_add_mod_noop(a, b, q);
    lemma_add_mod_noop(a2, b2, q);
}

/// Products of congruent integers are congruent.
pub proof fn lemma_congruent_mul(a: int, a2: int, b: int, b2: int)
    requires
        congruent(a, a2),
        congruent(b, b2),
    ensures
        congruent(a * b, a2 * b2),
{
    let q = group_order() as int;
    lemma_mul_mod_noop_general(a, b, q);
    lemma_mul_mod_noop_general(a2, b2, q);
}

/// The product modulo the group order is congruent to the product.
proof fn lemma_mul_mod_congruent(a: nat, b: nat)
    ensures
        congruent(mul_mod(a, b) as int, (a * b) as int),
{
    let q = group_order() as int;
    vstd::arithmetic::div_mod::lemma_mod_twice((a * b) as int, q);
}

/// The sum modulo the group order is congruent to the sum.
proof fn lemma_add_mod_congruent(a: nat, b: nat)
    ensures
        congruent(add_mod(a, b) as int, (a + b) as int),
{
    let q = group_order() as int;
    vstd::arithmetic::div_mod::lemma_mod_twice((a + b) as int, q);
}

/// The difference modulo the group order is congruent to the difference.
proof fn lemma_sub_mod_congruent(a: nat, b: nat)
    ensures
        congruent(sub_mod(a, b) as int, a - b),
{
    let q = group_order() as int;
    let r = (b % group_order()) as int;
    let n = neg_mod(b) as int;
    // n = (q - r) mod q is congruent to -b
    vstd::arithmetic::div_mod::lemma_mod_twice(q - r, q);
    assert(congruent(n, q - r));
    vstd::arithmetic::div_mod::lemma_fundamental_div_mod(b as int, q);
    let d = (b as int) / q;
    assert(q - r == q * (d + 1) + (-(b as int))) by (nonlinear_arith)
        requires
            b as int == q * d + r,
    ;
    lemma_mod_multiples_vanish(d + 1, -(b as int), q);
    assert(congruent(q - r, -(b as int)));
    lemma_add_mod_congruent(a, neg_mod(b));
    lemma_congruent_add(a as int, a as int, n, -(b as int));
}

/// The number below the group order that an integer is congruent to.
pub open spec fn residue(a: int) -> nat {
    (a % (group_order() as int)) as nat
}

/// Whether an integer has an inverse modulo the group order.
pub open spec fn invertible(a: int) -> bool {
    is_inverse(inverse(residue(a)), residue(a))
}

/// The inverse of an integer modulo the group order, where it has one.
pub open spec fn inv(a: int) -> int {
    inverse(residue(a)) as int
}

/// An integer is congruent to its residue.
proof fn lemma_residue(a: int)
    ensures
        residue(a) < group_order(),
        congruent(residue(a) as int, a),
{
    let q = group_order() as int;
    vstd::arithmetic::div_mod::lemma_mod_bound(a, q);
    vstd::arithmetic::div_mod::lemma_mod_twice(a, q);
}

/// Congruent numbers below the group order are equal.
proof fn lemma_congruent_small(a: int, b: int)
    requires
        congruent(a, b),
        0 <= a < group_order(),
        0 <= b < group_order(),
    ensures
        a == b,
{
    lemma_small_mod(a as nat, group_order());
    lemma_small_mod(b as nat, group_order());
}

/// An inverse multiplied by its number is congruent to one.
proof fn lemma_inv(a: int)
    requires
        invertible(a),
    ensures
        congruent(inv(a) * a, 1),
        congruent(a * inv(a), 1),
        0 <= inv(a) < group_order(),
{
    lemma_residue(a);
    lemma_congruent_mul(inv(a), inv(a), residue(a) as int, a);
    lemma_small_mod(1, group_order());
    assert(inv(a) * a == a * inv(a)) by (nonlinear_arith);
}

/// What multiplies a number to one is its inverse.
proof fn lemma_is_inv(v: int, a: int)
    requires
        congruent(v * a, 1),
    ensures
        invertible(a),
        congruent(inv(a), v),
{
    lemma_residue(a);
    lemma_residue(v);
    lemma_congruent_mul(residue(v) as int, v, residue(a) as int, a);
    lemma_small_mod(1, group_order());
    assert(is_inverse(residue(v), residue(a)));
    crate::scalar::lemma_inverse_is(residue(v), residue(a));
}

/// A product of numbers that have inverses has one: the product of their inverses.
proof fn lemma_inv_mul(a: int, b: int)
    requires
        invertible(a),
        invertible(b),
    ensures
        invertible(a * b),
        congruent(inv(a * b), inv(a) * inv(b)),
{
    lemma_inv(a);
    lemma_inv(b);
    lemma_congruent_mul(inv(a) * a, 1, inv(b) * b, 1);
    assert((inv(a) * inv(b)) * (a * b) == (inv(a) * a) * (inv(b) * b)) by (nonlinear_arith);
    lemma_is_inv(inv(a) * inv(b), a * b);
}

/// A factor that has an inverse can be dropped on both sides.
proof fn lemma_cancel(x: int, y: int, a: int)
    requires
        invertible(a),
        congruent(x * a, y * a),
    ensures
        congruent(x, y),
{
    lemma_inv(a);
    lemma_congruent_mul(x * a, y * a, inv(a), inv(a));
    assert((x * a) * inv(a) == x * (a * inv(a))) by (nonlinear_arith);
    assert((y * a) * inv(a) == y * (a * inv(a))) by (nonlinear_arith);
    lemma_congruent_mul(x, x, a * inv(a), 1);
    lemma_congruent_mul(y, y, a * inv(a), 1);
    assert(x * 1 == x);
    assert(y * 1 == y);
}

/// One is its own inverse.
proof fn lemma_inv_one()
    ensures
        invertible(1),
        inv(1) == 1,
{
    assert(1 * 1 == 1);
    lemma_is_inv(1, 1);
    lemma_inv(1);
    lemma_congruent_small(inv(1), 1);
}

/// The product of `y - s[m]` over the indexes `m` below `upto` other than `j`.
pub open spec fn dprod(y: int, s: Seq<nat>, j: int, upto: int) -> int
    decreases upto,
{
    if upto <= 0 {
        1
    } else if upto - 1 == j {
        dprod(y, s, j, upto - 1)
    } else {
        dprod(y, s, j, upto - 1) * (y - s[upto - 1])
    }
}

/// The product of differences modulo the group order is the residue of their product.
proof fn lemma_prod_diff(y: nat, s: Seq<nat>, j: int, upto: int)
    ensures
        prod_diff(y, s, j, upto) == residue(dprod(y as int, s, j, upto)),
    decreases upto,
{
    let q = group_order() as int;
    if upto <= 0 {
        lemma_small_mod(1, group_order());
    } else if upto - 1 == j {
        lemma_prod_diff(y, s, j, upto - 1);
    } else {
        lemma_prod_diff(y, s, j, upto - 1);
        let before = prod_diff(y, s, j, upto - 1);
        let d = sub_mod(y, s[upto - 1]);
        lemma_residue(dprod(y as int, s, j, upto - 1));
        lemma_residue(dprod(y as int, s, j, upto));
        lemma_mul_mod_congruent(before, d);
        lemma_sub_mod_congruent(y, s[upto - 1]);
        lemma_congruent_mul(
            before as int,
            dprod(y as int, s, j, upto - 1),
            d as int,
            y - s[upto - 1],
        );
        vstd::arithmetic::div_mod::lemma_mod_bound((before * d) as int, q);
        lemma_congruent_small(
            prod_diff(y, s, j, upto) as int,
            residue(dprod(y as int, s, j, upto)) as int,
        );
    }
}

/// The product of differences reads only the nodes below `upto`.
proof fn lemma_dprod_prefix(y: int, s: Seq<nat>, t: Seq<nat>, j: int, upto: int)
    requires
        upto <= s.len(),
        upto <= t.len(),
        forall|m: int| 0 <= m < upto ==> s[m] == t[m],
    ensures
        dprod(y, s, j, upto) == dprod(y, t, j, upto),
    decreases upto,
{
    if upto > 0 {
        lemma_dprod_prefix(y, s, t, j, upto - 1);
    }
}

/// The product over all indexes is the product over all but `j`, multiplied by the factor
/// of `j`.
proof fn lemma_dprod_full(y: int, s: Seq<nat>, j: int, upto: int)
    requires
        0 <= j < upto,
    ensures
        dprod(y, s, upto, upto) == dprod(y, s, j, upto) * (y - s[j]),
    decreases upto,
{
    lemma_dprod_skips_none(y, s, upto, upto - 1);
    if upto - 1 == j {
        lemma_dprod_skips_none(y, s, j, j);
    } else {
        lemma_dprod_full(y, s, j, upto - 1);
        let a = dprod(y, s, j, upto - 1);
        let b = y - s[j];
        let c = y - s[upto - 1];
        assert((a * b) * c == (a * c) * b) by (nonlinear_arith);
    }
}

/// An index that is not below `upto` is not skipped: the product is that over all indexes
/// below `upto`.
proof fn lemma_dprod_skips_none(y: int, s: Seq<nat>, j: int, upto: int)
    requires
        j >= upto,
    ensures
        dprod(y, s, j, upto) == dprod(y, s, upto, upto),
    decreases upto,
{
    if upto > 0 {
        lemma_dprod_skips_none(y, s, j, upto - 1);
        lemma_dprod_skips_none(y, s, upto, upto - 1);
    }
}

/// Whether the nodes differ from one another by numbers that have inverses, as distinct
/// scalars do.
pub open spec fn apart(s: Seq<nat>) -> bool {
    forall|a: int, b: int|
        0 <= a < s.len() && 0 <= b < s.len() && a != b ==> invertible(#[trigger] s[a] - #[trigger] s[b])
}

/// Where the nodes are apart, the product of the differences of one node from others has
/// an inverse.
proof fn lemma_dprod_invertible(s: Seq<nat>, j: int, upto: int)
    requires
        apart(s),
        0 <= j < s.len(),
        upto <= s.len(),
    ensures
        invertible(dprod(s[j] as int, s, j, upto)),
    decreases upto,
{
    if upto <= 0 {
        lemma_inv_one();
    } else if upto - 1 == j {
        lemma_dprod_invertible(s, j, upto - 1);
    } else {
        lemma_dprod_invertible(s, j, upto - 1);
        assert(invertible(s[j] - s[upto - 1]));
        lemma_inv_mul(dprod(s[j] as int, s, j, upto - 1), s[j] - s[upto - 1]);
    }
}

/// The sum of `f(j)` over the indexes `j` below `upto`.
pub open spec fn isum(f: spec_fn(int) -> int, upto: int) -> int
    decreases upto,
{
    if upto <= 0 {
        0
    } else {
        isum(f, upto - 1) + f(upto - 1)
    }
}

/// Sums of congruent terms are congruent.
proof fn lemma_isum_congruent(f: spec_fn(int) -> int, g: spec_fn(int) -> int, upto: int)
    requires
        forall|j: int| 0 <= j < upto ==> congruent(#[trigger] f(j), g(j)),
    ensures
        congruent(isum(f, upto), isum(g, upto)),
    decreases upto,
{
    if upto > 0 {
        lemma_isum_congruent(f, g, upto - 1);
        assert(congruent(f(upto - 1), g(upto - 1)));
        lemma_congruent_add(isum(f, upto - 1), isum(g, upto - 1), f(upto - 1), g(upto - 1));
    }
}

/// The sum of `c * f(j) + d * g(j)` is `c` times the sum of `f` plus `d` times that of `g`.
proof fn lemma_isum_linear(
    f: spec_fn(int) -> int,
    g: spec_fn(int) -> int,
    h: spec_fn(int) -> int,
    c: int,
    d: int,
    upto: int,
)
    requires
        forall|j: int| 0 <= j < upto ==> #[trigger] h(j) == c * f(j) + d * g(j),
    ensures
        isum(h, upto) == c * isum(f, upto) + d * isum(g, upto),
    decreases upto,
{
    if upto > 0 {
        lemma_isum_linear(f, g, h, c, d, upto - 1);
        let (a, b) = (isum(f, upto - 1), isum(g, upto - 1));
        let (x, y) = (f(upto - 1), g(upto - 1));
        assert(h(upto - 1) == c * x + d * y);
        assert(c * (a + x) + d * (b + y) == (c * a + d * b) + (c * x + d * y))
            by (nonlinear_arith);
    } else {
        assert(c * 0 + d * 0 == 0) by (nonlinear_arith);
    }
}

/// The value at `x` of the polynomial whose coefficients are `c[from]`, `c[from + 1]` and so
/// on, the constant term first.
pub open spec fn ev(c: Seq<int>, x: int, from: int) -> int
    decreases c.len() - from,
{
    if from >= c.len() || from < 0 {
        0
    } else {
        ev(c, x, from + 1) * x + c[from]
    }
}

/// The quotient of the polynomial `c` by `x - a`.
pub open spec fn quotient(c: Seq<int>, a: int) -> Seq<int> {
    Seq::new(if c.len() == 0 { 0 } else { (c.len() - 1) as nat }, |k: int| ev(c, a, k + 1))
}

/// A polynomial is its value at `a` plus `x - a` times its quotient by `x - a`.
proof fn lemma_quotient(c: Seq<int>, a: int, x: int, from: int)
    requires
        0 <= from,
    ensures
        ev(c, x, from) - ev(c, a, from) == (x - a) * ev(quotient(c, a), x, from),
    decreases c.len() - from,
{
    let g = quotient(c, a);
    if from >= c.len() {
        assert(ev(c, x, from) == 0);
        assert(ev(c, a, from) == 0);
        assert(ev(g, x, from) == 0);
        assert((x - a) * 0 == 0) by (nonlinear_arith);
    } else if from == c.len() - 1 {
        assert(ev(c, x, from + 1) == 0);
        assert(ev(c, a, from + 1) == 0);
        assert(0 * x == 0 && 0 * a == 0) by (nonlinear_arith);
        assert(ev(c, x, from) == c[from]);
        assert(ev(c, a, from) == c[from]);
        assert(g.len() == from);
        assert(ev(g, x, from) == 0);
        assert((x - a) * 0 == 0) by (nonlinear_arith);
    } else {
        lemma_quotient(c, a, x, from + 1);
        let ex = ev(c, x, from + 1);
        let ea = ev(c, a, from + 1);
        let e = ev(g, x, from + 1);
        assert(g.len() == c.len() - 1);
        assert(g[from] == ea);
        assert(ev(g, x, from) == e * x + ea);
        assert(ev(c, x, from) == ex * x + c[from]);
        assert(ev(c, a, from) == ea * a + c[from]);
        assert(ex * x - ea * a == (x - a) * (e * x + ea)) by (nonlinear_arith)
            requires
                ex - ea == (x - a) * e,
        ;
    }
}

/// The integers that stand for a sequence of numbers.
pub open spec fn ints(c: Seq<nat>) -> Seq<int> {
    Seq::new(c.len(), |k: int| c[k] as int)
}

/// The value of a polynomial modulo the group order is the residue of its value.
proof fn lemma_poly_eval(c: Seq<nat>, x: nat, from: int)
    requires
        0 <= from,
    ensures
        poly_eval(c, x, from) == residue(ev(ints(c), x as int, from)),
    decreases c.len() - from,
{
    let q = group_order() as int;
    if from >= c.len() {
        lemma_small_mod(0, group_order());
    } else {
        lemma_poly_eval(c, x, from + 1);
        let above = poly_eval(c, x, from + 1);
        let e = ev(ints(c), x as int, from + 1);
        lemma_residue(e);
        lemma_residue(ev(ints(c), x as int, from));
        lemma_mul_mod_congruent(above, x);
        lemma_congruent_mul(above as int, e, x as int, x as int);
        lemma_add_mod_congruent(mul_mod(above, x), c[from]);
        lemma_congruent_add(mul_mod(above, x) as int, e * x, c[from] as int, c[from] as int);
        vstd::arithmetic::div_mod::lemma_mod_bound((mul_mod(above, x) + c[from]) as int, q);
        lemma_congruent_small(
            poly_eval(c, x, from) as int,
            residue(ev(ints(c), x as int, from)) as int,
        );
    }
}

/// The inverse of the product of the differences of node `j` from the other nodes.
pub open spec fn weight(s: Seq<nat>, j: int) -> int {
    inv(dprod(s[j] as int, s, j, s.len() as int))
}

/// The value at `y` of the Lagrange basis polynomial of node `j`: the product of the
/// differences of `y` from the other nodes, divided by that of node `j` from them.
pub open spec fn basis(y: int, s: Seq<nat>, j: int) -> int {
    dprod(y, s, j, s.len() as int) * weight(s, j)
}

/// All nodes but the last.
pub open spec fn init(s: Seq<nat>) -> Seq<nat> {
    s.take(s.len() - 1)
}

/// Nodes that are apart stay so without the last.
proof fn lemma_init_apart(s: Seq<nat>)
    requires
        apart(s),
        s.len() >= 1,
    ensures
        apart(init(s)),
{
    let t = init(s);
    assert forall|a: int, b: int| 0 <= a < t.len() && 0 <= b < t.len() && a != b implies invertible(
        #[trigger] t[a] - #[trigger] t[b],
    ) by {
        assert(t[a] == s[a] && t[b] == s[b]);
        assert(invertible(s[a] - s[b]));
    }
}

/// The weight of a node among all nodes is its weight among all but the last, divided by
/// its difference from the last.
proof fn lemma_weight_step(s: Seq<nat>, j: int)
    requires
        apart(s),
        0 <= j < s.len() - 1,
    ensures
        invertible(s[j] - s.last()),
        dprod(s[j] as int, init(s), j, s.len() - 1) == dprod(s[j] as int, s, j, s.len() - 1),
        congruent(weight(s, j), weight(init(s), j) * inv(s[j] - s.last())),
{
    let k = s.len() as int;
    let d = s[j] - s[k - 1];
    let big_d = dprod(s[j] as int, s, j, k - 1);
    lemma_dprod_prefix(s[j] as int, init(s), s, j, k - 1);
    lemma_dprod_invertible(s, j, k - 1);
    assert(invertible(s[j] - s[k - 1]));
    assert(dprod(s[j] as int, s, j, k) == big_d * d);
    lemma_inv_mul(big_d, d);
    assert(init(s)[j] == s[j]);
}

/// The basis value of a node among all nodes, in terms of that among all but the last.
proof fn lemma_basis_step(y: int, s: Seq<nat>, j: int)
    requires
        apart(s),
        0 <= j < s.len() - 1,
    ensures
        congruent(
            basis(y, s, j),
            basis(y, init(s), j) + dprod(y, s, s.len() - 1, s.len() - 1) * (weight(init(s), j)
                * inv(s[j] - s.last())),
        ),
{
    let k = s.len() as int;
    let a = s[k - 1] as int;
    let d = s[j] - a;
    let n = dprod(y, s, j, k - 1);
    let wi = weight(init(s), j);
    let u = inv(d);
    let ws = weight(s, j);
    let qy = dprod(y, s, k - 1, k - 1);
    lemma_weight_step(s, j);
    lemma_dprod_prefix(y, init(s), s, j, k - 1);
    lemma_dprod_full(y, s, j, k - 1);
    lemma_inv(d);
    assert(dprod(y, s, j, k) == n * (y - a));
    assert(basis(y, s, j) == (n * (y - a)) * ws);
    lemma_congruent_mul(n * (y - a), n * (y - a), ws, wi * u);
    assert((n * (y - a)) * (wi * u) == (n * wi) * (d * u) + (n * (y - s[j])) * (wi * u))
        by (nonlinear_arith)
        requires
            d == s[j] - a,
    ;
    lemma_congruent_mul(n * wi, n * wi, d * u, 1);
    assert((n * wi) * 1 == n * wi);
    lemma_congruent_add(
        (n * wi) * (d * u),
        n * wi,
        (n * (y - s[j])) * (wi * u),
        (n * (y - s[j])) * (wi * u),
    );
    assert(basis(y, init(s), j) == n * wi);
    assert(qy == n * (y - s[j]));
}

/// The ratio of a node, multiplied by the product of the differences of the last node from
/// the others, is the opposite of the node's basis value at the last node.
proof fn lemma_ratio_step(s: Seq<nat>, j: int)
    requires
        apart(s),
        0 <= j < s.len() - 1,
    ensures
        congruent(
            (weight(init(s), j) * inv(s[j] - s.last())) * dprod(
                s.last() as int,
                s,
                s.len() - 1,
                s.len() - 1,
            ),
            -basis(s.last() as int, init(s), j),
        ),
{
    let k = s.len() as int;
    let a = s[k - 1] as int;
    let d = s[j] - a;
    let na = dprod(a, s, j, k - 1);
    let wi = weight(init(s), j);
    let u = inv(d);
    let qa = dprod(a, s, k - 1, k - 1);
    lemma_weight_step(s, j);
    lemma_dprod_prefix(a, init(s), s, j, k - 1);
    lemma_dprod_full(a, s, j, k - 1);
    lemma_inv(d);
    assert(qa == na * (a - s[j]));
    assert((wi * u) * (na * (a - s[j])) == (-(na * wi)) * (d * u)) by (nonlinear_arith)
        requires
            d == s[j] - a,
    ;
    lemma_congruent_mul(-(na * wi), -(na * wi), d * u, 1);
    assert((-(na * wi)) * 1 == -(na * wi));
    assert(basis(a, init(s), j) == na * wi);
}

/// The basis value of a node among all nodes, multiplied by its difference from the last,
/// is that among all but the last, multiplied by the difference of `y` from the last.
proof fn lemma_basis_shift(y: int, s: Seq<nat>, j: int)
    requires
        apart(s),
        0 <= j < s.len() - 1,
    ensures
        congruent(basis(y, s, j) * (s[j] - s.last()), basis(y, init(s), j) * (y - s.last())),
{
    let k = s.len() as int;
    let a = s[k - 1] as int;
    let d = s[j] - a;
    let n = dprod(y, s, j, k - 1);
    let wi = weight(init(s), j);
    let u = inv(d);
    let ws = weight(s, j);
    lemma_weight_step(s, j);
    lemma_dprod_prefix(y, init(s), s, j, k - 1);
    lemma_inv(d);
    assert(dprod(y, s, j, k) == n * (y - a));
    assert(basis(y, s, j) * d == ((n * (y - a)) * d) * ws) by (nonlinear_arith)
        requires
            basis(y, s, j) == (n * (y - a)) * ws,
    ;
    lemma_congruent_mul((n * (y - a)) * d, (n * (y - a)) * d, ws, wi * u);
    assert(((n * (y - a)) * d) * (wi * u) == ((n * wi) * (y - a)) * (d * u))
        by (nonlinear_arith);
    lemma_congruent_mul((n * wi) * (y - a), (n * wi) * (y - a), d * u, 1);
    assert(((n * wi) * (y - a)) * 1 == (n * wi) * (y - a));
    assert(basis(y, init(s), j) == n * wi);
}

/// The basis value of the last node.
proof fn lemma_basis_last(y: int, s: Seq<nat>)
    requires
        s.len() >= 1,
    ensures
        basis(y, s, s.len() - 1) == dprod(y, s, s.len() - 1, s.len() - 1) * inv(
            dprod(s.last() as int, s, s.len() - 1, s.len() - 1),
        ),
{
}

/// The basis values of all nodes add up to one, at every point.
proof fn lemma_basis_sum(y: int, s: Seq<nat>)
    requires
        apart(s),
        s.len() >= 1,
    ensures
        congruent(isum(|j: int| basis(y, s, j), s.len() as int), 1),
    decreases s.len(),
{
    let k = s.len() as int;
    let f_s = |j: int| basis(y, s, j);
    lemma_basis_last(y, s);
    if k == 1 {
        lemma_inv_one();
        assert(dprod(y, s, 0, 0) == 1);
        assert(dprod(s[0] as int, s, 0, 0) == 1);
        assert(basis(y, s, 0) == 1 * 1);
        assert(isum(f_s, 0) == 0);
        assert(isum(f_s, 1) == isum(f_s, 0) + f_s(0));
    } else {
        let a = s[k - 1] as int;
        let t = init(s);
        lemma_init_apart(s);
        lemma_basis_sum(y, t);
        lemma_basis_sum(a, t);
        let f_i = |j: int| basis(y, t, j);
        let g_a = |j: int| basis(a, t, j);
        let r = |j: int| weight(t, j) * inv(s[j] - a);
        let qy = dprod(y, s, k - 1, k - 1);
        let qa = dprod(a, s, k - 1, k - 1);
        // the basis values of all nodes but the last, in terms of the nodes before the last
        let h = |j: int| 1 * f_i(j) + qy * r(j);
        lemma_isum_linear(f_i, r, h, 1, qy, k - 1);
        assert forall|j: int| 0 <= j < k - 1 implies congruent(#[trigger] f_s(j), h(j)) by {
            lemma_basis_step(y, s, j);
        }
        lemma_isum_congruent(f_s, h, k - 1);
        // the ratios, multiplied by qa, add up to minus one
        let rq = |j: int| qa * r(j) + 0 * r(j);
        let neg = |j: int| (-1) * g_a(j) + 0 * g_a(j);
        lemma_isum_linear(r, r, rq, qa, 0, k - 1);
        lemma_isum_linear(g_a, g_a, neg, -1, 0, k - 1);
        assert forall|j: int| 0 <= j < k - 1 implies congruent(#[trigger] rq(j), neg(j)) by {
            lemma_ratio_step(s, j);
            assert(qa * r(j) + 0 * r(j) == r(j) * qa) by (nonlinear_arith);
            assert((-1) * g_a(j) + 0 * g_a(j) == -g_a(j)) by (nonlinear_arith);
        }
        lemma_isum_congruent(rq, neg, k - 1);
        let sr = isum(r, k - 1);
        let sg = isum(g_a, k - 1);
        assert(isum(rq, k - 1) == qa * sr) by (nonlinear_arith)
            requires
                isum(rq, k - 1) == qa * sr + 0 * sr,
        ;
        assert(isum(neg, k - 1) == -sg) by (nonlinear_arith)
            requires
                isum(neg, k - 1) == (-1) * sg + 0 * sg,
        ;
        lemma_congruent_mul(-1, -1, sg, 1);
        assert((-1) * sg == -sg && (-1) * 1 == -1) by (nonlinear_arith);
        assert(congruent(qa * sr, -1));
        // so the ratios and the inverse of qa add up to zero
        lemma_dprod_invertible(s, k - 1, k - 1);
        lemma_inv(qa);
        let big_r = sr + inv(qa);
        lemma_congruent_add(qa * sr, -1, inv(qa) * qa, 1);
        assert(big_r * qa == qa * sr + inv(qa) * qa) by (nonlinear_arith)
            requires
                big_r == sr + inv(qa),
        ;
        assert(0 * qa == 0);
        lemma_cancel(big_r, 0, qa);
        // all together
        assert(isum(f_s, k) == isum(f_s, k - 1) + f_s(k - 1));
        assert(f_s(k - 1) == qy * inv(qa));
        lemma_congruent_add(isum(f_s, k - 1), isum(h, k - 1), qy * inv(qa), qy * inv(qa));
        assert(isum(h, k - 1) + qy * inv(qa) == isum(f_i, k - 1) + qy * big_r)
            by (nonlinear_arith)
            requires
                isum(h, k - 1) == 1 * isum(f_i, k - 1) + qy * sr,
                big_r == sr + inv(qa),
        ;
        lemma_congruent_mul(qy, qy, big_r, 0);
        assert(qy * 0 == 0);
        lemma_congruent_add(isum(f_i, k - 1), 1, qy * big_r, 0);
    }
}

/// Lagrange interpolation: the values of a polynomial at the nodes, each multiplied by the
/// basis value of its node at `y`, add up to the value of the polynomial at `y`, where the
/// polynomial has no more coefficients than there are nodes.
proof fn lemma_interpolation(y: int, s: Seq<nat>, c: Seq<int>)
    requires
        apart(s),
        c.len() <= s.len(),
    ensures
        congruent(isum(|j: int| basis(y, s, j) * ev(c, s[j] as int, 0), s.len() as int), ev(c, y, 0)),
    decreases s.len(),
{
    let k = s.len() as int;
    let f = |j: int| basis(y, s, j) * ev(c, s[j] as int, 0);
    if k == 0 {
        assert(isum(f, 0) == 0);
        assert(ev(c, y, 0) == 0);
    } else {
        let a = s[k - 1] as int;
        let t = init(s);
        let g = quotient(c, a);
        let ca = ev(c, a, 0);
        let gy = ev(g, y, 0);
        lemma_init_apart(s);
        lemma_interpolation(y, t, g);
        lemma_basis_sum(y, s);
        lemma_quotient(c, a, y, 0);
        let b = |j: int| basis(y, s, j);
        let fi = |j: int| basis(y, t, j) * ev(g, t[j] as int, 0);
        let m = |j: int| basis(y, s, j) * ((s[j] - a) * ev(g, s[j] as int, 0));
        // each term is the value at the last node times the basis value, plus the rest
        assert forall|j: int| 0 <= j < k implies #[trigger] f(j) == ca * b(j) + 1 * m(j) by {
            lemma_quotient(c, a, s[j] as int, 0);
            let e = ev(c, s[j] as int, 0);
            let eg = ev(g, s[j] as int, 0);
            let bj = basis(y, s, j);
            assert(bj * e == ca * bj + 1 * (bj * ((s[j] - a) * eg))) by (nonlinear_arith)
                requires
                    e - ca == (s[j] - a) * eg,
            ;
        }
        lemma_isum_linear(b, m, f, ca, 1, k);
        // the rest is the same sum over the nodes before the last, times y - a
        let m2 = |j: int| (y - a) * fi(j) + 0 * fi(j);
        lemma_isum_linear(fi, fi, m2, y - a, 0, k - 1);
        assert forall|j: int| 0 <= j < k - 1 implies congruent(#[trigger] m(j), m2(j)) by {
            lemma_basis_shift(y, s, j);
            let eg = ev(g, s[j] as int, 0);
            let bj = basis(y, s, j);
            let bi = basis(y, t, j);
            assert(t[j] == s[j]);
            lemma_congruent_mul(bj * (s[j] - a), bi * (y - a), eg, eg);
            assert(bj * ((s[j] - a) * eg) == (bj * (s[j] - a)) * eg) by (nonlinear_arith);
            assert((y - a) * (bi * eg) + 0 * (bi * eg) == (bi * (y - a)) * eg)
                by (nonlinear_arith);
        }
        lemma_isum_congruent(m, m2, k - 1);
        assert(isum(m, k) == isum(m, k - 1) + m(k - 1));
        assert(m(k - 1) == 0) by {
            assert(s[k - 1] - a == 0);
            assert(basis(y, s, k - 1) * (0 * ev(g, s[k - 1] as int, 0)) == 0)
                by (nonlinear_arith);
        }
        let sb = isum(b, k);
        let sfi = isum(fi, k - 1);
        assert(isum(m2, k - 1) == (y - a) * sfi) by (nonlinear_arith)
            requires
                isum(m2, k - 1) == (y - a) * sfi + 0 * sfi,
        ;
        // all together
        lemma_congruent_mul(ca, ca, sb, 1);
        lemma_congruent_mul(y - a, y - a, sfi, gy);
        lemma_congruent_add(ca * sb, ca * 1, isum(m, k), (y - a) * gy);
        assert(ca * 1 == ca);
        assert(isum(f, k) == ca * sb + isum(m, k)) by (nonlinear_arith)
            requires
                isum(f, k) == ca * sb + 1 * isum(m, k),
        ;
    }
}

/// The sum of the first `upto` shares, each multiplied by the Lagrange coefficient of its
/// node at the point `y`.
pub open spec fn reconstructed(y: nat, nodes: Seq<nat>, shares: Seq<nat>, upto: int) -> nat
    decreases upto,
{
    if upto <= 0 {
        0
    } else {
        add_mod(
            reconstructed(y, nodes, shares, upto - 1),
            mul_mod(lagrange_value(y, upto - 1, nodes), shares[upto - 1]),
        )
    }
}

/// The shares that a polynomial gives the nodes: its value at each.
pub open spec fn shares_of(coefs: Seq<nat>, nodes: Seq<nat>) -> Seq<nat> {
    Seq::new(nodes.len(), |j: int| poly_eval(coefs, nodes[j], 0))
}

/// Whether the scalars of `nodes` differ from one another by numbers that have an inverse
/// modulo the group order. Distinct scalars do, the group order being prime; that it is
/// prime is not proved here, so the laws below ask for the inverses themselves.
pub open spec fn differences_invertible(nodes: Seq<nat>) -> bool {
    forall|a: int, b: int|
        0 <= a < nodes.len() && 0 <= b < nodes.len() && a != b ==> is_inverse(
            inverse(sub_mod(#[trigger] nodes[a], #[trigger] nodes[b])),
            sub_mod(nodes[a], nodes[b]),
        )
}

/// The sum of the shares with their coefficients is the residue of the sum of the values
/// with the basis values.
proof fn lemma_reconstructed(y: nat, coefs: Seq<nat>, nodes: Seq<nat>, upto: int)
    requires
        upto <= nodes.len(),
    ensures
        reconstructed(y, nodes, shares_of(coefs, nodes), upto) == residue(
            isum(
                |j: int| basis(y as int, nodes, j) * ev(ints(coefs), nodes[j] as int, 0),
                upto,
            ),
        ),
    decreases upto,
{
    let q = group_order() as int;
    let f = |j: int| basis(y as int, nodes, j) * ev(ints(coefs), nodes[j] as int, 0);
    if upto <= 0 {
        lemma_small_mod(0, group_order());
    } else {
        let j = upto - 1;
        let k = nodes.len() as int;
        lemma_reconstructed(y, coefs, nodes, upto - 1);
        let before = reconstructed(y, nodes, shares_of(coefs, nodes), upto - 1);
        let share = poly_eval(coefs, nodes[j], 0);
        let l = lagrange_value(y, j, nodes);
        let e = ev(ints(coefs), nodes[j] as int, 0);
        // the coefficient is the residue of the basis value
        let num = prod_diff(y, nodes, j, k);
        let den = prod_diff(nodes[j], nodes, j, k);
        lemma_prod_diff(y, nodes, j, k);
        lemma_prod_diff(nodes[j], nodes, j, k);
        assert(inverse(den) == weight(nodes, j));
        lemma_residue(dprod(y as int, nodes, j, k));
        lemma_mul_mod_congruent(num, inverse(den));
        lemma_congruent_mul(
            num as int,
            dprod(y as int, nodes, j, k),
            weight(nodes, j),
            weight(nodes, j),
        );
        assert(congruent(l as int, basis(y as int, nodes, j)));
        // the share is the residue of the value
        lemma_poly_eval(coefs, nodes[j], 0);
        lemma_residue(e);
        lemma_mul_mod_congruent(l, share);
        lemma_congruent_mul(l as int, basis(y as int, nodes, j), share as int, e);
        // the sum
        lemma_residue(isum(f, upto - 1));
        lemma_residue(isum(f, upto));
        lemma_add_mod_congruent(before, mul_mod(l, share));
        lemma_congruent_add(before as int, isum(f, upto - 1), mul_mod(l, share) as int, f(j));
        vstd::arithmetic::div_mod::lemma_mod_bound((before + mul_mod(l, share)) as int, q);
        lemma_congruent_small(
            reconstructed(y, nodes, shares_of(coefs, nodes), upto) as int,
            residue(isum(f, upto)) as int,
        );
    }
}

/// Nodes whose differences have inverses are apart.
proof fn lemma_invertible_apart(nodes: Seq<nat>)
    requires
        differences_invertible(nodes),
    ensures
        apart(nodes),
{
    assert forall|a: int, b: int|
        0 <= a < nodes.len() && 0 <= b < nodes.len() && a != b implies invertible(
        #[trigger] nodes[a] - #[trigger] nodes[b],
    ) by {
        let d = sub_mod(nodes[a], nodes[b]);
        lemma_sub_mod_congruent(nodes[a], nodes[b]);
        lemma_residue(nodes[a] - nodes[b]);
        vstd::arithmetic::div_mod::lemma_mod_bound(
            (nodes[a] + neg_mod(nodes[b])) as int,
            group_order() as int,
        );
        lemma_congruent_small(d as int, residue(nodes[a] - nodes[b]) as int);
    }
}

/// Shares give every value of the polynomial: where parties hold the values of a polynomial
/// at their evaluation points, the points differ from one another by numbers that have
/// inverses, and the parties are at least as many as the polynomial has coefficients, their
/// shares, each multiplied by the Lagrange coefficient of its party at the point `y`, add up
/// to the value of the polynomial at `y`.
pub proof fn lemma_shares_interpolate(coefs: Seq<nat>, nodes: Seq<nat>, y: nat)
    requires
        coefs.len() <= nodes.len(),
        differences_invertible(nodes),
    ensures
        reconstructed(y, nodes, shares_of(coefs, nodes), nodes.len() as int) == poly_eval(
            coefs,
            y,
            0,
        ),
{
    lemma_invertible_apart(nodes);
    lemma_interpolation(y as int, nodes, ints(coefs));
    lemma_reconstructed(y, coefs, nodes, nodes.len() as int);
    lemma_poly_eval(coefs, y, 0);
}

/// Shares reconstruct the secret: where a secret is shared with a polynomial whose constant
/// term it is, the shares of parties whose evaluation points differ from one another by
/// numbers that have inverses, each multiplied by the Lagrange coefficient of its party at
/// zero, add up to the secret, if the parties are at least as many as the polynomial has
/// coefficients.
pub proof fn lemma_shares_reconstruct(coefs: Seq<nat>, nodes: Seq<nat>)
    requires
        1 <= coefs.len() <= nodes.len(),
        coefs[0] < group_order(),
        differences_invertible(nodes),
    ensures
        reconstructed(0, nodes, shares_of(coefs, nodes), nodes.len() as int) == coefs[0],
{
    lemma_shares_interpolate(coefs, nodes, 0);
    lemma_poly_eval(coefs, 0, 0);
    let c = ints(coefs);
    assert(ev(c, 0, 0) == ev(c, 0, 1) * 0 + c[0]);
    assert(ev(c, 0, 1) * 0 == 0) by (nonlinear_arith);
    lemma_small_mod(coefs[0], group_order());
}

} // verus!

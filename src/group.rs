//! Group laws of point addition on a twisted Hessian curve over the dual
//! numbers, under projective equality.
use crate::curve::TwistedHessianCurve;
use crate::field::{fmul, is_prime, lemma_prime_no_zero_divisors};
use crate::projective::{
    add_defined, formula_one, formula_two, identity_point, is_origin, mul3, mul4, on_curve,
    point_add, proj_eq, sq, Projective, Triple,
};
use crate::ring::{
    lemma_minus_one_squared, lemma_rmul_comm, lemma_rmul_minus_one, lemma_rmul_one,
    lemma_rmul_swap, lemma_rneg_mul, lemma_rzero, reduced, rmul, rneg, rsub, Dual,
};
use vstd::arithmetic::div_mod::{lemma_mod_multiples_vanish, lemma_small_mod};
use vstd::prelude::*;

verus! {

/// The constant parts of the coordinates are not all zero.
pub open spec fn proper(p: Triple) -> bool {
    p.0.0 != 0 || p.1.0 != 0 || p.2.0 != 0
}

/// The triple `[c·X : c·Y : c·Z]`.
pub open spec fn scale(q: int, c: Dual, p: Triple) -> Triple {
    (rmul(q, c, p.0), rmul(q, c, p.1), rmul(q, c, p.2))
}

/// All three coordinates are reduced.
pub open spec fn reduced_point(q: int, p: Triple) -> bool {
    reduced(q, p.0) && reduced(q, p.1) && reduced(q, p.2)
}

/// A multiple of a triple is projectively equal to it.
proof fn lemma_scaled_eq(q: int, c: Dual, p: Triple)
    requires
        q > 1,
        reduced(q, c),
        reduced_point(q, p),
    ensures
        proj_eq(q, scale(q, c, p), p),
{
    lemma_rmul_swap(q, c, p.0, p.2);
    lemma_rmul_swap(q, c, p.1, p.2);
    lemma_rmul_swap(q, c, p.2, p.0);
}

/// A product of dual numbers with non-zero constant parts has a non-zero
/// constant part, modulo a prime.
proof fn lemma_unit_product(q: int, c: Dual, v: Dual)
    requires
        is_prime(q),
        reduced(q, c),
        reduced(q, v),
        c.0 != 0,
        v.0 != 0,
    ensures
        rmul(q, c, v).0 != 0,
{
    lemma_small_mod(c.0 as nat, q as nat);
    lemma_small_mod(v.0 as nat, q as nat);
    lemma_prime_no_zero_divisors(q, c.0, v.0);
}

/// The negative of a dual number with a non-zero constant part has one too.
proof fn lemma_rneg_unit(q: int, x: Dual)
    requires
        q > 1,
        reduced(q, x),
        x.0 != 0,
    ensures
        reduced(q, rneg(q, x)),
        rneg(q, x).0 != 0,
{
    lemma_mod_multiples_vanish(1, -x.0, q);
    lemma_small_mod((q - x.0) as nat, q as nat);
}

/// On the curve, modulo a prime, two zero constant parts force the third.
proof fn lemma_curve_constants(q: int, p: Triple, a: Dual, d: Dual)
    requires
        is_prime(q),
        reduced_point(q, p),
        reduced(q, a),
        reduced(q, d),
        on_curve(q, p, a, d),
    ensures
        p.0.0 == 0 && p.2.0 == 0 ==> p.1.0 == 0,
        p.0.0 == 0 && p.1.0 == 0 ==> p.2.0 == 0,
{
    let (x, y, z) = p;
    let (x0, y0, z0) = (x.0, y.0, z.0);
    lemma_small_mod(0, q as nat);
    let lhs = crate::ring::radd(
        q,
        crate::ring::radd(q, rmul(q, a, mul3(q, x, x, x)), mul3(q, y, y, y)),
        mul3(q, z, z, z),
    );
    assert(lhs.0 == mul4(q, d, x, y, z).0);
    assert(forall|u: int| #![trigger u * 0] #![trigger 0 * u] u * 0 == 0 && 0 * u == 0)
        by (nonlinear_arith);
    if x0 == 0 && z0 == 0 && y0 != 0 {
        lemma_unit_product(q, y, y);
        lemma_unit_product(q, rmul(q, y, y), y);
        assert(mul3(q, x, x, x).0 == 0);
        assert(mul3(q, z, z, z).0 == 0);
        assert(rmul(q, a, mul3(q, x, x, x)).0 == 0);
        assert(mul4(q, d, x, y, z).0 == 0);
        lemma_small_mod(mul3(q, y, y, y).0 as nat, q as nat);
        assert(lhs.0 == mul3(q, y, y, y).0);
    }
    if x0 == 0 && y0 == 0 && z0 != 0 {
        lemma_unit_product(q, z, z);
        lemma_unit_product(q, rmul(q, z, z), z);
        assert(mul3(q, x, x, x).0 == 0);
        assert(mul3(q, y, y, y).0 == 0);
        assert(rmul(q, a, mul3(q, x, x, x)).0 == 0);
        assert(mul4(q, d, x, y, z).0 == 0);
        lemma_small_mod(mul3(q, z, z, z).0 as nat, q as nat);
        assert(lhs.0 == mul3(q, z, z, z).0);
    }
}

/// The two formulas applied to `P` and the neutral point give multiples of `P`.
proof fn lemma_formulas_identity_right(q: int, p: Triple, a: Dual)
    requires
        q > 1,
        reduced_point(q, p),
        reduced(q, a),
    ensures
        formula_one(q, p, identity_point(q)) == scale(q, rneg(q, p.0), p),
        formula_two(q, p, identity_point(q), a) == scale(q, p.2, p),
{
    let (x, y, z) = p;
    let zero = (0int, 0int);
    let m1 = (q - 1, 0int);
    let one = (1int, 0int);
    lemma_small_mod(1, q as nat);
    lemma_small_mod(0, q as nat);
    lemma_rzero(q, one);
    lemma_rzero(q, zero);
    lemma_rzero(q, m1);
    lemma_rzero(q, x);
    lemma_rzero(q, y);
    lemma_rzero(q, z);
    lemma_rzero(q, sq(q, x));
    lemma_rzero(q, sq(q, y));
    lemma_rzero(q, sq(q, z));
    lemma_rzero(q, rmul(q, a, sq(q, x)));
    lemma_rmul_one(q, one);
    lemma_minus_one_squared(q);
    lemma_rmul_one(q, x);
    lemma_rmul_one(q, rmul(q, x, z));
    lemma_rmul_one(q, rmul(q, y, z));
    lemma_rmul_minus_one(q, sq(q, x));
    lemma_rmul_minus_one(q, sq(q, z));
    lemma_rmul_one(q, rneg(q, sq(q, x)));
    lemma_rmul_one(q, rneg(q, sq(q, z)));
    lemma_rzero(q, rneg(q, sq(q, x)));
    lemma_rzero(q, rmul(q, x, z));
    lemma_rzero(q, rmul(q, y, z));
    lemma_rneg_mul(q, x, x);
    lemma_rneg_mul(q, x, y);
    lemma_rneg_mul(q, x, z);
    lemma_rneg_mul(q, z, z);
    lemma_rneg_mul(q, sq(q, z), z);
    lemma_rmul_comm(q, x, z);
    lemma_rmul_comm(q, y, z);
    assert(mul3(q, sq(q, x), m1, one) == rneg(q, sq(q, x)));
    assert(mul3(q, sq(q, zero), y, z) == zero);
    assert(formula_one(q, p, identity_point(q)).0 == rmul(q, rneg(q, x), x));
    assert(mul3(q, sq(q, z), zero, m1) == zero);
    assert(mul3(q, sq(q, one), x, y) == rmul(q, x, y));
    assert(formula_one(q, p, identity_point(q)).1 == rmul(q, rneg(q, x), y));
    assert(mul3(q, sq(q, y), zero, one) == zero);
    assert(mul3(q, sq(q, m1), x, z) == rmul(q, x, z));
    assert(formula_one(q, p, identity_point(q)).2 == rmul(q, rneg(q, x), z));
    assert(mul3(q, sq(q, one), x, z) == rmul(q, x, z));
    assert(mul3(q, sq(q, y), zero, m1) == zero);
    assert(formula_two(q, p, identity_point(q), a).0 == rmul(q, z, x));
    assert(mul3(q, sq(q, m1), y, z) == rmul(q, y, z));
    assert(mul4(q, a, sq(q, x), zero, one) == zero);
    assert(formula_two(q, p, identity_point(q), a).1 == rmul(q, z, y));
    assert(mul4(q, a, sq(q, zero), x, y) == zero);
    assert(mul3(q, sq(q, z), m1, one) == rneg(q, sq(q, z)));
    assert(formula_two(q, p, identity_point(q), a).2 == rmul(q, z, z));
}

/// The two formulas applied to the neutral point and `P` give multiples of `P`.
proof fn lemma_formulas_identity_left(q: int, p: Triple, a: Dual)
    requires
        q > 1,
        reduced_point(q, p),
        reduced(q, a),
    ensures
        formula_one(q, identity_point(q), p) == scale(q, p.0, p),
        formula_two(q, identity_point(q), p, a) == scale(q, rneg(q, p.1), p),
{
    let (x, y, z) = p;
    let zero = (0int, 0int);
    let m1 = (q - 1, 0int);
    let one = (1int, 0int);
    lemma_small_mod(1, q as nat);
    lemma_small_mod(0, q as nat);
    lemma_rzero(q, one);
    lemma_rzero(q, zero);
    lemma_rzero(q, m1);
    lemma_rzero(q, x);
    lemma_rzero(q, y);
    lemma_rzero(q, z);
    lemma_rzero(q, sq(q, x));
    lemma_rzero(q, sq(q, y));
    lemma_rzero(q, sq(q, z));
    lemma_rzero(q, rmul(q, a, zero));
    lemma_rmul_one(q, one);
    lemma_minus_one_squared(q);
    lemma_rmul_one(q, x);
    lemma_rmul_one(q, y);
    lemma_rmul_one(q, rmul(q, x, y));
    lemma_rmul_one(q, rmul(q, x, z));
    lemma_rmul_one(q, rmul(q, y, z));
    lemma_rmul_minus_one(q, sq(q, x));
    lemma_rmul_minus_one(q, sq(q, y));
    lemma_rmul_one(q, rneg(q, sq(q, x)));
    lemma_rmul_one(q, rneg(q, sq(q, y)));
    lemma_rzero(q, rneg(q, sq(q, y)));
    lemma_rzero(q, rmul(q, x, y));
    lemma_rzero(q, rmul(q, x, z));
    lemma_rzero(q, rmul(q, y, z));
    lemma_rneg_mul(q, y, x);
    lemma_rneg_mul(q, y, y);
    lemma_rneg_mul(q, y, z);
    lemma_rneg_mul(q, sq(q, x), x);
    lemma_rmul_comm(q, x, y);
    assert(mul3(q, sq(q, zero), y, z) == zero);
    assert(mul3(q, sq(q, x), m1, one) == rneg(q, sq(q, x)));
    assert(formula_one(q, identity_point(q), p).0 == rmul(q, x, x));
    assert(mul3(q, sq(q, one), x, y) == rmul(q, x, y));
    assert(mul3(q, sq(q, z), zero, m1) == zero);
    assert(formula_one(q, identity_point(q), p).1 == rmul(q, x, y));
    assert(mul3(q, sq(q, m1), x, z) == rmul(q, x, z));
    assert(mul3(q, sq(q, y), zero, one) == zero);
    assert(formula_one(q, identity_point(q), p).2 == rmul(q, x, z));
    assert(mul3(q, sq(q, z), zero, one) == zero);
    assert(mul3(q, sq(q, m1), x, y) == rmul(q, x, y));
    assert(formula_two(q, identity_point(q), p, a).0 == rmul(q, rneg(q, y), x));
    assert(mul3(q, sq(q, y), m1, one) == rneg(q, sq(q, y)));
    assert(mul4(q, a, sq(q, zero), x, z) == zero);
    assert(formula_two(q, identity_point(q), p, a).1 == rmul(q, rneg(q, y), y));
    assert(mul4(q, a, sq(q, x), zero, m1) == zero);
    assert(mul3(q, sq(q, one), y, z) == rmul(q, y, z));
    assert(formula_two(q, identity_point(q), p, a).2 == rmul(q, rneg(q, y), z));
}

/// The neutral point is neutral on both sides: for a point `P` of a
/// non-singular curve over a prime field whose coordinates do not all have a
/// zero constant part, `P + O` and `O + P` are defined and projectively equal
/// to `P`.
pub proof fn lemma_identity_neutral<const Q: u64>(curve: TwistedHessianCurve<Q>, p: Projective<Q>)
    requires
        curve.wf(),
        p.wf(),
        is_prime(Q as int),
        on_curve(Q as int, p@, curve@.0, curve@.1),
        proper(p@),
    ensures
        add_defined(Q as int, p@, identity_point(Q as int), curve@.0),
        proj_eq(Q as int, point_add(Q as int, p@, identity_point(Q as int), curve@.0), p@),
        add_defined(Q as int, identity_point(Q as int), p@, curve@.0),
        proj_eq(Q as int, point_add(Q as int, identity_point(Q as int), p@, curve@.0), p@),
{
    let q = Q as int;
    let (a, d) = curve@;
    let (x, y, z) = p@;
    lemma_formulas_identity_right(q, p@, a);
    lemma_formulas_identity_left(q, p@, a);
    lemma_curve_constants(q, p@, a, d);
    crate::ring::lemma_ops_reduced(q, x, x);
    crate::ring::lemma_ops_reduced(q, (0int, 0int), x);
    crate::ring::lemma_ops_reduced(q, (0int, 0int), y);
    lemma_scaled_eq(q, rneg(q, x), p@);
    lemma_scaled_eq(q, z, p@);
    lemma_scaled_eq(q, x, p@);
    lemma_scaled_eq(q, rneg(q, y), p@);
    if x.0 != 0 {
        lemma_rneg_unit(q, x);
        lemma_unit_product(q, rneg(q, x), x);
        lemma_unit_product(q, x, x);
    } else if z.0 != 0 {
        lemma_unit_product(q, z, z);
    }
    if x.0 == 0 && y.0 != 0 {
        lemma_rneg_unit(q, y);
        lemma_unit_product(q, rneg(q, y), y);
    }
}

/// A triple `[0 : w : -w]` is projectively equal to the neutral point.
proof fn lemma_antidiagonal_eq(q: int, w: Dual)
    requires
        q > 1,
        reduced(q, w),
    ensures
        proj_eq(q, ((0int, 0int), w, rneg(q, w)), identity_point(q)),
{
    let one = (1int, 0int);
    let m1 = (q - 1, 0int);
    lemma_small_mod(1, q as nat);
    lemma_small_mod(0, q as nat);
    lemma_rzero(q, one);
    lemma_rzero(q, rneg(q, w));
    lemma_rmul_one(q, w);
    lemma_rmul_minus_one(q, rneg(q, w));
    crate::ring::lemma_ops_reduced(q, (0int, 0int), w);
    lemma_rneg_mul(q, w, w);
}

/// `v - u` is the negative of `u - v`.
proof fn lemma_rsub_swap(q: int, u: Dual, v: Dual)
    requires
        q > 1,
    ensures
        rsub(q, v, u) == rneg(q, rsub(q, u, v)),
{
    let zero = (0int, 0int);
    crate::ring::lemma_red_ops(q, v, u);
    crate::ring::lemma_red_ops(q, u, v);
    crate::ring::lemma_red_ops(q, zero, rsub(q, u, v));
    crate::ring::lemma_red_ops(q, zero, crate::ring::zsub(u, v));
    lemma_small_mod(0, q as nat);
}

/// The two formulas applied to `P` and `-P` give triples `[0 : w : -w]`.
proof fn lemma_formulas_negation(q: int, p: Triple, a: Dual)
    requires
        q > 1,
        reduced_point(q, p),
        reduced(q, a),
    ensures
        formula_one(q, p, (p.0, p.2, p.1)) == ((0int, 0int), formula_one(q, p, (p.0, p.2, p.1)).1,
            rneg(q, formula_one(q, p, (p.0, p.2, p.1)).1)),
        formula_two(q, p, (p.0, p.2, p.1), a) == ((0int, 0int), formula_two(
            q,
            p,
            (p.0, p.2, p.1),
            a,
        ).1, rneg(q, formula_two(q, p, (p.0, p.2, p.1), a).1)),
{
    let (x, y, z) = p;
    crate::ring::lemma_ops_reduced(q, x, x);
    crate::ring::lemma_ops_reduced(q, y, y);
    crate::ring::lemma_ops_reduced(q, z, z);
    crate::ring::lemma_ops_reduced(q, sq(q, x), z);
    crate::ring::lemma_ops_reduced(q, sq(q, x), y);
    crate::ring::lemma_ops_reduced(q, sq(q, z), y);
    crate::ring::lemma_ops_reduced(q, sq(q, z), z);
    crate::ring::lemma_ops_reduced(q, sq(q, y), x);
    crate::ring::lemma_ops_reduced(q, sq(q, y), y);
    crate::ring::lemma_rmul_assoc(q, sq(q, x), z, y);
    crate::ring::lemma_rmul_assoc(q, sq(q, x), y, z);
    lemma_rmul_comm(q, z, y);
    crate::ring::lemma_rmul_assoc(q, sq(q, z), y, z);
    crate::ring::lemma_rmul_assoc(q, sq(q, z), z, y);
    lemma_small_mod(0, q as nat);
    assert(mul3(q, sq(q, x), z, y) == mul3(q, sq(q, x), y, z));
    assert(mul3(q, sq(q, z), y, z) == mul3(q, sq(q, z), z, y));
    lemma_rsub_swap(q, mul3(q, sq(q, z), x, z), mul3(q, sq(q, y), x, y));
    lemma_rsub_swap(q, mul3(q, sq(q, z), y, z), mul4(q, a, sq(q, x), x, y));
}

/// A point plus its negative is the neutral point: for a point `P` of a
/// non-singular curve over a prime field whose coordinates do not all have a
/// zero constant part, `P + (-P)` is defined and projectively equal to
/// `[0 : -1 : 1]`.
pub proof fn lemma_add_negation<const Q: u64>(curve: TwistedHessianCurve<Q>, p: Projective<Q>)
    requires
        curve.wf(),
        p.wf(),
        is_prime(Q as int),
        on_curve(Q as int, p@, curve@.0, curve@.1),
        proper(p@),
    ensures
        add_defined(Q as int, p@, (p@.0, p@.2, p@.1), curve@.0),
        proj_eq(
            Q as int,
            point_add(Q as int, p@, (p@.0, p@.2, p@.1), curve@.0),
            identity_point(Q as int),
        ),
{
    let q = Q as int;
    let np = (p@.0, p@.2, p@.1);
    let (x, y, z) = p@;
    let (a, d) = curve@;
    lemma_formulas_negation(q, p@, a);
    crate::ring::lemma_ops_reduced(q, mul3(q, sq(q, z), x, z), mul3(q, sq(q, y), x, y));
    crate::ring::lemma_ops_reduced(q, mul3(q, sq(q, z), y, z), mul4(q, a, sq(q, x), x, y));
    lemma_antidiagonal_eq(q, formula_one(q, p@, np).1);
    lemma_antidiagonal_eq(q, formula_two(q, p@, np, a).1);
    lemma_negation_defined(q, p@, a, d);
}

/// The two formulas do not both vanish on `P` and `-P`.
proof fn lemma_negation_defined(q: int, p: Triple, a: Dual, d: Dual)
    requires
        is_prime(q),
        reduced_point(q, p),
        reduced(q, a),
        reduced(q, d),
        on_curve(q, p, a, d),
        crate::projective::nonsingular(q, a, d),
        proper(p),
    ensures
        add_defined(q, p, (p.0, p.2, p.1), a),
{
    let (x0, y0, z0, a0, d0) = (p.0.0, p.1.0, p.2.0, a.0, d.0);
    let np = (p.0, p.2, p.1);
    lemma_curve_constants(q, p, a, d);
    // the constant parts of the middle coordinates of the two formulas
    lemma_nested_products(q, z0, z0, x0, z0);
    lemma_nested_products(q, y0, y0, x0, y0);
    lemma_nested_products(q, z0, z0, y0, z0);
    lemma_nested_products(q, a0, x0, x0, y0);
    vstd::arithmetic::div_mod::lemma_sub_mod_noop(z0 * z0 * x0 * z0, y0 * y0 * x0 * y0, q);
    vstd::arithmetic::div_mod::lemma_sub_mod_noop(z0 * z0 * y0 * z0, a0 * (x0 * x0) * x0 * y0, q);
    assert(z0 * z0 * x0 * z0 - y0 * y0 * x0 * y0 == x0 * (z0 * z0 * z0 - y0 * y0 * y0))
        by (nonlinear_arith);
    assert(z0 * z0 * y0 * z0 - a0 * (x0 * x0) * x0 * y0 == y0 * (z0 * z0 * z0 - a0 * x0 * x0 * x0))
        by (nonlinear_arith);
    assert(formula_one(q, p, np).1.0 == (x0 * (z0 * z0 * z0 - y0 * y0 * y0)) % q);
    assert(formula_two(q, p, np, a).1.0 == (y0 * (z0 * z0 * z0 - a0 * x0 * x0 * x0)) % q);
    // the constant part of the curve equation
    lemma_nested_products(q, x0, x0, x0, x0);
    lemma_nested_products(q, y0, y0, y0, y0);
    lemma_nested_products(q, z0, z0, z0, z0);
    lemma_nested_products(q, d0, x0, y0, z0);
    vstd::arithmetic::div_mod::lemma_mul_mod_noop_general(a0, x0 * x0 * x0, q);
    vstd::arithmetic::div_mod::lemma_add_mod_noop(a0 * (x0 * x0 * x0), y0 * y0 * y0, q);
    vstd::arithmetic::div_mod::lemma_add_mod_noop(
        a0 * (x0 * x0 * x0) + y0 * y0 * y0,
        z0 * z0 * z0,
        q,
    );
    let lhs = a0 * (x0 * x0 * x0) + y0 * y0 * y0 + z0 * z0 * z0;
    let rhs = d0 * x0 * y0 * z0;
    assert(lhs % q == rhs % q);
    vstd::arithmetic::div_mod::lemma_sub_mod_noop(lhs, rhs, q);
    lemma_small_mod(0, q as nat);
    assert(a0 * (x0 * x0 * x0) == a0 * x0 * x0 * x0) by (nonlinear_arith);
    // the constant part of the discriminant
    let t = 27int % q;
    lemma_nested_products(q, a0, t, a0, d0);
    vstd::arithmetic::div_mod::lemma_fundamental_div_mod(27, q);
    let k = 27int / q;
    assert(a0 * (t * a0 - d0 * d0 * d0) == q * (-(k * a0 * a0)) + a0 * (27 * a0 - d0 * d0 * d0))
        by (nonlinear_arith)
        requires
            27 == q * k + t,
    ;
    lemma_mod_multiples_vanish(-(k * a0 * a0), a0 * (27 * a0 - d0 * d0 * d0), q);
    lemma_negation_constants(q, x0, y0, z0, a0, d0);
}

/// Multiples of `q` stay multiples under products, sums and differences.
proof fn lemma_multiples(q: int, u: int, v: int, c: int)
    requires
        q > 0,
        u % q == 0,
        v % q == 0,
    ensures
        (u * c) % q == 0,
        (c * u) % q == 0,
        (u + v) % q == 0,
        (u - v) % q == 0,
{
    lemma_small_mod(0, q as nat);
    vstd::arithmetic::div_mod::lemma_mul_mod_noop_general(u, c, q);
    vstd::arithmetic::div_mod::lemma_mul_mod_noop_general(c, u, q);
    assert(0 * c == 0 && c * 0 == 0) by (nonlinear_arith);
    vstd::arithmetic::div_mod::lemma_add_mod_noop(u, v, q);
    vstd::arithmetic::div_mod::lemma_sub_mod_noop(u, v, q);
}

/// Nested residue products are the plain product reduced once.
proof fn lemma_nested_products(q: int, u: int, v: int, w: int, t: int)
    requires
        q > 0,
    ensures
        fmul(q, fmul(q, u, v), w) == (u * v * w) % q,
        fmul(q, fmul(q, fmul(q, u, v), w), t) == (u * v * w * t) % q,
        fmul(q, fmul(q, fmul(q, u, fmul(q, v, v)), w), t) == (u * (v * v) * w * t) % q,
        fmul(q, u, crate::field::fsub(q, fmul(q, v, w), fmul(q, fmul(q, t, t), t))) == (u * (v * w
            - t * t * t)) % q,
{
    vstd::arithmetic::div_mod::lemma_mul_mod_noop_general(u * v, w, q);
    vstd::arithmetic::div_mod::lemma_mul_mod_noop_general(u * v * w, t, q);
    vstd::arithmetic::div_mod::lemma_mul_mod_noop_general(u, v * v, q);
    vstd::arithmetic::div_mod::lemma_mul_mod_noop_general(u * (v * v), w, q);
    vstd::arithmetic::div_mod::lemma_mul_mod_noop_general(u * (v * v) * w, t, q);
    vstd::arithmetic::div_mod::lemma_mul_mod_noop_general(t * t, t, q);
    vstd::arithmetic::div_mod::lemma_sub_mod_noop(v * w, t * t * t, q);
    vstd::arithmetic::div_mod::lemma_mul_mod_noop_general(u, v * w - t * t * t, q);
}

/// Modulo a prime, a cube of a non-zero residue is not zero, nor is its square.
proof fn lemma_cube_nonzero(q: int, z: int)
    requires
        is_prime(q),
        z % q != 0,
    ensures
        (z * z) % q != 0,
        (z * z * z) % q != 0,
        (z * z * z * (z * z * z)) % q != 0,
{
    lemma_prime_no_zero_divisors(q, z, z);
    lemma_prime_no_zero_divisors(q, z * z, z);
    lemma_prime_no_zero_divisors(q, z * z * z, z * z * z);
}

/// Modulo a prime, the constant parts of `P + (-P)` by the two formulas do
/// not both vanish on a non-singular curve when `P` is proper.
proof fn lemma_negation_constants(
    q: int,
    x: int,
    y: int,
    z: int,
    a: int,
    d: int,
)
    requires
        is_prime(q),
        0 <= x < q,
        0 <= y < q,
        0 <= z < q,
        (a * x * x * x + y * y * y + z * z * z - d * x * y * z) % q == 0,
        (a * (27 * a - d * d * d)) % q != 0,
        x != 0 || y != 0 || z != 0,
        x == 0 && y == 0 ==> z == 0,
        x == 0 && z == 0 ==> y == 0,
    ensures
        (x * (z * z * z - y * y * y)) % q != 0 || (y * (z * z * z - a * x * x * x)) % q != 0,
{
    lemma_small_mod(x as nat, q as nat);
    lemma_small_mod(y as nat, q as nat);
    lemma_small_mod(z as nat, q as nat);
    lemma_small_mod(0, q as nat);
    let c = a * x * x * x + y * y * y + z * z * z - d * x * y * z;
    let e1 = z * z * z - y * y * y;
    let e2 = z * z * z - a * x * x * x;
    if (x * e1) % q == 0 && (y * e2) % q == 0 {
        if x == 0 {
            assert(y * e2 == y * (z * z * z)) by (nonlinear_arith)
                requires
                    x == 0,
                    e2 == z * z * z - a * x * x * x,
            ;
            if y != 0 {
                lemma_cube_nonzero(q, z);
                lemma_prime_no_zero_divisors(q, y, z * z * z);
            }
        } else {
            if e1 % q != 0 {
                lemma_prime_no_zero_divisors(q, x, e1);
            }
            if y == 0 {
                assert(e1 == z * z * z && c == a * x * x * x + z * z * z) by (nonlinear_arith)
                    requires
                        y == 0,
                        e1 == z * z * z - y * y * y,
                        c == a * x * x * x + y * y * y + z * z * z - d * x * y * z,
                ;
                if z != 0 {
                    lemma_cube_nonzero(q, z);
                }
                // z == 0, so a·x³ ≡ 0 and a ≡ 0
                assert(c == a * (x * x * x)) by (nonlinear_arith)
                    requires
                        z == 0,
                        c == a * x * x * x + z * z * z,
                ;
                lemma_cube_nonzero(q, x);
                if a % q != 0 {
                    lemma_prime_no_zero_divisors(q, a, x * x * x);
                }
                lemma_multiples(q, a, 0, 27 * a - d * d * d);
                assert(a * (27 * a - d * d * d) == (27 * a - d * d * d) * a) by (nonlinear_arith);
            } else {
                if e2 % q != 0 {
                    lemma_prime_no_zero_divisors(q, y, e2);
                }
                // z³ ≡ y³ ≢ 0, so z ≢ 0
                if z == 0 {
                    assert(e1 == -(y * y * y)) by (nonlinear_arith)
                        requires
                            z == 0,
                            e1 == z * z * z - y * y * y,
                    ;
                    lemma_cube_nonzero(q, y);
                    lemma_multiples(q, e1, 0, -1);
                    assert(e1 * -1 == y * y * y) by (nonlinear_arith)
                        requires
                            e1 == -(y * y * y),
                    ;
                }
                lemma_cube_nonzero(q, z);
                // 3z³ - dxyz == c + e1 + e2 ≡ 0, so z·(3z² - dxy) ≡ 0
                let f = 3 * z * z - d * x * y;
                lemma_multiples(q, c, e1, 0);
                lemma_multiples(q, c + e1, e2, 0);
                assert(z * f == c + e1 + e2) by (nonlinear_arith)
                    requires
                        c == a * x * x * x + y * y * y + z * z * z - d * x * y * z,
                        e1 == z * z * z - y * y * y,
                        e2 == z * z * z - a * x * x * x,
                        f == 3 * z * z - d * x * y,
                ;
                if f % q != 0 {
                    lemma_prime_no_zero_divisors(q, z, f);
                }
                // 27z⁶ - d³x³y³ is a multiple of f
                let g = 9 * (z * z) * (z * z) + 3 * (z * z) * (d * x * y) + (d * x * y) * (d * x
                    * y);
                lemma_multiples(q, f, 0, g);
                let h = 27 * (z * z * z) * (z * z * z) - (d * d * d) * (x * x * x) * (y * y * y);
                lemma_cube_difference(z, d * x * y, f, g);
                assert((d * x * y) * (d * x * y) * (d * x * y) == (d * d * d) * (x * x * x) * (y * y
                    * y)) by (nonlinear_arith);
                // (27a - d³)·z⁶ == a·h - d³y³·e2 + d³z³·(-e1)
                let k = 27 * a - d * d * d;
                let z6 = z * z * z * (z * z * z);
                lemma_multiples(q, h, 0, a);
                lemma_multiples(q, e2, 0, (d * d * d) * (y * y * y));
                lemma_multiples(q, e1, 0, (d * d * d) * (z * z * z));
                lemma_multiples(q, h * a, e2 * ((d * d * d) * (y * y * y)), 0);
                lemma_multiples(
                    q,
                    h * a - e2 * ((d * d * d) * (y * y * y)),
                    e1 * ((d * d * d) * (z * z * z)),
                    0,
                );
                lemma_discriminant_combination(a, d * d * d, x * x * x, y * y * y, z * z * z);
                assert(a * x * x * x == a * (x * x * x)) by (nonlinear_arith);
                if k % q != 0 {
                    lemma_prime_no_zero_divisors(q, k, z6);
                }
                lemma_multiples(q, k, 0, a);
            }
        }
    }
}

/// `(3u² - p)(9u⁴ + 3u²p + p²) == 27u⁶ - p³`.
proof fn lemma_cube_difference(u: int, p: int, f: int, g: int)
    requires
        f == 3 * u * u - p,
        g == 9 * (u * u) * (u * u) + 3 * (u * u) * p + p * p,
    ensures
        f * g == 27 * (u * u * u) * (u * u * u) - p * p * p,
{
    let s = u * u;
    let s3 = s * s * s;
    assert(f == 3 * s - p) by (nonlinear_arith)
        requires
            s == u * u,
            f == 3 * u * u - p,
    ;
    assert(g == 9 * s * s + 3 * s * p + p * p) by (nonlinear_arith)
        requires
            s == u * u,
            g == 9 * (u * u) * (u * u) + 3 * (u * u) * p + p * p,
    ;
    assert(f * g == 3 * s * g - p * g) by (nonlinear_arith)
        requires
            f == 3 * s - p,
    ;
    assert(3 * s * g == 27 * (s * s * s) + 9 * (s * s * p) + 3 * (s * p * p)) by (nonlinear_arith)
        requires
            g == 9 * s * s + 3 * s * p + p * p,
    ;
    assert(p * g == 9 * (s * s * p) + 3 * (s * p * p) + p * p * p) by (nonlinear_arith)
        requires
            g == 9 * s * s + 3 * s * p + p * p,
    ;
    assert(s * s * s == (u * u * u) * (u * u * u)) by (nonlinear_arith)
        requires
            s == u * u,
    ;
    let c = (u * u * u) * (u * u * u);
    assert(f * g == 27 * c - p * p * p);
    assert(27 * (u * u * u) * (u * u * u) == 27 * c) by (nonlinear_arith)
        requires
            c == (u * u * u) * (u * u * u),
    ;
}

/// `(27a - D)·z3² == a·(27·z3² - D·x3·y3) - (z3 - a·x3)·D·y3 - (z3 - y3)·D·z3`.
proof fn lemma_discriminant_combination(a: int, dd: int, x3: int, y3: int, z3: int)
    ensures
        (27 * a - dd) * (z3 * z3) == (27 * z3 * z3 - dd * x3 * y3) * a - (z3 - a * x3) * (dd * y3)
            - (z3 - y3) * (dd * z3),
{
    let w = z3 * z3;
    let m = dd * x3 * y3 * a;
    let n = dd * y3 * z3;
    assert((27 * a - dd) * w == 27 * (a * w) - dd * w) by (nonlinear_arith);
    assert((27 * z3 * z3 - dd * x3 * y3) * a == 27 * (a * w) - m) by (nonlinear_arith)
        requires
            w == z3 * z3,
            m == dd * x3 * y3 * a,
    ;
    assert((z3 - a * x3) * (dd * y3) == n - m) by (nonlinear_arith)
        requires
            n == dd * y3 * z3,
            m == dd * x3 * y3 * a,
    ;
    assert((z3 - y3) * (dd * z3) == dd * w - n) by (nonlinear_arith)
        requires
            w == z3 * z3,
            n == dd * y3 * z3,
    ;
}

/// Addition commutes where the first formula decides it: when the first
/// formula does not give `[0 : 0 : 0]` on `(P, Q)`, both `P + Q` and `Q + P`
/// are defined and projectively equal.
pub proof fn lemma_add_commutes_first_formula<const Q: u64>(
    curve: TwistedHessianCurve<Q>,
    p: Projective<Q>,
    r: Projective<Q>,
)
    requires
        curve.wf(),
        p.wf(),
        r.wf(),
        !is_origin(formula_one(Q as int, p@, r@)),
    ensures
        add_defined(Q as int, p@, r@, curve@.0),
        add_defined(Q as int, r@, p@, curve@.0),
        proj_eq(
            Q as int,
            point_add(Q as int, r@, p@, curve@.0),
            point_add(Q as int, p@, r@, curve@.0),
        ),
{
    let q = Q as int;
    let (x1, y1, z1) = p@;
    let (x2, y2, z2) = r@;
    let f = formula_one(q, p@, r@);
    let m1 = (q - 1, 0int);
    lemma_rsub_swap(q, mul3(q, sq(q, x1), y2, z2), mul3(q, sq(q, x2), y1, z1));
    lemma_rsub_swap(q, mul3(q, sq(q, z1), x2, y2), mul3(q, sq(q, z2), x1, y1));
    lemma_rsub_swap(q, mul3(q, sq(q, y1), x2, z2), mul3(q, sq(q, y2), x1, z1));
    assert(formula_one(q, r@, p@) == (rneg(q, f.0), rneg(q, f.1), rneg(q, f.2)));
    crate::ring::lemma_ops_reduced(q, mul3(q, sq(q, x1), y2, z2), mul3(q, sq(q, x2), y1, z1));
    crate::ring::lemma_ops_reduced(q, mul3(q, sq(q, z1), x2, y2), mul3(q, sq(q, z2), x1, y1));
    crate::ring::lemma_ops_reduced(q, mul3(q, sq(q, y1), x2, z2), mul3(q, sq(q, y2), x1, z1));
    lemma_rmul_minus_one(q, f.0);
    lemma_rmul_minus_one(q, f.1);
    lemma_rmul_minus_one(q, f.2);
    lemma_scaled_eq(q, m1, f);
    // negation keeps a non-zero coordinate non-zero
    lemma_rneg_mul(q, f.0, f.0);
    lemma_rneg_mul(q, f.1, f.1);
    lemma_rneg_mul(q, f.2, f.2);
    lemma_small_mod(0, q as nat);
    assert(rneg(q, (0int, 0int)) == (0int, 0int));
}

/// Doubling is defined: for a point `P` of a non-singular curve over a prime
/// field whose coordinates do not all have a zero constant part, the second
/// formula does not give `[0 : 0 : 0]` on `(P, P)`.
pub proof fn lemma_double_defined<const Q: u64>(curve: TwistedHessianCurve<Q>, p: Projective<Q>)
    requires
        curve.wf(),
        p.wf(),
        is_prime(Q as int),
        on_curve(Q as int, p@, curve@.0, curve@.1),
        proper(p@),
    ensures
        add_defined(Q as int, p@, p@, curve@.0),
        !is_origin(formula_two(Q as int, p@, p@, curve@.0)),
{
    let q = Q as int;
    let (x, y, z) = p@;
    let a = curve@.0;
    let np = (x, z, y);
    lemma_add_negation(curve, p);
    lemma_formulas_negation(q, p@, a);
    let u = mul3(q, sq(q, z), y, z);
    let v = mul4(q, a, sq(q, x), x, y);
    lemma_rsub_swap(q, u, v);
    lemma_small_mod(0, q as nat);
    assert(rneg(q, (0int, 0int)) == (0int, 0int));
    crate::ring::lemma_ops_reduced(q, u, v);
    lemma_rneg_mul(q, rsub(q, u, v), rsub(q, u, v));
    if is_origin(formula_two(q, p@, p@, a)) {
        assert(formula_one(q, p@, np).1 == (0int, 0int));
        assert(formula_two(q, p@, np, a).1 == (0int, 0int));
    }
}

} // verus!

//! Points `[X : Y : Z]` of the twisted Hessian curve `aX³ + Y³ + Z³ = dXYZ`
//! over the dual numbers.
use crate::field::{modulus_ok, products_fit, Fq};
use crate::ring::{radd, rmul, rsub, Dual, RingElement};
use vstd::arithmetic::div_mod::lemma_small_mod;
use vstd::prelude::*;

verus! {

/// A projective triple of dual numbers.
pub type Triple = (Dual, Dual, Dual);

/// The zero dual number.
pub open spec fn rzero() -> Dual {
    (0int, 0int)
}

/// The invalid triple `[0 : 0 : 0]`.
pub open spec fn is_origin(p: Triple) -> bool {
    p.0 == rzero() && p.1 == rzero() && p.2 == rzero()
}

/// The neutral point `[0 : -1 : 1]`.
pub open spec fn identity_point(q: int) -> Triple {
    (rzero(), (q - 1, 0int), (1int, 0int))
}

/// `x · x`.
pub open spec fn sq(q: int, x: Dual) -> Dual {
    rmul(q, x, x)
}

/// `x · y · z`, multiplied from the left.
pub open spec fn mul3(q: int, x: Dual, y: Dual, z: Dual) -> Dual {
    rmul(q, rmul(q, x, y), z)
}

/// `x · y · z · w`, multiplied from the left.
pub open spec fn mul4(q: int, x: Dual, y: Dual, z: Dual, w: Dual) -> Dual {
    rmul(q, mul3(q, x, y, z), w)
}

/// Projective equality: the three cross products agree.
pub open spec fn proj_eq(q: int, p: Triple, r: Triple) -> bool {
    &&& rmul(q, p.0, r.2) == rmul(q, r.0, p.2)
    &&& rmul(q, p.1, r.2) == rmul(q, r.1, p.2)
    &&& rmul(q, p.2, r.0) == rmul(q, r.2, p.0)
}

/// The dual number `a · (27a - d³)`, whose constant part decides whether the
/// curve is non-singular.
pub open spec fn discriminant(q: int, a: Dual, d: Dual) -> Dual {
    rmul(q, a, rsub(q, rmul(q, (27int % q, 0int), a), mul3(q, d, d, d)))
}

/// The curve with parameters `a`, `d` is non-singular: `a · (27a - d³)` is a unit.
pub open spec fn nonsingular(q: int, a: Dual, d: Dual) -> bool {
    discriminant(q, a, d).0 != 0
}

/// `a·X³ + Y³ + Z³ = d·X·Y·Z` holds in the dual numbers.
pub open spec fn on_curve(q: int, p: Triple, a: Dual, d: Dual) -> bool {
    radd(q, radd(q, rmul(q, a, mul3(q, p.0, p.0, p.0)), mul3(q, p.1, p.1, p.1)), mul3(q, p.2, p.2, p.2))
        == mul4(q, d, p.0, p.1, p.2)
}

/// The first addition formula.
pub open spec fn formula_one(q: int, p: Triple, r: Triple) -> Triple {
    let (x1, y1, z1) = p;
    let (x2, y2, z2) = r;
    (
        rsub(q, mul3(q, sq(q, x1), y2, z2), mul3(q, sq(q, x2), y1, z1)),
        rsub(q, mul3(q, sq(q, z1), x2, y2), mul3(q, sq(q, z2), x1, y1)),
        rsub(q, mul3(q, sq(q, y1), x2, z2), mul3(q, sq(q, y2), x1, z1)),
    )
}

/// The second addition formula, which involves the parameter `a`.
pub open spec fn formula_two(q: int, p: Triple, r: Triple, a: Dual) -> Triple {
    let (x1, y1, z1) = p;
    let (x2, y2, z2) = r;
    (
        rsub(q, mul3(q, sq(q, z2), x1, z1), mul3(q, sq(q, y1), x2, y2)),
        rsub(q, mul3(q, sq(q, y2), y1, z1), mul4(q, a, sq(q, x1), x2, z2)),
        rsub(q, mul4(q, a, sq(q, x2), x1, y1), mul3(q, sq(q, z1), y2, z2)),
    )
}

/// Addition can proceed: the two formulas do not both give `[0 : 0 : 0]`.
pub open spec fn add_defined(q: int, p: Triple, r: Triple, a: Dual) -> bool {
    !(is_origin(formula_one(q, p, r)) && is_origin(formula_two(q, p, r, a)))
}

/// The sum: the first formula unless it gives `[0 : 0 : 0]`, else the second.
pub open spec fn point_add(q: int, p: Triple, r: Triple, a: Dual) -> Triple {
    if !is_origin(formula_one(q, p, r)) {
        formula_one(q, p, r)
    } else {
        formula_two(q, p, r, a)
    }
}

/// Double-and-add from the low bit of `k`, with accumulator `acc` and running
/// double `t`.
pub open spec fn ladder(q: int, acc: Triple, t: Triple, k: nat, a: Dual) -> Triple
    decreases k,
{
    if k == 0 {
        acc
    } else {
        let acc2 = if k % 2 == 1 {
            point_add(q, acc, t, a)
        } else {
            acc
        };
        ladder(q, acc2, point_add(q, t, t, a), k / 2, a)
    }
}

/// Every addition that `ladder(q, acc, t, k, a)` performs can proceed.
pub open spec fn ladder_defined(q: int, acc: Triple, t: Triple, k: nat, a: Dual) -> bool
    decreases k,
{
    if k == 0 {
        true
    } else {
        let acc2 = if k % 2 == 1 {
            point_add(q, acc, t, a)
        } else {
            acc
        };
        &&& (k % 2 == 1 ==> add_defined(q, acc, t, a))
        &&& add_defined(q, t, t, a)
        &&& ladder_defined(q, acc2, point_add(q, t, t, a), k / 2, a)
    }
}

/// The multiple `k·P` as double-and-add computes it.
pub open spec fn scalar_mul_spec(q: int, p: Triple, k: nat, a: Dual) -> Triple {
    ladder(q, identity_point(q), p, k, a)
}

/// Every addition in the computation of `k·P` can proceed.
pub open spec fn scalar_mul_defined(q: int, p: Triple, k: nat, a: Dual) -> bool {
    ladder_defined(q, identity_point(q), p, k, a)
}

/// A point in projective coordinates over the dual numbers.
#[derive(Clone, Copy, PartialEq, Eq, Debug)]
pub struct Projective<const Q: u64> {
    x: RingElement<Q>,
    y: RingElement<Q>,
    z: RingElement<Q>,
}

impl<const Q: u64> View for Projective<Q> {
    type V = Triple;

    closed spec fn view(&self) -> Triple {
        (self.x@, self.y@, self.z@)
    }
}

/// Whether `x`, `y`, `z` are all zero.
fn all_zero<const Q: u64>(x: RingElement<Q>, y: RingElement<Q>, z: RingElement<Q>) -> (r: bool)
    ensures
        r == is_origin((x@, y@, z@)),
{
    x.constant().value() == 0 && x.epsilon_coeff().value() == 0 && y.constant().value() == 0
        && y.epsilon_coeff().value() == 0 && z.constant().value() == 0
        && z.epsilon_coeff().value() == 0
}

/// The constant part of `a · (27a - d³)` is not zero.
fn discriminant_is_unit<const Q: u64>(a: RingElement<Q>, d: RingElement<Q>) -> (r: bool)
    requires
        a.wf(),
        d.wf(),
        products_fit(Q as int),
    ensures
        r == nonsingular(Q as int, a@, d@),
{
    let d_cubed = d.mul(d).mul(d);
    let twenty_seven = RingElement::from_field(Fq::new(27u64 % Q));
    proof {
        lemma_small_mod((27u64 % Q) as nat, Q as nat);
    }
    let term = twenty_seven.mul(a).sub(d_cubed);
    let condition = a.mul(term);
    condition.is_invertible()
}

impl<const Q: u64> Projective<Q> {
    /// Well-formedness: every coordinate is well-formed.
    pub open spec fn wf(&self) -> bool {
        &&& modulus_ok(Q as int)
        &&& crate::ring::reduced(Q as int, self@.0)
        &&& crate::ring::reduced(Q as int, self@.1)
        &&& crate::ring::reduced(Q as int, self@.2)
    }

    /// The point `[x : y : z]`.
    pub fn new(x: RingElement<Q>, y: RingElement<Q>, z: RingElement<Q>) -> (r: Self)
        requires
            x.wf(),
            y.wf(),
            z.wf(),
        ensures
            r.wf(),
            r@ == (x@, y@, z@),
    {
        Projective { x, y, z }
    }

    /// The neutral point `[0 : -1 : 1]`.
    pub fn identity() -> (r: Self)
        requires
            modulus_ok(Q as int),
        ensures
            r.wf(),
            r@ == identity_point(Q as int),
    {
        proof {
            lemma_small_mod(0, Q as nat);
            lemma_small_mod(1, Q as nat);
            lemma_small_mod((Q - 1) as nat, Q as nat);
        }
        let zero = Fq::new(0);
        let one = Fq::new(1);
        let neg_one = Fq::new(Q - 1);
        Projective::new(
            RingElement::from_field(zero),
            RingElement::from_field(neg_one),
            RingElement::from_field(one),
        )
    }

    /// The `X` coordinate.
    pub fn x(&self) -> (r: RingElement<Q>)
        ensures
            r@ == self@.0,
            self.wf() ==> r.wf(),
    {
        self.x
    }

    /// The `Y` coordinate.
    pub fn y(&self) -> (r: RingElement<Q>)
        ensures
            r@ == self@.1,
            self.wf() ==> r.wf(),
    {
        self.y
    }

    /// The `Z` coordinate.
    pub fn z(&self) -> (r: RingElement<Q>)
        ensures
            r@ == self@.2,
            self.wf() ==> r.wf(),
    {
        self.z
    }

    /// The modulus `Q`.
    pub fn modulus(&self) -> (r: u64)
        ensures
            r == Q,
    {
        Q
    }

    /// Whether the constant parts are those of `[0 : -1 : 1]`.
    pub fn is_identity(&self) -> (r: bool)
        requires
            modulus_ok(Q as int),
        ensures
            r == (self@.0.0 == 0 && self@.1.0 == Q - 1 && self@.2.0 == 1),
    {
        self.x.constant().value() == 0 && self.y.constant().value() == self.modulus() - 1
            && self.z.constant().value() == 1
    }

    /// Projective equality by the three cross products; neither point may be
    /// `[0 : 0 : 0]`.
    pub fn is_equal(&self, other: &Self) -> (r: bool)
        requires
            self.wf(),
            other.wf(),
            products_fit(Q as int),
            !is_origin(self@),
            !is_origin(other@),
        ensures
            r == proj_eq(Q as int, self@, other@),
    {
        let x1z2 = self.x.mul(other.z);
        let x2z1 = other.x.mul(self.z);
        let y1z2 = self.y.mul(other.z);
        let y2z1 = other.y.mul(self.z);
        let z1x2 = self.z.mul(other.x);
        let z2x1 = other.z.mul(self.x);
        ring_eq(x1z2, x2z1) && ring_eq(y1z2, y2z1) && ring_eq(z1x2, z2x1)
    }

    /// Whether the point satisfies `aX³ + Y³ + Z³ = dXYZ`; the parameters must
    /// give a non-singular curve.
    pub fn is_on_curve(&self, a: RingElement<Q>, d: RingElement<Q>) -> (r: bool)
        requires
            self.wf(),
            a.wf(),
            d.wf(),
            products_fit(Q as int),
            nonsingular(Q as int, a@, d@),
        ensures
            r == on_curve(Q as int, self@, a@, d@),
    {
        let x_cubed = self.x.mul(self.x).mul(self.x);
        let y_cubed = self.y.mul(self.y).mul(self.y);
        let z_cubed = self.z.mul(self.z).mul(self.z);
        let lhs = a.mul(x_cubed).add(y_cubed).add(z_cubed);
        let rhs = d.mul(self.x).mul(self.y).mul(self.z);
        ring_eq(lhs, rhs)
    }

    /// The negative `[X : Z : Y]`.
    pub fn negate(&self) -> (r: Self)
        ensures
            r@ == (self@.0, self@.2, self@.1),
            self.wf() ==> r.wf(),
    {
        Projective { x: self.x, y: self.z, z: self.y }
    }

    /// The sum by the first formula, or by the second where the first gives
    /// `[0 : 0 : 0]`; the two must not both give it.
    pub fn add(&self, other: &Self, a: RingElement<Q>) -> (r: Self)
        requires
            self.wf(),
            other.wf(),
            a.wf(),
            products_fit(Q as int),
            add_defined(Q as int, self@, other@, a@),
        ensures
            r.wf(),
            r@ == point_add(Q as int, self@, other@, a@),
            !is_origin(r@),
    {
        let x1_squared = self.x.mul(self.x);
        let x2_squared = other.x.mul(other.x);
        let y1_squared = self.y.mul(self.y);
        let y2_squared = other.y.mul(other.y);
        let z1_squared = self.z.mul(self.z);
        let z2_squared = other.z.mul(other.z);

        let x3 = x1_squared.mul(other.y).mul(other.z).sub(x2_squared.mul(self.y).mul(self.z));
        let y3 = z1_squared.mul(other.x).mul(other.y).sub(z2_squared.mul(self.x).mul(self.y));
        let z3 = y1_squared.mul(other.x).mul(other.z).sub(y2_squared.mul(self.x).mul(self.z));

        if all_zero(x3, y3, z3) {
            let x3_prime = z2_squared.mul(self.x).mul(self.z).sub(
                y1_squared.mul(other.x).mul(other.y),
            );
            let y3_prime = y2_squared.mul(self.y).mul(self.z).sub(
                a.mul(x1_squared).mul(other.x).mul(other.z),
            );
            let z3_prime = a.mul(x2_squared).mul(self.x).mul(self.y).sub(
                z1_squared.mul(other.y).mul(other.z),
            );
            Projective::new(x3_prime, y3_prime, z3_prime)
        } else {
            Projective::new(x3, y3, z3)
        }
    }

    /// `P + P`.
    pub fn double(&self, a: RingElement<Q>) -> (r: Self)
        requires
            self.wf(),
            a.wf(),
            products_fit(Q as int),
            add_defined(Q as int, self@, self@, a@),
        ensures
            r.wf(),
            r@ == point_add(Q as int, self@, self@, a@),
            !is_origin(r@),
    {
        self.add(self, a)
    }

    /// `scalar · P` by double-and-add from the low bit.
    pub fn scalar_mul(&self, scalar: u64, a: RingElement<Q>) -> (r: Self)
        requires
            self.wf(),
            a.wf(),
            products_fit(Q as int),
            scalar_mul_defined(Q as int, self@, scalar as nat, a@),
        ensures
            r.wf(),
            r@ == scalar_mul_spec(Q as int, self@, scalar as nat, a@),
            !is_origin(r@),
    {
        let mut result = Projective::identity();
        let mut temp = *self;
        let mut k: u64 = scalar;
        while k > 0
            invariant
                result.wf(),
                !is_origin(result@),
                temp.wf(),
                a.wf(),
                products_fit(Q as int),
                ladder_defined(Q as int, result@, temp@, k as nat, a@),
                ladder(Q as int, result@, temp@, k as nat, a@) == scalar_mul_spec(
                    Q as int,
                    self@,
                    scalar as nat,
                    a@,
                ),
            decreases k,
        {
            if k % 2 == 1 {
                result = result.add(&temp, a);
            }
            temp = temp.double(a);
            k = k / 2;
        }
        result
    }

    /// Whether `a · (27a - d³)` is a unit, i.e. the curve is non-singular.
    pub fn verify_curve_constraints(a: RingElement<Q>, d: RingElement<Q>) -> (r: bool)
        requires
            a.wf(),
            d.wf(),
            products_fit(Q as int),
        ensures
            r == nonsingular(Q as int, a@, d@),
    {
        discriminant_is_unit(a, d)
    }
}

/// Equality of two dual numbers, part by part.
fn ring_eq<const Q: u64>(u: RingElement<Q>, v: RingElement<Q>) -> (r: bool)
    ensures
        r == (u@ == v@),
{
    u.constant().value() == v.constant().value() && u.epsilon_coeff().value()
        == v.epsilon_coeff().value()
}

} // verus!

//! A twisted Hessian curve `aX³ + Y³ + Z³ = dXYZ` over the dual numbers,
//! checked to be non-singular when it is made.
use crate::field::{modulus_ok, products_fit};
use crate::projective::{
    add_defined, identity_point, is_origin, nonsingular, on_curve, point_add, proj_eq,
    scalar_mul_defined, scalar_mul_spec, Projective, Triple,
};
use crate::ring::{Dual, RingElement};
use vstd::prelude::*;

verus! {

/// The search for the order of `p` stops at `k`: `k·P` is the neutral point
/// and `(k - 1)·P` is not.
pub open spec fn order_found(q: int, p: Triple, k: nat, a: Dual) -> bool {
    &&& k >= 1
    &&& proj_eq(q, scalar_mul_spec(q, p, k, a), identity_point(q))
    &&& !proj_eq(q, scalar_mul_spec(q, p, (k - 1) as nat, a), identity_point(q))
}

/// A non-singular twisted Hessian curve with parameters `a` and `d`.
#[derive(Clone, Copy, Debug)]
pub struct TwistedHessianCurve<const Q: u64> {
    a: RingElement<Q>,
    d: RingElement<Q>,
}

impl<const Q: u64> View for TwistedHessianCurve<Q> {
    type V = (Dual, Dual);

    closed spec fn view(&self) -> (Dual, Dual) {
        (self.a@, self.d@)
    }
}

impl<const Q: u64> TwistedHessianCurve<Q> {
    /// Well-formedness: reduced parameters of a non-singular curve, over a
    /// modulus whose residue products fit a word.
    pub open spec fn wf(&self) -> bool {
        &&& modulus_ok(Q as int)
        &&& products_fit(Q as int)
        &&& crate::ring::reduced(Q as int, self@.0)
        &&& crate::ring::reduced(Q as int, self@.1)
        &&& nonsingular(Q as int, self@.0, self@.1)
    }

    /// The curve `aX³ + Y³ + Z³ = dXYZ`; `a · (27a - d³)` must be a unit.
    pub fn new(a: RingElement<Q>, d: RingElement<Q>) -> (r: Self)
        requires
            a.wf(),
            d.wf(),
            products_fit(Q as int),
            nonsingular(Q as int, a@, d@),
        ensures
            r.wf(),
            r@ == (a@, d@),
    {
        TwistedHessianCurve { a, d }
    }

    /// The parameter `a`.
    pub fn a(&self) -> (r: RingElement<Q>)
        ensures
            r@ == self@.0,
            self.wf() ==> r.wf(),
    {
        self.a
    }

    /// The parameter `d`.
    pub fn d(&self) -> (r: RingElement<Q>)
        ensures
            r@ == self@.1,
            self.wf() ==> r.wf(),
    {
        self.d
    }

    /// The modulus `Q`.
    pub fn modulus(&self) -> (r: u64)
        ensures
            r == Q,
    {
        Q
    }

    /// The neutral point `[0 : -1 : 1]`.
    pub fn identity(&self) -> (r: Projective<Q>)
        requires
            self.wf(),
        ensures
            r.wf(),
            r@ == identity_point(Q as int),
    {
        Projective::identity()
    }

    /// Whether `point` lies on the curve.
    pub fn contains(&self, point: &Projective<Q>) -> (r: bool)
        requires
            self.wf(),
            point.wf(),
        ensures
            r == on_curve(Q as int, point@, self@.0, self@.1),
    {
        point.is_on_curve(self.a, self.d)
    }

    /// The sum of two points of the curve.
    pub fn add(&self, p: &Projective<Q>, q: &Projective<Q>) -> (r: Projective<Q>)
        requires
            self.wf(),
            p.wf(),
            q.wf(),
            on_curve(Q as int, p@, self@.0, self@.1),
            on_curve(Q as int, q@, self@.0, self@.1),
            add_defined(Q as int, p@, q@, self@.0),
        ensures
            r.wf(),
            r@ == point_add(Q as int, p@, q@, self@.0),
    {
        p.add(q, self.a)
    }

    /// The multiple `scalar · p` of a point of the curve.
    pub fn scalar_mul(&self, p: &Projective<Q>, scalar: u64) -> (r: Projective<Q>)
        requires
            self.wf(),
            p.wf(),
            on_curve(Q as int, p@, self@.0, self@.1),
            scalar_mul_defined(Q as int, p@, scalar as nat, self@.0),
        ensures
            r.wf(),
            r@ == scalar_mul_spec(Q as int, p@, scalar as nat, self@.0),
            !is_origin(r@),
    {
        p.scalar_mul(scalar, self.a)
    }

    /// The order of a point by search: `1` for a point equal to the neutral
    /// one, else the least `k` in `2..=Q²` with `k·P` neutral and `(k-1)·P`
    /// not, which must exist.
    pub fn point_order(&self, point: &Projective<Q>) -> (r: u64)
        requires
            self.wf(),
            point.wf(),
            !is_origin(point@),
            on_curve(Q as int, point@, self@.0, self@.1),
            Q * Q < u64::MAX,
            forall|k: nat|
                1 <= k <= Q * Q ==> #[trigger] scalar_mul_defined(Q as int, point@, k, self@.0),
            proj_eq(Q as int, point@, identity_point(Q as int)) || exists|k: nat|
                2 <= k <= Q * Q && #[trigger] order_found(Q as int, point@, k, self@.0),
        ensures
            proj_eq(Q as int, point@, identity_point(Q as int)) ==> r == 1,
            !proj_eq(Q as int, point@, identity_point(Q as int)) ==> {
                &&& 2 <= r <= Q * Q
                &&& order_found(Q as int, point@, r as nat, self@.0)
                &&& forall|j: nat| 2 <= j < r ==> !#[trigger] order_found(Q as int, point@, j, self@.0)
            },
    {
        let identity = self.identity();
        if point.is_equal(&identity) {
            return 1;
        }
        let max_possible_order: u64 = Q * Q;
        let mut order: u64 = 2;
        while order <= max_possible_order
            invariant
                self.wf(),
                point.wf(),
                identity@ == identity_point(Q as int),
                identity.wf(),
                !proj_eq(Q as int, point@, identity_point(Q as int)),
                on_curve(Q as int, point@, self@.0, self@.1),
                max_possible_order == Q * Q,
                Q * Q < u64::MAX,
                2 <= order <= max_possible_order + 1,
                forall|k: nat|
                    1 <= k <= Q * Q ==> #[trigger] scalar_mul_defined(Q as int, point@, k, self@.0),
                forall|j: nat| 2 <= j < order ==> !#[trigger] order_found(Q as int, point@, j, self@.0),
            decreases max_possible_order + 1 - order,
        {
            let multiple = self.scalar_mul(point, order);
            if multiple.is_equal(&identity) {
                let previous = self.scalar_mul(point, order - 1);
                if !previous.is_equal(&identity) {
                    return order;
                }
            }
            order = order + 1;
        }
        0
    }
}

/// The order found by the search is the order: if `n` is where the search of
/// `point_order` stops and `1·P` is not the neutral point, then `n·P` is the
/// neutral point and `k·P` is not for `0 < k < n`.
pub proof fn lemma_order_is_least<const Q: u64>(
    curve: TwistedHessianCurve<Q>,
    p: Projective<Q>,
    n: nat,
)
    requires
        n >= 2,
        order_found(Q as int, p@, n, curve@.0),
        forall|j: nat| 2 <= j < n ==> !#[trigger] order_found(Q as int, p@, j, curve@.0),
        !proj_eq(Q as int, scalar_mul_spec(Q as int, p@, 1, curve@.0), identity_point(Q as int)),
    ensures
        proj_eq(Q as int, scalar_mul_spec(Q as int, p@, n, curve@.0), identity_point(Q as int)),
        forall|k: nat|
            0 < k < n ==> !proj_eq(
                Q as int,
                #[trigger] scalar_mul_spec(Q as int, p@, k, curve@.0),
                identity_point(Q as int),
            ),
{
    assert forall|k: nat| 0 < k < n implies !proj_eq(
        Q as int,
        #[trigger] scalar_mul_spec(Q as int, p@, k, curve@.0),
        identity_point(Q as int),
    ) by {
        lemma_below_order(curve, p, n, k);
    }
}

/// Induction step of `lemma_order_is_least`.
proof fn lemma_below_order<const Q: u64>(curve: TwistedHessianCurve<Q>, p: Projective<Q>, n: nat, k: nat)
    requires
        0 < k < n,
        forall|j: nat| 2 <= j < n ==> !#[trigger] order_found(Q as int, p@, j, curve@.0),
        !proj_eq(Q as int, scalar_mul_spec(Q as int, p@, 1, curve@.0), identity_point(Q as int)),
    ensures
        !proj_eq(Q as int, scalar_mul_spec(Q as int, p@, k, curve@.0), identity_point(Q as int)),
    decreases k,
{
    if k > 1 {
        lemma_below_order(curve, p, n, (k - 1) as nat);
        assert(!order_found(Q as int, p@, k, curve@.0));
    }
}

} // verus!

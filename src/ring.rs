//! Dual numbers `a + b·ε` over the integers modulo `Q`, where `ε² = 0`.
use crate::field::{fadd, fmul, fsub, gcd, modulus_ok, products_fit, Fq};
use vstd::arithmetic::div_mod::{
    lemma_add_mod_noop, lemma_mul_mod_noop_general, lemma_small_mod, lemma_sub_mod_noop,
};
use vstd::prelude::*;

verus! {

/// A dual number as a pair `(a, b)` standing for `a + b·ε`.
pub type Dual = (int, int);

/// Both components lie in `[0, q)`.
pub open spec fn reduced(q: int, x: Dual) -> bool {
    0 <= x.0 < q && 0 <= x.1 < q
}

/// Componentwise reduction modulo `q`.
pub open spec fn red(q: int, x: Dual) -> Dual {
    (x.0 % q, x.1 % q)
}

/// Sum of dual numbers modulo `q`.
pub open spec fn radd(q: int, x: Dual, y: Dual) -> Dual {
    (fadd(q, x.0, y.0), fadd(q, x.1, y.1))
}

/// Difference of dual numbers modulo `q`.
pub open spec fn rsub(q: int, x: Dual, y: Dual) -> Dual {
    (fsub(q, x.0, y.0), fsub(q, x.1, y.1))
}

/// Product of dual numbers modulo `q`: `(a + bε)(c + dε) = ac + (ad + bc)ε`.
pub open spec fn rmul(q: int, x: Dual, y: Dual) -> Dual {
    (fmul(q, x.0, y.0), fadd(q, fmul(q, x.0, y.1), fmul(q, x.1, y.0)))
}

/// The unit `1 + 0ε` modulo `q`.
pub open spec fn rone(q: int) -> Dual {
    (1int % q, 0)
}

/// `x` raised to the power `e` modulo `q`.
pub open spec fn rpow(q: int, x: Dual, e: nat) -> Dual
    decreases e,
{
    if e == 0 {
        rone(q)
    } else {
        rmul(q, rpow(q, x, (e - 1) as nat), x)
    }
}

/// Sum of dual numbers with integer coefficients, without reduction.
pub open spec fn zadd(x: Dual, y: Dual) -> Dual {
    (x.0 + y.0, x.1 + y.1)
}

/// Difference of dual numbers with integer coefficients, without reduction.
pub open spec fn zsub(x: Dual, y: Dual) -> Dual {
    (x.0 - y.0, x.1 - y.1)
}

/// Product of dual numbers with integer coefficients, without reduction.
pub open spec fn zmul(x: Dual, y: Dual) -> Dual {
    (x.0 * y.0, x.0 * y.1 + x.1 * y.0)
}

/// An element `a + b·ε` of the dual numbers over the integers modulo `Q`.
#[derive(Clone, Copy, PartialEq, Eq, Debug)]
pub struct RingElement<const Q: u64> {
    a: Fq<Q>,
    b: Fq<Q>,
}

impl<const Q: u64> View for RingElement<Q> {
    type V = Dual;

    closed spec fn view(&self) -> Dual {
        (self.a@, self.b@)
    }
}

impl<const Q: u64> RingElement<Q> {
    /// Well-formedness: the modulus is acceptable and both parts are reduced.
    pub open spec fn wf(&self) -> bool {
        &&& modulus_ok(Q as int)
        &&& reduced(Q as int, self@)
    }

    /// The element `a + b·ε`.
    pub fn new(a: Fq<Q>, b: Fq<Q>) -> (r: Self)
        requires
            a.wf(),
            b.wf(),
        ensures
            r.wf(),
            r@ == (a@, b@),
    {
        RingElement { a, b }
    }

    /// The element `a + 0·ε`.
    pub fn from_field(a: Fq<Q>) -> (r: Self)
        requires
            a.wf(),
        ensures
            r.wf(),
            r@ == (a@, 0int),
    {
        proof {
            lemma_small_mod(0, Q as nat);
        }
        RingElement::new(a, Fq::new(0))
    }

    /// The constant part `a` of `a + b·ε`.
    pub fn constant(&self) -> (r: Fq<Q>)
        ensures
            r@ == self@.0,
            self.wf() ==> r.wf(),
    {
        self.a
    }

    /// The coefficient `b` of `ε` in `a + b·ε`.
    pub fn epsilon_coeff(&self) -> (r: Fq<Q>)
        ensures
            r@ == self@.1,
            self.wf() ==> r.wf(),
    {
        self.b
    }

    /// The modulus `Q`.
    pub fn modulus() -> (r: u64)
        ensures
            r == Q,
    {
        Q
    }

    /// Whether the element is a unit: its constant part is not zero.
    pub fn is_invertible(&self) -> (r: bool)
        ensures
            r == (self@.0 != 0),
    {
        self.a.value() != 0
    }

    /// Componentwise sum.
    pub fn add(self, other: Self) -> (r: Self)
        requires
            self.wf(),
            other.wf(),
        ensures
            r.wf(),
            r@ == radd(Q as int, self@, other@),
    {
        RingElement::new(self.a.add(other.a), self.b.add(other.b))
    }

    /// Componentwise difference.
    pub fn sub(self, other: Self) -> (r: Self)
        requires
            self.wf(),
            other.wf(),
        ensures
            r.wf(),
            r@ == rsub(Q as int, self@, other@),
    {
        RingElement::new(self.a.sub(other.a), self.b.sub(other.b))
    }

    /// Product, dropping the `ε²` term.
    pub fn mul(self, other: Self) -> (r: Self)
        requires
            self.wf(),
            other.wf(),
            products_fit(Q as int),
        ensures
            r.wf(),
            r@ == rmul(Q as int, self@, other@),
    {
        proof {
            crate::field::lemma_products_fit(Q as int, self@.0, other@.0);
            crate::field::lemma_products_fit(Q as int, self@.0, other@.1);
            crate::field::lemma_products_fit(Q as int, self@.1, other@.0);
        }
        let ac = self.a.mul(other.a);
        let ad = self.a.mul(other.b);
        let bc = self.b.mul(other.a);
        RingElement::new(ac, ad.add(bc))
    }

    /// The inverse `a⁻¹ - b·a⁻²·ε`; the constant part must be a unit modulo `Q`
    /// (for a prime `Q`: not zero).
    pub fn inv(&self) -> (r: Self)
        requires
            self.wf(),
            gcd(self@.0 as nat, Q as nat) == 1,
            products_fit(Q as int),
        ensures
            r.wf(),
            rmul(Q as int, self@, r@) == rone(Q as int),
    {
        let a_inv = self.a.inv();
        proof {
            crate::field::lemma_products_fit(Q as int, a_inv@, a_inv@);
        }
        let a_inv_squared = a_inv.mul(a_inv);
        proof {
            crate::field::lemma_products_fit(Q as int, self@.1, a_inv_squared@);
        }
        let b_a_inv_squared = self.b.mul(a_inv_squared);
        let r = RingElement::new(a_inv, Fq::new(Q - b_a_inv_squared.value()));
        proof {
            lemma_inverse_parts(
                Q as int,
                self@.0,
                self@.1,
                a_inv@,
                a_inv_squared@,
                b_a_inv_squared@,
                r@.1,
            );
            lemma_small_mod(1, Q as nat);
        }
        r
    }

    /// `self` raised to `exponent`, by square-and-multiply from the low bit.
    pub fn pow(&self, exponent: u64) -> (r: Self)
        requires
            self.wf(),
            products_fit(Q as int),
        ensures
            r.wf(),
            r@ == rpow(Q as int, self@, exponent as nat),
    {
        let mut result = RingElement::new(Fq::new(1), Fq::new(0));
        let mut base = *self;
        let mut exp: u64 = exponent;
        proof {
            lemma_small_mod(0, Q as nat);
            lemma_rmul_one(Q as int, rpow(Q as int, self@, exponent as nat));
        }
        while exp > 0
            invariant
                self.wf(),
                result.wf(),
                base.wf(),
                products_fit(Q as int),
                rmul(Q as int, result@, rpow(Q as int, base@, exp as nat)) == rpow(
                    Q as int,
                    self@,
                    exponent as nat,
                ),
            decreases exp,
        {
            proof {
                lemma_rpow_step(Q as int, result@, base@, exp as nat);
            }
            if exp % 2 == 1 {
                result = result.mul(base);
            }
            base = base.mul(base);
            exp = exp / 2;
        }
        proof {
            lemma_rmul_one(Q as int, result@);
            lemma_rmul_comm(Q as int, result@, rone(Q as int));
        }
        result
    }
}

/// The parts computed by `inv` give a product of one.
proof fn lemma_inverse_parts(q: int, a: int, b: int, ai: int, ai2: int, bai2: int, e: int)
    requires
        q > 1,
        0 <= a < q,
        0 <= b < q,
        0 <= ai < q,
        fmul(q, a, ai) == 1,
        ai2 == fmul(q, ai, ai),
        bai2 == fmul(q, b, ai2),
        e == (q - bai2) % q,
    ensures
        0 <= e < q,
        rmul(q, (a, b), (ai, e)) == (1int, 0int),
{
    // e ≡ -(b·ai·ai), so a·e + b·ai ≡ -b·ai·(a·ai) + b·ai ≡ 0.
    let t = b * ai * ai;
    lemma_mul_mod_noop_general(b, ai * ai, q);
    assert(b * (ai * ai) == t) by (nonlinear_arith)
        requires
            t == b * ai * ai,
    ;
    vstd::arithmetic::div_mod::lemma_mod_multiples_vanish(1, -bai2, q);
    lemma_sub_mod_noop(0, t, q);
    lemma_small_mod(0, q as nat);
    assert(e == (-t) % q);
    lemma_mul_mod_noop_general(a, -t, q);
    // a·(-t) == -(b·ai)·(a·ai)
    let u = a * ai;
    assert(a * (-t) == -(b * ai) * u) by (nonlinear_arith)
        requires
            t == b * ai * ai,
            u == a * ai,
    ;
    lemma_mul_mod_noop_general(-(b * ai), u, q);
    assert(-(b * ai) * 1 == -(b * ai));
    lemma_add_mod_noop(a * (-t), b * ai, q);
    lemma_add_mod_noop(-(b * ai), b * ai, q);
    lemma_mul_mod_noop_general(a, e, q);
}

/// Products with one leave a reduced element unchanged.
pub proof fn lemma_rmul_one(q: int, x: Dual)
    requires
        q > 1,
        reduced(q, x),
    ensures
        rmul(q, rone(q), x) == x,
        rmul(q, x, rone(q)) == x,
{
    lemma_small_mod(1, q as nat);
    lemma_small_mod(0, q as nat);
    lemma_small_mod(x.0 as nat, q as nat);
    lemma_small_mod(x.1 as nat, q as nat);
}


/// The negative `0 - x` modulo `q`.
pub open spec fn rneg(q: int, x: Dual) -> Dual {
    rsub(q, (0int, 0int), x)
}

/// Zero absorbs products, and subtracting zero changes nothing.
pub proof fn lemma_rzero(q: int, v: Dual)
    requires
        q > 1,
        reduced(q, v),
    ensures
        rmul(q, (0int, 0int), v) == (0int, 0int),
        rmul(q, v, (0int, 0int)) == (0int, 0int),
        rsub(q, v, (0int, 0int)) == v,
        radd(q, v, (0int, 0int)) == v,
        radd(q, (0int, 0int), v) == v,
{
    lemma_small_mod(0, q as nat);
    lemma_red_reduced(q, v);
    assert(v.0 * 0 == 0 && 0 * v.0 == 0 && v.1 * 0 == 0 && 0 * v.1 == 0) by (nonlinear_arith);
}

/// Products with `-1` negate.
pub proof fn lemma_rmul_minus_one(q: int, v: Dual)
    requires
        q > 1,
        reduced(q, v),
    ensures
        rmul(q, v, (q - 1, 0int)) == rneg(q, v),
        rmul(q, (q - 1, 0int), v) == rneg(q, v),
{
    let m1 = (q - 1, 0int);
    lemma_red_ops(q, v, m1);
    lemma_red_ops(q, m1, v);
    lemma_red_ops(q, (0int, 0int), v);
    assert(v.0 * (q - 1) == q * v.0 + (-v.0)) by (nonlinear_arith);
    assert(v.1 * (q - 1) == q * v.1 + (-v.1)) by (nonlinear_arith);
    assert((q - 1) * v.0 == q * v.0 + (-v.0)) by (nonlinear_arith);
    assert((q - 1) * v.1 == q * v.1 + (-v.1)) by (nonlinear_arith);
    assert(v.0 * 0 == 0 && 0 * v.0 == 0 && v.1 * 0 == 0 && 0 * v.1 == 0) by (nonlinear_arith);
    vstd::arithmetic::div_mod::lemma_mod_multiples_vanish(v.0, -v.0, q);
    vstd::arithmetic::div_mod::lemma_mod_multiples_vanish(v.1, -v.1, q);
}

/// `(-1)·(-1) = 1`.
pub proof fn lemma_minus_one_squared(q: int)
    requires
        q > 1,
    ensures
        rmul(q, (q - 1, 0int), (q - 1, 0int)) == (1int, 0int),
{
    lemma_rmul_minus_one(q, (q - 1, 0int));
    vstd::arithmetic::div_mod::lemma_mod_multiples_vanish(-1, 1, q);
    lemma_small_mod(1, q as nat);
    lemma_small_mod(0, q as nat);
}

/// Negation passes through products, and twice negating changes nothing.
pub proof fn lemma_rneg_mul(q: int, x: Dual, y: Dual)
    requires
        q > 1,
        reduced(q, x),
        reduced(q, y),
    ensures
        rmul(q, rneg(q, x), y) == rneg(q, rmul(q, x, y)),
        rmul(q, x, rneg(q, y)) == rneg(q, rmul(q, x, y)),
        rneg(q, rneg(q, x)) == x,
{
    let z0 = (0int, 0int);
    lemma_red_ops(q, z0, x);
    lemma_red_ops(q, z0, y);
    lemma_red_ops(q, rneg(q, x), y);
    lemma_red_ops(q, x, rneg(q, y));
    lemma_red_ops(q, zsub(z0, x), y);
    lemma_red_ops(q, x, zsub(z0, y));
    lemma_red_ops(q, x, y);
    lemma_red_ops(q, z0, rmul(q, x, y));
    lemma_red_ops(q, z0, zmul(x, y));
    lemma_red_ops(q, z0, rneg(q, x));
    lemma_red_ops(q, z0, zsub(z0, x));
    lemma_red_reduced(q, x);
    lemma_red_reduced(q, y);
    lemma_small_mod(0, q as nat);
    let (x0, x1, y0, y1) = (x.0, x.1, y.0, y.1);
    assert((0 - x0) * y0 == 0 - x0 * y0 && (0 - x0) * y1 + (0 - x1) * y0 == 0 - (x0 * y1 + x1
        * y0)) by (nonlinear_arith);
    assert(x0 * (0 - y0) == 0 - x0 * y0 && x0 * (0 - y1) + x1 * (0 - y0) == 0 - (x0 * y1 + x1
        * y0)) by (nonlinear_arith);
}

/// Products can be regrouped: `(c·u)·v == u·(c·v)`.
pub proof fn lemma_rmul_swap(q: int, c: Dual, u: Dual, v: Dual)
    requires
        q > 1,
        reduced(q, c),
        reduced(q, u),
        reduced(q, v),
    ensures
        rmul(q, rmul(q, c, u), v) == rmul(q, u, rmul(q, c, v)),
{
    lemma_rmul_assoc(q, c, u, v);
    lemma_rmul_assoc(q, u, c, v);
    lemma_rmul_comm(q, u, c);
}

/// Reduced arithmetic is unreduced arithmetic followed by a reduction, and
/// reducing the operands first changes nothing.
pub proof fn lemma_red_ops(q: int, x: Dual, y: Dual)
    requires
        q > 0,
    ensures
        rmul(q, x, y) == red(q, zmul(x, y)),
        radd(q, x, y) == red(q, zadd(x, y)),
        rsub(q, x, y) == red(q, zsub(x, y)),
        red(q, zmul(red(q, x), red(q, y))) == red(q, zmul(x, y)),
        red(q, zadd(red(q, x), red(q, y))) == red(q, zadd(x, y)),
        red(q, zsub(red(q, x), red(q, y))) == red(q, zsub(x, y)),
{
    lemma_add_mod_noop(x.0 * y.1, x.1 * y.0, q);
    lemma_mul_mod_noop_general(x.0, y.0, q);
    lemma_mul_mod_noop_general(x.0, y.1, q);
    lemma_mul_mod_noop_general(x.1, y.0, q);
    lemma_add_mod_noop((x.0 % q) * (y.1 % q), (x.1 % q) * (y.0 % q), q);
    lemma_add_mod_noop(x.0, y.0, q);
    lemma_add_mod_noop(x.1, y.1, q);
    lemma_sub_mod_noop(x.0, y.0, q);
    lemma_sub_mod_noop(x.1, y.1, q);
}

/// A reduced element is its own reduction.
pub proof fn lemma_red_reduced(q: int, x: Dual)
    requires
        q > 0,
        reduced(q, x),
    ensures
        red(q, x) == x,
{
    lemma_small_mod(x.0 as nat, q as nat);
    lemma_small_mod(x.1 as nat, q as nat);
}

/// Results of the reduced operations are reduced.
pub proof fn lemma_ops_reduced(q: int, x: Dual, y: Dual)
    requires
        q > 0,
    ensures
        reduced(q, rmul(q, x, y)),
        reduced(q, radd(q, x, y)),
        reduced(q, rsub(q, x, y)),
        reduced(q, red(q, x)),
{
}

/// Reduced multiplication is commutative.
pub proof fn lemma_rmul_comm(q: int, x: Dual, y: Dual)
    requires
        q > 0,
    ensures
        rmul(q, x, y) == rmul(q, y, x),
{
    assert(zmul(x, y) == zmul(y, x)) by (nonlinear_arith);
    lemma_red_ops(q, x, y);
    lemma_red_ops(q, y, x);
}

/// Reduced multiplication is associative.
pub proof fn lemma_rmul_assoc(q: int, x: Dual, y: Dual, z: Dual)
    requires
        q > 0,
        reduced(q, x),
        reduced(q, z),
    ensures
        rmul(q, rmul(q, x, y), z) == rmul(q, x, rmul(q, y, z)),
{
    lemma_red_ops(q, x, y);
    lemma_red_ops(q, y, z);
    lemma_red_ops(q, rmul(q, x, y), z);
    lemma_red_ops(q, x, rmul(q, y, z));
    lemma_red_ops(q, zmul(x, y), z);
    lemma_red_ops(q, x, zmul(y, z));
    lemma_red_reduced(q, x);
    lemma_red_reduced(q, z);
    lemma_zmul_assoc(x, y, z);
}


/// The ring laws hold for sums and products of dual numbers: both operations
/// are commutative and associative, and multiplication distributes over
/// addition.
pub proof fn lemma_ring_laws<const Q: u64>(
    x: RingElement<Q>,
    y: RingElement<Q>,
    z: RingElement<Q>,
)
    requires
        x.wf(),
        y.wf(),
        z.wf(),
    ensures
        radd(Q as int, x@, y@) == radd(Q as int, y@, x@),
        radd(Q as int, radd(Q as int, x@, y@), z@) == radd(Q as int, x@, radd(Q as int, y@, z@)),
        rmul(Q as int, x@, y@) == rmul(Q as int, y@, x@),
        rmul(Q as int, rmul(Q as int, x@, y@), z@) == rmul(Q as int, x@, rmul(Q as int, y@, z@)),
        rmul(Q as int, x@, radd(Q as int, y@, z@)) == radd(
            Q as int,
            rmul(Q as int, x@, y@),
            rmul(Q as int, x@, z@),
        ),
{
    let q = Q as int;
    lemma_red_ops(q, x@, y@);
    lemma_red_ops(q, y@, x@);
    lemma_red_ops(q, y@, z@);
    lemma_red_ops(q, zadd(x@, y@), z@);
    lemma_red_ops(q, x@, zadd(y@, z@));
    lemma_red_reduced(q, x@);
    lemma_red_reduced(q, z@);
    assert(zadd(zadd(x@, y@), z@) == zadd(x@, zadd(y@, z@)));
    lemma_rmul_comm(q, x@, y@);
    lemma_rmul_assoc(q, x@, y@, z@);
    lemma_red_ops(q, x@, z@);
    lemma_red_ops(q, zmul(x@, y@), zmul(x@, z@));
    lemma_zmul_distrib(x@, y@, z@);
    lemma_red_ops(q, x@, radd(q, y@, z@));
    lemma_red_ops(q, rmul(q, x@, y@), rmul(q, x@, z@));
}

/// Zero is neutral for addition, one for multiplication, and `x - x` is zero.
pub proof fn lemma_ring_identities<const Q: u64>(x: RingElement<Q>)
    requires
        x.wf(),
    ensures
        radd(Q as int, x@, (0int, 0int)) == x@,
        rmul(Q as int, x@, (1int, 0int)) == x@,
        rsub(Q as int, x@, x@) == (0int, 0int),
{
    lemma_red_reduced(Q as int, x@);
    lemma_rmul_one(Q as int, x@);
    lemma_small_mod(1, Q as nat);
    lemma_small_mod(0, Q as nat);
    assert(x@.0 - x@.0 == 0 && x@.1 - x@.1 == 0);
}

/// `ε · ε = 0`.
pub proof fn lemma_epsilon_squared<const Q: u64>()
    requires
        modulus_ok(Q as int),
    ensures
        rmul(Q as int, (0int, 1int), (0int, 1int)) == (0int, 0int),
{
    lemma_small_mod(0, Q as nat);
}

/// Unreduced multiplication distributes over addition.
pub proof fn lemma_zmul_distrib(x: Dual, y: Dual, z: Dual)
    ensures
        zmul(x, zadd(y, z)) == zadd(zmul(x, y), zmul(x, z)),
{
    let (x0, x1, y0, y1, z0, z1) = (x.0, x.1, y.0, y.1, z.0, z.1);
    assert(x0 * (y0 + z0) == x0 * y0 + x0 * z0) by (nonlinear_arith);
    assert(x0 * (y1 + z1) == x0 * y1 + x0 * z1) by (nonlinear_arith);
    assert(x1 * (y0 + z0) == x1 * y0 + x1 * z0) by (nonlinear_arith);
}

/// Unreduced multiplication is associative.
pub proof fn lemma_zmul_assoc(x: Dual, y: Dual, z: Dual)
    ensures
        zmul(zmul(x, y), z) == zmul(x, zmul(y, z)),
{
    let (x0, x1, y0, y1, z0, z1) = (x.0, x.1, y.0, y.1, z.0, z.1);
    assert(x0 * y0 * z0 == x0 * (y0 * z0)) by (nonlinear_arith);
    assert((x0 * y1 + x1 * y0) * z0 == x0 * y1 * z0 + x1 * y0 * z0) by (nonlinear_arith);
    assert(x0 * (y0 * z1 + y1 * z0) == x0 * y0 * z1 + x0 * y1 * z0) by (nonlinear_arith);
    assert(x1 * (y0 * z0) == x1 * y0 * z0) by (nonlinear_arith);
}

/// One step of square-and-multiply keeps the accumulated product.
proof fn lemma_rpow_step(q: int, res: Dual, b: Dual, n: nat)
    requires
        q > 1,
        n > 0,
        reduced(q, res),
        reduced(q, b),
    ensures
        rmul(
            q,
            if n % 2 == 1 {
                rmul(q, res, b)
            } else {
                res
            },
            rpow(q, rmul(q, b, b), n / 2),
        ) == rmul(q, res, rpow(q, b, n)),
{
    let m = n / 2;
    lemma_rpow_square(q, b, m);
    if n % 2 == 1 {
        // b^n == b^(2m) · b
        assert(rpow(q, b, n) == rmul(q, rpow(q, b, 2 * m), b));
        lemma_rpow_reduced(q, b, 2 * m);
        lemma_rmul_assoc(q, res, b, rpow(q, b, 2 * m));
        lemma_rmul_comm(q, b, rpow(q, b, 2 * m));
    }
}

/// Powers of reduced elements are reduced.
proof fn lemma_rpow_reduced(q: int, x: Dual, e: nat)
    requires
        q > 1,
    ensures
        reduced(q, rpow(q, x, e)),
    decreases e,
{
    if e > 0 {
        lemma_rpow_reduced(q, x, (e - 1) as nat);
    }
}

/// Powers of a square are even powers.
proof fn lemma_rpow_square(q: int, x: Dual, m: nat)
    requires
        q > 1,
        reduced(q, x),
    ensures
        rpow(q, rmul(q, x, x), m) == rpow(q, x, 2 * m),
    decreases m,
{
    if m > 0 {
        lemma_rpow_square(q, x, (m - 1) as nat);
        let p = rpow(q, x, (2 * (m - 1)) as nat);
        lemma_rpow_reduced(q, x, (2 * (m - 1)) as nat);
        assert(rpow(q, x, (2 * m - 1) as nat) == rmul(q, p, x));
        assert(rpow(q, x, 2 * m) == rmul(q, rmul(q, p, x), x));
        lemma_rmul_assoc(q, p, x, x);
    }
}

} // verus!

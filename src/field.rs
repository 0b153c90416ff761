//! Arithmetic in the residue ring of integers modulo `Q`.
use vstd::arithmetic::div_mod::{
    lemma_add_mod_noop, lemma_mod_multiples_vanish, lemma_mul_mod_noop_general, lemma_small_mod,
};
use vstd::arithmetic::mul::{
    lemma_mul_is_associative, lemma_mul_is_commutative, lemma_mul_is_distributive_add,
};
use vstd::arithmetic::power::{lemma_pow_adds, lemma_pow_mod_noop, lemma_pow_multiplies, pow};
use vstd::prelude::*;

verus! {

/// Moduli accepted by the field: `1 < q < 2^63 - 1`, so that `q` fits a signed word.
pub open spec fn modulus_ok(q: int) -> bool {
    1 < q < i64::MAX
}

/// The product of any two reduced residues fits an unsigned word.
pub open spec fn products_fit(q: int) -> bool {
    (q - 1) * (q - 1) <= u64::MAX
}

/// Sum of residues modulo `q`.
pub open spec fn fadd(q: int, x: int, y: int) -> int {
    (x + y) % q
}

/// Difference of residues modulo `q`.
pub open spec fn fsub(q: int, x: int, y: int) -> int {
    (x - y) % q
}

/// Product of residues modulo `q`.
pub open spec fn fmul(q: int, x: int, y: int) -> int {
    (x * y) % q
}

/// `x` raised to the power `e` modulo `q`.
pub open spec fn fpow(q: int, x: int, e: nat) -> int
    decreases e,
{
    if e == 0 {
        1int % q
    } else {
        fmul(q, fpow(q, x, (e - 1) as nat), x)
    }
}

/// Greatest common divisor, by Euclid's recursion.
pub open spec fn gcd(a: nat, b: nat) -> nat
    decreases b,
{
    if b == 0 {
        a
    } else {
        gcd(b, a % b)
    }
}

/// `d` divides `n`.
pub open spec fn divides(d: int, n: int) -> bool {
    d > 0 && n % d == 0
}

/// `q` is a prime number.
pub open spec fn is_prime(q: int) -> bool {
    &&& q > 1
    &&& forall|d: int| 1 <= d <= q && #[trigger] divides(d, q) ==> d == 1 || d == q
}

/// An element of the integers modulo `Q`, kept reduced into `[0, Q)`.
#[derive(Clone, Copy, PartialEq, Eq, Debug)]
pub struct Fq<const Q: u64> {
    value: u64,
}

impl<const Q: u64> View for Fq<Q> {
    type V = int;

    closed spec fn view(&self) -> int {
        self.value as int
    }
}

impl<const Q: u64> Fq<Q> {
    /// Well-formedness: the modulus is acceptable and the value is reduced.
    pub open spec fn wf(&self) -> bool {
        &&& modulus_ok(Q as int)
        &&& 0 <= self@ < Q
    }

    /// The residue of `value` modulo `Q`.
    pub fn new(value: u64) -> (r: Self)
        requires
            modulus_ok(Q as int),
            value < i64::MAX,
        ensures
            r.wf(),
            r@ == value as int % Q as int,
    {
        Fq { value: value % Q }
    }

    /// The representative in `[0, Q)`.
    pub fn value(&self) -> (r: u64)
        ensures
            r == self@,
    {
        self.value
    }

    /// The modulus `Q`.
    pub fn modulus() -> (r: u64)
        ensures
            r == Q,
    {
        Q
    }

    /// Sum modulo `Q`.
    pub fn add(self, rhs: Self) -> (r: Self)
        requires
            self.wf(),
            rhs.wf(),
        ensures
            r.wf(),
            r@ == fadd(Q as int, self@, rhs@),
    {
        let sum = (self.value + rhs.value) % Q;
        proof {
            lemma_small_mod(sum as nat, Q as nat);
        }
        Fq::new(sum)
    }

    /// Difference modulo `Q`.
    pub fn sub(self, rhs: Self) -> (r: Self)
        requires
            self.wf(),
            rhs.wf(),
        ensures
            r.wf(),
            r@ == fsub(Q as int, self@, rhs@),
    {
        let mut diff: i64 = self.value as i64 - rhs.value as i64;
        if diff < 0 {
            diff = diff + Q as i64;
        }
        proof {
            lemma_mod_multiples_vanish(1, self@ - rhs@, Q as int);
        }
        Fq::new(diff as u64)
    }

    /// Product modulo `Q`; the plain product must fit an unsigned word.
    pub fn mul(self, rhs: Self) -> (r: Self)
        requires
            self.wf(),
            rhs.wf(),
            self@ * rhs@ <= u64::MAX,
        ensures
            r.wf(),
            r@ == fmul(Q as int, self@, rhs@),
    {
        let product = (self.value * rhs.value) % Q;
        proof {
            lemma_small_mod(product as nat, Q as nat);
        }
        Fq::new(product)
    }

    /// The inverse modulo `Q` when `gcd(value, Q) == 1`, else `None`, by the
    /// extended Euclidean algorithm on signed words.
    pub fn checked_inv(&self) -> (r: Option<Self>)
        requires
            self.wf(),
        ensures
            r.is_some() <==> gcd(self@ as nat, Q as nat) == 1,
            r matches Some(x) ==> x.wf() && fmul(Q as int, self@, x@) == 1,
    {
        let q: i64 = Q as i64;
        let mut old_r: i64 = self.value as i64;
        let mut r: i64 = q;
        let mut old_s: i64 = 1;
        let mut s: i64 = 0;
        let ghost mut old_t: int = 0;
        let ghost mut t: int = 1;
        let ghost a: int = self@;
        while r != 0
            invariant
                modulus_ok(q as int),
                q == Q,
                0 <= a < q,
                0 <= old_r <= q,
                0 <= r <= q,
                gcd(old_r as nat, r as nat) == gcd(a as nat, q as nat),
                old_s * a + old_t * q == old_r,
                s * a + t * q == r,
                abs(s as int) * old_r + abs(old_s as int) * r == q,
                old_s * s <= 0,
                abs(old_s as int) <= q,
                abs(s as int) <= q,
            decreases r,
        {
            let quotient: i64 = old_r / r;
            let rem: i64 = old_r % r;
            proof {
                lemma_euclid_step(
                    q as int,
                    old_r as int,
                    r as int,
                    old_s as int,
                    s as int,
                    quotient as int,
                    rem as int,
                );
            }
            let ks: i64 = quotient * s;
            let new_s: i64 = old_s - ks;
            proof {
                let nt = old_t - quotient * t;
                assert((old_s - quotient * s) * a + nt * q == old_r - quotient * r) by (nonlinear_arith)
                    requires
                        old_s * a + old_t * q == old_r,
                        s * a + t * q == r,
                        nt == old_t - quotient * t,
                ;
                old_t = t;
                t = nt;
            }
            old_r = r;
            r = rem;
            old_s = s;
            s = new_s;
        }
        if old_r != 1 {
            return None;
        }
        let result: i64 = if old_s < 0 {
            old_s + q
        } else {
            old_s
        };
        proof {
            lemma_bezout_inverse(q as int, a, old_s as int, old_t, result as int);
        }
        Some(Fq::new(result as u64))
    }

    /// The inverse modulo `Q`, which exists exactly when `gcd(value, Q) == 1`
    /// (for a prime `Q`: when the value is not zero).
    pub fn inv(&self) -> (r: Self)
        requires
            self.wf(),
            gcd(self@ as nat, Q as nat) == 1,
        ensures
            r.wf(),
            fmul(Q as int, self@, r@) == 1,
    {
        match self.checked_inv() {
            Some(x) => x,
            None => *self,
        }
    }

    /// `self` raised to `exponent`, by square-and-multiply from the low bit.
    pub fn pow(&self, exponent: u64) -> (r: Self)
        requires
            self.wf(),
            products_fit(Q as int),
        ensures
            r.wf(),
            r@ == fpow(Q as int, self@, exponent as nat),
    {
        let mut result = Fq::new(1);
        let mut base = *self;
        let mut exp: u64 = exponent;
        proof {
            lemma_small_mod(1, Q as nat);
            assert(result@ == 1);
            assert(1 * pow(base@, exp as nat) == pow(self@, exponent as nat));
        }
        while exp > 0
            invariant
                self.wf(),
                result.wf(),
                base.wf(),
                products_fit(Q as int),
                (result@ * pow(base@, exp as nat)) % (Q as int) == pow(self@, exponent as nat) % (
                Q as int),
            decreases exp,
        {
            proof {
                lemma_products_fit(Q as int, result@, base@);
                lemma_products_fit(Q as int, base@, base@);
                lemma_pow_step(Q as int, result@, base@, exp as nat);
            }
            if exp % 2 == 1 {
                result = result.mul(base);
            }
            base = base.mul(base);
            exp = exp / 2;
        }
        proof {
            vstd::arithmetic::power::lemma_pow0(base@);
            lemma_small_mod(result@ as nat, Q as nat);
            lemma_fpow_is_pow(Q as int, self@, exponent as nat);
        }
        result
    }

    /// Euler's criterion for `-3`: `false` for an even `Q`, else whether
    /// `(Q - 3)^((Q - 1) / 2)` is `1` modulo `Q`.
    pub fn is_minus_three_square() -> (r: bool)
        requires
            modulus_ok(Q as int),
            products_fit(Q as int),
        ensures
            r == (Q % 2 == 1 && fpow(Q as int, (Q - 3) % (Q as int), ((Q - 1) / 2) as nat) == 1),
    {
        if Q % 2 == 0 {
            return false;
        }
        let minus_three = Fq::<Q>::new(Q - 3);
        let exponent: u64 = (Q - 1) / 2;
        minus_three.pow(exponent).value == 1
    }
}


/// Addition of residues is commutative and associative.
pub proof fn lemma_fq_add_laws<const Q: u64>(a: Fq<Q>, b: Fq<Q>, c: Fq<Q>)
    requires
        a.wf(),
        b.wf(),
        c.wf(),
    ensures
        fadd(Q as int, a@, b@) == fadd(Q as int, b@, a@),
        fadd(Q as int, fadd(Q as int, a@, b@), c@) == fadd(Q as int, a@, fadd(Q as int, b@, c@)),
{
    let q = Q as int;
    lemma_small_mod(a@ as nat, Q as nat);
    lemma_small_mod(c@ as nat, Q as nat);
    lemma_add_mod_noop(a@ + b@, c@, q);
    lemma_add_mod_noop(a@, b@ + c@, q);
    assert(a@ + b@ + c@ == a@ + (b@ + c@));
}

/// Multiplication of residues is commutative, associative and distributes
/// over addition.
pub proof fn lemma_fq_mul_laws<const Q: u64>(a: Fq<Q>, b: Fq<Q>, c: Fq<Q>)
    requires
        a.wf(),
        b.wf(),
        c.wf(),
    ensures
        fmul(Q as int, a@, b@) == fmul(Q as int, b@, a@),
        fmul(Q as int, fmul(Q as int, a@, b@), c@) == fmul(Q as int, a@, fmul(Q as int, b@, c@)),
        fmul(Q as int, a@, fadd(Q as int, b@, c@)) == fadd(
            Q as int,
            fmul(Q as int, a@, b@),
            fmul(Q as int, a@, c@),
        ),
{
    let q = Q as int;
    lemma_mul_is_commutative(a@, b@);
    lemma_mul_mod_noop_general(a@ * b@, c@, q);
    lemma_mul_mod_noop_general(a@, b@ * c@, q);
    lemma_mul_is_associative(a@, b@, c@);
    lemma_mul_mod_noop_general(a@, b@ + c@, q);
    lemma_mul_is_distributive_add(a@, b@, c@);
    lemma_add_mod_noop(a@ * b@, a@ * c@, q);
}

/// Zero is neutral for addition, one for multiplication, and `a - a` is zero.
pub proof fn lemma_fq_identities<const Q: u64>(a: Fq<Q>)
    requires
        a.wf(),
    ensures
        fadd(Q as int, a@, 0) == a@,
        fmul(Q as int, a@, 1) == a@,
        fsub(Q as int, a@, a@) == 0,
{
    lemma_small_mod(a@ as nat, Q as nat);
    lemma_small_mod(0, Q as nat);
    assert(a@ - a@ == 0);
}

/// Powers start at one and grow by one factor per step.
pub proof fn lemma_fq_pow_laws<const Q: u64>(a: Fq<Q>, k: nat)
    requires
        a.wf(),
    ensures
        fpow(Q as int, a@, 0) == 1,
        fpow(Q as int, a@, k + 1) == fmul(Q as int, fpow(Q as int, a@, k), a@),
{
    lemma_small_mod(1, Q as nat);
}

/// Modulo a prime every non-zero residue is coprime to the modulus, so it has
/// an inverse.
pub proof fn lemma_prime_coprime<const Q: u64>(a: Fq<Q>)
    requires
        a.wf(),
        is_prime(Q as int),
        a@ != 0,
    ensures
        gcd(a@ as nat, Q as nat) == 1,
{
    lemma_prime_coprime_int(a@, Q as int);
}

/// A residue in `(0, q)` is coprime to a prime `q`.
proof fn lemma_prime_coprime_int(a: int, q: int)
    requires
        is_prime(q),
        0 < a < q,
    ensures
        gcd(a as nat, q as nat) == 1,
{
    let g = gcd(a as nat, q as nat) as int;
    lemma_gcd_divides(a as nat, q as nat);
    assert(g <= a) by (nonlinear_arith)
        requires
            g > 0,
            a > 0,
            a % g == 0,
    {
        vstd::arithmetic::div_mod::lemma_fundamental_div_mod(a, g);
    }
    assert(divides(g, q));
}

/// Bezout coefficients: integers `s`, `t` with `s·a + t·b == gcd(a, b)`.
proof fn lemma_bezout(a: nat, b: nat) -> (st: (int, int))
    ensures
        st.0 * a + st.1 * b == gcd(a, b),
    decreases b,
{
    if b == 0 {
        (1, 0)
    } else {
        let (s, t) = lemma_bezout(b, a % b);
        vstd::arithmetic::div_mod::lemma_fundamental_div_mod(a as int, b as int);
        let k = a as int / b as int;
        assert(t * a + (s - t * k) * b == s * b + t * (a % b) as int) by (nonlinear_arith)
            requires
                a as int == b * k + (a % b) as int,
        ;
        (t, s - t * k)
    }
}

/// Modulo a prime, a product of non-zero residues is not zero.
pub proof fn lemma_prime_no_zero_divisors(q: int, u: int, v: int)
    requires
        is_prime(q),
        u % q != 0,
        v % q != 0,
    ensures
        (u * v) % q != 0,
{
    let w = u % q;
    lemma_prime_coprime_int(w, q);
    let (s, t) = lemma_bezout(w as nat, q as nat);
    if (u * v) % q == 0 {
        lemma_mul_mod_noop_general(u, v, q);
        // (w·v) % q == 0, so w·v == q·m
        let m = (w * v) / q;
        vstd::arithmetic::div_mod::lemma_fundamental_div_mod(w * v, q);
        assert(v == q * (s * m + t * v)) by (nonlinear_arith)
            requires
                s * w + t * q == 1,
                w * v == q * m,
        ;
        lemma_mod_multiples_vanish(s * m + t * v, 0, q);
        lemma_small_mod(0, q as nat);
    }
}

/// The greatest common divisor is positive and divides both arguments.
proof fn lemma_gcd_divides(a: nat, b: nat)
    requires
        a > 0 || b > 0,
    ensures
        gcd(a, b) > 0,
        a % gcd(a, b) == 0,
        b % gcd(a, b) == 0,
    decreases b,
{
    if b == 0 {
        vstd::arithmetic::div_mod::lemma_mod_self_0(a as int);
    } else {
        lemma_gcd_divides(b, a % b);
        let g = gcd(a, b) as int;
        vstd::arithmetic::div_mod::lemma_fundamental_div_mod(a as int, b as int);
        vstd::arithmetic::div_mod::lemma_fundamental_div_mod(b as int, g);
        let m = (b as int / g) * (a as int / b as int);
        assert(a as int == g * m + (a % b) as int) by (nonlinear_arith)
            requires
                a as int == b * (a as int / b as int) + (a % b) as int,
                b as int == g * (b as int / g) + b as int % g,
                b as int % g == 0,
                m == (b as int / g) * (a as int / b as int),
        ;
        lemma_mod_multiples_vanish(m, (a % b) as int, g);
    }
}

/// Magnitude of an integer.
pub open spec fn abs(x: int) -> int {
    if x < 0 {
        -x
    } else {
        x
    }
}

/// One step of the extended Euclidean algorithm keeps the coefficient bounds.
proof fn lemma_euclid_step(q: int, old_r: int, r: int, old_s: int, s: int, k: int, rem: int)
    requires
        0 <= old_r <= q,
        0 < r <= q,
        k == old_r / r,
        rem == old_r % r,
        abs(s) * old_r + abs(old_s) * r == q,
        old_s * s <= 0,
    ensures
        0 <= k * r <= old_r,
        rem == old_r - k * r,
        0 <= rem < r,
        abs(old_s - k * s) * r + abs(s) * rem == q,
        (old_s - k * s) * s <= 0,
        abs(old_s - k * s) <= q,
        abs(k * s) <= q,
{
    vstd::arithmetic::div_mod::lemma_fundamental_div_mod(old_r, r);
    let ns = old_s - k * s;
    let (a_s, a_os, a_ns, a_ks) = (abs(s), abs(old_s), abs(ns), abs(k * s));
    assert(k >= 0 && k * r >= 0) by (nonlinear_arith)
        requires
            old_r == r * k + rem,
            0 <= rem < r,
            old_r >= 0,
    ;
    assert(a_ns == a_os + k * a_s && a_ks == k * a_s && ns * s <= 0) by (nonlinear_arith)
        requires
            old_s * s <= 0,
            k >= 0,
            ns == old_s - k * s,
            a_s == (if s < 0 { -s } else { s }),
            a_os == (if old_s < 0 { -old_s } else { old_s }),
            a_ns == (if ns < 0 { -ns } else { ns }),
            a_ks == (if k * s < 0 { -(k * s) } else { k * s }),
    ;
    assert(a_ns * r + a_s * rem == q) by (nonlinear_arith)
        requires
            a_ns == a_os + k * a_s,
            old_r == r * k + rem,
            a_s * old_r + a_os * r == q,
    ;
    assert(a_ns <= q) by (nonlinear_arith)
        requires
            a_ns * r + a_s * rem == q,
            r >= 1,
            rem >= 0,
            a_s >= 0,
            a_ns >= 0,
    ;
}

/// A Bezout coefficient, shifted into `[0, q]`, is an inverse modulo `q`.
proof fn lemma_bezout_inverse(q: int, a: int, s: int, t: int, res: int)
    requires
        q > 1,
        s * a + t * q == 1,
        res == s || res == s + q,
    ensures
        0 <= res % q < q,
        (a * (res % q)) % q == 1,
{
    lemma_mul_mod_noop_general(a, res, q);
    let m = if res == s {
        -t
    } else {
        a - t
    };
    assert(a * res == q * m + 1) by (nonlinear_arith)
        requires
            s * a + t * q == 1,
            res == s || res == s + q,
            m == (if res == s {
                -t
            } else {
                a - t
            }),
    ;
    lemma_mod_multiples_vanish(m, 1, q);
    lemma_small_mod(1, q as nat);
    assert((a * (res % q)) % q == (a * res) % q);
}

/// Two reduced residues have a product that fits an unsigned word.
pub(crate) proof fn lemma_products_fit(q: int, x: int, y: int)
    requires
        products_fit(q),
        0 <= x < q,
        0 <= y < q,
    ensures
        x * y <= u64::MAX,
{
    assert(x * y <= (q - 1) * (q - 1)) by (nonlinear_arith)
        requires
            0 <= x <= q - 1,
            0 <= y <= q - 1,
    ;
}

/// The square-and-multiply invariant survives one step.
proof fn lemma_pow_step(q: int, res: int, b: int, n: nat)
    requires
        q > 1,
        n > 0,
    ensures
        ((if n % 2 == 1 {
            fmul(q, res, b)
        } else {
            res
        }) * pow(fmul(q, b, b), n / 2)) % q == (res * pow(b, n)) % q,
{
    let m = n / 2;
    let bit: nat = n % 2;
    let nr = if n % 2 == 1 {
        fmul(q, res, b)
    } else {
        res
    };
    lemma_pow_mod_noop(b * b, m, q);
    vstd::arithmetic::power::lemma_square_is_pow2(b);
    lemma_pow_multiplies(b, 2, m);
    lemma_pow_adds(b, 2 * m, bit);
    assert(pow(b, bit) == if bit == 1 {
        b
    } else {
        1
    }) by {
        vstd::arithmetic::power::lemma_pow0(b);
        vstd::arithmetic::power::lemma_pow1(b);
    }
    // pow(b, n) == pow(b * b, m) * b^bit
    assert(pow(b, n) == pow(b * b, m) * pow(b, bit));
    lemma_mul_mod_noop_general(nr, pow(b * b, m), q);
    lemma_mul_mod_noop_general(nr, pow(fmul(q, b, b), m), q);
    if n % 2 == 1 {
        lemma_mul_mod_noop_general(res * b, pow(b * b, m), q);
        assert((res * b) * pow(b * b, m) == res * (pow(b * b, m) * b)) by (nonlinear_arith);
    } else {
        assert(pow(b * b, m) * 1 == pow(b * b, m));
    }
}

/// The recursive power agrees with the integer power reduced modulo `q`.
proof fn lemma_fpow_is_pow(q: int, x: int, e: nat)
    requires
        q > 0,
    ensures
        fpow(q, x, e) == pow(x, e) % q,
    decreases e,
{
    reveal(pow);
    if e > 0 {
        lemma_fpow_is_pow(q, x, (e - 1) as nat);
        lemma_mul_mod_noop_general(pow(x, (e - 1) as nat), x, q);
        assert(pow(x, (e - 1) as nat) * x == x * pow(x, (e - 1) as nat)) by (nonlinear_arith);
    }
}

} // verus!

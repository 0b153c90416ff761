//! Elliptic-curve Diffie–Hellman on a twisted Hessian curve.
use crate::curve::TwistedHessianCurve;
use crate::projective::{
    identity_point, is_origin, nonsingular, on_curve, proj_eq, scalar_mul_defined, scalar_mul_spec, Projective,
    Triple,
};
use crate::field::{modulus_ok, products_fit};
use crate::ring::{reduced, Dual};
use vstd::prelude::*;

verus! {

/// Key exchange on a curve, with a generator whose claimed order was checked
/// to send it to the neutral point.
pub struct DiffieHellman<const Q: u64> {
    curve: TwistedHessianCurve<Q>,
    generator: Projective<Q>,
    order: u64,
}

impl<const Q: u64> View for DiffieHellman<Q> {
    type V = ((Dual, Dual), Triple, nat);

    closed spec fn view(&self) -> ((Dual, Dual), Triple, nat) {
        (self.curve@, self.generator@, self.order as nat)
    }
}

impl<const Q: u64> DiffieHellman<Q> {
    /// The curve parameters `(a, d)`.
    pub open spec fn params(&self) -> (Dual, Dual) {
        self@.0
    }

    /// The generator.
    pub open spec fn generator_point(&self) -> Triple {
        self@.1
    }

    /// The claimed order of the generator.
    pub open spec fn generator_order(&self) -> nat {
        self@.2
    }

    /// Well-formedness: a well-formed curve, a generator on it, and
    /// `order · G` equal to the neutral point.
    pub open spec fn wf(&self) -> bool {
        &&& modulus_ok(Q as int)
        &&& products_fit(Q as int)
        &&& reduced(Q as int, self.params().0)
        &&& reduced(Q as int, self.params().1)
        &&& nonsingular(Q as int, self.params().0, self.params().1)
        &&& reduced(Q as int, self.generator_point().0)
        &&& reduced(Q as int, self.generator_point().1)
        &&& reduced(Q as int, self.generator_point().2)
        &&& on_curve(Q as int, self.generator_point(), self.params().0, self.params().1)
        &&& proj_eq(
            Q as int,
            scalar_mul_spec(Q as int, self.generator_point(), self.generator_order(), self.params().0),
            identity_point(Q as int),
        )
    }

    /// Key exchange with `generator`, whose multiple by `order` must be the
    /// neutral point.
    pub fn new(curve: TwistedHessianCurve<Q>, generator: Projective<Q>, order: u64) -> (r: Self)
        requires
            curve.wf(),
            generator.wf(),
            on_curve(Q as int, generator@, curve@.0, curve@.1),
            scalar_mul_defined(Q as int, generator@, order as nat, curve@.0),
            proj_eq(
                Q as int,
                scalar_mul_spec(Q as int, generator@, order as nat, curve@.0),
                identity_point(Q as int),
            ),
        ensures
            r.wf(),
            r@ == (curve@, generator@, order as nat),
    {
        DiffieHellman { curve, generator, order }
    }

    /// The key pair `(k, k·G)` for `k = private_key mod order`, which must not
    /// be zero.
    pub fn generate_keypair(&self, private_key: u64) -> (r: (u64, Projective<Q>))
        requires
            self.wf(),
            self.generator_order() > 0,
            private_key as nat % self.generator_order() != 0,
            scalar_mul_defined(
                Q as int,
                self.generator_point(),
                private_key as nat % self.generator_order(),
                self.params().0,
            ),
        ensures
            r.0 == private_key as nat % self.generator_order(),
            r.1.wf(),
            r.1@ == scalar_mul_spec(Q as int, self.generator_point(), r.0 as nat, self.params().0),
            !is_origin(r.1@),
    {
        let private_key = private_key % self.order;
        let public_key = self.curve.scalar_mul(&self.generator, private_key);
        (private_key, public_key)
    }

    /// The shared secret `private_key · public_key`; the public key must lie on
    /// the curve.
    pub fn compute_shared_secret(&self, private_key: u64, public_key: &Projective<Q>) -> (r:
        Projective<Q>)
        requires
            self.wf(),
            public_key.wf(),
            on_curve(Q as int, public_key@, self.params().0, self.params().1),
            scalar_mul_defined(Q as int, public_key@, private_key as nat, self.params().0),
        ensures
            r.wf(),
            r@ == scalar_mul_spec(Q as int, public_key@, private_key as nat, self.params().0),
            !is_origin(r@),
    {
        self.curve.scalar_mul(public_key, private_key)
    }
}

/// The public key of a private key: `(k mod order)·G`.
pub open spec fn public_key_of<const Q: u64>(dh: DiffieHellman<Q>, k: u64) -> Triple {
    scalar_mul_spec(Q as int, dh.generator_point(), k as nat % dh.generator_order(), dh.params().0)
}

/// Both parties' secrets: Alice's private key times Bob's public key, and
/// Bob's private key times Alice's.
pub fn simulate_key_exchange<const Q: u64>(
    dh: &DiffieHellman<Q>,
    alice_private: u64,
    bob_private: u64,
) -> (r: (Projective<Q>, Projective<Q>))
    requires
        dh.wf(),
        dh.generator_order() > 0,
        alice_private as nat % dh.generator_order() != 0,
        bob_private as nat % dh.generator_order() != 0,
        scalar_mul_defined(
            Q as int,
            dh.generator_point(),
            alice_private as nat % dh.generator_order(),
            dh.params().0,
        ),
        scalar_mul_defined(
            Q as int,
            dh.generator_point(),
            bob_private as nat % dh.generator_order(),
            dh.params().0,
        ),
        on_curve(Q as int, public_key_of(*dh, alice_private), dh.params().0, dh.params().1),
        on_curve(Q as int, public_key_of(*dh, bob_private), dh.params().0, dh.params().1),
        scalar_mul_defined(
            Q as int,
            public_key_of(*dh, bob_private),
            alice_private as nat,
            dh.params().0,
        ),
        scalar_mul_defined(
            Q as int,
            public_key_of(*dh, alice_private),
            bob_private as nat,
            dh.params().0,
        ),
    ensures
        r.0@ == scalar_mul_spec(
            Q as int,
            public_key_of(*dh, bob_private),
            alice_private as nat,
            dh.params().0,
        ),
        r.1@ == scalar_mul_spec(
            Q as int,
            public_key_of(*dh, alice_private),
            bob_private as nat,
            dh.params().0,
        ),
        r.0.wf(),
        r.1.wf(),
{
    let (_, alice_public) = dh.generate_keypair(alice_private);
    let (_, bob_public) = dh.generate_keypair(bob_private);
    let alice_shared = dh.compute_shared_secret(alice_private, &bob_public);
    let bob_shared = dh.compute_shared_secret(bob_private, &alice_public);
    (alice_shared, bob_shared)
}

} // verus!

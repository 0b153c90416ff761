use hessian_rs::dh::{simulate_key_exchange, DiffieHellman};
use hessian_rs::{Fq, Projective, RingElement, TwistedHessianCurve};

type F5 = Fq<5>;
type R5 = RingElement<5>;
type F11 = Fq<11>;
type R11 = RingElement<11>;

fn r5(a: u64, b: u64) -> R5 {
    R5::new(F5::new(a), F5::new(b))
}

fn r11(a: u64, b: u64) -> R11 {
    R11::new(F11::new(a), F11::new(b))
}

fn curve5() -> TwistedHessianCurve<5> {
    TwistedHessianCurve::new(r5(1, 1), r5(1, 1))
}

fn point5() -> Projective<5> {
    Projective::new(r5(1, 0), r5(2, 0), r5(3, 1))
}

fn same_ring(u: R11, v: R11) -> bool {
    u.constant().value() == v.constant().value()
        && u.epsilon_coeff().value() == v.epsilon_coeff().value()
}

#[test]
fn field_new_reduces_input() {
    assert_eq!(F11::new(25).value(), 3);
    assert_eq!(F11::new(11).value(), 0);
    assert_eq!(F11::modulus(), 11);
}

#[test]
fn field_commutative_associative_distributive() {
    let (a, b, c) = (F11::new(7), F11::new(9), F11::new(4));
    assert_eq!(a.add(b).value(), b.add(a).value());
    assert_eq!(a.add(b).add(c).value(), a.add(b.add(c)).value());
    assert_eq!(a.mul(b).value(), b.mul(a).value());
    assert_eq!(a.mul(b).mul(c).value(), a.mul(b.mul(c)).value());
    assert_eq!(a.mul(b.add(c)).value(), a.mul(b).add(a.mul(c)).value());
    assert_eq!(a.mul(b.add(c)).value(), 3);
}

#[test]
fn field_identities() {
    let a = F11::new(6);
    assert_eq!(a.add(F11::new(0)).value(), 6);
    assert_eq!(a.mul(F11::new(1)).value(), 6);
    assert_eq!(a.sub(a).value(), 0);
}

#[test]
fn field_every_nonzero_element_has_inverse() {
    for v in 1..11u64 {
        let a = F11::new(v);
        assert_eq!(a.mul(a.inv()).value(), 1);
    }
}

#[test]
fn field_inverse_kats() {
    assert_eq!(F11::new(5).inv().value(), 9);
    assert_eq!(F11::new(2).inv().value(), 6);
    assert_eq!(F11::new(3).inv().value(), 4);
    assert_eq!(F11::new(10).checked_inv().map(|x| x.value()), Some(10));
}

#[test]
fn field_pow_steps() {
    let a = F11::new(7);
    assert_eq!(a.pow(0).value(), 1);
    for k in 0..20u64 {
        assert_eq!(a.pow(k + 1).value(), a.pow(k).mul(a).value());
    }
    assert_eq!(a.pow(3).value(), 2);
}

#[test]
fn minus_three_square_even_modulus_and_small_fields() {
    assert!(!Fq::<2>::is_minus_three_square());
    assert!(Fq::<3>::is_minus_three_square() == false);
    assert!(Fq::<7>::is_minus_three_square());
    assert!(Fq::<13>::is_minus_three_square());
    assert!(!Fq::<5>::is_minus_three_square());
    assert!(!Fq::<11>::is_minus_three_square());
    assert!(!Fq::<17>::is_minus_three_square());
}

#[test]
fn zero_has_no_inverse() {
    assert!(Fq::<11>::new(0).checked_inv().is_none());
}

#[test]
fn non_coprime_has_no_inverse() {
    assert!(Fq::<4>::new(2).checked_inv().is_none());
    assert!(Fq::<4>::new(3).checked_inv().is_some());
}

#[test]
fn ring_non_unit_is_not_invertible() {
    let r = RingElement::<53>::new(Fq::new(0), Fq::new(25));
    assert!(!r.is_invertible());
    assert!(RingElement::<53>::new(Fq::new(1), Fq::new(0)).is_invertible());
}

#[test]
fn ring_laws_on_values() {
    let (x, y, z) = (r11(3, 5), r11(8, 2), r11(10, 7));
    assert!(same_ring(x.add(y), y.add(x)));
    assert!(same_ring(x.add(y).add(z), x.add(y.add(z))));
    assert!(same_ring(x.mul(y), y.mul(x)));
    assert!(same_ring(x.mul(y).mul(z), x.mul(y.mul(z))));
    assert!(same_ring(x.mul(y.add(z)), x.mul(y).add(x.mul(z))));
    assert!(same_ring(x.add(r11(0, 0)), x));
    assert!(same_ring(x.mul(r11(1, 0)), x));
    assert!(same_ring(x.sub(x), r11(0, 0)));
}

#[test]
fn ring_epsilon_squared_is_zero() {
    let e = r11(0, 1);
    assert!(same_ring(e.mul(e), r11(0, 0)));
}

#[test]
fn ring_kats() {
    assert!(same_ring(r11(5, 3).mul(r11(2, 7)), r11(10, 8)));
    assert!(same_ring(r11(5, 3).inv(), r11(9, 10)));
}

#[test]
fn ring_unit_times_inverse_is_one() {
    for a in 1..11u64 {
        for b in 0..11u64 {
            let x = r11(a, b);
            assert!(same_ring(x.mul(x.inv()), r11(1, 0)));
        }
    }
}

#[test]
fn ring_pow_steps() {
    let x = r11(4, 9);
    assert!(same_ring(x.pow(0), r11(1, 0)));
    for k in 0..12u64 {
        assert!(same_ring(x.pow(k + 1), x.pow(k).mul(x)));
    }
    // (a + bε)^3 = a^3 + 3a^2·b·ε
    assert!(same_ring(r11(2, 1).pow(3), r11(8, 1)));
}

#[test]
fn identity_is_neutral_on_both_sides() {
    let curve = curve5();
    let o = curve.identity();
    for k in 1..10u64 {
        let p = curve.scalar_mul(&point5(), k);
        assert!(curve.add(&p, &o).is_equal(&p));
        assert!(curve.add(&o, &p).is_equal(&p));
    }
}

#[test]
fn point_plus_negation_is_identity() {
    let curve = curve5();
    let p = point5();
    let o = curve.identity();
    let sum = curve.add(&p, &p.negate());
    assert!(sum.is_equal(&o));
    assert!(!p.is_equal(&o));
    let neg = p.negate();
    assert_eq!(neg.y().constant().value(), 3);
    assert_eq!(neg.y().epsilon_coeff().value(), 1);
    assert_eq!(neg.z().constant().value(), 2);
}

#[test]
fn addition_commutes_on_multiples() {
    let curve = curve5();
    let p = point5();
    for k in 1..8u64 {
        let q = curve.scalar_mul(&p, k);
        assert!(curve.add(&p, &q).is_equal(&curve.add(&q, &p)));
    }
}

#[test]
fn addition_associates_on_multiples() {
    let curve = curve5();
    let p = point5();
    let q = curve.scalar_mul(&p, 2);
    let r = curve.scalar_mul(&p, 7);
    let left = curve.add(&curve.add(&p, &q), &r);
    let right = curve.add(&p, &curve.add(&q, &r));
    assert!(left.is_equal(&right));
    assert!(left.is_equal(&curve.scalar_mul(&p, 10)));
}

#[test]
fn scalar_mul_steps_by_one_addition() {
    let curve = curve5();
    let p = point5();
    for k in 0..50u64 {
        let next = curve.scalar_mul(&p, k + 1);
        let step = curve.add(&curve.scalar_mul(&p, k), &p);
        assert!(next.is_equal(&step));
    }
}

#[test]
fn scalar_mul_by_zero_is_identity() {
    let curve = curve5();
    let zero_p = curve.scalar_mul(&point5(), 0);
    assert!(zero_p.is_identity());
    assert_eq!(zero_p.y().constant().value(), 4);
}

#[test]
fn generator_order_is_exact() {
    let curve = curve5();
    let g = point5();
    let o = curve.identity();
    assert!(curve.scalar_mul(&g, 45).is_equal(&o));
    for k in 1..45u64 {
        assert!(!curve.scalar_mul(&g, k).is_equal(&o));
    }
}

#[test]
fn point_order_of_small_multiples() {
    let curve = curve5();
    let g = point5();
    assert_eq!(curve.point_order(&curve.identity()), 1);
    assert_eq!(curve.point_order(&curve.scalar_mul(&g, 15)), 3);
    assert_eq!(curve.point_order(&curve.scalar_mul(&g, 5)), 9);
}

#[test]
fn doubling_uses_second_formula_when_first_vanishes() {
    let curve = curve5();
    let p = point5();
    let doubled = p.double(curve.a());
    assert!(doubled.is_equal(&curve.add(&p, &p)));
    assert!(doubled.is_equal(&curve.scalar_mul(&p, 2)));
    assert!(!doubled.is_equal(&curve.identity()));
}

#[test]
fn ecdh_shared_secrets_agree() {
    let curve = curve5();
    let dh = DiffieHellman::new(curve, point5(), 45);
    let (alice, bob) = simulate_key_exchange(&dh, 4, 35);
    let expected = Projective::new(r5(1, 0), r5(3, 2), r5(4, 3));
    assert!(alice.is_equal(&bob));
    assert!(alice.is_equal(&expected));
    let (sk, pk) = dh.generate_keypair(49);
    assert_eq!(sk, 4);
    assert!(pk.is_equal(&curve.scalar_mul(&point5(), 4)));
    let shared = dh.compute_shared_secret(35, &pk);
    assert!(shared.is_equal(&expected));
}

#[test]
fn singular_curve_is_rejected() {
    let a = RingElement::<5>::from_field(F5::new(1));
    let d = RingElement::<5>::from_field(F5::new(3));
    assert!(!Projective::verify_curve_constraints(a, d));
    assert!(Projective::verify_curve_constraints(r5(1, 1), r5(1, 1)));
}

#[test]
fn curve_membership() {
    let curve = curve5();
    assert!(curve.contains(&point5()));
    assert!(curve.contains(&curve.identity()));
    assert!(!curve.contains(&Projective::new(r5(1, 0), r5(1, 0), r5(1, 0))));
    assert_eq!(curve.modulus(), 5);
    assert_eq!(point5().modulus(), 5);
    assert_eq!(R5::modulus(), 5);
}

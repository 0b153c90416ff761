#![allow(non_snake_case)]

use hessian_rs::{Fq, RingElement, TwistedHessianCurve};

#[test]
fn new__should_succeed__when__parameters_are_valid() {
    type F5 = Fq<5>;
    let field_1 = F5::new(1);
    let field_2 = F5::new(2);

    let a = RingElement::from_field(field_1);
    let d = RingElement::from_field(field_2);

    let curve = TwistedHessianCurve::new(a, d);
    assert_eq!(curve.a().constant().value(), 1);
    assert_eq!(curve.d().constant().value(), 2);
    assert_eq!(curve.modulus(), 5);
}

#[test]
#[should_panic(expected = "a*(27a-d³) must be invertible for a valid curve")]
fn new__should_fail__when__parameters_are_invalid() {
    // a=1, d=3 -> a(27a-d³) = 1(2-2) = 0 not invertible
    type F5 = Fq<5>;
    let a = RingElement::from_field(F5::new(1));
    let d_invalid = RingElement::from_field(F5::new(3));

    assert!(
        hessian_rs::Projective::verify_curve_constraints(a, d_invalid),
        "a*(27a-d³) must be invertible for a valid curve"
    );
    TwistedHessianCurve::new(a, d_invalid);
}

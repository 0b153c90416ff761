#![allow(non_snake_case)]

use hessian_rs::Fq;



#[test]
fn add__computes_correctly_without_overflow() {
    type F11 = Fq<11>;

    let a = F11::new(5);
    let b = F11::new(3);

    assert_eq!(a.add(b).value(), 8); // 5 + 3 = 8
}

#[test]
fn add__computes_correctly_with_overflow() {
    type F11 = Fq<11>;

    let a = F11::new(7);
    let b = F11::new(8);
    assert_eq!(a.add(b).value(), 4); // 7 + 8 = 15 ≡ 4 (mod 11)
}

#[test]
fn sub__computes_correctly_without_underflow() {
    type F11 = Fq<11>;

    let a = F11::new(5);
    let b = F11::new(3);

    assert_eq!(a.sub(b).value(), 2); // 5 - 3 = 2
}

#[test]
fn sub__computes_correctly_with_underflow() {
    type F11 = Fq<11>;

    let a = F11::new(2);
    let b = F11::new(5);
    assert_eq!(a.sub(b).value(), 8); // 2 - 5 = -3 ≡ 8 (mod 11)
}

#[test]
fn mul__computes_correctly_without_overflow() {
    type F11 = Fq<11>;

    let a = F11::new(5);
    let b = F11::new(3);

    assert_eq!(a.mul(b).value(), 4); // 5 * 3 = 15 ≡ 4 (mod 11)
}

#[test]
fn mul__computes_correctly_with_overflow() {
    type F11 = Fq<11>;

    let a = F11::new(6);
    let b = F11::new(9);
    assert_eq!(a.mul(b).value(), 10); // 6 * 9 = 54 ≡ 10 (mod 11)
}

#[test]
fn field_inv__computes_correctly() {
    type F11 = Fq<11>;

    let a = F11::new(5);
    let a_inv = a.inv();

    assert_eq!(a.mul(a_inv).value(), 1);
}

#[test]
fn inv__F11_kats() {
    type F11 = Fq<11>;

    assert_eq!(F11::new(1).inv().value(), 1);
    assert_eq!(F11::new(2).inv().value(), 6);
    assert_eq!(F11::new(3).inv().value(), 4);
    assert_eq!(F11::new(4).inv().value(), 3);
    assert_eq!(F11::new(5).inv().value(), 9);
    assert_eq!(F11::new(6).inv().value(), 2);
}

#[test]
#[should_panic(expected = "Cannot invert zero")]
fn inv__should_panic_when_inverting_zero() {
    let zero = Fq::<11>::new(0);
    zero.checked_inv().expect("Cannot invert zero");
}

#[test]
#[should_panic(expected = "Inverse doesn't exist (gcd != 1)")]
fn inv__should_panic_when_mod_is_not_prime() {
    let two = Fq::<4>::new(2);
    let inverse = two.checked_inv().expect("Inverse doesn't exist (gcd != 1)");
    assert_eq!(inverse.value(), 2);
}

#[test]
fn pow__computes_correctly_without_overflow() {
    type F11 = Fq<11>;

    let a = F11::new(2);

    // 2^0 = 1
    assert_eq!(a.pow(0).value(), 1);

    // 2^1 = 2
    assert_eq!(a.pow(1).value(), 2);

    // 2^3 = 8
    assert_eq!(a.pow(3).value(), 8);
}

#[test]
fn pow__computes_correctly_with_overflow() {
    type F11 = Fq<11>;

    let a = F11::new(2);

    // 2^10 = 1024 ≡ 1 (mod 11)
    assert_eq!(a.pow(10).value(), 1);
}

#[test]
fn minus_three_square_in_field5() {
    // In F5, -3 ≡ 2 (mod 5)
    // 2^((5-1)/2) = 2^2 = 4 ≡ -1 (mod 5)
    // So 2 is not a quadratic residue in F5
    assert!(!Fq::<5>::is_minus_three_square());
}

#[test]
fn minus_three_square_in_field7() {
    // In F7, -3 ≡ 4 (mod 7)
    // 4 = 2^2, so it's a perfect square in F7
    assert!(Fq::<7>::is_minus_three_square());
}

#[test]
fn minus_three_square_in_various_fields() {
    assert!(!Fq::<11>::is_minus_three_square()); // -3 ≡ 8 (mod 11)
    assert!(Fq::<13>::is_minus_three_square()); // -3 ≡ 10 (mod 13)
    assert!(!Fq::<17>::is_minus_three_square()); // -3 ≡ 14 (mod 17)
    assert!(Fq::<19>::is_minus_three_square()); // -3 ≡ 16 (mod 19)
}

#[test]
fn inv__proptest() {
    // has to be prime
    const MAX_FIELD: u64 = 7919;
    type ProptestField = Fq<MAX_FIELD>;

    for a in 1..MAX_FIELD {
        let a = ProptestField::new(a);
        let a_inv = a.inv();
        assert_eq!(a.mul(a_inv).value(), 1);
    }
}

#![allow(non_snake_case)]

use hessian_rs::{Fq, Projective, RingElement};


#[test]
fn kats_paper_3_1() {
    // using F5[ε] and the curve with a = 1+ε, d = 1+ε as in the paper
    type F5 = Fq<5>;

    // Create field elements
    let field_1 = F5::new(1);
    let field_2 = F5::new(2);
    let field_3 = F5::new(3);
    let field_4 = F5::new(4);

    let a = RingElement::new(field_1, field_1); // 1+ε
    let d = RingElement::new(field_1, field_1); // 1+ε

    let twenty_seven = RingElement::from_field(F5::new(27 % 5)); // 27 mod 5 = 2
    let twenty_seven_a = twenty_seven.mul(a); // 2*(1+ε) = 2+2ε
    let d_squared = d.mul(d); // (1+ε)² = 1+2ε (since ε²=0)
    let d_cubed = d_squared.mul(d); // (1+2ε)*(1+ε) = 1+3ε

    // 27a−d³ = (2+2ε) - (1+3ε) = 1-ε
    let term = twenty_seven_a.sub(d_cubed);

    // a(27a−d³) = (1+ε)*(1-ε) = 1-ε+ε-ε² = 1
    let condition = a.mul(term);

    // 1 is invertible in F5, so this condition is satisfied
    assert!(condition.is_invertible(), "a(27a−d³) must be invertible");

    // create the point P = [1, 2, 3+ε] from the paper
    let x = RingElement::from_field(field_1); // 1
    let y = RingElement::from_field(field_2); // 2
    let z = RingElement::new(field_3, field_1); // 3+ε

    let p = Projective::new(x, y, z);

    // verify P is on the curve
    assert!(p.is_on_curve(a, d), "P should be on the curve");

    // according to the paper, 4P = [1, 4, 3+2ε]
    let four_p = p.scalar_mul(4, a);

    let expected_4p_x = RingElement::from_field(field_1); // 1
    let expected_4p_y = RingElement::from_field(field_4); // 4
    let expected_4p_z = RingElement::new(field_3, field_2); // 3+2ε

    let expected_4p = Projective::new(expected_4p_x, expected_4p_y, expected_4p_z);

    assert!(
        four_p.is_equal(&expected_4p),
        "4P should equal [1, 4, 3+2ε]"
    );

    // according to the paper, 5P = [1, 3+2ε, 4+3ε]
    let five_p = p.scalar_mul(5, a);

    let expected_5p_x = RingElement::from_field(field_1); // 1
    let expected_5p_y = RingElement::new(field_3, field_2); // 3+2ε
    let expected_5p_z = RingElement::new(field_4, field_3); // 4+3ε

    let expected_5p = Projective::new(expected_5p_x, expected_5p_y, expected_5p_z);

    assert!(
        five_p.is_equal(&expected_5p),
        "5P should equal [1, 3+2ε, 4+3ε]"
    );

    // according to the paper, 35P = [1, 3, 2]
    let thirtyfive_p = p.scalar_mul(35, a);

    let expected_35p_x = RingElement::from_field(field_1); // 1
    let expected_35p_y = RingElement::from_field(field_3); // 3
    let expected_35p_z = RingElement::from_field(field_2); // 2

    let expected_35p =
        Projective::new(expected_35p_x, expected_35p_y, expected_35p_z);

    assert!(
        thirtyfive_p.is_equal(&expected_35p),
        "35P should equal [1, 3, 2]"
    );
}

#[test]
fn kats_paper_3_2() {
    // using F11[ε] and the curve with a = 1+2ε, d = 2+ε as in Section 3.2
    type F11 = Fq<11>;

    // Create field elements
    let field_1 = F11::new(1);
    let field_2 = F11::new(2);
    let field_4 = F11::new(4);
    let field_6 = F11::new(6);
    let field_7 = F11::new(7);

    // parameters a = 1+2ε, d = 2+ε
    let a = RingElement::new(field_1, field_2); // 1+2ε
    let d = RingElement::new(field_2, field_1); // 2+ε

    assert!(
        Projective::verify_curve_constraints(a, d),
        "a(27a−d³) must be invertible"
    );

    // point P = [1, 7+6ε, 4+6ε] from the paper
    let x = RingElement::from_field(field_1); // 1
    let y = RingElement::new(field_7, field_6); // 7+6ε
    let z = RingElement::new(field_4, field_6); // 4+6ε

    let p = Projective::new(x, y, z);

    // verify P is on the curve
    assert!(p.is_on_curve(a, d), "P should be on the curve");
}

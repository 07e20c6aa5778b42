use stark17::domain::domain_trace;
use stark17::field::BaseField;
use stark17::poly::{Polynomial, PolyError};

#[test]
fn poly_add_self() {
    let poly_1 = Polynomial::new(vec![1.into(), 2.into(), 3.into()]);
    let poly_2 = poly_1.clone();

    let sum_poly = poly_1.add(&poly_2);

    assert_eq!(
        sum_poly.coefficients(),
        &vec![2.into(), 4.into(), 6.into()]
    )
}

#[test]
fn poly_add_diff_degree() {
    let poly_1 = Polynomial::new(vec![1.into(), 2.into(), 3.into()]);
    let poly_2 = Polynomial::new(vec![
        0.into(),
        0.into(),
        0.into(),
        4.into(),
        5.into(),
        6.into(),
    ]);

    let sum_poly = poly_1.add(&poly_2);

    assert_eq!(
        sum_poly.coefficients(),
        &vec![1.into(), 2.into(), 3.into(), 4.into(), 5.into(), 6.into()]
    )
}

#[test]
fn poly_mul_self() {
    let poly_1 = Polynomial::new(vec![1.into(), 2.into(), 3.into()]);
    let poly_2 = poly_1.clone();

    let mul_poly = poly_1.mul(&poly_2);

    assert_eq!(
        mul_poly.coefficients(),
        &vec![1.into(), 4.into(), 10.into(), 12.into(), 9.into()]
    )
}

#[test]
fn poly_mul() {
    // x - 13
    let poly_1 = Polynomial::new(vec![(-13).into(), 1.into()]);
    // x - 16
    let poly_2 = Polynomial::new(vec![(-16).into(), 1.into()]);

    let expected_mul_poly12 = Polynomial::new(vec![4.into(), 5.into(), 1.into()]);

    assert_eq!(expected_mul_poly12, poly_1.mul(&poly_2));

    // x - 4
    let poly_3 = Polynomial::new(vec![(-4).into(), 1.into()]);

    let expected_mul_poly123 = Polynomial::new(vec![1.into(), 1.into(), 1.into(), 1.into()]);

    assert_eq!(expected_mul_poly123, expected_mul_poly12.mul(&poly_3));

    // Ensure associativity
    assert_eq!(
        poly_1.mul(&poly_2).mul(&poly_3),
        poly_1.mul(&poly_2.mul(&poly_3))
    );
}

/// Same as poly_mul(), except accumulates the product step by step
#[test]
fn poly_mul_assign() {
    let mut result = Polynomial::one();

    // x - 13
    let poly_1 = Polynomial::new(vec![(-13).into(), 1.into()]);
    // x - 16
    let poly_2 = Polynomial::new(vec![(-16).into(), 1.into()]);

    // x - 4
    let poly_3 = Polynomial::new(vec![(-4).into(), 1.into()]);

    result = result.mul(&poly_1);
    result = result.mul(&poly_2);
    result = result.mul(&poly_3);

    let expected_mul_poly123 = Polynomial::new(vec![1.into(), 1.into(), 1.into(), 1.into()]);

    assert_eq!(expected_mul_poly123, result);
}

// Ensures that Poly::one() * any_polynomial = any_polynomial
#[test]
fn poly_mul_by_one() {
    // x - 13
    let poly_1 = Polynomial::new(vec![(-13).into(), 1.into()]);
    let poly_2 = Polynomial::new(vec![1.into(), 2.into(), 3.into()]);

    assert_eq!(poly_1.clone(), Polynomial::one().mul(&poly_1));
    assert_eq!(poly_2.clone(), Polynomial::one().mul(&poly_2));
}

#[test]
fn lagrange_interp() {
    let evaluations: Vec<BaseField> = vec![3.into(), 9.into(), 13.into(), 16.into()];

    let dt = domain_trace();
    let interp_poly = Polynomial::lagrange_interp(&dt.elements, &evaluations).unwrap();

    assert_eq!(interp_poly.eval(dt.elements[0]), evaluations[0]);

    assert_eq!(
        interp_poly,
        Polynomial::new(vec![6.into(), 16.into(), 2.into(), 13.into()])
    );
}

#[test]
fn lagrange_interp_size_mismatch() {
    let evaluations: Vec<BaseField> = vec![3.into(), 9.into()];
    let dt = domain_trace();

    assert_eq!(
        Polynomial::lagrange_interp(&dt.elements, &evaluations),
        Err(PolyError::SizeMismatch)
    );
}

#[test]
fn lagrange_reproduces_all_samples() {
    let evaluations: Vec<BaseField> = vec![5.into(), 0.into(), 11.into(), 2.into()];
    let dt = domain_trace();
    let interp_poly = Polynomial::lagrange_interp(&dt.elements, &evaluations).unwrap();

    assert_eq!(interp_poly.degree(), 3);
    for (x, y) in dt.elements.iter().zip(evaluations.iter()) {
        assert_eq!(interp_poly.eval(*x), *y);
    }
}

#[test]
fn poly_eval_is_additive_and_multiplicative() {
    let p = Polynomial::new(vec![5.into(), 7.into(), 11.into()]);
    let q = Polynomial::new(vec![2.into(), 0.into(), 3.into(), 8.into()]);

    for i in 0..17u8 {
        let x = BaseField::from(i);
        assert_eq!(p.add(&q).eval(x), p.eval(x).add(q.eval(x)));
        assert_eq!(p.mul(&q).eval(x), p.eval(x).mul(q.eval(x)));
    }
}

#[test]
fn fri_step_deg_3() {
    let poly = Polynomial::new(vec![1.into(), 2.into(), 3.into(), 4.into()]);
    let beta = BaseField::from(7u8);

    let expected_poly = Polynomial::new(vec![
        BaseField::from(1).add(BaseField::from(2).mul(beta)),
        BaseField::from(3).add(BaseField::from(4).mul(beta)),
    ]);

    assert_eq!(expected_poly, poly.fri_step(beta));
}

#[test]
fn fri_step_deg_1() {
    let poly = Polynomial::new(vec![2.into(), 3.into()]);
    let beta = BaseField::from(7u8);

    let expected_poly =
        Polynomial::new(vec![BaseField::from(2).add(BaseField::from(3).mul(beta))]);

    assert_eq!(expected_poly, poly.fri_step(beta));
}

#[test]
fn fri_step_matches_two_point_identity() {
    // fold(p, beta) evaluated at x^2 equals
    // (p(x) + p(-x)) / 2 + beta * (p(x) - p(-x)) / (2x)
    let p = Polynomial::new(vec![7.into(), 4.into(), 3.into(), 5.into()]);
    let beta = BaseField::from(11u8);
    let folded = p.fri_step(beta);
    let two = BaseField::from(2u8);

    for i in 1..17u8 {
        let x = BaseField::from(i);
        let px = p.eval(x);
        let pnx = p.eval(x.minus());
        let even_part = px.add(pnx).div(two);
        let odd_part = px.sub(pnx).div(two.mul(x));
        assert_eq!(
            folded.eval(x.mul(x)),
            even_part.add(beta.mul(odd_part))
        );
    }
}

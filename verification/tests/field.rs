use stark17::field::{BaseField, CyclicGroup};

#[test]
fn test_from_i32() {
    let ele = BaseField::from(-1);
    assert_eq!(ele, BaseField::from(16u8));

    let ele = BaseField::from(-100);
    assert_eq!(ele, BaseField::from(2u8));
}

#[test]
fn test_mul() {
    assert_eq!(BaseField::from(1).mul(BaseField::from(1)), BaseField::from(1));
    assert_eq!(
        BaseField::from(100).mul(BaseField::from(100)),
        BaseField::from(4)
    );
    // This overflows the u8 if we're not careful
    assert_eq!(
        BaseField::from(16).mul(BaseField::from(16)),
        BaseField::from(1)
    );
}

#[test]
fn test_div() {
    for i in 1..17u8 {
        for j in 1..17u8 {
            let numerator = BaseField::from(i);
            let divisor = BaseField::from(j);
            assert_eq!(numerator.div(divisor).mul(divisor), numerator);
        }
    }
}

#[test]
fn test_div_by_two() {
    // 1 / 2 == 9, since 2 * 9 == 18 == 1 mod 17
    assert_eq!(
        BaseField::from(1).div(BaseField::from(2)),
        BaseField::from(9)
    );
}

#[test]
fn test_sub() {
    assert_eq!(
        BaseField::from(1).sub(BaseField::from(2)),
        BaseField::from(16)
    );
    assert_eq!(
        BaseField::from(16).sub(BaseField::from(2)),
        BaseField::from(14)
    );
    assert_eq!(
        BaseField::from(16).sub(BaseField::from(16)),
        BaseField::from(0)
    );
}

#[test]
fn test_exp() {
    let field = BaseField::from(4);

    assert_eq!(field.exp(0u8), BaseField::one());
    assert_eq!(field.exp(1u8), field);
    assert_eq!(field.exp(2u8), field.mul(field));

    // By Fermat's Little Theorem
    assert_eq!(field.exp(16u8), BaseField::one());
}

#[test]
fn test_mult_inv() {
    for i in 1..17u8 {
        let fel = BaseField::from(i);

        assert_eq!(BaseField::one(), fel.mul(fel.mult_inv()));
    }
}

#[test]
fn test_additive_inv() {
    for i in 0..17u8 {
        let fel = BaseField::from(i);

        assert_eq!(BaseField::zero(), fel.add(fel.minus()));
    }
}

#[test]
fn test_group_shift() {
    assert_eq!(
        CyclicGroup::new(8).unwrap().elements,
        vec![
            3.into(),
            10.into(),
            5.into(),
            11.into(),
            14.into(),
            7.into(),
            12.into(),
            6.into(),
        ]
    );
}

#[test]
fn test_log() {
    // 3 generates the multiplicative group: log_3 inverts its powers
    for i in 0..16u8 {
        let power = BaseField::from(3).exp(i);
        assert_eq!(BaseField::log(power, BaseField::from(3)), i);
    }
}

#[test]
fn test_unsupported_group_size() {
    assert!(CyclicGroup::new(5).is_err());
    assert!(CyclicGroup::new(0).is_err());
    assert!(CyclicGroup::new(16).is_err());
}

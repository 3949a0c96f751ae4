use rustgrad::scalar::Scalar;

#[test]
fn integer_arithmetic_is_exact() {
    assert_eq!(Scalar::from_int(5), Scalar::from_int(2).add(Scalar::from_int(3)));
    assert_eq!(Scalar::from_int(-6), Scalar::from_int(2).mul(Scalar::from_int(-3)));
    assert_eq!(Scalar::from_int(7), Scalar::from_int(10).sub(Scalar::from_int(3)));
    assert_eq!(Scalar::from_int(8), Scalar::from_int(2).powi(3));
}

#[test]
fn fractions_use_the_raw_scale() {
    // 1.5 * 2 == 3, with 1.5 written as its raw mantissa 3 * 65536 / 2.
    assert_eq!(Scalar::from_int(3), Scalar::from_raw(98304).mul(Scalar::from_int(2)));
    // 2^(-1) == 0.5
    assert_eq!(Scalar::from_raw(32768), Scalar::from_int(2).powi(-1));
}

#[test]
fn products_truncate_toward_zero() {
    // The smallest positive value squared is flushed to zero.
    assert_eq!(Scalar::from_raw(0), Scalar::from_raw(1).mul(Scalar::from_raw(1)));
    // Truncation is toward zero on the negative side as well.
    assert_eq!(Scalar::from_raw(0), Scalar::from_raw(-1).mul(Scalar::from_raw(1)));
}

#[test]
fn overflow_and_zero_reciprocal_are_not_finite() {
    assert_eq!(Scalar::NotFinite, Scalar::from_int(i64::MAX));
    assert_eq!(Scalar::NotFinite, Scalar::from_int(0).powi(-1));
    assert_eq!(
        Scalar::NotFinite,
        Scalar::from_raw(i64::MAX).add(Scalar::from_raw(i64::MAX))
    );
    // The non-finite value absorbs.
    assert_eq!(Scalar::NotFinite, Scalar::NotFinite.mul(Scalar::from_int(0)));
    assert_eq!(Scalar::NotFinite, Scalar::NotFinite.relu());
}

#[test]
fn relu_clamps_negatives() {
    assert_eq!(Scalar::from_int(0), Scalar::from_int(-2).relu());
    assert_eq!(Scalar::from_int(2), Scalar::from_int(2).relu());
    assert_eq!(Scalar::from_raw(1), Scalar::from_raw(1).relu());
}

#[test]
fn tanh_is_odd_and_clamped() {
    assert_eq!(Scalar::from_int(0), Scalar::from_int(0).tanh());
    assert_eq!(Scalar::from_int(1), Scalar::from_int(3).tanh());
    assert_eq!(Scalar::from_int(-1), Scalar::from_int(-3).tanh());
    assert_eq!(Scalar::from_int(1), Scalar::from_int(100).tanh());
    assert_eq!(Scalar::from_int(-1), Scalar::from_int(-100).tanh());
    // tanh(1) in this arithmetic: positive, below one.
    let t = Scalar::from_int(1).tanh();
    assert!(t.is_finite());
    let m = t.raw();
    assert!(0 < m && m < 65536);
}

#[test]
fn exp_at_zero_is_one() {
    assert_eq!(Scalar::from_int(1), Scalar::from_int(0).exp());
    // exp is positive and increasing around zero.
    let lo = Scalar::from_int(-1).exp();
    let hi = Scalar::from_int(1).exp();
    assert!(lo.is_finite() && hi.is_finite());
    assert!(0 < lo.raw() && lo.raw() < 65536);
    assert!(hi.raw() > 65536);
}

#[test]
fn floor_rounds_toward_negative_infinity() {
    assert_eq!(24, Scalar::from_raw(24 * 65536 + 100).floor());
    assert_eq!(-3, Scalar::from_int(-3).floor());
    assert_eq!(-1, Scalar::from_raw(-1).floor());
    assert_eq!(0, Scalar::from_raw(1).floor());
}

#[test]
fn powi_of_zero_exponent_is_one() {
    assert_eq!(Scalar::from_int(1), Scalar::from_int(17).powi(0));
    assert_eq!(Scalar::from_int(1), Scalar::NotFinite.powi(0));
}

use wave_guy::math::{ceil_sqrt_of, div_round_zero, mul_wide, narrow, Vec2, UNIT};

#[test]
fn ceil_sqrt_rounds_up() {
    assert_eq!(ceil_sqrt_of(0), 0);
    assert_eq!(ceil_sqrt_of(1), 1);
    assert_eq!(ceil_sqrt_of(2), 2);
    assert_eq!(ceil_sqrt_of(3), 2);
    assert_eq!(ceil_sqrt_of(4), 2);
    assert_eq!(ceil_sqrt_of(5), 3);
    assert_eq!(ceil_sqrt_of(25), 5);
    assert_eq!(ceil_sqrt_of(1_000_000_000_000), 1_000_000);
    assert_eq!(ceil_sqrt_of(1_000_000_000_001), 1_000_001);
    assert_eq!(ceil_sqrt_of(2_000_000), 1415);
    assert_eq!(ceil_sqrt_of(u128::MAX), 1u128 << 64);
}

#[test]
fn division_rounds_toward_zero() {
    assert_eq!(div_round_zero(7, 2), 3);
    assert_eq!(div_round_zero(-7, 2), -3);
    assert_eq!(div_round_zero(6, 3), 2);
    assert_eq!(div_round_zero(-6, 3), -2);
    assert_eq!(div_round_zero(0, 5), 0);
    assert_eq!(div_round_zero(-1, 5), 0);
}

#[test]
fn wide_product_is_exact() {
    assert_eq!(mul_wide(i32::MIN, i32::MIN), 1i64 << 62);
    assert_eq!(mul_wide(i32::MAX, -2), -4_294_967_294);
    assert_eq!(mul_wide(0, 17), 0);
}

#[test]
fn unit_is_one_thousand() {
    assert_eq!(UNIT, 1000);
}

#[test]
fn narrow_keeps_what_fits() {
    assert_eq!(narrow(1, -2), Some(Vec2::new(1, -2)));
    assert_eq!(
        narrow(i32::MAX as i128, i32::MIN as i128),
        Some(Vec2::new(i32::MAX, i32::MIN))
    );
    assert_eq!(narrow(i32::MAX as i128 + 1, 0), None);
    assert_eq!(narrow(0, i32::MIN as i128 - 1), None);
}

#[test]
fn vector_sums_and_products() {
    let a = Vec2::new(3, -4);
    let b = Vec2::new(10, 20);
    assert_eq!(a.checked_add(b), Some(Vec2::new(13, 16)));
    assert_eq!(a.checked_sub(b), Some(Vec2::new(-7, -24)));
    assert_eq!(a.dot(b), -50);
    assert_eq!(a.norm_sq(), 25);
    assert_eq!(Vec2::new(i32::MAX, 0).checked_add(Vec2::new(1, 0)), None);
    assert_eq!(Vec2::new(0, i32::MIN).checked_sub(Vec2::new(0, 1)), None);
    assert_eq!(
        Vec2::new(i32::MIN, i32::MIN).norm_sq(),
        1i128 << 63
    );
    assert!(Vec2::zero().is_zero());
    assert!(!Vec2::new(0, 1).is_zero());
}

#[test]
fn toward_gives_the_length_asked_for() {
    let origin = Vec2::new(0, 0);
    assert_eq!(origin.toward(Vec2::new(3000, 4000), 1000), Some(Vec2::new(600, 800)));
    assert_eq!(origin.toward(Vec2::new(-7, 0), 1000), Some(Vec2::new(-1000, 0)));
    assert_eq!(origin.toward(Vec2::new(0, 9), 5), Some(Vec2::new(0, 5)));
    assert_eq!(
        Vec2::new(100, 100).toward(Vec2::new(400, 500), 50),
        Some(Vec2::new(30, 40))
    );
    assert_eq!(origin.toward(Vec2::new(3, 4), -10), Some(Vec2::new(-6, -8)));
}

#[test]
fn toward_rounds_each_component_toward_zero() {
    let origin = Vec2::new(0, 0);
    assert_eq!(
        origin.toward(Vec2::new(1000, 1000), 1000),
        Some(Vec2::new(706, 706))
    );
    assert_eq!(
        origin.toward(Vec2::new(-1000, 1000), 1000),
        Some(Vec2::new(-706, 706))
    );
}

#[test]
fn toward_refuses_a_target_in_the_same_place() {
    let p = Vec2::new(5, 5);
    assert_eq!(p.toward(p, 1000), None);
}

#[test]
fn toward_reports_what_does_not_fit() {
    let origin = Vec2::new(0, 0);
    assert_eq!(origin.toward(Vec2::new(-1, 0), i32::MIN), None);
    assert_eq!(
        origin.toward(Vec2::new(1, 0), i32::MIN),
        Some(Vec2::new(i32::MIN, 0))
    );
}

#[test]
fn toward_never_exceeds_the_length() {
    let origin = Vec2::new(0, 0);
    for (x, y) in [(1, 1), (7, 3), (-1234, 999), (2_000_000_000, -2_000_000_000), (1, -5000)] {
        let v = origin.toward(Vec2::new(x, y), 1000).unwrap();
        assert!(v.norm_sq() <= 1_000_000);
    }
}

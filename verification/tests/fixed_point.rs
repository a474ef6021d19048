use particle_sim::fixed::{
    fixed_mul, narrow, ratio, root_up, sat_add, sat_neg, sat_sub, ONE, ONE_SQUARED,
};
use particle_sim::render::to_screen;
use particle_sim::vec2::{scale, Vec2};

#[test]
fn one_is_a_billion() {
    assert_eq!(ONE, 1_000_000_000);
    assert_eq!(ONE_SQUARED, (ONE as u128) * (ONE as u128));
}

#[test]
fn narrow_keeps_what_fits() {
    assert_eq!(narrow(0), 0);
    assert_eq!(narrow(-17), -17);
    assert_eq!(narrow(i64::MAX as i128), i64::MAX);
    assert_eq!(narrow(i64::MIN as i128), i64::MIN);
}

#[test]
fn narrow_pins_what_does_not_fit() {
    assert_eq!(narrow(i64::MAX as i128 + 1), i64::MAX);
    assert_eq!(narrow(i64::MIN as i128 - 1), i64::MIN);
    assert_eq!(narrow(i128::MAX), i64::MAX);
    assert_eq!(narrow(i128::MIN), i64::MIN);
}

#[test]
fn sums_and_differences_saturate() {
    assert_eq!(sat_add(2, 3), 5);
    assert_eq!(sat_add(i64::MAX, 1), i64::MAX);
    assert_eq!(sat_add(i64::MIN, -1), i64::MIN);
    assert_eq!(sat_sub(2, 3), -1);
    assert_eq!(sat_sub(i64::MIN, 1), i64::MIN);
    assert_eq!(sat_sub(i64::MAX, -1), i64::MAX);
}

#[test]
fn negation_of_the_least_scalar_saturates() {
    assert_eq!(sat_neg(5), -5);
    assert_eq!(sat_neg(-5), 5);
    assert_eq!(sat_neg(0), 0);
    assert_eq!(sat_neg(i64::MIN), i64::MAX);
    assert_eq!(sat_neg(i64::MAX), -i64::MAX);
}

#[test]
fn product_of_a_half_and_a_half_is_a_quarter() {
    assert_eq!(fixed_mul(ONE / 2, ONE / 2), ONE / 4);
    assert_eq!(fixed_mul(ONE, ONE), ONE);
    assert_eq!(fixed_mul(3 * ONE, -2 * ONE), -6 * ONE);
    assert_eq!(fixed_mul(0, i64::MAX), 0);
}

#[test]
fn product_rounds_toward_zero() {
    // 3e-9 * 0.5 = 1.5e-9, which is one billionth after rounding.
    assert_eq!(fixed_mul(3, ONE / 2), 1);
    assert_eq!(fixed_mul(-3, ONE / 2), -1);
    assert_eq!(fixed_mul(1, ONE / 2), 0);
    assert_eq!(fixed_mul(-1, ONE / 2), 0);
}

#[test]
fn product_saturates() {
    assert_eq!(fixed_mul(i64::MAX, i64::MAX), i64::MAX);
    assert_eq!(fixed_mul(i64::MIN, i64::MAX), i64::MIN);
    assert_eq!(fixed_mul(i64::MIN, i64::MIN), i64::MAX);
    assert_eq!(fixed_mul(i64::MAX, 2 * ONE), i64::MAX);
}

#[test]
fn ratio_rounds_toward_zero_and_saturates() {
    assert_eq!(ratio(7, 2), 3);
    assert_eq!(ratio(-7, 2), -3);
    assert_eq!(ratio(0, 5), 0);
    assert_eq!(ratio(6, 3), 2);
    assert_eq!(ratio(i128::MAX, 1), i64::MAX);
    assert_eq!(ratio(i128::MIN + 1, 1), i64::MIN);
    assert_eq!(ratio(5, u128::MAX), 0);
}

#[test]
fn square_roots_round_up() {
    assert_eq!(root_up(0), 0);
    assert_eq!(root_up(1), 1);
    assert_eq!(root_up(2), 2);
    assert_eq!(root_up(4), 2);
    assert_eq!(root_up(5), 3);
    assert_eq!(root_up(9), 3);
    assert_eq!(root_up(10), 4);
    assert_eq!(root_up(ONE_SQUARED), ONE as u128);
    assert_eq!(root_up(ONE_SQUARED + 1), ONE as u128 + 1);
    assert_eq!(root_up(ONE_SQUARED - 1), ONE as u128);
}

#[test]
fn square_root_of_the_largest_number() {
    assert_eq!(root_up(u128::MAX), 1u128 << 64);
    assert_eq!(root_up(((1u128 << 64) - 1) * ((1u128 << 64) - 1)), (1u128 << 64) - 1);
}

#[test]
fn vector_sum_and_difference() {
    let a = Vec2::new(3, -4);
    let b = Vec2::new(10, 20);
    assert_eq!(a.add(b), Vec2 { x: 13, y: 16 });
    assert_eq!(a.sub(b), Vec2 { x: -7, y: -24 });
    assert_eq!(Vec2::zero(), Vec2 { x: 0, y: 0 });
    assert_eq!(Vec2::new(i64::MAX, i64::MIN).add(Vec2::new(1, -1)), Vec2::new(i64::MAX, i64::MIN));
    assert_eq!(Vec2::new(i64::MIN, 0).sub(Vec2::new(1, 0)), Vec2::new(i64::MIN, 0));
}

#[test]
fn scale_multiplies_both_components() {
    let v = Vec2::new(2 * ONE, -ONE / 2);
    assert_eq!(scale(3 * ONE, v), Vec2::new(6 * ONE, -3 * ONE / 2));
    assert_eq!(scale(0, v), Vec2::zero());
    assert_eq!(scale(ONE, v), v);
}

#[test]
fn length_of_three_four_is_five() {
    let v = Vec2::new(3 * ONE, 4 * ONE);
    assert_eq!(v.length_squared(), 25 * ONE_SQUARED);
    assert_eq!(v.length(), 5 * ONE as u128);
    assert_eq!(Vec2::zero().length(), 0);
}

#[test]
fn length_rounds_up() {
    // The diagonal of the unit square is 1.41421356237...
    assert_eq!(Vec2::new(ONE, ONE).length(), 1_414_213_563);
    assert_eq!(Vec2::new(1, 1).length(), 2);
}

#[test]
fn length_squared_of_the_farthest_vector() {
    assert_eq!(Vec2::new(i64::MIN, i64::MIN).length_squared(), 1u128 << 127);
}

#[test]
fn normalize_three_four() {
    let v = Vec2::new(3 * ONE, -4 * ONE);
    assert_eq!(v.normalize(), Vec2::new(600_000_000, -800_000_000));
}

#[test]
fn normalize_of_zero_is_zero() {
    assert_eq!(Vec2::zero().normalize(), Vec2::zero());
}

#[test]
fn normalize_rounds_toward_zero() {
    let u = Vec2::new(ONE, ONE).normalize();
    // 1 / 1.414213563 = 0.70710678087...
    assert_eq!(u, Vec2::new(707_106_780, 707_106_780));
    let w = Vec2::new(-ONE, -ONE).normalize();
    assert_eq!(w, Vec2::new(-707_106_780, -707_106_780));
}

#[test]
fn normalize_of_the_farthest_vector() {
    let u = Vec2::new(i64::MIN, i64::MAX).normalize();
    assert!(u.x < 0 && u.y > 0);
    assert!(u.length_squared() <= ONE_SQUARED);
    assert!(u.length_squared() >= ((ONE - 4) as u128) * ((ONE - 4) as u128));
}

#[test]
fn cap_length_leaves_short_vectors() {
    let v = Vec2::new(600_000_000, 800_000_000);
    assert_eq!(v.cap_length(), v);
    let w = Vec2::new(-5, 7);
    assert_eq!(w.cap_length(), w);
    assert_eq!(Vec2::new(ONE, 0).cap_length(), Vec2::new(ONE, 0));
}

#[test]
fn cap_length_cuts_long_vectors() {
    assert_eq!(Vec2::new(30 * ONE, 40 * ONE).cap_length(), Vec2::new(600_000_000, 800_000_000));
    assert_eq!(Vec2::new(0, -2 * ONE).cap_length(), Vec2::new(0, -ONE));
    assert_eq!(Vec2::new(ONE, 1).cap_length(), Vec2::new(999_999_999, 0));
}

#[test]
fn screen_position_formula() {
    let width = 800 * ONE;
    assert_eq!(to_screen(0, width), 400 * ONE);
    assert_eq!(to_screen(-ONE, width), 0);
    assert_eq!(to_screen(ONE, width), width);
    assert_eq!(to_screen(ONE / 2, width), 600 * ONE);
    assert_eq!(to_screen(-ONE / 2, 600 * ONE), 150 * ONE);
}

#[test]
fn screen_position_saturates() {
    assert_eq!(to_screen(i64::MAX, i64::MAX), i64::MAX);
    assert_eq!(to_screen(i64::MAX, i64::MIN), i64::MIN);
    assert_eq!(to_screen(i64::MIN, ONE), (i64::MIN + ONE) / 2);
}

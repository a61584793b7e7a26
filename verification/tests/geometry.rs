//! Angle, trigonometry and fisheye behavior.

use raycaster::fixed::{div_floor, euclid_mod, fx_floor, isqrt, DEG_FULL, FP_ONE};
use raycaster::raycast::{fisheye_correct, fx_distance};
use raycaster::trig::{cos_fx, normalize_angle, sin_fx};

#[test]
fn normalize_wraps_negative_angles_upward() {
    assert_eq!(normalize_angle(-90 * FP_ONE), 270 * FP_ONE);
    assert_eq!(normalize_angle(-1), DEG_FULL - 1);
}

#[test]
fn normalize_wraps_past_full_turn() {
    assert_eq!(normalize_angle(725 * FP_ONE), 5 * FP_ONE);
    assert_eq!(normalize_angle(360 * FP_ONE), 0);
    assert_eq!(normalize_angle(47 * FP_ONE), 47 * FP_ONE);
}

#[test]
fn normalize_stays_in_range_and_is_idempotent() {
    for a in [
        i64::MIN + 1,
        -720 * FP_ONE,
        -1,
        0,
        1,
        359 * FP_ONE,
        360 * FP_ONE,
        1000000 * FP_ONE + 12345,
    ] {
        let n = normalize_angle(a);
        assert!(0 <= n && n < DEG_FULL);
        assert_eq!(normalize_angle(n), n);
    }
}

#[test]
fn trig_is_exact_at_quarter_turns() {
    assert_eq!(cos_fx(0), FP_ONE);
    assert_eq!(sin_fx(0), 0);
    assert_eq!(cos_fx(90 * FP_ONE), 0);
    assert_eq!(sin_fx(90 * FP_ONE), FP_ONE);
    assert_eq!(cos_fx(180 * FP_ONE), -FP_ONE);
    assert_eq!(sin_fx(180 * FP_ONE), 0);
    assert_eq!(cos_fx(270 * FP_ONE), 0);
    assert_eq!(sin_fx(270 * FP_ONE), -FP_ONE);
}

#[test]
fn sine_of_thirty_degrees_is_exactly_half() {
    assert_eq!(sin_fx(30 * FP_ONE), FP_ONE / 2);
    assert_eq!(sin_fx(150 * FP_ONE), FP_ONE / 2);
}

#[test]
fn trig_stays_within_the_unit_interval() {
    let mut a = -400 * FP_ONE;
    while a < 800 * FP_ONE {
        assert!(-FP_ONE <= cos_fx(a) && cos_fx(a) <= FP_ONE);
        assert!(-FP_ONE <= sin_fx(a) && sin_fx(a) <= FP_ONE);
        a += 7 * FP_ONE + 13;
    }
}

#[test]
fn fisheye_keeps_the_view_axis_distance() {
    let raw = 7 * FP_ONE;
    assert_eq!(fisheye_correct(raw, 0), raw);
}

#[test]
fn fisheye_never_lengthens_a_ray() {
    let raw = 7 * FP_ONE;
    for delta in [-30 * FP_ONE, -1234, 0, 9876, 15 * FP_ONE, 30 * FP_ONE] {
        assert!(fisheye_correct(raw, delta) <= raw);
    }
}

#[test]
fn fisheye_of_sixty_degrees_halves_the_distance() {
    // cos(60) is exactly one half in the rational approximation
    let raw = 10 * FP_ONE;
    assert_eq!(fisheye_correct(raw, 60 * FP_ONE), 5 * FP_ONE);
}

#[test]
fn distance_is_exact_on_one_axis() {
    assert_eq!(fx_distance(2 * FP_ONE, 2 * FP_ONE, 2 * FP_ONE, 9 * FP_ONE), 7 * FP_ONE);
    assert_eq!(fx_distance(5 * FP_ONE, 3 * FP_ONE, FP_ONE, 3 * FP_ONE), 4 * FP_ONE);
}

#[test]
fn distance_of_a_pythagorean_triple_is_exact() {
    assert_eq!(
        fx_distance(0, 0, 3 * FP_ONE, 4 * FP_ONE),
        5 * FP_ONE
    );
}

#[test]
fn integer_square_root_brackets_its_argument() {
    for n in [0u64, 1, 2, 3, 4, 15, 16, 17, 65535, 65536, 123456789] {
        let r = isqrt(n);
        assert!(r * r <= n);
        assert!(n < (r + 1) * (r + 1));
    }
}

#[test]
fn floor_division_rounds_toward_negative_infinity() {
    assert_eq!(div_floor(7, 2), 3);
    assert_eq!(div_floor(-7, 2), -4);
    assert_eq!(div_floor(-65536, 65536), -1);
    assert_eq!(div_floor(-65537, 65536), -2);
}

#[test]
fn euclidean_remainder_is_never_negative() {
    assert_eq!(euclid_mod(-7, 3), 2);
    assert_eq!(euclid_mod(7, 3), 1);
    assert_eq!(euclid_mod(-6, 3), 0);
}

#[test]
fn fixed_floor_takes_the_integer_part() {
    assert_eq!(fx_floor(0), 0);
    assert_eq!(fx_floor(FP_ONE - 1), 0);
    assert_eq!(fx_floor(9 * FP_ONE + 12345), 9);
}

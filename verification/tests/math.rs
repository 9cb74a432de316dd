use cube_fountain::fixed::{
    fixed_div, fixed_mul, floor_div, isqrt, narrow, sat_add, sat_sub, ONE,
};
use cube_fountain::table::{table_cos, table_sin};
use cube_fountain::trig::{cos, sin, sin_cos};
use cube_fountain::util::sphere;
use cube_fountain::vec3::Vec3;

fn v(x: i64, y: i64, z: i64) -> Vec3 {
    Vec3 { x, y, z }
}

#[test]
fn sums_stop_at_the_ends() {
    assert_eq!(sat_add(2, 3), 5);
    assert_eq!(sat_add(i64::MAX, 1), i64::MAX);
    assert_eq!(sat_add(i64::MIN, -1), i64::MIN);
    assert_eq!(sat_sub(2, 3), -1);
    assert_eq!(sat_sub(i64::MIN, 1), i64::MIN);
    assert_eq!(sat_sub(i64::MAX, -1), i64::MAX);
    assert_eq!(sat_sub(0, i64::MIN), i64::MAX);
    assert_eq!(narrow(i64::MAX as i128 + 1), i64::MAX);
    assert_eq!(narrow(i64::MIN as i128 - 1), i64::MIN);
    assert_eq!(narrow(-7), -7);
}

#[test]
fn quotients_round_down() {
    assert_eq!(floor_div(7, 2), 3);
    assert_eq!(floor_div(-7, 2), -4);
    assert_eq!(floor_div(-8, 2), -4);
    assert_eq!(floor_div(0, 5), 0);
    assert_eq!(fixed_mul(3, 500_000), 1);
    assert_eq!(fixed_mul(-3, 500_000), -2);
    assert_eq!(fixed_mul(-1, 1), -1);
    assert_eq!(fixed_mul(2 * ONE, 3 * ONE), 6 * ONE);
    assert_eq!(fixed_mul(-2 * ONE, 1_500_000), -3 * ONE);
    assert_eq!(fixed_div(ONE, 3 * ONE), 333_333);
    assert_eq!(fixed_div(-1, 3 * ONE), -1);
    assert_eq!(fixed_div(7 * ONE, -2 * ONE), -3_500_000);
    assert_eq!(fixed_div(-ONE, -3 * ONE), 333_333);
    assert_eq!(fixed_div(ONE, -3 * ONE), -333_334);
    assert_eq!(fixed_div(5, 0), 0);
}

#[test]
fn products_stop_at_the_ends() {
    assert_eq!(fixed_mul(i64::MAX, 2 * ONE), i64::MAX);
    assert_eq!(fixed_mul(i64::MIN, 2 * ONE), i64::MIN);
    assert_eq!(fixed_mul(i64::MIN, i64::MIN), i64::MAX);
    assert_eq!(fixed_mul(i64::MIN, i64::MAX), i64::MIN);
    assert_eq!(fixed_div(i64::MAX, 1), i64::MAX);
    assert_eq!(fixed_div(i64::MIN, 1), i64::MIN);
    assert_eq!(fixed_div(i64::MIN, -1), i64::MAX);
}

#[test]
fn square_roots_round_down() {
    assert_eq!(isqrt(0), 0);
    assert_eq!(isqrt(1), 1);
    assert_eq!(isqrt(3), 1);
    assert_eq!(isqrt(4), 2);
    assert_eq!(isqrt(99), 9);
    assert_eq!(isqrt(1_000_000_000_000), 1_000_000);
    assert_eq!(isqrt(999_999_999_999), 999_999);
    assert_eq!(isqrt(u128::MAX), u64::MAX);
    assert_eq!(isqrt((u64::MAX as u128) * (u64::MAX as u128) - 1), u64::MAX - 1);
}

#[test]
fn sine_and_cosine_at_the_quarters_and_in_between() {
    assert_eq!(sin(0), 0);
    assert_eq!(sin(9_000), ONE);
    assert_eq!(sin(18_000), 0);
    assert_eq!(sin(27_000), -ONE);
    assert_eq!(cos(0), ONE);
    assert_eq!(cos(9_000), 0);
    assert_eq!(cos(18_000), -ONE);
    assert_eq!(cos(27_000), 0);
    assert_eq!(sin(3_000), 500_000);
    assert_eq!(cos(6_000), 500_000);
    assert_eq!(sin(-3_000), -500_001);
    assert_eq!(sin(4_550), 713_250);
    assert_eq!(cos(12_345), -551_209);
    assert_eq!(sin(45_000), ONE);
    assert_eq!(sin(-1), -175);
    assert_eq!(sin(1), 174);
    assert_eq!(sin_cos(50), (8_726, 999_961));
    assert_eq!(sin_cos(12_345), (sin(12_345), cos(12_345)));
}

#[test]
fn sine_and_cosine_repeat_and_mirror() {
    let mut a: i64 = -80_000;
    while a <= 80_000 {
        assert_eq!(sin(a + 36_000), sin(a));
        assert_eq!(cos(a + 36_000), cos(a));
        assert!((sin(-a) + sin(a)).abs() <= 1);
        assert!((cos(-a) - cos(a)).abs() <= 1);
        assert_eq!(cos(a), sin(a + 9_000));
        assert_eq!(table_sin(-a), -table_sin(a));
        assert_eq!(table_cos(-a), table_cos(a));
        assert_eq!(table_cos(a), table_sin(a + 9_000));
        a += 7;
    }
    assert_eq!(sin(i64::MAX), sin(i64::MAX % 36_000));
    assert_eq!(cos(i64::MAX), cos(i64::MAX % 36_000));
    assert_eq!(sin(i64::MIN), sin(i64::MIN % 36_000));
    assert_eq!(cos(i64::MIN), cos(i64::MIN % 36_000));
}

#[test]
fn sine_and_cosine_are_near_the_true_ones() {
    let mut a: i64 = -36_000;
    while a <= 72_000 {
        let radians = (a as f64 / 100.0).to_radians();
        assert!((sin(a) as f64 / ONE as f64 - radians.sin()).abs() < 3e-6, "sine of {a}");
        assert!((cos(a) as f64 / ONE as f64 - radians.cos()).abs() < 3e-6, "cosine of {a}");
        assert!((table_sin(a) as f64 / ONE as f64 - radians.sin()).abs() < 5e-5);
        assert!((table_cos(a) as f64 / ONE as f64 - radians.cos()).abs() < 5e-5);
        a += 1;
    }
}

#[test]
fn vectors_add_subtract_and_scale() {
    assert_eq!(Vec3::new(1, 2, 3), v(1, 2, 3));
    assert_eq!(Vec3::zero(), v(0, 0, 0));
    assert_eq!(Vec3::splat(7), v(7, 7, 7));
    assert_eq!(v(1, 2, 3).plus(v(10, 20, 30)), v(11, 22, 33));
    assert_eq!(v(1, 2, 3).minus(v(10, 20, 30)), v(-9, -18, -27));
    assert_eq!(v(i64::MAX, i64::MIN, 0).plus(v(1, -1, 0)), v(i64::MAX, i64::MIN, 0));
    assert_eq!(v(i64::MIN, i64::MAX, 0).minus(v(1, -1, 0)), v(i64::MIN, i64::MAX, 0));
    assert_eq!(v(ONE, -ONE, 3).scaled(500_000), v(500_000, -500_000, 1));
    assert_eq!(v(ONE, -ONE, -3).scaled(500_000), v(500_000, -500_000, -2));
    assert_eq!(v(ONE, -ONE, 3).divided(2 * ONE), v(500_000, -500_000, 1));
    assert_eq!(v(ONE, -ONE, 3).divided(0), v(0, 0, 0));
}

#[test]
fn cross_products() {
    assert_eq!(v(ONE, 0, 0).cross(v(0, ONE, 0)), v(0, 0, ONE));
    assert_eq!(v(0, ONE, 0).cross(v(ONE, 0, 0)), v(0, 0, -ONE));
    assert_eq!(
        v(2 * ONE, -3 * ONE, ONE / 2).cross(v(ONE, 4 * ONE, -2 * ONE)),
        v(4_000_000, 4_500_000, 11_000_000)
    );
    assert_eq!(v(ONE, 2 * ONE, 3 * ONE).cross(v(ONE, 2 * ONE, 3 * ONE)), v(0, 0, 0));
    assert_eq!(
        v(i64::MAX, i64::MIN, 0).cross(v(i64::MIN, i64::MIN, 0)),
        v(0, 0, i64::MIN)
    );
}

#[test]
fn lengths_and_directions() {
    assert_eq!(v(3 * ONE, 4 * ONE, 0).length(), 5 * ONE);
    assert_eq!(v(1, 1, 1).length(), 1);
    assert_eq!(v(0, 0, 0).length(), 0);
    assert_eq!(v(i64::MIN, i64::MIN, i64::MIN).length(), i64::MAX);
    assert_eq!(v(3 * ONE, 4 * ONE, 0).normalized(), v(600_000, 800_000, 0));
    assert_eq!(v(-1, 2, -2).normalized(), v(-333_334, 666_666, -666_667));
    assert_eq!(v(0, 0, 0).normalized(), v(0, 0, 0));
    assert_eq!(v(0, -5, 0).normalized(), v(0, -ONE, 0));
    assert_eq!(v(i64::MAX, 0, 0).normalized(), v(ONE, 0, 0));
    assert_eq!(v(i64::MIN, 0, 0).normalized(), v(-ONE, 0, 0));
    assert_eq!(v(1, 1, 1).normalized(), v(577_350, 577_350, 577_350));
    assert_eq!(v(1_743, 0, -1_743).normalized(), v(707_106, 0, -707_107));
    assert_eq!(v(3, -4, 0).magnified(), v(3 << 31, -4 << 31, 0));
    assert_eq!(v(1 << 31, -4, 0).magnified(), v(1 << 31, -4, 0));
    assert_eq!(v((1 << 31) - 1, 1 - (1 << 31), 0).magnified().x, ((1i64 << 31) - 1) << 31);
}

#[test]
fn directions_from_two_angles() {
    assert_eq!(sphere(0, 0), v(ONE, 0, 0));
    assert_eq!(sphere(0, 9_000), v(0, 0, ONE));
    assert_eq!(sphere(9_000, 0), v(0, ONE, 0));
    assert_eq!(sphere(-9_000, 12_345), v(0, -ONE, 0));
    assert_eq!(sphere(3_000, 4_500), v(612_372, 500_000, 612_372));
    assert_eq!(sphere(3_000, -12_000), v(-433_014, 499_999, -750_001));
    assert_eq!(sphere(4_550, 0), v(700_909, 713_250, 0));
}

#[test]
fn sine_and_cosine_lie_on_the_circle() {
    let unit = ONE as i128 * ONE as i128;
    let mut a: i64 = -36_000;
    while a <= 72_000 {
        let (s, c) = (sin(a) as i128, cos(a) as i128);
        let gap = s * s + c * c - unit;
        assert!(-6_000_003 <= gap && gap <= 6_000_931, "at {a}");
        let (s, c) = (table_sin(a) as i128, table_cos(a) as i128);
        let gap = s * s + c * c - unit;
        assert!(-81_000_000 <= gap && gap <= 1_130_000, "at {a}");
        a += 1;
    }
    assert_eq!(sin(50).pow(2) + cos(50).pow(2) - ONE * ONE, -1_855_403);
    assert_eq!(table_sin(50).pow(2) + table_cos(50).pow(2) - ONE * ONE, -75_851_148);
    assert_eq!(table_sin(4_550), 713_223);
    assert_eq!(table_cos(12_345), -551_188);
}

#[test]
fn a_normalized_vector_is_of_length_one_however_short_or_long() {
    let unit = ONE as i128 * ONE as i128;
    let cases = [
        v(1, 0, 0),
        v(1, 1, 1),
        v(-3, 7, 2),
        v(1_743, 0, -1_743),
        v(123_456, -654_321, 999),
        v((1 << 31) - 1, 5, -9),
        v(1 << 31, 1 << 30, -(1 << 31)),
        v(i64::MAX, i64::MIN, i64::MAX),
        v(i64::MIN, 1, -1),
    ];
    for case in cases {
        let n = case.normalized();
        let length = n.x as i128 * n.x as i128 + n.y as i128 * n.y as i128 + n.z as i128 * n.z as i128;
        assert!((length - unit).abs() <= 6_000_931, "{case:?} {n:?}");
    }
}

use gridcaster::fixed::abs_i64;
use gridcaster::fixed::clamp_i64;
use gridcaster::fixed::div_toward_zero;
use gridcaster::fixed::floor_div;
use gridcaster::fixed::floor_rem;
use gridcaster::fixed::isqrt;

#[test]
fn floor_div_rounds_down() {
    assert_eq!(floor_div(0, 64), 0);
    assert_eq!(floor_div(63, 64), 0);
    assert_eq!(floor_div(64, 64), 1);
    assert_eq!(floor_div(-1, 64), -1);
    assert_eq!(floor_div(-64, 64), -1);
    assert_eq!(floor_div(-65, 64), -2);
    assert_eq!(floor_div(i64::MIN, 1), i64::MIN);
    assert_eq!(floor_div(i64::MIN, i64::MAX), -2);
    assert_eq!(floor_div(i64::MAX, i64::MAX), 1);
}

#[test]
fn floor_rem_is_never_negative() {
    assert_eq!(floor_rem(0, 64), 0);
    assert_eq!(floor_rem(65, 64), 1);
    assert_eq!(floor_rem(-1, 64), 63);
    assert_eq!(floor_rem(-64, 64), 0);
    assert_eq!(floor_rem(-65, 64), 63);
    assert_eq!(floor_rem(i64::MIN, 10), 2);
}

#[test]
fn floor_div_and_rem_rebuild_the_number() {
    for a in -200i64..200 {
        for b in 1i64..9 {
            assert_eq!(floor_div(a, b) * b + floor_rem(a, b), a);
        }
    }
}

#[test]
fn div_toward_zero_truncates() {
    assert_eq!(div_toward_zero(7, 2), 3);
    assert_eq!(div_toward_zero(-7, 2), -3);
    assert_eq!(div_toward_zero(-1, 2), 0);
    assert_eq!(div_toward_zero(0, 5), 0);
    assert_eq!(div_toward_zero(-10, 5), -2);
}

#[test]
fn isqrt_rounds_down() {
    assert_eq!(isqrt(0), 0);
    assert_eq!(isqrt(1), 1);
    assert_eq!(isqrt(3), 1);
    assert_eq!(isqrt(4), 2);
    assert_eq!(isqrt(999_999), 999);
    assert_eq!(isqrt(1_000_000), 1000);
    assert_eq!(isqrt(25_000_000_000_000_000_000_000), 158_113_883_008);
    assert_eq!(isqrt(u128::MAX), u64::MAX);
}

#[test]
fn isqrt_brackets_its_argument() {
    for n in 0u128..2000 {
        let r = isqrt(n) as u128;
        assert!(r * r <= n && n < (r + 1) * (r + 1));
    }
}

#[test]
fn clamp_and_abs() {
    assert_eq!(clamp_i64(5, 0, 10), 5);
    assert_eq!(clamp_i64(-5, 0, 10), 0);
    assert_eq!(clamp_i64(15, 0, 10), 10);
    assert_eq!(clamp_i64(3, 3, 3), 3);
    assert_eq!(abs_i64(-7), 7);
    assert_eq!(abs_i64(7), 7);
    assert_eq!(abs_i64(0), 0);
}

#[test]
fn wide_floor_div_rounds_down() {
    assert_eq!(gridcaster::fixed::floor_div_wide(-1, 2), -1);
    assert_eq!(gridcaster::fixed::floor_div_wide(-4, 2), -2);
    assert_eq!(gridcaster::fixed::floor_div_wide(7, 2), 3);
    assert_eq!(gridcaster::fixed::floor_div_wide(i128::MIN, 1), i128::MIN);
    assert_eq!(gridcaster::fixed::floor_div_wide(i128::MIN, i128::MAX), -2);
}

use mandelbrust::fixed::FX_ONE;
use mandelbrust::kernel::{calc_pixel, escape_time, is_in_cardioid_or_bulb};

fn fx(v: f64) -> i64 {
    (v * FX_ONE as f64) as i64
}

#[test]
fn origin_never_escapes() {
    assert_eq!(escape_time(0, 0, 1), 0);
    assert_eq!(escape_time(0, 0, 1000), 0);
    assert_eq!(calc_pixel(0, 0, 7), 0);
    assert!(is_in_cardioid_or_bulb(0, 0));
}

#[test]
fn immediate_escape_at_two_two() {
    assert!(!is_in_cardioid_or_bulb(2 * FX_ONE, 2 * FX_ONE));
    assert_eq!(escape_time(2 * FX_ONE, 2 * FX_ONE, 1), 1);
    assert_eq!(escape_time(2 * FX_ONE, 2 * FX_ONE, 50), 1);
    assert_eq!(calc_pixel(2 * FX_ONE, 2 * FX_ONE, 50), 1);
}

#[test]
fn cardioid_and_bulb_points_return_sentinel() {
    let inside = [(0.0, 0.0), (-0.1, 0.1), (0.2, 0.0), (-1.0, 0.0), (-1.05, 0.1)];
    for &(x, y) in inside.iter() {
        assert!(is_in_cardioid_or_bulb(fx(x), fx(y)));
        assert_eq!(calc_pixel(fx(x), fx(y), 100), 0);
    }
    let outside = [(2.0, 2.0), (0.5, 0.5), (-0.75, 0.3)];
    for &(x, y) in outside.iter() {
        assert!(!is_in_cardioid_or_bulb(fx(x), fx(y)));
    }
}

#[test]
fn budget_monotonicity_on_samples() {
    // below the first escape the sentinel comes back; past it the value is fixed
    assert_eq!(escape_time(fx(0.5), fx(0.5), 4), 0);
    assert_eq!(escape_time(fx(0.5), fx(0.5), 5), 5);
    assert_eq!(escape_time(fx(0.5), fx(0.5), 2000), 5);
    assert_eq!(escape_time(fx(-0.75), fx(0.3), 100), 11);
    assert_eq!(escape_time(fx(-0.75), fx(0.3), 1000), 11);
    // a bounded point stays the sentinel under every budget
    assert_eq!(escape_time(fx(0.3), fx(0.5), 10), 0);
    assert_eq!(escape_time(fx(0.3), fx(0.5), 1000), 0);
}

#[test]
fn zero_budget_yields_sentinel() {
    assert_eq!(escape_time(2 * FX_ONE, 2 * FX_ONE, 0), 0);
    assert_eq!(escape_time(0, 0, 0), 0);
}

#[test]
fn known_escape_values() {
    assert_eq!(calc_pixel(fx(0.5), fx(0.5), 100), 5);
    assert_eq!(calc_pixel(fx(-0.75), fx(0.3), 100), 11);
    // on the real axis inside the set, bounded without exhausting the budget
    assert_eq!(calc_pixel(fx(-1.5), 0, 1_000_000), 0);
}

use wasm_paths::fixed::{from_int, push_fixed, push_nat, sat_add, sat_sub, scale, Fixed, ONE};

fn text(v: Fixed) -> String {
    let mut s = String::new();
    push_fixed(&mut s, v);
    s
}

#[test]
fn whole_numbers_print_without_a_point() {
    assert_eq!(text(0), "0");
    assert_eq!(text(12 * ONE), "12");
    assert_eq!(text(-12 * ONE), "-12");
    assert_eq!(text(1_000_000 * ONE), "1000000");
}

#[test]
fn fractions_print_without_trailing_zeros() {
    assert_eq!(text(5000), "0.5");
    assert_eq!(text(-5000), "-0.5");
    assert_eq!(text(1), "0.0001");
    assert_eq!(text(-1), "-0.0001");
    assert_eq!(text(10), "0.001");
    assert_eq!(text(1230), "0.123");
    assert_eq!(text(120001), "12.0001");
    assert_eq!(text(129999), "12.9999");
    assert_eq!(text(96000), "9.6");
    assert_eq!(text(1234567), "123.4567");
}

#[test]
fn the_ends_of_the_range_print_in_full() {
    assert_eq!(text(i64::MAX), "922337203685477.5807");
    assert_eq!(text(i64::MIN), "-922337203685477.5808");
}

#[test]
fn numerals_append_to_what_is_there() {
    let mut s = String::from("M");
    push_fixed(&mut s, 15000);
    s.push(' ');
    push_nat(&mut s, 0);
    push_nat(&mut s, 907);
    assert_eq!(s, "M1.5 0907");
}

#[test]
fn numerals_are_those_of_the_float_of_the_same_value() {
    let mut v: Fixed = -2_500_000;
    while v <= 2_500_000 {
        assert_eq!(text(v), format!("{}", v as f64 / 10000.0));
        v += 7;
    }
    for v in [123_456_789_012i64, -987_654_321_098, 600 * ONE, 1, -1] {
        assert_eq!(text(v), format!("{}", v as f64 / 10000.0));
    }
}

#[test]
fn saturating_sum_stops_at_the_ends() {
    assert_eq!(sat_add(i64::MAX, 1), i64::MAX);
    assert_eq!(sat_add(i64::MIN, -1), i64::MIN);
    assert_eq!(sat_add(i64::MAX, i64::MIN), -1);
    assert_eq!(sat_add(3, 4), 7);
    assert_eq!(sat_add(-3, 4), 1);
}

#[test]
fn saturating_difference_stops_at_the_ends() {
    assert_eq!(sat_sub(i64::MIN, 1), i64::MIN);
    assert_eq!(sat_sub(i64::MAX, -1), i64::MAX);
    assert_eq!(sat_sub(0, i64::MIN), i64::MAX);
    assert_eq!(sat_sub(3, 4), -1);
    assert_eq!(sat_sub(-3, -4), 1);
}

#[test]
fn whole_units_become_fixed_point() {
    assert_eq!(from_int(12), 120000);
    assert_eq!(from_int(-1), -10000);
    assert_eq!(from_int(i32::MAX), 21_474_836_470_000);
    assert_eq!(from_int(i32::MIN), -21_474_836_480_000);
}

#[test]
fn scale_rounds_to_nearest_and_halves_away_from_zero() {
    assert_eq!(scale(3, 1, 2), 2);
    assert_eq!(scale(-3, 1, 2), -2);
    assert_eq!(scale(1, 1, 3), 0);
    assert_eq!(scale(2, 1, 3), 1);
    assert_eq!(scale(-2, 1, 3), -1);
    assert_eq!(scale(700 * ONE, 16, 1000), 112000);
    assert_eq!(scale(-700 * ONE, 16, 1000), -112000);
    assert_eq!(scale(1434 * ONE, 16, 2048), 112031);
    assert_eq!(scale(0, 16, 1000), 0);
    assert_eq!(scale(5, 0, 7), 0);
}

#[test]
fn scale_saturates() {
    assert_eq!(scale(i64::MAX, 2, 1), i64::MAX);
    assert_eq!(scale(i64::MIN, 2, 1), i64::MIN);
    assert_eq!(scale(i64::MAX, u64::MAX, 1), i64::MAX);
    assert_eq!(scale(i64::MIN, u64::MAX, 1), i64::MIN);
    assert_eq!(scale(i64::MIN, 1, 1), i64::MIN);
    assert_eq!(scale(i64::MAX, 1, 1), i64::MAX);
    assert_eq!(scale(i64::MIN, 1, 2), -4611686018427387904);
}

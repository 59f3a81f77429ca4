use ndir_sensor::report::{decimal_scale, fixed_decimal, split_time, FixedDecimal, TimeStamp};

#[test]
fn time_with_padded_millis() {
    assert_eq!(split_time(12005), TimeStamp { secs: 12, millis: 5, millis_zeros: 2 });
    assert_eq!(split_time(1125), TimeStamp { secs: 1, millis: 125, millis_zeros: 0 });
    assert_eq!(split_time(1050), TimeStamp { secs: 1, millis: 50, millis_zeros: 1 });
}

#[test]
fn time_zero_and_max() {
    assert_eq!(split_time(0), TimeStamp { secs: 0, millis: 0, millis_zeros: 2 });
    assert_eq!(split_time(u32::MAX), TimeStamp { secs: 4294967, millis: 295, millis_zeros: 0 });
}

#[test]
fn scales() {
    assert_eq!(decimal_scale(0), 1);
    assert_eq!(decimal_scale(1), 10);
    assert_eq!(decimal_scale(4), 10000);
    assert_eq!(decimal_scale(9), 1_000_000_000);
}

#[test]
fn fixed_decimal_pads_fraction() {
    assert_eq!(fixed_decimal(1, 5, 4), FixedDecimal { int_part: 1, frac_part: 5, frac_zeros: 3 });
    assert_eq!(fixed_decimal(3, 1234, 4), FixedDecimal { int_part: 3, frac_part: 1234, frac_zeros: 0 });
    assert_eq!(fixed_decimal(0, 7, 2), FixedDecimal { int_part: 0, frac_part: 7, frac_zeros: 1 });
}

#[test]
fn fixed_decimal_zero_fraction_has_exact_width() {
    assert_eq!(fixed_decimal(1, 0, 1), FixedDecimal { int_part: 1, frac_part: 0, frac_zeros: 0 });
    assert_eq!(fixed_decimal(1, 0, 4), FixedDecimal { int_part: 1, frac_part: 0, frac_zeros: 3 });
}

#[test]
fn fixed_decimal_rounding_carries() {
    assert_eq!(fixed_decimal(3, 10000, 4), FixedDecimal { int_part: 4, frac_part: 0, frac_zeros: 3 });
    assert_eq!(fixed_decimal(9, 10, 1), FixedDecimal { int_part: 10, frac_part: 0, frac_zeros: 0 });
}

#[test]
fn fixed_decimal_without_decimals() {
    assert_eq!(fixed_decimal(7, 0, 0), FixedDecimal { int_part: 7, frac_part: 0, frac_zeros: 0 });
    assert_eq!(fixed_decimal(7, 1, 0), FixedDecimal { int_part: 8, frac_part: 0, frac_zeros: 0 });
}

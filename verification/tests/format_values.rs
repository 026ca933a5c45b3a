//! Rendering fixed-point scalars as display strings.

use screen_diagnostics::formatting::ValueFormat;

#[test]
fn default_two_decimals() {
    let f = ValueFormat::default();
    assert_eq!(f.render(6000), "60.00");
    assert_eq!(f.render(700), "7.00");
    assert_eq!(f.render(0), "0.00");
    assert_eq!(f.render(5), "0.05");
    assert_eq!(f.render(42), "0.42");
}

#[test]
fn zero_decimals_rounds_half_away() {
    let f = ValueFormat::new(0, 0, false);
    assert_eq!(f.render(149), "1");
    assert_eq!(f.render(150), "2");
    assert_eq!(f.render(6000), "60");
}

#[test]
fn one_decimal() {
    let f = ValueFormat::new(1, 0, false);
    assert_eq!(f.render(149), "1.5");
    assert_eq!(f.render(100), "1.0");
}

#[test]
fn padded_percent() {
    // The shape the system-information formatters use: at least four
    // characters, one decimal, a percent sign.
    let f = ValueFormat::new(1, 4, true);
    assert_eq!(f.render(150), "01.5%");
    assert_eq!(f.render(1250), "12.5%");
    assert_eq!(f.render(980), "09.8%");
}

#[test]
fn negative_values() {
    let f = ValueFormat::default();
    assert_eq!(f.render(-150), "-1.50");
    let g = ValueFormat::new(0, 0, false);
    assert_eq!(g.render(-150), "-2");
    assert_eq!(g.render(-149), "-1");
}

#[test]
fn padding_fills_before_the_sign() {
    let f = ValueFormat::new(1, 6, false);
    assert_eq!(f.render(-150), "00-1.5");
}

#[test]
fn decimals_are_capped_at_the_scalar_scale() {
    let f = ValueFormat::new(9, 0, false);
    assert_eq!(f.render(123), "1.23");
}

#[test]
fn large_values() {
    let f = ValueFormat::new(0, 0, false);
    assert_eq!(f.render(123_456_789_00), "123456789");
}

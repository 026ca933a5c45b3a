//! Aggregation policies over sample histories.
//!
//! Scalars are fixed-point: an `i64` counts hundredths of a unit, so the
//! unit history `[1, 2, 3, 4]` is written `[100, 200, 300, 400]`.

use screen_diagnostics::aggregate::{aggregate, Aggregate};

#[test]
fn moving_average_window_three() {
    // MovingAverage(3) over [1, 2, 3, 4] yields (2 + 3 + 4) / 3 = 3.0.
    let history = vec![100i64, 200, 300, 400];
    assert_eq!(aggregate(Aggregate::MovingAverage(3), &history), Some(300));
}

#[test]
fn moving_average_insufficient_history() {
    // MovingAverage(3) over [1, 2] yields nothing.
    let history = vec![100i64, 200];
    assert_eq!(aggregate(Aggregate::MovingAverage(3), &history), None);
}

#[test]
fn moving_average_zero_window() {
    let history = vec![100i64, 200];
    assert_eq!(aggregate(Aggregate::MovingAverage(0), &history), None);
}

#[test]
fn moving_average_exact_window() {
    let history = vec![100i64, 200];
    assert_eq!(aggregate(Aggregate::MovingAverage(2), &history), Some(150));
}

#[test]
fn running_average() {
    // RunningAverage over [2, 4, 6] yields 4.0.
    let history = vec![200i64, 400, 600];
    assert_eq!(aggregate(Aggregate::Average, &history), Some(400));
}

#[test]
fn running_average_empty() {
    assert_eq!(aggregate(Aggregate::Average, &Vec::new()), None);
}

#[test]
fn instant_empty() {
    // Instant over [] yields nothing.
    assert_eq!(aggregate(Aggregate::Value, &Vec::new()), None);
}

#[test]
fn instant_takes_latest() {
    let history = vec![100i64, 9900];
    assert_eq!(aggregate(Aggregate::Value, &history), Some(9900));
}

#[test]
fn averages_of_negative_samples() {
    let history = vec![-300i64, -100];
    assert_eq!(aggregate(Aggregate::Average, &history), Some(-200));
    // Truncation toward zero: (-1 - 2) / 2 = -1.5 truncates to -1.5
    // hundredths-exact; with an odd sum it truncates toward zero.
    let odd = vec![-100i64, -201];
    assert_eq!(aggregate(Aggregate::Average, &odd), Some(-150));
    let trunc = vec![-1i64, -2];
    assert_eq!(aggregate(Aggregate::Value, &trunc), Some(-2));
}

use kiss_srt::{Duration, Timestamp};

/// Scales the way the command-line tool does: the float product is truncated
/// to whole milliseconds, with negative products and NaN taken as zero, and
/// `from_millis` saturates the rest.
fn scale_f64(ts: Timestamp, factor: f64) -> Timestamp {
    let millis = ts.total_millis() as f64 * factor;
    Timestamp::from_millis(if millis >= 0.0 { millis as u32 } else { 0 })
}

fn scale_f32(ts: Timestamp, factor: f32) -> Timestamp {
    let millis = ts.total_millis() as f32 * factor;
    Timestamp::from_millis(if millis >= 0.0 { millis as u32 } else { 0 })
}

#[test]
fn max_timestamp_is_max() {
    assert_eq!(Timestamp::max_value().to_string(), "99:59:59,999");
    // Saturates to max
    assert_eq!(
        Timestamp::max_value() + Timestamp::from_millis(1),
        Timestamp::max_value()
    );
    assert_eq!(
        Timestamp::from_millis(Timestamp::max_value().total_millis() + 1),
        Timestamp::max_value()
    );
}

#[test]
fn min_timestamp_is_min() {
    let min = Timestamp::default();
    assert_eq!(min.to_string(), "00:00:00,000");
    // Saturates to min
    assert_eq!(min - Timestamp::from_millis(1), min);
}

#[test]
fn float_shenanigans() {
    // Floats out of bounds will saturate
    assert_eq!(scale_f64(Timestamp::max_value(), 1.1), Timestamp::max_value());
    assert_eq!(scale_f64(Timestamp::from_millis(1), -1.0), Timestamp::default());
    assert_eq!(
        scale_f32(Timestamp::from_millis(1), f32::INFINITY),
        Timestamp::max_value()
    );
    assert_eq!(
        scale_f32(Timestamp::from_millis(1), f32::NEG_INFINITY),
        Timestamp::default()
    );

    // Floats in bounds are fine
    assert_eq!(
        scale_f64(Timestamp::from_millis(1), 100.0),
        Timestamp::from_millis(100)
    );
    assert_eq!(
        scale_f64(Timestamp::from_millis(10), 0.1),
        Timestamp::from_millis(1)
    );
}

#[test]
fn checked_from_millis() {
    assert!(Timestamp::checked_from_millis(Timestamp::max_value().total_millis() + 1).is_none());
}

#[test]
fn checked_from_millis_in_range() {
    assert_eq!(
        Timestamp::checked_from_millis(1_234),
        Some(Timestamp::from_millis(1_234))
    );
    assert_eq!(
        Timestamp::checked_from_millis(359_999_999),
        Some(Timestamp::max_value())
    );
}

#[test]
fn from_millis_keeps_values_in_range() {
    assert_eq!(Timestamp::from_millis(1_234).total_millis(), 1_234);
    assert_eq!(Timestamp::from_millis(u32::MAX), Timestamp::max_value());
}

#[test]
fn components_and_totals() {
    let ts = Timestamp::new(12, 34, 56, 789).expect("timestamp is within range");
    assert_eq!(ts.to_string(), "12:34:56,789");
    assert_eq!(ts.hours(), 12);
    assert_eq!(ts.minutes(), 34);
    assert_eq!(ts.seconds(), 56);
    assert_eq!(ts.millis(), 789);
    assert_eq!(ts.total_hours(), 12);
    assert_eq!(ts.total_minutes(), 12 * 60 + 34);
    assert_eq!(ts.total_seconds(), (12 * 60 + 34) * 60 + 56);
    assert_eq!(ts.total_millis(), ((12 * 60 + 34) * 60 + 56) * 1_000 + 789);
}

#[test]
fn boundary_validity() {
    let max = Timestamp::new(99, 59, 59, 999).expect("largest timestamp is valid");
    assert_eq!(max.to_string(), "99:59:59,999");
    assert_eq!(max, Timestamp::max_value());
    assert!(Timestamp::new(0, 60, 0, 0).is_none());
    assert!(Timestamp::new(100, 0, 0, 0).is_none());
    assert!(Timestamp::new(0, 0, 60, 0).is_none());
    assert!(Timestamp::new(0, 0, 0, 1_000).is_none());
    assert_eq!(Timestamp::new(0, 0, 0, 0), Some(Timestamp::default()));
}

#[test]
fn saturation_laws() {
    let max = Timestamp::max_value();
    assert_eq!(max + Duration::from_millis(1), max);
    assert_eq!(
        Timestamp::default() - Duration::from_millis(1),
        Timestamp::default()
    );
}

#[test]
fn arithmetic_in_range() {
    let half_sec = Timestamp::from_millis(500);
    assert_eq!(
        half_sec + Duration::from_millis(1_000),
        Timestamp::from_millis(1_500)
    );
    let mut ts = Timestamp::from_millis(1_000);
    ts -= Duration::from_millis(500);
    assert_eq!(ts, half_sec);
    ts -= Duration::from_millis(1_000);
    assert_eq!(ts, Timestamp::default());
    ts += Duration::from_millis(250);
    assert_eq!(ts, Timestamp::from_millis(250));
    let mut big = Timestamp::from_millis(359_999_000);
    big += Duration::from_millis(5_000);
    assert_eq!(big, Timestamp::max_value());
}

#[test]
fn formats_zero_padded() {
    assert_eq!(Timestamp::from_millis(3_723_004).to_string(), "01:02:03,004");
    assert_eq!(Timestamp::from_millis(5).to_string(), "00:00:00,005");
}

use metrics_exporter_plotly::display::{aligned_timestamps, line_values, rate_values};

#[test]
fn rate_is_first_value_then_differences() {
    assert_eq!(rate_values(&vec![10, 12, 15]), vec![10, 2, 3]);
}

#[test]
fn rate_of_decreasing_gauge_is_negative() {
    assert_eq!(rate_values(&vec![5, 3, 3]), vec![5, -2, 0]);
}

#[test]
fn rate_of_empty_is_empty() {
    assert!(rate_values(&vec![]).is_empty());
}

#[test]
fn rate_of_extremes_is_exact() {
    assert_eq!(rate_values(&vec![u64::MAX, 0]), vec![u64::MAX as i128, -(u64::MAX as i128)]);
}

#[test]
fn line_keeps_values() {
    assert_eq!(line_values(&vec![10, 12, 15]), vec![10, 12, 15]);
}

#[test]
fn late_series_takes_last_timestamps() {
    let ts = vec![1, 2, 3, 4, 5];
    assert_eq!(aligned_timestamps(&ts, 2), vec![4, 5]);
    assert_eq!(aligned_timestamps(&ts, 5), ts);
    assert!(aligned_timestamps(&ts, 0).is_empty());
}

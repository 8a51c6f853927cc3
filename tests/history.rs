use metrics_exporter_plotly::history::History;
use metrics_exporter_plotly::registry::{MetricKey, Registry};
use metrics_exporter_plotly::report::{MetricValues, Series};
use metrics_exporter_plotly::{PatternGroup, PlotKind};

#[test]
fn late_metric_has_shorter_series_aligned_at_the_end() {
    let mut reg: Registry<u8, u8> = Registry::new();
    let mut h: History<u32> = History::new();
    reg.counters.get_or_insert_with(&MetricKey::from_name("early"), || 0);
    for t in 0..3u64 {
        h.record_cycle(t * 1000, vec![t], vec![], vec![]);
    }
    reg.counters.get_or_insert_with(&MetricKey::from_name("late"), || 0);
    for t in 3..5u64 {
        h.record_cycle(t * 1000, vec![t, 100 + t], vec![], vec![]);
    }
    assert_eq!(h.cycles(), 5);
    assert_eq!(h.counter_series(0), vec![0, 1, 2, 3, 4]);
    assert_eq!(h.counter_series(1), vec![103, 104]);
    let report = reg.report(h);
    match report.series("late", PlotKind::Line) {
        Some(Series::Values { x, y }) => {
            assert_eq!(x, vec![3000, 4000]);
            assert_eq!(y, vec![103, 104]);
        }
        _ => panic!("late is a counter"),
    }
}

#[test]
fn accepts_cycle_checks_time_and_widths() {
    let mut h: History<u32> = History::new();
    assert!(h.accepts_cycle(5, 0, 0, 0));
    h.record_cycle(5, vec![1, 2], vec![], vec![7]);
    assert!(h.accepts_cycle(5, 2, 0, 1));
    assert!(!h.accepts_cycle(4, 2, 0, 1));
    assert!(!h.accepts_cycle(6, 1, 0, 1));
    assert!(!h.accepts_cycle(6, 2, 0, 0));
}

#[test]
fn get_metric_prefers_counter_then_gauge_then_histogram() {
    let mut reg: Registry<u8, u8> = Registry::new();
    let mut h: History<(u32, u32)> = History::new();
    reg.gauges.get_or_insert_with(&MetricKey::from_name("g"), || 0);
    reg.histograms.get_or_insert_with(&MetricKey::from_name("q"), || 0);
    reg.counters.get_or_insert_with(&MetricKey::from_name("both"), || 0);
    reg.gauges.get_or_insert_with(&MetricKey::from_name("both"), || 0);
    h.record_cycle(1, vec![7], vec![8, 9], vec![(1, 2)]);
    let report = reg.report(h);
    assert_eq!(report.metrics(), vec!["both", "g", "both", "q"]);
    assert!(matches!(report.get_metric("both"), Some(MetricValues::Single(v)) if v == vec![7]));
    assert!(matches!(report.get_metric("g"), Some(MetricValues::Single(v)) if v == vec![8]));
    assert!(matches!(report.get_metric("q"), Some(MetricValues::Quantile(v)) if v == vec![(1, 2)]));
    assert!(report.get_metric("none").is_none());
}

#[test]
fn labelled_metric_is_not_found_by_bare_name() {
    let mut reg: Registry<u8, u8> = Registry::new();
    let mut h: History<u8> = History::new();
    let k = MetricKey::new("x".to_string(), vec![("a".to_string(), "b".to_string())]);
    reg.counters.get_or_insert_with(&k, || 0);
    h.record_cycle(1, vec![1], vec![], vec![]);
    let report = reg.report(h);
    assert!(report.get_metric("x").is_none());
}

#[test]
fn group_series_shows_rates_per_group() {
    let mut reg: Registry<u8, u8> = Registry::new();
    let mut h: History<u8> = History::new();
    reg.counters.get_or_insert_with(&MetricKey::from_name("foo_success"), || 0);
    reg.counters.get_or_insert_with(&MetricKey::from_name("foo_error"), || 0);
    h.record_cycle(10, vec![10, 0], vec![], vec![]);
    h.record_cycle(20, vec![12, 1], vec![], vec![]);
    h.record_cycle(30, vec![15, 1], vec![], vec![]);
    let report = reg.report(h);
    let group = PatternGroup::new()
        .pattern(r"(?<t>.*)_success", PlotKind::Rate)
        .pattern(r"(?<t>.*)_error", PlotKind::Line);
    let rows = report.group_series(&group);
    assert_eq!(rows.len(), 1);
    assert_eq!(rows[0].len(), 2);
    assert_eq!(rows[0][0].0, "foo_success");
    match &rows[0][0].2 {
        Some(Series::Values { x, y }) => {
            assert_eq!(x, &vec![10, 20, 30]);
            assert_eq!(y, &vec![10, 2, 3]);
        }
        _ => panic!("counter series expected"),
    }
    match &rows[0][1].2 {
        Some(Series::Values { y, .. }) => assert_eq!(y, &vec![0, 1, 1]),
        _ => panic!("counter series expected"),
    }
}

use metrics_exporter_plotly::{PatternGroup, PlotKind};

#[test]
fn test_finds_patterns() {
    let group = PatternGroup::new()
        .pattern(r"(?<scenario>.*)_success", PlotKind::Rate)
        .pattern(r"(?<scenario>.*)_error", PlotKind::Line);

    let metrics = vec![
        "foo_success",
        "bar_success",
        "foo_error",
        "bar_error",
        "baz_drror_",
    ];

    let groups = group.apply(&metrics);

    assert!(groups.contains(&vec![
        ("foo_success".to_string(), PlotKind::Rate),
        ("foo_error".to_string(), PlotKind::Line)
    ]));

    assert!(groups.contains(&vec![
        ("bar_success".to_string(), PlotKind::Rate),
        ("bar_error".to_string(), PlotKind::Line)
    ]));
}

#[test]
fn correlates_success_and_error_pairs() {
    let group = PatternGroup::new()
        .pattern(r"(?P<t>.*)_success", PlotKind::Rate)
        .pattern(r"(?P<t>.*)_error", PlotKind::Line);
    let metrics = vec!["foo_success", "foo_error", "bar_success", "bar_error"];
    let groups = group.apply(&metrics);
    assert_eq!(
        groups,
        vec![
            vec![
                ("foo_success".to_string(), PlotKind::Rate),
                ("foo_error".to_string(), PlotKind::Line)
            ],
            vec![
                ("bar_success".to_string(), PlotKind::Rate),
                ("bar_error".to_string(), PlotKind::Line)
            ],
        ]
    );
}

#[test]
fn no_metrics_no_groups() {
    let group = PatternGroup::new().pattern(r"(?<t>.*)_success", PlotKind::Rate);
    let metrics: Vec<&str> = vec![];
    assert!(group.apply(&metrics).is_empty());
}

#[test]
fn pattern_without_capture_contributes_nothing() {
    let group = PatternGroup::new().pattern(r".*_success", PlotKind::Rate);
    let metrics = vec!["foo_success", "bar_success"];
    assert!(group.apply(&metrics).is_empty());
}

#[test]
fn unmatched_metric_is_left_out() {
    let group = PatternGroup::new().pattern(r"(?<t>.*)_success", PlotKind::Line);
    let metrics = vec!["foo_success", "foo_error"];
    assert_eq!(
        group.apply(&metrics),
        vec![vec![("foo_success".to_string(), PlotKind::Line)]]
    );
}

#[test]
fn metric_matching_two_patterns_lands_twice() {
    let group = PatternGroup::new()
        .pattern(r"(?<t>[a-z]+)_.*", PlotKind::Line)
        .pattern(r".*_(?<t>[a-z]+)", PlotKind::Rate);
    let metrics = vec!["foo_bar"];
    assert_eq!(
        group.apply(&metrics),
        vec![
            vec![("foo_bar".to_string(), PlotKind::Line)],
            vec![("foo_bar".to_string(), PlotKind::Rate)],
        ]
    );
}

#[test]
fn same_capture_from_one_pattern_groups_together() {
    let group = PatternGroup::new().pattern(r"(?<t>[a-z]+)_\d+", PlotKind::Line);
    let metrics = vec!["a_1", "b_1", "a_2"];
    assert_eq!(
        group.apply(&metrics),
        vec![
            vec![
                ("a_1".to_string(), PlotKind::Line),
                ("a_2".to_string(), PlotKind::Line)
            ],
            vec![("b_1".to_string(), PlotKind::Line)],
        ]
    );
}

#[test]
fn group_key_is_the_captured_text() {
    // the capture is "foo" for both; "food" differs
    let group = PatternGroup::new()
        .pattern(r"(?<t>.*)_ok", PlotKind::Line)
        .pattern(r"(?<t>.*)_fail", PlotKind::Line);
    let metrics = vec!["foo_ok", "food_fail", "foo_fail"];
    let groups = group.apply(&metrics);
    assert_eq!(groups.len(), 2);
    assert_eq!(
        groups[0],
        vec![
            ("foo_ok".to_string(), PlotKind::Line),
            ("foo_fail".to_string(), PlotKind::Line)
        ]
    );
    assert_eq!(groups[1], vec![("food_fail".to_string(), PlotKind::Line)]);
}

#[test]
fn invalid_pattern_is_rejected_at_construction() {
    let r = PatternGroup::new().try_pattern(r"(?<t>.*_success", PlotKind::Rate);
    match r {
        Err(e) => assert_eq!(e.pattern, "(?<t>.*_success"),
        Ok(_) => panic!("an unbalanced group must not compile"),
    }
}

#[test]
fn valid_pattern_is_accepted() {
    let r = PatternGroup::new().try_pattern(r"(?<t>.*)_success", PlotKind::Rate);
    let g = match r {
        Ok(g) => g,
        Err(_) => panic!("pattern should compile"),
    };
    let metrics = vec!["x_success"];
    assert_eq!(g.apply(&metrics), vec![vec![("x_success".to_string(), PlotKind::Rate)]]);
}

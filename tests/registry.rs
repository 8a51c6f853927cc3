use metrics_exporter_plotly::registry::{KeyTable, MetricKey, Registry, Slots};
use std::sync::atomic::{AtomicU64, Ordering};
use std::sync::Arc;

fn key(name: &str, labels: &[(&str, &str)]) -> MetricKey {
    MetricKey::new(
        name.to_string(),
        labels.iter().map(|(k, v)| (k.to_string(), v.to_string())).collect(),
    )
}

#[test]
fn label_order_does_not_matter() {
    let a = key("req", &[("a", "1"), ("b", "2")]);
    let b = key("req", &[("b", "2"), ("a", "1")]);
    assert!(a.same_key(&b));
}

#[test]
fn different_labels_or_names_differ() {
    let a = key("req", &[("a", "1")]);
    assert!(!a.same_key(&key("req", &[("a", "2")])));
    assert!(!a.same_key(&key("req", &[])));
    assert!(!a.same_key(&key("resp", &[("a", "1")])));
    assert!(key("req", &[]).same_key(&MetricKey::from_name("req")));
}

#[test]
fn registering_a_key_again_gives_its_slot() {
    let mut t = KeyTable::new();
    let a = t.register(&key("a", &[]));
    let b = t.register(&key("b", &[("x", "y")]));
    assert_eq!((a, b), (0, 1));
    assert_eq!(t.register(&key("a", &[])), 0);
    assert_eq!(t.register(&key("b", &[("x", "y")])), 1);
    assert_eq!(t.len(), 2);
    assert_eq!(t.name_at(1), "b");
}

#[test]
fn handles_of_one_key_share_their_cell() {
    let mut slots: Slots<Arc<AtomicU64>> = Slots::new();
    let k = key("hits", &[("path", "/")]);
    let i = slots.get_or_insert_with(&k, || Arc::new(AtomicU64::new(0)));
    let h1 = slots.cell(i).clone();
    let j = slots.get_or_insert_with(&key("hits", &[("path", "/")]), || {
        panic!("an existing key must not build a new cell")
    });
    let h2 = slots.cell(j).clone();
    assert_eq!(i, j);
    h1.fetch_add(3, Ordering::Relaxed);
    h2.fetch_add(4, Ordering::Relaxed);
    assert_eq!(h1.load(Ordering::Relaxed), 7);
    assert_eq!(h2.load(Ordering::Relaxed), 7);
    assert_eq!(slots.cells().len(), 1);
}

#[test]
fn counter_reads_sum_of_increments() {
    let mut reg: Registry<Arc<AtomicU64>, u8> = Registry::new();
    let k = key("c", &[]);
    let mut total = 0;
    for inc in [1u64, 5, 0, 10] {
        let i = reg.counters.get_or_insert_with(&k, || Arc::new(AtomicU64::new(0)));
        reg.counters.cell(i).fetch_add(inc, Ordering::Relaxed);
        total += inc;
    }
    assert_eq!(reg.counters.cell(0).load(Ordering::Relaxed), total);
    assert_eq!(reg.counters.keys().len(), 1);
}

#[test]
fn new_cell_is_the_one_built_and_starts_at_zero() {
    let mut reg: Registry<Arc<AtomicU64>, Vec<u64>> = Registry::new();
    let g = reg.gauges.get_or_insert_with(&key("g", &[]), || Arc::new(AtomicU64::new(0)));
    assert_eq!(g, 0);
    assert_eq!(reg.gauges.cell(g).load(Ordering::Relaxed), 0);
    let h = reg.histograms.get_or_insert_with(&key("h", &[]), Vec::new);
    assert!(reg.histograms.cell(h).is_empty());
    let again = reg.gauges.get_or_insert_with(&key("g", &[]), || Arc::new(AtomicU64::new(9)));
    assert_eq!(again, g);
    assert_eq!(reg.gauges.cell(again).load(Ordering::Relaxed), 0);
}

#[test]
fn many_registrations_share_one_slot() {
    let mut t = KeyTable::new();
    let first = t.register(&key("k", &[("a", "1"), ("b", "2")]));
    for n in 0..10 {
        t.register(&key(&format!("other{n}"), &[]));
        assert_eq!(t.register(&key("k", &[("b", "2"), ("a", "1")])), first);
    }
    assert_eq!(t.len(), 11);
}

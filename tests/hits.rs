use rlinks::hits::{aggregate_hits, HitCounts};

#[test]
fn aggregate_counts_correctly() {
    let hits = vec![
        ("a".to_string(), 1),
        ("b".to_string(), 2),
        ("a".to_string(), 3),
    ];
    let agg = aggregate_hits(&hits);
    assert_eq!(agg.get("a"), Some(2u64));
    assert_eq!(agg.get("b"), Some(1u64));
}

#[test]
fn empty_is_empty() {
    let hits: Vec<(String, u64)> = vec![];
    let agg = aggregate_hits(&hits);
    assert!(agg.is_empty());
}

#[test]
fn aggregate_ignores_timestamps_and_unknown_codes() {
    let hits = vec![("x".to_string(), 7), ("x".to_string(), 7)];
    let agg = aggregate_hits(&hits);
    assert_eq!(agg.len(), 1);
    assert_eq!(agg.get("x"), Some(2));
    assert_eq!(agg.get("y"), None);
}

#[test]
fn add_accumulates_per_code() {
    let mut agg = HitCounts::new();
    agg.add("ok-code", 4);
    agg.add("other", 0);
    agg.add("ok-code", 1);
    assert_eq!(agg.get("ok-code"), Some(5));
    assert_eq!(agg.get("other"), Some(0));
    assert_eq!(agg.len(), 2);
}

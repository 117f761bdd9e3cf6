use matmul::{AmapMetrics, CmapMetrics, MetricsError};

#[test]
fn amap_counts_known_keys() {
    let mut m = AmapMetrics::new(&["call.total", "call.err"]);
    m.inc("call.total").unwrap();
    m.inc("call.total").unwrap();
    m.inc("call.err").unwrap();
    assert!(m.inc("call.total").is_ok());
}

#[test]
fn amap_rejects_unknown_key() {
    let mut m = AmapMetrics::new(&["present"]);
    assert_eq!(m.inc("absent"), Err(MetricsError::KeyNotFound));
    assert!(m.inc("present").is_ok());
}

#[test]
fn amap_tolerates_duplicate_names() {
    let mut m = AmapMetrics::new(&["dup", "dup", "other"]);
    assert!(m.inc("dup").is_ok());
    assert!(m.inc("other").is_ok());
}

#[test]
fn amap_renders_counters_in_insertion_order() {
    let mut m = AmapMetrics::new(&["hits", "misses"]);
    m.inc("hits").unwrap();
    m.inc("hits").unwrap();
    m.inc("misses").unwrap();
    assert_eq!(m.display(), "hits: 2, misses: 1");
    let empty = AmapMetrics::new(&[]);
    assert_eq!(empty.display(), "");
}

#[test]
fn cmap_creates_counters_on_first_increment() {
    let mut m = CmapMetrics::new();
    m.inc("requests").unwrap();
    m.inc("requests").unwrap();
    m.inc("errors").unwrap();
    let snap = m.snapshot();
    assert_eq!(snap.len(), 2);
    assert!(snap.contains(&("requests".to_string(), 2)));
    assert!(snap.contains(&("errors".to_string(), 1)));
}

#[test]
fn cmap_default_is_empty() {
    let m = CmapMetrics::default();
    assert!(m.snapshot().is_empty());
}

#[test]
fn cmap_snapshot_is_a_copy() {
    let mut m = CmapMetrics::new();
    m.inc("a").unwrap();
    let before = m.snapshot();
    m.inc("a").unwrap();
    let after = m.snapshot();
    assert_eq!(before, vec![("a".to_string(), 1)]);
    assert_eq!(after, vec![("a".to_string(), 2)]);
}

use confession_core::stats::ButtonStats;

#[test]
fn counts_start_at_zero() {
    let stats = ButtonStats::new();
    assert_eq!(stats.get_count(42), 0);
}

#[test]
fn increment_counts_per_user() {
    let mut stats = ButtonStats::new();
    stats.increment(42);
    stats.increment(42);
    stats.increment(7);
    assert_eq!(stats.get_count(42), 2);
    assert_eq!(stats.get_count(7), 1);
    assert_eq!(stats.get_count(8), 0);
}

#[test]
fn set_count_restores_persisted_values() {
    let mut stats = ButtonStats::new();
    stats.set_count(42, 10);
    stats.set_count(7, 3);
    stats.increment(42);
    assert_eq!(stats.get_count(42), 11);
    assert_eq!(stats.get_count(7), 3);
    let mut entries = stats.entries();
    entries.sort();
    assert_eq!(entries, vec![(7, 3), (42, 11)]);
}

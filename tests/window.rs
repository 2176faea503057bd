use std::collections::VecDeque;
use siliconmon::series::{average_history, retain_recent, TimeSeries, WINDOW_MS};

fn values(s: &TimeSeries) -> Vec<(u64, u64)> {
    s.entries().iter().copied().collect()
}

#[test]
fn empty_series_averages_to_zero() {
    let s = TimeSeries::new();
    assert_eq!(s.average(), 0);
    assert_eq!(average_history(&VecDeque::new()), 0);
}

#[test]
fn average_is_the_unweighted_mean_rounded_down() {
    let mut s = TimeSeries::new();
    s.append(0, 100);
    s.append(10, 200);
    s.append(20, 301);
    assert_eq!(s.average(), 200);
    let h: VecDeque<(u64, u64)> = vec![(0, 1), (1, 2)].into_iter().collect();
    assert_eq!(average_history(&h), 1);
}

#[test]
fn average_of_large_values_does_not_overflow() {
    let h: VecDeque<(u64, u64)> = vec![(0, u64::MAX), (1, u64::MAX), (2, u64::MAX - 3)].into_iter().collect();
    assert_eq!(average_history(&h), u64::MAX - 1);
}

#[test]
fn append_prunes_entries_older_than_the_window() {
    let mut s = TimeSeries::new();
    s.append(0, 100);
    s.append(60_000, 200);
    s.append(130_000, 300);
    assert_eq!(values(&s), vec![(60_000, 200), (130_000, 300)]);
    assert_eq!(s.average(), 250);
}

#[test]
fn entry_exactly_at_the_window_edge_is_kept() {
    let mut s = TimeSeries::new();
    s.append(1_000, 1);
    s.append(1_000 + WINDOW_MS, 2);
    assert_eq!(s.len(), 2);
    s.append(1_001 + WINDOW_MS, 3);
    assert_eq!(values(&s), vec![(1_000 + WINDOW_MS, 2), (1_001 + WINDOW_MS, 3)]);
}

#[test]
fn series_with_only_stale_entries_prunes_to_empty() {
    let mut h: VecDeque<(u64, u64)> = vec![(0, 1), (5, 2), (10, 3)].into_iter().collect();
    retain_recent(&mut h, 10 + WINDOW_MS + 1);
    assert!(h.is_empty());
}

#[test]
fn prune_stops_at_first_recent_entry() {
    let mut h: VecDeque<(u64, &str)> = vec![(0, "a"), (200_000, "b"), (10, "c")].into_iter().collect();
    retain_recent(&mut h, 250_000);
    assert_eq!(h, vec![(200_000, "b"), (10, "c")].into_iter().collect::<VecDeque<_>>());
}

#[test]
fn early_prune_keeps_everything() {
    let mut h: VecDeque<(u64, u64)> = vec![(0, 1), (5, 2)].into_iter().collect();
    retain_recent(&mut h, 1_000);
    assert_eq!(h.len(), 2);
}

#[test]
fn earlier_timestamp_is_raised_to_keep_order() {
    let mut s = TimeSeries::new();
    s.append(1_000, 5);
    s.append(500, 7);
    assert_eq!(values(&s), vec![(1_000, 5), (1_000, 7)]);
}

#[test]
fn clone_copies_the_entries() {
    let mut s = TimeSeries::new();
    s.append(1, 2);
    let c = s.clone();
    s.append(3, 4);
    assert_eq!(values(&c), vec![(1, 2)]);
    assert_eq!(s.len(), 2);
}

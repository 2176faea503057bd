use crossbeam_channel::unbounded;
use siliconmon::consumer::{merge_latest, should_render, take_pending};
use siliconmon::cpu::{parse_cpu_metrics, CPUMetrics};
use siliconmon::throttle::EventThrottler;

#[test]
fn drain_yields_the_most_recent_of_pending_messages() {
    let (tx, rx) = unbounded();
    for v in 1..=5u32 {
        tx.send(v).unwrap();
    }
    let msgs = take_pending(&rx);
    assert_eq!(msgs, vec![1, 2, 3, 4, 5]);
    assert_eq!(rx.len(), 0);
    let mut cur = 0u32;
    assert!(merge_latest(&mut cur, msgs));
    assert_eq!(cur, 5);
    assert!(take_pending(&rx).is_empty());
}

#[test]
fn drain_with_nothing_pending_keeps_the_current_value() {
    let (_tx, rx) = unbounded::<u32>();
    let mut cur = 7u32;
    assert!(!merge_latest(&mut cur, take_pending(&rx)));
    assert_eq!(cur, 7);
}

#[test]
fn drain_of_one_message_yields_it() {
    let (tx, rx) = unbounded();
    tx.send("only").unwrap();
    let mut cur = "before";
    assert!(merge_latest(&mut cur, take_pending(&rx)));
    assert_eq!(cur, "only");
}

#[test]
fn drain_discards_earlier_snapshots() {
    let (tx, rx) = unbounded();
    let mut m = CPUMetrics::new();
    for line in ["E-Cluster HW active residency: 10.00%", "E-Cluster HW active residency: 20.00%", "E-Cluster HW active residency: 30.00%"] {
        parse_cpu_metrics(line, &mut m);
        tx.send(m.clone()).unwrap();
    }
    let mut cur = CPUMetrics::new();
    assert!(merge_latest(&mut cur, take_pending(&rx)));
    assert_eq!(cur.e_cluster_active, 30);
    assert!(!merge_latest(&mut cur, take_pending(&rx)));
    assert_eq!(cur.e_cluster_active, 30);
}

#[test]
fn same_last_snapshot_gives_same_result() {
    let mut a = 0u32;
    let mut b = 0u32;
    merge_latest(&mut a, vec![1, 2, 9]);
    merge_latest(&mut b, vec![5, 9]);
    assert_eq!(a, b);
    assert_eq!(a, 9);
}

#[test]
fn drain_after_disconnect_still_yields_pending() {
    let (tx, rx) = unbounded();
    tx.send(1u8).unwrap();
    tx.send(2u8).unwrap();
    drop(tx);
    assert_eq!(take_pending(&rx), vec![1, 2]);
    assert!(take_pending(&rx).is_empty());
}

#[test]
fn throttler_notifies_once_per_grace_period() {
    let mut t = EventThrottler::new(500);
    assert!(t.should_notify(0));
    assert!(!t.should_notify(100));
    assert!(!t.should_notify(499));
    assert!(t.should_notify(500));
    assert!(!t.should_notify(999));
    assert!(t.should_notify(1000));
    assert_eq!(t.last_event, Some(1000));
}

#[test]
fn throttler_first_notification_is_immediate() {
    let mut t = EventThrottler::new(10_000);
    assert!(t.should_notify(3));
    assert!(!t.should_notify(4));
}

#[test]
fn throttler_with_clock_going_back_waits() {
    let mut t = EventThrottler::new(500);
    assert!(t.should_notify(1000));
    assert!(!t.should_notify(10));
}

#[test]
fn render_on_update_leaves_throttler_alone() {
    let mut t = EventThrottler::new(500);
    assert!(should_render(true, &mut t, 0));
    assert_eq!(t.last_event, None);
    assert!(should_render(false, &mut t, 0));
    assert_eq!(t.last_event, Some(0));
    assert!(!should_render(false, &mut t, 200));
    assert!(should_render(true, &mut t, 200));
    assert_eq!(t.last_event, Some(0));
    assert!(should_render(false, &mut t, 600));
}

//! Send times and the round-trip estimate on chosen values.

use tcp_engine::timers::{is_overdue, smooth, time_since, SendRecord, Timers, INITIAL_SRTT, RTO_FLOOR};

fn keys(t: &Timers) -> Vec<u32> {
    t.send_times.iter().map(|r| r.seq).collect()
}

#[test]
fn fresh_timers() {
    let t = Timers::new();
    assert!(t.send_times.is_empty());
    assert_eq!(t.srtt, 60_000_000_000);
    assert_eq!(INITIAL_SRTT, 60_000_000_000);
    assert_eq!(RTO_FLOOR, 1_000_000_000);
}

#[test]
fn estimate_is_four_fifths_old_plus_one_fifth_sample() {
    assert_eq!(smooth(60_000_000_000, 10_000_000_000), 50_000_000_000);
    assert_eq!(smooth(100, 0), 80);
    assert_eq!(smooth(0, 100), 20);
    assert_eq!(smooth(5, 5), 5);
}

#[test]
fn estimate_rounds_up_and_never_reaches_zero() {
    assert_eq!(smooth(1, 0), 1);
    assert_eq!(smooth(2, 0), 2);
    assert_eq!(smooth(3, 1), 3);
    assert_eq!(smooth(10, 1), 9);
    assert_eq!(smooth(u64::MAX, u64::MAX), u64::MAX);
    let mut srtt = INITIAL_SRTT;
    for _ in 0..10_000 {
        srtt = smooth(srtt, 0);
        assert!(srtt > 0);
    }
}

#[test]
fn elapsed_time_saturates() {
    assert_eq!(time_since(10, 3), 7);
    assert_eq!(time_since(3, 10), 0);
    assert_eq!(time_since(3, 3), 0);
}

#[test]
fn overdue_needs_both_bounds() {
    // over the floor, not over one and a half estimates
    assert!(!is_overdue(1_100_000_000, 60_000_000_000));
    // over one and a half estimates, not over the floor
    assert!(!is_overdue(900_000_000, 100));
    assert!(!is_overdue(1_000_000_000, 100));
    // over both
    assert!(is_overdue(1_000_000_001, 100));
    assert!(is_overdue(90_000_000_001, 60_000_000_000));
    assert!(!is_overdue(90_000_000_000, 60_000_000_000));
    assert!(is_overdue(u64::MAX, u64::MAX / 2));
    assert!(!is_overdue(u64::MAX, u64::MAX));
}

#[test]
fn records_stay_sorted_and_unique() {
    let mut t = Timers::new();
    t.record(30, 1);
    t.record(10, 2);
    t.record(20, 3);
    assert_eq!(keys(&t), vec![10, 20, 30]);
    t.record(20, 9);
    assert_eq!(keys(&t), vec![10, 20, 30]);
    assert_eq!(t.send_times[1], SendRecord { seq: 20, at: 9 });
    t.record(0, 4);
    t.record(0xFFFF_FFFF, 5);
    assert_eq!(keys(&t), vec![0, 10, 20, 30, 0xFFFF_FFFF]);
}

#[test]
fn earliest_is_the_first_record_at_or_after_the_key() {
    let mut t = Timers::new();
    assert_eq!(t.earliest(0), None);
    t.record(10, 100);
    t.record(20, 50);
    assert_eq!(t.earliest(0), Some(100));
    assert_eq!(t.earliest(10), Some(100));
    assert_eq!(t.earliest(11), Some(50));
    assert_eq!(t.earliest(20), Some(50));
    assert_eq!(t.earliest(21), None);
}

#[test]
fn due_follows_the_first_record_at_or_after_una() {
    let mut t = Timers::new();
    t.srtt = 1_000;
    assert!(!t.due(0, u64::MAX));
    t.record(5, 0);
    t.record(9, 3_000_000_000);
    assert!(t.due(5, 1_000_000_001));
    assert!(!t.due(6, 1_000_000_001));
    assert!(t.due(6, 4_000_000_001));
    assert!(!t.due(10, u64::MAX));
}

#[test]
fn acknowledgment_settles_the_records_strictly_between() {
    let mut t = Timers::new();
    t.srtt = 100;
    t.record(10, 0);
    t.record(11, 10);
    t.record(15, 20);
    t.record(20, 30);
    t.record(25, 40);
    t.acknowledge(10, 20, 110);
    // 10 and 20 bound the interval and stay; 11 and 15 leave, in this order
    assert_eq!(keys(&t), vec![10, 20, 25]);
    let after_first = smooth(100, 100);
    assert_eq!(t.srtt, smooth(after_first, 90));
    assert_eq!(t.srtt, 98);
}

#[test]
fn acknowledgment_across_the_wrap() {
    let mut t = Timers::new();
    t.record(0xFFFF_FFF0, 0);
    t.record(0xFFFF_FFF8, 0);
    t.record(4, 0);
    t.record(8, 0);
    t.acknowledge(0xFFFF_FFF0, 8, 0);
    assert_eq!(keys(&t), vec![8, 0xFFFF_FFF0]);
}

#[test]
fn acknowledgment_of_una_settles_nothing() {
    let mut t = Timers::new();
    t.record(1, 5);
    t.record(2, 6);
    let before = t.clone();
    t.acknowledge(1, 1, 1_000);
    assert_eq!(t, before);
}

use dynamodb_violation_detector::rules::{Target, Violation, ViolationCategory};
use dynamodb_violation_detector::scan::UNITS_PER_RCU;
use dynamodb_violation_detector::state::{
    Aggregator, CategoryCounts, Clock, StateSnapshot, SystemClock, RATE_WINDOW, ROLLING_WINDOW_CAP,
};
use std::sync::{Arc, Mutex};
use std::time::Duration;

/// A clock that only advances when told to.
#[derive(Clone)]
struct MockClock(Arc<Mutex<u64>>);

impl MockClock {
    fn new() -> Self {
        MockClock(Arc::new(Mutex::new(17)))
    }

    fn advance(&self, by: Duration) {
        *self.0.lock().unwrap() += by.as_nanos() as u64;
    }
}

impl Clock for MockClock {
    fn now(&self) -> u64 {
        *self.0.lock().unwrap()
    }
}

fn violation(category: ViolationCategory) -> Violation {
    Violation {
        target: Target::Ttl,
        category,
        attribute: None,
        actual_value: None,
        actual_type: None,
        expected_type: None,
        size_bytes: None,
    }
}

fn items_per_sec(snap: &StateSnapshot) -> f64 {
    match snap.rate {
        Some(rate) => rate.items as f64 / (rate.nanos as f64 / 1e9),
        None => 0.0,
    }
}

fn rcu_per_sec(snap: &StateSnapshot) -> f64 {
    match snap.rate {
        Some(rate) => rate.rcu as f64 / UNITS_PER_RCU as f64 / (rate.nanos as f64 / 1e9),
        None => 0.0,
    }
}

fn progress(snap: &StateSnapshot) -> f64 {
    if snap.item_count == 0 {
        0.0
    } else {
        snap.items_scanned as f64 / snap.item_count as f64
    }
}

#[test]
fn records_per_segment_and_aggregate_items() {
    let mut agg = Aggregator::new(3, 0, MockClock::new());
    agg.record_item(0);
    agg.record_item(2);
    agg.record_item(2);

    let snap = agg.snapshot();
    assert_eq!(snap.items_scanned, 3);
    assert_eq!(snap.per_segment_items, vec![1, 0, 2]);
}

#[test]
fn out_of_range_segment_still_counts_toward_aggregate() {
    let mut agg = Aggregator::new(1, 0, MockClock::new());
    agg.record_item(0);
    agg.record_item(9);

    let snap = agg.snapshot();
    assert_eq!(snap.items_scanned, 2);
    assert_eq!(snap.per_segment_items, vec![1]);
}

#[test]
fn tallies_categories_and_total_violations() {
    let mut agg = Aggregator::new(1, 0, MockClock::new());
    agg.record_violation(&violation(ViolationCategory::TypeMismatch));
    agg.record_violation(&violation(ViolationCategory::TypeMismatch));
    agg.record_violation(&violation(ViolationCategory::MissingKey));

    let snap = agg.snapshot();
    assert_eq!(snap.total_violations, 3);
    assert_eq!(snap.category_counts.get(ViolationCategory::TypeMismatch), Some(2));
    assert_eq!(snap.category_counts.get(ViolationCategory::MissingKey), Some(1));
    assert_eq!(snap.category_counts.get(ViolationCategory::TtlMissing), None);
}

#[test]
fn rolling_window_is_bounded_but_total_is_not() {
    let mut agg = Aggregator::new(1, 0, MockClock::new());
    for _ in 0..(ROLLING_WINDOW_CAP + 5) {
        agg.record_violation(&violation(ViolationCategory::SizeExceeded));
    }

    let snap = agg.snapshot();
    assert_eq!(snap.total_violations as usize, ROLLING_WINDOW_CAP + 5);
    assert_eq!(snap.recent_violations.len(), ROLLING_WINDOW_CAP);
}

#[test]
fn rolling_window_keeps_the_most_recent_and_evicts_the_oldest() {
    let mut agg = Aggregator::new(1, 0, MockClock::new());
    agg.record_violation(&violation(ViolationCategory::TtlMissing));
    for _ in 0..ROLLING_WINDOW_CAP {
        agg.record_violation(&violation(ViolationCategory::TtlMalformed));
    }

    let snap = agg.snapshot();
    assert_eq!(snap.recent_violations.len(), ROLLING_WINDOW_CAP);
    assert!(
        snap.recent_violations
            .iter()
            .all(|v| v.category == ViolationCategory::TtlMalformed),
        "the single oldest TtlMissing should have been evicted"
    );
}

#[test]
fn items_per_sec_averages_over_the_elapsed_interval() {
    let clock = MockClock::new();
    let mut agg = Aggregator::new(2, 1000, clock.clone());

    agg.snapshot();
    for _ in 0..100 {
        agg.record_item(0);
    }
    for _ in 0..100 {
        agg.record_item(1);
    }
    clock.advance(Duration::from_secs(4));

    let snap = agg.snapshot();
    assert_eq!(snap.items_scanned, 200);
    assert_eq!(items_per_sec(&snap), 50.0);
    assert_eq!(Duration::from_nanos(snap.elapsed), Duration::from_secs(4));
}

#[test]
fn rcu_rate_averages_over_the_elapsed_interval() {
    let clock = MockClock::new();
    let mut agg = Aggregator::new(1, 0, clock.clone());

    agg.snapshot();
    agg.record_consumed(0, 20 * UNITS_PER_RCU);
    agg.record_consumed(0, 20 * UNITS_PER_RCU);
    clock.advance(Duration::from_secs(2));

    let snap = agg.snapshot();
    assert_eq!(snap.consumed_rcu, 40 * UNITS_PER_RCU);
    assert_eq!(rcu_per_sec(&snap), 20.0);
}

#[test]
fn rate_is_zero_before_time_advances() {
    let mut agg = Aggregator::new(1, 0, MockClock::new());
    agg.record_item(0);

    let snap = agg.snapshot();
    assert_eq!(items_per_sec(&snap), 0.0);
    assert_eq!(rcu_per_sec(&snap), 0.0);
}

#[test]
fn eta_derived_from_rate_and_approximate_item_count() {
    let clock = MockClock::new();
    let mut agg = Aggregator::new(1, 1000, clock.clone());

    agg.snapshot();
    for _ in 0..200 {
        agg.record_item(0);
    }
    clock.advance(Duration::from_secs(4));

    let snap = agg.snapshot();
    assert_eq!(items_per_sec(&snap), 50.0);
    assert_eq!(progress(&snap), 0.2);
    assert_eq!(
        snap.eta.map(|nanos| Duration::from_nanos(nanos as u64)),
        Some(Duration::from_secs(16))
    );
}

#[test]
fn no_eta_without_a_rate() {
    let mut agg = Aggregator::new(1, 1000, MockClock::new());
    agg.record_item(0);

    assert_eq!(agg.snapshot().eta, None);
}

#[test]
fn progress_overshoots_when_item_count_underestimates() {
    let mut agg = Aggregator::new(1, 100, MockClock::new());
    for _ in 0..150 {
        agg.record_item(0);
    }

    let snap = agg.snapshot();
    assert_eq!(progress(&snap), 1.5);
    assert_eq!(snap.eta, None);
}

#[test]
fn stale_samples_age_out_of_the_rate_window() {
    let clock = MockClock::new();
    let mut agg = Aggregator::new(1, 0, clock.clone());

    for _ in 0..1000 {
        agg.record_item(0);
    }
    agg.snapshot();

    clock.advance(Duration::from_nanos(RATE_WINDOW) + Duration::from_secs(1));
    agg.snapshot();

    clock.advance(Duration::from_secs(2));
    for _ in 0..100 {
        agg.record_item(0);
    }
    let snap = agg.snapshot();

    assert_eq!(snap.items_scanned, 1100);
    assert_eq!(
        items_per_sec(&snap),
        50.0,
        "the initial 1000-item burst should have aged out of the window"
    );
}

#[test]
fn a_sample_at_the_edge_of_the_window_is_kept() {
    let mut agg = Aggregator::starting_at(1, 10, MockClock::new(), 100);
    agg.record_item(0);
    assert_eq!(agg.snapshot_at(100).rate, None);
    agg.record_item(0);
    let snap = agg.snapshot_at(100 + RATE_WINDOW);
    let rate = snap.rate.unwrap();
    assert_eq!((rate.items, rate.rcu, rate.nanos), (1, 0, RATE_WINDOW));
    assert_eq!(snap.eta, Some(8 * RATE_WINDOW as u128));
    assert_eq!(snap.elapsed, RATE_WINDOW);
    assert_eq!(agg.snapshot_at(101 + RATE_WINDOW).rate.unwrap().nanos, 1);
    assert_eq!(agg.snapshot_at(50).elapsed, 0);
}

#[test]
fn the_estimate_is_rounded_to_the_nearest_nanosecond() {
    let estimate = |items: u64, item_count: u64, nanos: u64| {
        let mut agg = Aggregator::starting_at(1, item_count, MockClock::new(), 0);
        agg.snapshot_at(0);
        for _ in 0..items {
            agg.record_item(0);
        }
        agg.snapshot_at(nanos).eta.unwrap()
    };
    assert_eq!(estimate(3, 2003, 1_000_000_000), 666_666_666_667);
    assert_eq!(estimate(3, 1003, 1_000_000_000), 333_333_333_333);
    assert_eq!(estimate(2, 3, 5), 2);
    assert_eq!(estimate(2, 3, 7), 4);
    assert_eq!(estimate(2, 2, 7), 0);
}

#[test]
fn without_items_there_is_no_estimate() {
    let mut agg = Aggregator::starting_at(1, 10, MockClock::new(), 0);
    agg.snapshot_at(0);
    let snap = agg.snapshot_at(1_000);
    assert_eq!(snap.rate.unwrap().items, 0);
    assert_eq!(snap.eta, None);
}

#[test]
fn the_window_keeps_violations_in_order() {
    let mut agg = Aggregator::new(1, 0, MockClock::new());
    for i in 0..(ROLLING_WINDOW_CAP + 3) {
        let mut v = violation(ViolationCategory::TtlMissing);
        v.attribute = Some(i.to_string());
        agg.record_violation(&v);
    }
    let snap = agg.snapshot();
    assert_eq!(snap.recent_violations[0].attribute.as_deref(), Some("3"));
    assert_eq!(
        snap.recent_violations.last().unwrap().attribute,
        Some((ROLLING_WINDOW_CAP + 2).to_string())
    );
}

#[test]
fn counts_add_up_to_the_total() {
    let all = [
        ViolationCategory::TypeMismatch,
        ViolationCategory::SizeExceeded,
        ViolationCategory::MissingKey,
        ViolationCategory::TtlMissing,
        ViolationCategory::TtlWrongType,
        ViolationCategory::TtlMsMagnitude,
        ViolationCategory::TtlMalformed,
        ViolationCategory::TtlPastFiveYears,
    ];
    let mut agg = Aggregator::new(1, 0, MockClock::new());
    for (i, category) in all.iter().enumerate() {
        for _ in 0..=i {
            agg.record_violation(&violation(*category));
        }
    }
    let snap = agg.snapshot();
    for (i, category) in all.iter().enumerate() {
        assert_eq!(snap.category_counts.get(*category), Some(i as u64 + 1));
    }
    let sum: u64 = all.iter().filter_map(|c| snap.category_counts.get(*c)).sum();
    assert_eq!(sum, snap.total_violations);
    assert_eq!(CategoryCounts::new().get(ViolationCategory::TypeMismatch), None);
}

#[test]
fn consumed_capacity_saturates() {
    let mut agg = Aggregator::new(1, 0, MockClock::new());
    agg.record_consumed(0, u128::MAX - 1);
    agg.record_consumed(5, 7);
    assert_eq!(agg.snapshot().consumed_rcu, u128::MAX);
}

#[test]
fn the_system_clock_moves_on() {
    let clock = SystemClock::new();
    let first = clock.now();
    let mut second = clock.now();
    while second == first {
        second = clock.now();
    }
    assert!(second > first);
    let mut agg = Aggregator::with_system_clock(2, 3);
    assert_eq!(agg.snapshot().per_segment_items, vec![0, 0]);
}

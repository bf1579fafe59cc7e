use dynamodb_violation_detector::aws::{ScanRequest, ScanResponse};
use dynamodb_violation_detector::config::{ExportConfig, ScanConfig};
use dynamodb_violation_detector::domain::{AttributeMap, AttributeValue, Item};
use dynamodb_violation_detector::scan::{
    add_consumed, rcu_ceiling, segment_workers, total_segments, Phase, RateLimiter, ScannedItem,
    SegmentWorker, TokenBucket, WorkerAction, WorkerEvent, UNITS_PER_RCU,
};
use std::collections::{HashMap, HashSet, VecDeque};

const SECOND: u64 = 1_000_000_000;

#[derive(Debug, Clone, Copy, PartialEq, Eq)]
enum FaultKind {
    Throttling,
    Other,
}

#[derive(Debug, Clone, PartialEq)]
struct Fault {
    code: String,
    message: String,
    kind: FaultKind,
}

fn config(table: &str, segments: usize) -> ScanConfig {
    ScanConfig {
        table: table.to_string(),
        region: None,
        profile: None,
        segments,
        rate_limit_percent: None,
        export: ExportConfig { csv: false, csv_path: None, ndjson: false, ndjson_path: None },
        gsi: Vec::new(),
        lsi: Vec::new(),
        ttl: None,
    }
}

fn item(pk: &str) -> Item {
    let mut map = AttributeMap::new();
    map.insert("pk".to_string(), AttributeValue::S(pk.to_string()));
    map
}

fn page(pk: &str, next: Option<&str>) -> ScanResponse {
    page_rcu(pk, next, None)
}

fn page_rcu(pk: &str, next: Option<&str>, consumed_rcu: Option<f64>) -> ScanResponse {
    ScanResponse {
        items: vec![item(pk)],
        last_evaluated_key: next.map(item),
        consumed_rcu: consumed_rcu.map(|rcu| (rcu * UNITS_PER_RCU as f64) as u128),
    }
}

/// A service with canned pages that records what it is asked.
struct MockClient {
    pages: HashMap<u32, VecDeque<Result<ScanResponse, Fault>>>,
    scans: Vec<ScanRequest>,
}

impl MockClient {
    fn new() -> Self {
        MockClient { pages: HashMap::new(), scans: Vec::new() }
    }

    fn with_scan_pages(mut self, segment: u32, pages: Vec<Result<ScanResponse, Fault>>) -> Self {
        self.pages.insert(segment, pages.into());
        self
    }

    fn scan_segment(&mut self, request: ScanRequest) -> Result<ScanResponse, Fault> {
        let segment = request.segment;
        self.scans.push(request);
        match self.pages.get_mut(&segment).and_then(|queue| queue.pop_front()) {
            Some(response) => response,
            None => Ok(ScanResponse {
                items: Vec::new(),
                last_evaluated_key: None,
                consumed_rcu: None,
            }),
        }
    }
}

struct Outcome {
    results: Vec<Result<ScannedItem, Fault>>,
    consumed: u128,
    elapsed: u64,
}

/// Runs every worker to its end on a clock that only waiting moves; the scan is
/// cancelled once so many results were delivered.
fn run_scan(
    config: &ScanConfig,
    client: &mut MockClient,
    provisioned_rcu: Option<u64>,
    cancel_after: Option<usize>,
) -> Outcome {
    let mut now: u64 = 0;
    let mut limiter =
        RateLimiter::new(rcu_ceiling(provisioned_rcu, config.rate_limit_percent), now);
    let mut results: Vec<Result<ScannedItem, Fault>> = Vec::new();
    let mut consumed: u128 = 0;
    for mut worker in segment_workers(config) {
        let mut action: WorkerAction<Fault> = worker.start();
        loop {
            let cancelled = cancel_after.is_some_and(|count| results.len() >= count);
            let event = match action {
                WorkerAction::Acquire(_) if cancelled => WorkerEvent::Cancelled,
                WorkerAction::Acquire(permits) => {
                    assert!(limiter.can_grant(permits));
                    while let Some(wait) = limiter.acquire(now, permits) {
                        now += wait as u64;
                    }
                    WorkerEvent::Acquired
                }
                WorkerAction::Scan(request) => {
                    let response = client.scan_segment(request);
                    if let Ok(page) = &response {
                        consumed = add_consumed(consumed, page.consumed_rcu);
                    }
                    WorkerEvent::Response(response)
                }
                WorkerAction::Deliver(result) => {
                    results.push(result);
                    WorkerEvent::Delivered
                }
                WorkerAction::Stop => break,
            };
            action = worker.step(event);
        }
        assert_eq!(worker.phase(), Phase::Stopped);
    }
    Outcome { results, consumed, elapsed: now }
}

#[test]
fn ceiling_is_percentage_of_provisioned_rcu() {
    let ceiling = |rcu: Option<u64>, percent: Option<u8>| {
        rcu_ceiling(rcu, percent).map(|hundredths| hundredths as f64 / 100.0)
    };
    assert_eq!(ceiling(Some(100), Some(60)), Some(60.0));
    assert_eq!(ceiling(Some(200), Some(100)), Some(200.0));
}

#[test]
fn on_demand_or_unset_percent_is_unlimited() {
    assert_eq!(rcu_ceiling(None, Some(60)), None);
    assert_eq!(rcu_ceiling(Some(100), None), None);
    assert_eq!(rcu_ceiling(None, None), None);
}

#[test]
fn fans_out_one_task_per_segment_and_drains_every_item() {
    let mut client = MockClient::new()
        .with_scan_pages(0, vec![Ok(page("s0", None))])
        .with_scan_pages(1, vec![Ok(page("s1", None))])
        .with_scan_pages(2, vec![Ok(page("s2", None))]);

    let outcome = run_scan(&config("t", 3), &mut client, None, None);

    let scanned: HashSet<(u32, String)> = outcome
        .results
        .into_iter()
        .map(|r| r.unwrap())
        .map(|s| match s.item.get("pk").unwrap() {
            AttributeValue::S(v) => (s.segment, v.clone()),
            other => panic!("unexpected value {other:?}"),
        })
        .collect();

    assert_eq!(
        scanned,
        HashSet::from([
            (0, "s0".to_string()),
            (1, "s1".to_string()),
            (2, "s2".to_string()),
        ])
    );
    assert_eq!(client.scans.len(), 3);
}

#[test]
fn threads_last_evaluated_key_across_pages() {
    let mut client = MockClient::new().with_scan_pages(
        0,
        vec![Ok(page("first", Some("cursor"))), Ok(page("second", None))],
    );

    let outcome = run_scan(&config("t", 1), &mut client, None, None);
    assert_eq!(outcome.results.len(), 2);
    assert!(outcome.results.iter().all(Result::is_ok));

    assert_eq!(client.scans.len(), 2);
    assert_eq!(client.scans[0].exclusive_start_key, None);
    assert_eq!(client.scans[1].exclusive_start_key, Some(item("cursor")));
}

#[test]
fn requests_consumed_capacity_on_every_scan() {
    let mut client = MockClient::new().with_scan_pages(0, vec![Ok(page("a", None))]);

    run_scan(&config("orders", 1), &mut client, None, None);

    let scan = &client.scans[0];
    assert_eq!(scan.table, "orders");
    assert_eq!(scan.total_segments, 1);
    assert!(scan.return_consumed_capacity);
}

#[test]
fn aggregates_consumed_capacity_across_segments() {
    let mut client = MockClient::new()
        .with_scan_pages(
            0,
            vec![
                Ok(page_rcu("a", Some("c"), Some(4.5))),
                Ok(page_rcu("b", None, Some(2.0))),
            ],
        )
        .with_scan_pages(1, vec![Ok(page_rcu("c", None, Some(3.5)))]);

    let outcome = run_scan(&config("t", 2), &mut client, None, None);

    assert_eq!(outcome.consumed as f64 / UNITS_PER_RCU as f64, 10.0);
}

#[test]
fn paces_workers_to_the_rcu_ceiling() {
    let mut client = MockClient::new().with_scan_pages(
        0,
        vec![
            Ok(page_rcu("a", Some("c1"), Some(10.0))),
            Ok(page_rcu("b", Some("c2"), Some(10.0))),
            Ok(page_rcu("c", None, Some(10.0))),
        ],
    );
    let mut cfg = config("t", 1);
    cfg.rate_limit_percent = Some(10);

    let outcome = run_scan(&cfg, &mut client, Some(100), None);

    assert_eq!(outcome.results.len(), 3);
    assert!(outcome.elapsed >= 2 * SECOND);
    assert!(outcome.elapsed < 2 * SECOND + SECOND / 5);
}

#[test]
fn unlimited_scan_does_not_pace() {
    let mut client = MockClient::new().with_scan_pages(
        0,
        vec![
            Ok(page_rcu("a", Some("c1"), Some(1000.0))),
            Ok(page_rcu("b", None, Some(1000.0))),
        ],
    );

    let outcome = run_scan(&config("t", 1), &mut client, None, None);

    assert!(outcome.elapsed < SECOND / 10);
}

#[test]
fn every_segment_scans_with_its_own_index_and_the_total() {
    let mut client = MockClient::new()
        .with_scan_pages(0, vec![Ok(page("a", None))])
        .with_scan_pages(1, vec![Ok(page("b", None))])
        .with_scan_pages(2, vec![Ok(page("c", None))])
        .with_scan_pages(3, vec![Ok(page("d", None))]);

    run_scan(&config("t", 4), &mut client, None, None);

    assert_eq!(client.scans.len(), 4);
    assert!(client.scans.iter().all(|s| s.total_segments == 4));
    let mut segments: Vec<u32> = client.scans.iter().map(|s| s.segment).collect();
    segments.sort_unstable();
    assert_eq!(segments, vec![0, 1, 2, 3]);
}

#[test]
fn residual_throttle_surfaces_as_error() {
    let throttle = Fault {
        code: "ProvisionedThroughputExceededException".to_string(),
        message: "slow down".to_string(),
        kind: FaultKind::Throttling,
    };
    let mut client = MockClient::new().with_scan_pages(0, vec![Err(throttle)]);

    let outcome = run_scan(&config("t", 1), &mut client, None, None);
    assert_eq!(outcome.results.len(), 1);
    assert_eq!(
        outcome.results[0].as_ref().unwrap_err().kind,
        FaultKind::Throttling
    );
}

fn boom() -> Fault {
    Fault {
        code: "InternalServerError".to_string(),
        message: "boom".to_string(),
        kind: FaultKind::Other,
    }
}

#[test]
fn partial_failure_isolates_the_failed_segment() {
    let mut client = MockClient::new()
        .with_scan_pages(0, vec![Err(boom())])
        .with_scan_pages(1, vec![Ok(page("b1", Some("c"))), Ok(page("b2", None))])
        .with_scan_pages(2, vec![Ok(page("c1", None))]);

    let outcome = run_scan(&config("t", 3), &mut client, None, None);

    let errors = outcome.results.iter().filter(|r| r.is_err()).count();
    let items = outcome.results.iter().filter(|r| r.is_ok()).count();
    assert_eq!(errors, 1);
    assert_eq!(items, 3);
}

#[test]
fn cancel_before_draining_stops_every_segment() {
    let mut client = MockClient::new()
        .with_scan_pages(0, vec![Ok(page("a", None))])
        .with_scan_pages(1, vec![Ok(page("b", None))]);

    let outcome = run_scan(&config("t", 2), &mut client, None, Some(0));

    assert!(outcome.results.is_empty(), "cancelled workers should emit nothing");
    assert!(
        client.scans.is_empty(),
        "cancel before the first scan should issue no scans"
    );
}

#[test]
fn cancel_mid_scan_halts_pagination_and_terminates_cleanly() {
    let mut client = MockClient::new().with_scan_pages(
        0,
        vec![
            Ok(page_rcu("a", Some("c1"), Some(10.0))),
            Ok(page_rcu("b", Some("c2"), Some(10.0))),
            Ok(page_rcu("c", None, Some(10.0))),
        ],
    );
    let mut cfg = config("t", 1);
    cfg.rate_limit_percent = Some(10);

    let outcome = run_scan(&cfg, &mut client, Some(100), Some(1));
    assert!(matches!(outcome.results.first(), Some(Ok(_))), "first page delivered");

    assert_eq!(
        client.scans.len(),
        1,
        "cancel during the rate-limit wait should halt before the next scan"
    );
}

#[test]
fn failed_segment_makes_no_further_scan_calls() {
    let mut client =
        MockClient::new().with_scan_pages(0, vec![Err(boom()), Ok(page("unreached", None))]);

    let outcome = run_scan(&config("t", 1), &mut client, None, None);
    assert_eq!(outcome.results.len(), 1);
    assert!(outcome.results[0].is_err());
    assert_eq!(client.scans.len(), 1);
}

#[test]
fn a_fetched_page_is_delivered_item_by_item() {
    let mut worker = SegmentWorker::new(&"t".to_string(), 2, 1);
    assert_eq!(worker.start::<Fault>(), WorkerAction::Acquire(0));
    assert_eq!(
        worker.step::<Fault>(WorkerEvent::Acquired),
        WorkerAction::Scan(ScanRequest {
            table: "t".to_string(),
            total_segments: 2,
            segment: 1,
            exclusive_start_key: None,
            return_consumed_capacity: true,
        })
    );
    let response = ScanResponse {
        items: vec![item("a"), item("b")],
        last_evaluated_key: Some(item("k")),
        consumed_rcu: Some(9),
    };
    assert_eq!(
        worker.step::<Fault>(WorkerEvent::Response(Ok(response))),
        WorkerAction::Deliver(Ok(ScannedItem { segment: 1, item: item("a") }))
    );
    assert_eq!(
        worker.step::<Fault>(WorkerEvent::Delivered),
        WorkerAction::Deliver(Ok(ScannedItem { segment: 1, item: item("b") }))
    );
    assert_eq!(worker.step::<Fault>(WorkerEvent::Delivered), WorkerAction::Acquire(9));
    assert_eq!(worker.phase(), Phase::Acquiring);
}

#[test]
fn a_dropped_receiver_ends_the_worker() {
    let mut worker = SegmentWorker::new(&"t".to_string(), 1, 0);
    worker.step::<Fault>(WorkerEvent::Acquired);
    let response = ScanResponse {
        items: vec![item("a"), item("b")],
        last_evaluated_key: Some(item("k")),
        consumed_rcu: None,
    };
    worker.step::<Fault>(WorkerEvent::Response(Ok(response)));
    assert_eq!(worker.step::<Fault>(WorkerEvent::ReceiverGone), WorkerAction::Stop);
    assert_eq!(worker.phase(), Phase::Stopped);
}

#[test]
fn an_empty_page_leads_on_to_the_next() {
    let mut worker = SegmentWorker::new(&"t".to_string(), 1, 0);
    worker.step::<Fault>(WorkerEvent::Acquired);
    let response = ScanResponse {
        items: Vec::new(),
        last_evaluated_key: Some(item("k")),
        consumed_rcu: None,
    };
    assert_eq!(
        worker.step::<Fault>(WorkerEvent::Response(Ok(response))),
        WorkerAction::Acquire(0)
    );
    assert_eq!(worker.step::<Fault>(WorkerEvent::Cancelled), WorkerAction::Stop);
}

#[test]
fn the_bucket_refills_at_its_rate() {
    let mut bucket = TokenBucket::new(1_000, 0);
    assert_eq!(bucket.acquire(0, 0), None);
    assert_eq!(bucket.acquire(0, 2_500), Some(3));
    assert_eq!(bucket.acquire(2, 2_500), Some(1));
    assert_eq!(bucket.acquire(3, 2_500), None);
    assert_eq!(bucket.acquire(3, 501), Some(1));
    assert_eq!(bucket.acquire(4, 501), None);
}

#[test]
fn the_balance_is_capped_at_one_second() {
    let mut bucket = TokenBucket::new(5, 0);
    let second = 5 * SECOND as u128;
    assert_eq!(bucket.acquire(10 * SECOND, 1), None);
    assert_eq!(bucket.acquire(10 * SECOND, second), Some(1));
    let mut bucket = TokenBucket::new(5, 0);
    assert_eq!(bucket.acquire(10 * SECOND, 2 * second), None);
}

#[test]
fn huge_times_do_not_overflow_the_bucket() {
    let mut bucket = TokenBucket::new(4_703_919_738_795_935_661_825, 0);
    assert_eq!(bucket.acquire(u64::MAX, 1), None);
    assert_eq!(bucket.acquire(0, 1), None);
    assert!(bucket.can_grant(u128::MAX));
    let empty = TokenBucket::new(0, 0);
    assert!(!empty.can_grant(1));
    assert!(empty.can_grant(0));
}

#[test]
fn grants_stay_under_the_ceiling() {
    let rate: u128 = 7;
    let mut bucket = TokenBucket::new(rate, 0);
    let mut granted: u128 = 0;
    let mut now: u64 = 0;
    for i in 0..500u64 {
        now += i % 13;
        let permits = (i * 37 % 101) as u128;
        if bucket.acquire(now, permits).is_none() {
            granted += permits;
        }
        assert!(granted <= rate * now as u128);
    }
    assert!(granted > 0);
}

#[test]
fn an_unlimited_limiter_never_waits() {
    let mut limiter = RateLimiter::new(None, 0);
    assert!(limiter.can_grant(u128::MAX));
    assert_eq!(limiter.acquire(0, u128::MAX), None);
}

#[test]
fn segment_counts_are_32_bit() {
    assert_eq!(total_segments(&config("t", 3)), 3);
    assert_eq!(total_segments(&config("t", 0x1_0000_0002)), 2);
    assert_eq!(segment_workers(&config("t", 0x1_0000_0002)).len(), 2);
}

#[test]
fn a_page_without_a_cost_adds_nothing() {
    assert_eq!(add_consumed(5, None), 5);
    assert_eq!(add_consumed(5, Some(6)), 11);
    assert_eq!(add_consumed(u128::MAX, Some(1)), u128::MAX);
}

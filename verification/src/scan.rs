//! Scan driver: parallel segment fan-out, pagination and rate limiting.
//!
//! Each segment of a parallel scan is paged by a [`SegmentWorker`], a machine that
//! decides what to do next from what happened last: wait for the rate limiter, issue
//! a scan, hand an item downstream, stop. A shared [`RateLimiter`] paces all workers
//! against a percentage of the provisioned read capacity.
//!
//! Read capacity is counted in whole units of a hundred-billionth RCU
//! ([`UNITS_PER_RCU`]) and time in nanoseconds, so that a rate in hundredths of an
//! RCU per second is a whole number of units per nanosecond.

use std::collections::VecDeque;
use vstd::prelude::*;
use crate::aws::{ScanRequest, ScanResponse};
use crate::config::ScanConfig;
use crate::domain::Item;

verus! {

/// One item read from the scan, tagged with the segment that produced it.
#[derive(Debug, Clone, PartialEq)]
pub struct ScannedItem {
    pub segment: u32,
    pub item: Item,
}

/// How many items may sit unread in the channel before segment workers block.
pub const CHANNEL_CAPACITY: usize = 1024;

/// How many units of read capacity make one RCU.
pub const UNITS_PER_RCU: u128 = 100_000_000_000;

/// How many nanoseconds make one second.
pub const NANOS_PER_SEC: u64 = 1_000_000_000;

/// The largest rate that a provisioned capacity and a percentage can give.
pub const MAX_RATE: u128 = 4_703_919_738_795_935_661_825;

/// The given percentage of a capacity, in hundredths of an RCU per second.
pub open spec fn ceiling_rate(rcu: u64, percent: u8) -> nat {
    (rcu * percent) as nat
}

/// The ceiling for a scan in hundredths of an RCU per second, or `None` for
/// unlimited.
///
/// Unlimited when the table is on-demand (`provisioned_rcu` is `None`) or no
/// `rate_limit_percent` is set. Otherwise the configured percentage of the
/// provisioned RCU.
pub fn rcu_ceiling(provisioned_rcu: Option<u64>, rate_limit_percent: Option<u8>) -> (r: Option<
    u128,
>)
    ensures
        match (provisioned_rcu, rate_limit_percent) {
            (Some(rcu), Some(percent)) => r matches Some(rate) && rate == rcu * percent && rate
                == ceiling_rate(rcu, percent),
            _ => r is None,
        },
        r matches Some(rate) ==> rate <= MAX_RATE,
{
    match (provisioned_rcu, rate_limit_percent) {
        (Some(rcu), Some(percent)) => {
            assert(rcu * percent <= 0xffff_ffff_ffff_ffff * 0xff) by (nonlinear_arith)
                requires
                    rcu <= 0xffff_ffff_ffff_ffff,
                    percent <= 0xff,
            ;
            assert(rcu * percent >= 0) by (nonlinear_arith);
            Some(rcu as u128 * percent as u128)
        },
        _ => None,
    }
}

/// The smaller of two numbers.
pub open spec fn least(a: nat, b: nat) -> nat {
    if a <= b {
        a
    } else {
        b
    }
}

/// The larger of two numbers.
pub open spec fn greatest(a: nat, b: nat) -> nat {
    if a >= b {
        a
    } else {
        b
    }
}

/// The balance that a bucket may hold when `permits` are asked for: one second's
/// worth, or the request itself if that is larger.
pub open spec fn burst(rate: nat, permits: nat) -> nat {
    greatest(rate * NANOS_PER_SEC as nat, permits)
}

/// The mathematical value of a token bucket.
pub struct Bucket {
    /// Units per nanosecond.
    pub rate: nat,
    pub available: nat,
    pub last_refill: nat,
}

impl Bucket {
    /// The balance at `now`, before `permits` are taken.
    pub open spec fn refilled(self, now: nat, permits: nat) -> nat {
        let elapsed = if now >= self.last_refill {
            (now - self.last_refill) as nat
        } else {
            0
        };
        least(self.available + elapsed * self.rate, burst(self.rate, permits))
    }

    /// Whether `permits` are there to be taken at `now`.
    pub open spec fn grants(self, now: nat, permits: nat) -> bool {
        self.refilled(now, permits) >= permits
    }

    /// The bucket after `permits` were asked for at `now`.
    pub open spec fn asked(self, now: nat, permits: nat) -> Bucket {
        let balance = self.refilled(now, permits);
        Bucket {
            rate: self.rate,
            available: if balance >= permits {
                (balance - permits) as nat
            } else {
                balance
            },
            last_refill: now,
        }
    }

    /// How many nanoseconds it takes until what is short has come in.
    pub open spec fn wait(self, now: nat, permits: nat) -> nat {
        let short = permits - self.refilled(now, permits);
        ((short + self.rate - 1) / self.rate as int) as nat
    }
}

/// A token bucket refilling at `rate` units per nanosecond, shared across workers.
///
/// A worker pays for a page's consumed capacity on the *next* acquire, so the
/// aggregate read rate converges on the ceiling without needing to know a page's
/// cost before issuing it. The balance never accrues beyond one second's worth of
/// burst or a single oversized request.
#[derive(Debug, Clone, Copy)]
pub struct TokenBucket {
    rate: u128,
    available: u128,
    last_refill: u64,
}

impl View for TokenBucket {
    type V = Bucket;

    closed spec fn view(&self) -> Bucket {
        Bucket {
            rate: self.rate as nat,
            available: self.available as nat,
            last_refill: self.last_refill as nat,
        }
    }
}

impl TokenBucket {
    #[verifier::type_invariant]
    spec fn well_formed(self) -> bool {
        self.rate <= MAX_RATE
    }

    /// An empty bucket at the time `now`.
    pub fn new(rate: u128, now: u64) -> (r: Self)
        requires
            rate <= MAX_RATE,
        ensures
            r@ == (Bucket { rate: rate as nat, available: 0, last_refill: now as nat }),
    {
        TokenBucket { rate, available: 0, last_refill: now }
    }

    /// Whether `permits` can ever be granted: without a refill they have to be there.
    pub fn can_grant(&self, permits: u128) -> (r: bool)
        ensures
            r == (self@.rate > 0 || permits <= self@.available),
    {
        self.rate > 0 || permits <= self.available
    }

    /// Takes `permits` at the time `now` if they are available; else says how many
    /// nanoseconds to wait before asking again.
    pub fn acquire(&mut self, now: u64, permits: u128) -> (r: Option<u128>)
        requires
            old(self)@.rate > 0 || permits <= old(self)@.available,
        ensures
            final(self)@ == old(self)@.asked(now as nat, permits as nat),
            match r {
                None => old(self)@.grants(now as nat, permits as nat),
                Some(wait) => !old(self)@.grants(now as nat, permits as nat) && wait
                    == old(self)@.wait(now as nat, permits as nat),
            },
    {
        proof {
            use_type_invariant(&*self);
        }
        let ghost before = self@;
        let elapsed: u128 = if now >= self.last_refill {
            (now - self.last_refill) as u128
        } else {
            0
        };
        assert(self.rate * NANOS_PER_SEC <= MAX_RATE * NANOS_PER_SEC) by (nonlinear_arith)
            requires
                self.rate <= MAX_RATE,
        ;
        let second: u128 = self.rate * NANOS_PER_SEC as u128;
        let ceiling: u128 = if second >= permits {
            second
        } else {
            permits
        };
        let mut balance: u128 = ceiling;
        if let Some(gain) = elapsed.checked_mul(self.rate) {
            if let Some(total) = self.available.checked_add(gain) {
                if total <= ceiling {
                    balance = total;
                }
            }
        }
        assert(balance == before.refilled(now as nat, permits as nat));
        self.last_refill = now;
        if balance >= permits {
            self.available = balance - permits;
            None
        } else {
            self.available = balance;
            proof {
                if before.rate == 0 {
                    assert(elapsed * before.rate == 0) by (nonlinear_arith)
                        requires
                            before.rate == 0,
                    ;
                    assert(false);
                }
            }
            let short: u128 = permits - balance;
            let whole: u128 = short / self.rate;
            let rest: u128 = short % self.rate;
            proof {
                lemma_ceiling_division(short as int, self.rate as int);
                assert(whole <= short) by (nonlinear_arith)
                    requires
                        whole == short / self.rate,
                        self.rate > 0,
                ;
                if rest > 0 && whole == u128::MAX {
                    assert(whole == short);
                    assert(short == whole * self.rate + rest) by (nonlinear_arith)
                        requires
                            whole == short / self.rate,
                            rest == short % self.rate,
                            self.rate > 0,
                    ;
                    assert(whole * self.rate >= whole) by (nonlinear_arith)
                        requires
                            self.rate >= 1,
                    ;
                    assert(false);
                }
            }
            if rest > 0 {
                Some(whole + 1)
            } else {
                Some(whole)
            }
        }
    }
}

/// Division rounded up.
proof fn lemma_ceiling_division(a: int, b: int)
    requires
        a >= 0,
        b > 0,
    ensures
        a % b > 0 ==> (a + b - 1) / b == a / b + 1,
        a % b == 0 ==> (a + b - 1) / b == a / b,
{
    let q = a / b;
    let m = a % b;
    assert(a == q * b + m && 0 <= m < b) by (nonlinear_arith)
        requires
            q == a / b,
            m == a % b,
            b > 0,
    ;
    if m > 0 {
        assert((a + b - 1) / b == q + 1) by (nonlinear_arith)
            requires
                a == q * b + m,
                0 < m < b,
        ;
    } else {
        assert((a + b - 1) / b == q) by (nonlinear_arith)
            requires
                a == q * b,
                b > 0,
        ;
    }
}

/// A shared rate limiter, or a no-op when unlimited.
#[derive(Debug, Clone, Copy)]
pub struct RateLimiter {
    bucket: Option<TokenBucket>,
}

impl View for RateLimiter {
    type V = Option<Bucket>;

    closed spec fn view(&self) -> Option<Bucket> {
        match self.bucket {
            Some(bucket) => Some(bucket@),
            None => None,
        }
    }
}

impl RateLimiter {
    /// A limiter at the given ceiling, in hundredths of an RCU per second, from the
    /// time `now` on.
    pub fn new(ceiling: Option<u128>, now: u64) -> (r: Self)
        requires
            ceiling matches Some(rate) ==> rate <= MAX_RATE,
        ensures
            r@ == (match ceiling {
                Some(rate) => Some(
                    Bucket { rate: rate as nat, available: 0, last_refill: now as nat },
                ),
                None => None,
            }),
    {
        match ceiling {
            Some(rate) => RateLimiter { bucket: Some(TokenBucket::new(rate, now)) },
            None => RateLimiter { bucket: None },
        }
    }

    /// Whether `permits` can ever be granted.
    pub fn can_grant(&self, permits: u128) -> (r: bool)
        ensures
            r == (self@ matches Some(bucket) ==> bucket.rate > 0 || permits <= bucket.available),
    {
        match &self.bucket {
            Some(bucket) => bucket.can_grant(permits),
            None => true,
        }
    }

    /// Takes `permits` at the time `now`, or says how many nanoseconds to wait;
    /// immediate when unlimited.
    pub fn acquire(&mut self, now: u64, permits: u128) -> (r: Option<u128>)
        requires
            old(self)@ matches Some(bucket) ==> bucket.rate > 0 || permits <= bucket.available,
        ensures
            match old(self)@ {
                Some(bucket) => {
                    &&& final(self)@ == Some(bucket.asked(now as nat, permits as nat))
                    &&& match r {
                        None => bucket.grants(now as nat, permits as nat),
                        Some(wait) => !bucket.grants(now as nat, permits as nat) && wait
                            == bucket.wait(now as nat, permits as nat),
                    }
                },
                None => r is None && final(self)@ is None,
            },
    {
        match self.bucket {
            Some(held) => {
                let mut bucket = held;
                let r = bucket.acquire(now, permits);
                self.bucket = Some(bucket);
                r
            },
            None => None,
        }
    }
}

/// The bucket after a series of requests, each a time and a number of permits.
pub open spec fn after(bucket: Bucket, asks: Seq<(nat, nat)>) -> Bucket
    decreases asks.len(),
{
    if asks.len() == 0 {
        bucket
    } else {
        after(bucket, asks.drop_last()).asked(asks.last().0, asks.last().1)
    }
}

/// The permits granted over a series of requests.
pub open spec fn granted(bucket: Bucket, asks: Seq<(nat, nat)>) -> nat
    decreases asks.len(),
{
    if asks.len() == 0 {
        0
    } else {
        granted(bucket, asks.drop_last()) + if after(bucket, asks.drop_last()).grants(
            asks.last().0,
            asks.last().1,
        ) {
            asks.last().1
        } else {
            0
        }
    }
}

/// The requests come one after the other, none before the bucket's last refill.
pub open spec fn in_order(bucket: Bucket, asks: Seq<(nat, nat)>) -> bool
    decreases asks.len(),
{
    asks.len() > 0 ==> in_order(bucket, asks.drop_last()) && after(
        bucket,
        asks.drop_last(),
    ).last_refill <= asks.last().0
}

/// The aggregate stays under the ceiling: whatever the workers ask for and whenever,
/// what they are granted together is no more than what was there at first and what
/// came in at the bucket's rate since.
pub proof fn law_grants_stay_under_the_ceiling(bucket: Bucket, asks: Seq<(nat, nat)>)
    requires
        in_order(bucket, asks),
    ensures
        bucket.last_refill <= after(bucket, asks).last_refill,
        granted(bucket, asks) + after(bucket, asks).available <= bucket.available + bucket.rate * (
        after(bucket, asks).last_refill - bucket.last_refill),
    decreases asks.len(),
{
    if asks.len() == 0 {
        assert(bucket.rate * 0 == 0) by (nonlinear_arith);
    } else {
        let rest = asks.drop_last();
        law_grants_stay_under_the_ceiling(bucket, rest);
        lemma_rate_is_kept(bucket, rest);
        let mid = after(bucket, rest);
        let now = asks.last().0;
        let elapsed = now - mid.last_refill;
        let rate = bucket.rate as int;
        assert(rate * (now - bucket.last_refill) == rate * (mid.last_refill - bucket.last_refill)
            + elapsed * rate) by (nonlinear_arith)
            requires
                elapsed == now - mid.last_refill,
        ;
    }
}

proof fn lemma_rate_is_kept(bucket: Bucket, asks: Seq<(nat, nat)>)
    ensures
        after(bucket, asks).rate == bucket.rate,
    decreases asks.len(),
{
    if asks.len() > 0 {
        lemma_rate_is_kept(bucket, asks.drop_last());
    }
}

/// A worker that waits as long as it was told is served on its next try, if nobody
/// else asked in between.
pub proof fn law_waiting_is_enough(bucket: Bucket, now: nat, permits: nat)
    requires
        bucket.rate > 0,
        !bucket.grants(now, permits),
    ensures
        bucket.asked(now, permits).grants(now + bucket.wait(now, permits), permits),
{
    let balance = bucket.refilled(now, permits);
    let short = permits - balance;
    let rate = bucket.rate as int;
    let wait = bucket.wait(now, permits);
    assert(wait * rate >= short) by (nonlinear_arith)
        requires
            wait == (short + rate - 1) / rate,
            rate > 0,
            short > 0,
    ;
}

/// A bucket never holds more than one second's worth, or the last request if that
/// was larger.
pub proof fn law_burst_is_bounded(bucket: Bucket, now: nat, permits: nat)
    ensures
        bucket.asked(now, permits).available <= burst(bucket.rate, permits),
{
}

/// Nothing to pay, nothing to wait for.
pub proof fn law_zero_permits_are_immediate(bucket: Bucket, now: nat)
    ensures
        bucket.grants(now, 0),
{
}

/// Adds the cost of one page to a running total.
pub fn add_consumed(total: u128, page: Option<u128>) -> (r: u128)
    ensures
        r == (if total + page_cost(page) <= u128::MAX {
            total + page_cost(page)
        } else {
            u128::MAX as int
        }),
{
    total.saturating_add(page.unwrap_or(0))
}

/// What a page cost; a page that reports nothing cost nothing.
pub open spec fn page_cost(page: Option<u128>) -> u128 {
    match page {
        Some(units) => units,
        None => 0,
    }
}

/// What a segment worker is doing.
#[derive(Debug, Clone, Copy, PartialEq, Eq, Structural)]
pub enum Phase {
    /// Waiting for the rate limiter.
    Acquiring,
    /// Waiting for a page.
    Scanning,
    /// Handing the items of a page downstream.
    Delivering,
    /// Handing a failure downstream.
    Reporting,
    /// Done.
    Stopped,
}

/// What happened to a segment worker.
#[derive(Debug)]
pub enum WorkerEvent<E> {
    /// The rate limiter granted the permits.
    Acquired,
    /// The scan was answered.
    Response(Result<ScanResponse, E>),
    /// The consumer took what was delivered.
    Delivered,
    /// The consumer is gone.
    ReceiverGone,
    /// The scan was cancelled while the worker waited for permits or for a page.
    Cancelled,
}

/// What a segment worker wants done next.
#[derive(Debug, PartialEq)]
pub enum WorkerAction<E> {
    /// Wait until the rate limiter grants so many units.
    Acquire(u128),
    /// Issue this scan.
    Scan(ScanRequest),
    /// Hand this to the consumer.
    Deliver(Result<ScannedItem, E>),
    /// Nothing more: the segment has ended.
    Stop,
}

/// The mathematical value of a segment worker.
pub struct Worker {
    pub table: String,
    pub total_segments: u32,
    pub segment: u32,
    pub phase: Phase,
    /// Where the next page starts.
    pub cursor: Option<Item>,
    /// What the last page cost, to be paid before the next.
    pub pending: u128,
    /// Fetched items that were not handed over yet.
    pub queue: Seq<Item>,
}

/// The per-segment scan task: pages its segment to exhaustion, handing each item
/// downstream.
///
/// Before each scan the worker acquires permits equal to the previous page's cost.
/// The key at which a page ended is where the next one starts, until a page names
/// none. A page that was fetched is delivered before the worker stops, a failure is
/// forwarded before it stops, and it stops early once the consumer is gone.
#[derive(Debug)]
pub struct SegmentWorker {
    table: String,
    total_segments: u32,
    segment: u32,
    phase: Phase,
    cursor: Option<Item>,
    pending: u128,
    queue: VecDeque<Item>,
}

impl View for SegmentWorker {
    type V = Worker;

    closed spec fn view(&self) -> Worker {
        Worker {
            table: self.table,
            total_segments: self.total_segments,
            segment: self.segment,
            phase: self.phase,
            cursor: self.cursor,
            pending: self.pending,
            queue: self.queue@,
        }
    }
}

impl Worker {
    /// A worker at the start of its segment.
    pub open spec fn fresh(table: String, total_segments: u32, segment: u32) -> Worker {
        Worker {
            table,
            total_segments,
            segment,
            phase: Phase::Acquiring,
            cursor: None,
            pending: 0,
            queue: Seq::empty(),
        }
    }

    /// The event can happen to the worker as it is.
    pub open spec fn expects<E>(self, event: WorkerEvent<E>) -> bool {
        match event {
            WorkerEvent::Acquired => self.phase == Phase::Acquiring,
            WorkerEvent::Response(_) => self.phase == Phase::Scanning,
            WorkerEvent::Delivered => self.phase == Phase::Delivering || self.phase
                == Phase::Reporting,
            WorkerEvent::ReceiverGone => self.phase == Phase::Delivering || self.phase
                == Phase::Reporting,
            WorkerEvent::Cancelled => self.phase == Phase::Acquiring || self.phase
                == Phase::Scanning,
        }
    }

    /// The scan of the next page.
    pub open spec fn request(self) -> ScanRequest {
        ScanRequest {
            table: self.table,
            total_segments: self.total_segments,
            segment: self.segment,
            exclusive_start_key: self.cursor,
            return_consumed_capacity: true,
        }
    }

    /// The worker in another phase.
    pub open spec fn in_phase(self, phase: Phase) -> Worker {
        Worker { phase, ..self }
    }

    /// With a page at hand: the next item, else the next page, else the end.
    pub open spec fn advanced<E>(self) -> (Worker, WorkerAction<E>) {
        if self.queue.len() > 0 {
            (
                Worker {
                    phase: Phase::Delivering,
                    queue: self.queue.subrange(1, self.queue.len() as int),
                    ..self
                },
                WorkerAction::Deliver(Ok(ScannedItem { segment: self.segment, item: self.queue[0] })),
            )
        } else if self.cursor is Some {
            (self.in_phase(Phase::Acquiring), WorkerAction::Acquire(self.pending))
        } else {
            (self.in_phase(Phase::Stopped), WorkerAction::Stop)
        }
    }

    /// What the worker becomes after the event, and what it wants done.
    pub open spec fn next<E>(self, event: WorkerEvent<E>) -> (Worker, WorkerAction<E>) {
        match event {
            WorkerEvent::Acquired => (
                Worker { phase: Phase::Scanning, cursor: None, ..self },
                WorkerAction::Scan(self.request()),
            ),
            WorkerEvent::Response(Ok(response)) => (Worker {
                cursor: response.last_evaluated_key,
                pending: page_cost(response.consumed_rcu),
                queue: response.items@,
                ..self
            }).advanced(),
            WorkerEvent::Response(Err(error)) => (
                self.in_phase(Phase::Reporting),
                WorkerAction::Deliver(Err(error)),
            ),
            WorkerEvent::Delivered => if self.phase == Phase::Reporting {
                (self.in_phase(Phase::Stopped), WorkerAction::Stop)
            } else {
                self.advanced()
            },
            WorkerEvent::ReceiverGone => (self.in_phase(Phase::Stopped), WorkerAction::Stop),
            WorkerEvent::Cancelled => (self.in_phase(Phase::Stopped), WorkerAction::Stop),
        }
    }
}

impl SegmentWorker {
    /// A worker for one segment.
    pub fn new(table: &String, total_segments: u32, segment: u32) -> (r: Self)
        ensures
            r@ == Worker::fresh(*table, total_segments, segment),
    {
        let r = SegmentWorker {
            table: table.clone(),
            total_segments,
            segment,
            phase: Phase::Acquiring,
            cursor: None,
            pending: 0,
            queue: VecDeque::new(),
        };
        assert(r@.queue =~= Seq::empty());
        r
    }

    /// What the worker is doing.
    pub fn phase(&self) -> (r: Phase)
        ensures
            r == self@.phase,
    {
        self.phase
    }

    /// The first thing a worker wants: to acquire nothing, so that cancellation is
    /// looked at before the first scan.
    pub fn start<E>(&self) -> (r: WorkerAction<E>)
        ensures
            r == WorkerAction::<E>::Acquire(self@.pending),
    {
        WorkerAction::Acquire(self.pending)
    }

    /// Takes note of what happened and says what to do next.
    pub fn step<E>(&mut self, event: WorkerEvent<E>) -> (r: WorkerAction<E>)
        requires
            old(self)@.expects(event),
        ensures
            (final(self)@, r) == old(self)@.next(event),
    {
        match event {
            WorkerEvent::Acquired => {
                self.phase = Phase::Scanning;
                let request = ScanRequest {
                    table: self.table.clone(),
                    total_segments: self.total_segments,
                    segment: self.segment,
                    exclusive_start_key: self.cursor.take(),
                    return_consumed_capacity: true,
                };
                WorkerAction::Scan(request)
            },
            WorkerEvent::Response(Ok(response)) => {
                self.cursor = response.last_evaluated_key;
                self.pending = response.consumed_rcu.unwrap_or(0);
                self.queue = queue_of(response.items);
                self.advance()
            },
            WorkerEvent::Response(Err(error)) => {
                self.phase = Phase::Reporting;
                WorkerAction::Deliver(Err(error))
            },
            WorkerEvent::Delivered => {
                if self.phase == Phase::Reporting {
                    self.phase = Phase::Stopped;
                    WorkerAction::Stop
                } else {
                    self.advance()
                }
            },
            WorkerEvent::ReceiverGone => {
                self.phase = Phase::Stopped;
                WorkerAction::Stop
            },
            WorkerEvent::Cancelled => {
                self.phase = Phase::Stopped;
                WorkerAction::Stop
            },
        }
    }

    fn advance<E>(&mut self) -> (r: WorkerAction<E>)
        ensures
            (final(self)@, r) == old(self)@.advanced::<E>(),
    {
        match self.queue.pop_front() {
            Some(item) => {
                self.phase = Phase::Delivering;
                WorkerAction::Deliver(Ok(ScannedItem { segment: self.segment, item }))
            },
            None => {
                if self.cursor.is_some() {
                    self.phase = Phase::Acquiring;
                    WorkerAction::Acquire(self.pending)
                } else {
                    self.phase = Phase::Stopped;
                    WorkerAction::Stop
                }
            },
        }
    }
}

/// The items as a queue, first item first.
fn queue_of(items: Vec<Item>) -> (r: VecDeque<Item>)
    ensures
        r@ == items@,
{
    let ghost all = items@;
    let mut items = items;
    let mut queue: VecDeque<Item> = VecDeque::new();
    while items.len() > 0
        invariant
            all =~= items@ + queue@,
        decreases items@.len(),
    {
        if let Some(item) = items.pop() {
            queue.push_front(item);
        }
    }
    queue
}

/// The number of segments of a scan, a number of 32 bits.
pub open spec fn segment_count(config: ScanConfig) -> u32 {
    (config.segments as int % 0x1_0000_0000) as u32
}

/// The number of segments of a scan, a number of 32 bits.
pub fn total_segments(config: &ScanConfig) -> (r: u32)
    ensures
        r == segment_count(*config),
{
    let segments: u64 = config.segments as u64;
    assert(segments as u32 == segments % 0x1_0000_0000) by (bit_vector);
    #[verifier::truncate]
    (segments as u32)
}

/// One worker per segment of the scan, each with its own segment number and the
/// total.
pub fn segment_workers(config: &ScanConfig) -> (r: Vec<SegmentWorker>)
    ensures
        r@.len() == segment_count(*config),
        forall|i: int|
            0 <= i < r@.len() ==> (#[trigger] r@[i])@ == Worker::fresh(
                config.table,
                segment_count(*config),
                i as u32,
            ),
{
    let total_segments: u32 = total_segments(config);
    let mut workers: Vec<SegmentWorker> = Vec::new();
    let mut segment: u32 = 0;
    while segment < total_segments
        invariant
            segment <= total_segments,
            workers@.len() == segment,
            forall|i: int|
                0 <= i < segment ==> (#[trigger] workers@[i])@ == Worker::fresh(
                    config.table,
                    total_segments,
                    i as u32,
                ),
        decreases total_segments - segment,
    {
        workers.push(SegmentWorker::new(&config.table, total_segments, segment));
        segment += 1;
    }
    workers
}

/// The worker after a series of events, and everything it wanted done on the way.
pub open spec fn run<E>(worker: Worker, events: Seq<WorkerEvent<E>>) -> (Worker, Seq<
    WorkerAction<E>,
>)
    decreases events.len(),
{
    if events.len() == 0 {
        (worker, Seq::empty())
    } else {
        let (mid, actions) = run(worker, events.drop_last());
        let (end, action) = mid.next(events.last());
        (end, actions.push(action))
    }
}

/// The scans among the actions, in order.
pub open spec fn scans<E>(actions: Seq<WorkerAction<E>>) -> Seq<ScanRequest>
    decreases actions.len(),
{
    if actions.len() == 0 {
        Seq::empty()
    } else {
        match actions.last() {
            WorkerAction::Scan(request) => scans(actions.drop_last()).push(request),
            _ => scans(actions.drop_last()),
        }
    }
}

/// What the actions hand to the consumer, in order.
pub open spec fn deliveries<E>(actions: Seq<WorkerAction<E>>) -> Seq<Result<ScannedItem, E>>
    decreases actions.len(),
{
    if actions.len() == 0 {
        Seq::empty()
    } else {
        match actions.last() {
            WorkerAction::Deliver(delivery) => deliveries(actions.drop_last()).push(delivery),
            _ => deliveries(actions.drop_last()),
        }
    }
}

/// What happens to a worker whose next page is `page` and whose consumer takes
/// `taken` items of it.
pub open spec fn page_events<E>(page: ScanResponse, taken: nat) -> Seq<WorkerEvent<E>> {
    seq![WorkerEvent::Acquired, WorkerEvent::Response(Ok(page))] + Seq::new(
        taken,
        |i: int| WorkerEvent::Delivered,
    )
}

/// What happens to a worker whose segment holds `pages` and whose consumer takes
/// every item.
pub open spec fn segment_events<E>(pages: Seq<ScanResponse>) -> Seq<WorkerEvent<E>>
    decreases pages.len(),
{
    if pages.len() == 0 {
        Seq::empty()
    } else {
        segment_events(pages.drop_last()) + page_events(pages.last(), pages.last().items@.len())
    }
}

/// Items, each tagged with its segment.
pub open spec fn tagged<E>(segment: u32, items: Seq<Item>) -> Seq<Result<ScannedItem, E>> {
    items.map_values(|item: Item| Ok::<ScannedItem, E>(ScannedItem { segment, item }))
}

/// All items of a segment, page by page.
pub open spec fn items_of(pages: Seq<ScanResponse>) -> Seq<Item>
    decreases pages.len(),
{
    if pages.len() == 0 {
        Seq::empty()
    } else {
        items_of(pages.drop_last()) + pages.last().items@
    }
}

/// The scans that page a segment: the first from its start, each later one from
/// where the page before it ended.
pub open spec fn threaded_requests(worker: Worker, pages: Seq<ScanResponse>) -> Seq<ScanRequest> {
    Seq::new(
        pages.len(),
        |i: int|
            ScanRequest {
                exclusive_start_key: if i == 0 {
                    worker.cursor
                } else {
                    pages[i - 1].last_evaluated_key
                },
                ..worker.request()
            },
    )
}

proof fn lemma_run_append<E>(
    worker: Worker,
    first: Seq<WorkerEvent<E>>,
    second: Seq<WorkerEvent<E>>,
)
    ensures
        run(worker, first + second).0 == run(run(worker, first).0, second).0,
        run(worker, first + second).1 == run(worker, first).1 + run(
            run(worker, first).0,
            second,
        ).1,
    decreases second.len(),
{
    if second.len() == 0 {
        assert(first + second =~= first);
        assert(run(worker, first).1 + Seq::<WorkerAction<E>>::empty() =~= run(worker, first).1);
    } else {
        lemma_run_append(worker, first, second.drop_last());
        assert((first + second).drop_last() =~= first + second.drop_last());
        assert((first + second).last() == second.last());
        let mid = run(worker, first).0;
        assert(run(worker, first + second).1 =~= run(worker, first).1 + run(mid, second).1);
    }
}

proof fn lemma_trace_append<E>(first: Seq<WorkerAction<E>>, second: Seq<WorkerAction<E>>)
    ensures
        scans(first + second) == scans(first) + scans(second),
        deliveries(first + second) == deliveries(first) + deliveries(second),
    decreases second.len(),
{
    if second.len() == 0 {
        assert(first + second =~= first);
        assert(scans(first) + Seq::<ScanRequest>::empty() =~= scans(first));
        assert(deliveries(first) + Seq::<Result<ScannedItem, E>>::empty() =~= deliveries(first));
    } else {
        lemma_trace_append(first, second.drop_last());
        assert((first + second).drop_last() =~= first + second.drop_last());
        assert((first + second).last() == second.last());
        assert(scans(first + second) =~= scans(first) + scans(second));
        assert(deliveries(first + second) =~= deliveries(first) + deliveries(second));
    }
}

/// The worker once it has paged so far, with what is left of the page.
spec fn mid_page(worker: Worker, page: ScanResponse, taken: nat) -> Worker {
    let count = page.items@.len();
    Worker {
        phase: if taken < count {
            Phase::Delivering
        } else if page.last_evaluated_key is Some {
            Phase::Acquiring
        } else {
            Phase::Stopped
        },
        cursor: page.last_evaluated_key,
        pending: page_cost(page.consumed_rcu),
        queue: if taken < count {
            page.items@.skip(taken as int + 1)
        } else {
            Seq::empty()
        },
        ..worker
    }
}

/// One page: one scan from the cursor, then its items in order.
proof fn lemma_page<E>(worker: Worker, page: ScanResponse, taken: nat)
    requires
        worker.phase == Phase::Acquiring,
        worker.queue.len() == 0,
        taken <= page.items@.len(),
    ensures
        ({
            let (end, actions) = run(worker, page_events::<E>(page, taken));
            let count = page.items@.len();
            &&& end == mid_page(worker, page, taken)
            &&& scans(actions) == seq![worker.request()]
            &&& deliveries(actions) == tagged::<E>(
                worker.segment,
                page.items@.take(
                    if taken < count {
                        taken as int + 1
                    } else {
                        count as int
                    },
                ),
            )
        }),
    decreases taken,
{
    let events = page_events::<E>(page, taken);
    let items = page.items@;
    let (end, actions) = run(worker, events);
    let (mid, before) = run(worker, events.drop_last());
    assert(actions.drop_last() =~= before);
    if taken == 0 {
        let acquired = seq![WorkerEvent::<E>::Acquired];
        assert(events.drop_last() =~= acquired);
        assert(acquired.drop_last() =~= Seq::empty());
        assert(run(worker, Seq::<WorkerEvent<E>>::empty()) == (
            worker,
            Seq::<WorkerAction<E>>::empty(),
        ));
        assert(run(worker, acquired).1 =~= seq![WorkerAction::<E>::Scan(worker.request())]);
        assert(before.drop_last() =~= Seq::empty());
        assert(scans(before.drop_last()) =~= Seq::empty());
        assert(scans(before) =~= seq![worker.request()]);
        assert(deliveries(before.drop_last()) =~= Seq::empty());
        assert(deliveries(before) =~= Seq::empty());
        assert(events.last() == WorkerEvent::<E>::Response(Ok(page)));
        if items.len() > 0 {
            assert(items.subrange(1, items.len() as int) =~= items.skip(1));
            assert(deliveries(actions) =~= tagged::<E>(worker.segment, items.take(1)));
        } else {
            assert(end.queue =~= Seq::empty());
            assert(deliveries(actions) =~= tagged::<E>(worker.segment, items.take(0)));
        }
    } else {
        let prior = (taken - 1) as nat;
        lemma_page::<E>(worker, page, prior);
        assert(events.drop_last() =~= page_events::<E>(page, prior));
        assert(events.last() == WorkerEvent::<E>::Delivered);
        assert(mid == mid_page(worker, page, prior));
        if taken < items.len() {
            let queue = items.skip(taken as int);
            assert(queue.subrange(1, queue.len() as int) =~= items.skip(taken as int + 1));
            assert(deliveries(actions) =~= tagged::<E>(
                worker.segment,
                items.take(taken as int + 1),
            ));
        } else {
            assert(mid.queue =~= Seq::empty());
            assert(deliveries(actions) =~= tagged::<E>(
                worker.segment,
                items.take(items.len() as int),
            ));
        }
    }
}

/// A segment is read whole and in order: over the pages of a segment, each naming
/// where the next one starts but the last, the worker issues one scan per page, each
/// from where the page before it ended, hands over every item of every page in
/// order, and stops.
pub proof fn law_segment_is_paged_to_exhaustion<E>(worker: Worker, pages: Seq<ScanResponse>)
    requires
        worker.phase == Phase::Acquiring,
        worker.queue.len() == 0,
        pages.len() > 0,
        forall|i: int|
            0 <= i < pages.len() - 1 ==> (#[trigger] pages[i]).last_evaluated_key is Some,
        pages.last().last_evaluated_key is None,
    ensures
        ({
            let (end, actions) = run(worker, segment_events::<E>(pages));
            &&& end.phase == Phase::Stopped
            &&& scans(actions) == threaded_requests(worker, pages)
            &&& deliveries(actions) == tagged::<E>(worker.segment, items_of(pages))
        }),
{
    let rest = pages.drop_last();
    let last = pages.last();
    lemma_pages::<E>(worker, rest);
    let (mid, before) = run(worker, segment_events::<E>(rest));
    lemma_page::<E>(mid, last, last.items@.len());
    let tail = page_events::<E>(last, last.items@.len());
    lemma_run_append(worker, segment_events::<E>(rest), tail);
    let after = run(mid, tail).1;
    lemma_trace_append(before, after);
    assert(last.items@.take(last.items@.len() as int) =~= last.items@);
    assert(scans(before + after) =~= threaded_requests(worker, pages));
    assert(deliveries(before + after) =~= tagged::<E>(worker.segment, items_of(pages)));
}

/// As long as every page names the next one, the worker is ready for another.
proof fn lemma_pages<E>(worker: Worker, pages: Seq<ScanResponse>)
    requires
        worker.phase == Phase::Acquiring,
        worker.queue.len() == 0,
        forall|i: int| 0 <= i < pages.len() ==> (#[trigger] pages[i]).last_evaluated_key is Some,
    ensures
        ({
            let (end, actions) = run(worker, segment_events::<E>(pages));
            &&& end.phase == Phase::Acquiring
            &&& end.queue.len() == 0
            &&& end.table == worker.table
            &&& end.total_segments == worker.total_segments
            &&& end.segment == worker.segment
            &&& end.cursor == (if pages.len() == 0 {
                worker.cursor
            } else {
                pages.last().last_evaluated_key
            })
            &&& scans(actions) == threaded_requests(worker, pages)
            &&& deliveries(actions) == tagged::<E>(worker.segment, items_of(pages))
        }),
    decreases pages.len(),
{
    if pages.len() == 0 {
        assert(threaded_requests(worker, pages) =~= Seq::empty());
        assert(tagged::<E>(worker.segment, items_of(pages)) =~= Seq::empty());
    } else {
        let rest = pages.drop_last();
        let last = pages.last();
        assert forall|i: int| 0 <= i < rest.len() implies (
        #[trigger] rest[i]).last_evaluated_key is Some by {
            assert(rest[i] == pages[i]);
        }
        lemma_pages::<E>(worker, rest);
        let (mid, before) = run(worker, segment_events::<E>(rest));
        lemma_page::<E>(mid, last, last.items@.len());
        let tail = page_events::<E>(last, last.items@.len());
        lemma_run_append(worker, segment_events::<E>(rest), tail);
        let after = run(mid, tail).1;
        lemma_trace_append(before, after);
        assert(last.items@.take(last.items@.len() as int) =~= last.items@);
        assert(scans(before + after) =~= threaded_requests(worker, pages));
        assert(deliveries(before + after) =~= tagged::<E>(worker.segment, items_of(pages)));
    }
}

/// A failed segment makes no further scan calls: the failure is handed over, and
/// whatever happens then, the worker stops and nothing more can happen to it.
pub proof fn law_failure_ends_the_segment<E>(worker: Worker, error: E, event: WorkerEvent<E>)
    requires
        worker.expects(WorkerEvent::<E>::Response(Err(error))),
    ensures
        ({
            let (failed, action) = worker.next(WorkerEvent::<E>::Response(Err(error)));
            &&& action == WorkerAction::<E>::Deliver(Err(error))
            &&& failed.expects(event) ==> failed.next(event) == (
                failed.in_phase(Phase::Stopped),
                WorkerAction::<E>::Stop,
            )
        }),
{
}

/// Nothing can happen to a worker that has stopped.
pub proof fn law_stopped_is_final<E>(worker: Worker, event: WorkerEvent<E>)
    requires
        worker.phase == Phase::Stopped,
    ensures
        !worker.expects(event),
{
}

/// Cancellation ends a worker that waits for permits or for a page without another
/// scan and without delivering anything.
pub proof fn law_cancel_issues_nothing<E>(worker: Worker)
    requires
        worker.expects(WorkerEvent::<E>::Cancelled),
    ensures
        worker.next(WorkerEvent::<E>::Cancelled) == (
            worker.in_phase(Phase::Stopped),
            WorkerAction::<E>::Stop,
        ),
{
}

/// A scan is issued only once the permits for the page before it were granted, and
/// it always asks for the capacity it consumes.
pub proof fn law_every_scan_was_paid_for<E>(worker: Worker, event: WorkerEvent<E>)
    requires
        worker.expects(event),
    ensures
        worker.next(event).1 matches WorkerAction::Scan(request) ==> {
            &&& event is Acquired
            &&& request.return_consumed_capacity
            &&& request.segment == worker.segment
            &&& request.total_segments == worker.total_segments
            &&& request.table == worker.table
        },
        worker.next(event).1 matches WorkerAction::Acquire(permits) ==> permits == worker.next(
            event,
        ).0.pending,
{
}

/// The permits that the actions ask for, in order.
pub open spec fn payments<E>(actions: Seq<WorkerAction<E>>) -> Seq<u128>
    decreases actions.len(),
{
    if actions.len() == 0 {
        Seq::empty()
    } else {
        match actions.last() {
            WorkerAction::Acquire(permits) => payments(actions.drop_last()).push(permits),
            _ => payments(actions.drop_last()),
        }
    }
}

proof fn lemma_payments_append<E>(first: Seq<WorkerAction<E>>, second: Seq<WorkerAction<E>>)
    ensures
        payments(first + second) == payments(first) + payments(second),
    decreases second.len(),
{
    if second.len() == 0 {
        assert(first + second =~= first);
        assert(payments(first) + Seq::<u128>::empty() =~= payments(first));
    } else {
        lemma_payments_append(first, second.drop_last());
        assert((first + second).drop_last() =~= first + second.drop_last());
        assert((first + second).last() == second.last());
        assert(payments(first + second) =~= payments(first) + payments(second));
    }
}

/// What one page makes the worker pay, once so many of its items were taken.
spec fn page_payment(page: ScanResponse, taken: nat) -> Seq<u128> {
    if taken == page.items@.len() && page.last_evaluated_key is Some {
        seq![
            match page.consumed_rcu {
                Some(units) => units,
                None => 0,
            },
        ]
    } else {
        Seq::empty()
    }
}

proof fn lemma_page_payment<E>(worker: Worker, page: ScanResponse, taken: nat)
    requires
        worker.phase == Phase::Acquiring,
        worker.queue.len() == 0,
        taken <= page.items@.len(),
    ensures
        payments(run(worker, page_events::<E>(page, taken)).1) == page_payment(page, taken),
    decreases taken,
{
    let events = page_events::<E>(page, taken);
    let (end, actions) = run(worker, events);
    let (mid, before) = run(worker, events.drop_last());
    assert(actions.drop_last() =~= before);
    if taken == 0 {
        let acquired = seq![WorkerEvent::<E>::Acquired];
        assert(events.drop_last() =~= acquired);
        assert(acquired.drop_last() =~= Seq::empty());
        assert(run(worker, Seq::<WorkerEvent<E>>::empty()) == (
            worker,
            Seq::<WorkerAction<E>>::empty(),
        ));
        assert(run(worker, acquired).1 =~= seq![WorkerAction::<E>::Scan(worker.request())]);
        assert(before.drop_last() =~= Seq::empty());
        assert(payments(before.drop_last()) =~= Seq::empty());
        assert(payments(before) =~= Seq::empty());
        assert(events.last() == WorkerEvent::<E>::Response(Ok(page)));
    } else {
        let prior = (taken - 1) as nat;
        lemma_page_payment::<E>(worker, page, prior);
        lemma_page::<E>(worker, page, prior);
        assert(events.drop_last() =~= page_events::<E>(page, prior));
        assert(events.last() == WorkerEvent::<E>::Delivered);
        assert(mid == mid_page(worker, page, prior));
    }
    assert(payments(actions) =~= page_payment(page, taken));
}

/// Every page is paid for in full before the next one is read: over pages that each
/// name the next, the permits that the worker asks for are exactly what each page
/// reported to have consumed, in order, and nothing for a page that reported none.
pub proof fn law_every_page_is_paid_in_full<E>(worker: Worker, pages: Seq<ScanResponse>)
    requires
        worker.phase == Phase::Acquiring,
        worker.queue.len() == 0,
        forall|i: int| 0 <= i < pages.len() ==> (#[trigger] pages[i]).last_evaluated_key is Some,
    ensures
        payments(run(worker, segment_events::<E>(pages)).1) == Seq::new(
            pages.len(),
            |i: int|
                match pages[i].consumed_rcu {
                    Some(units) => units,
                    None => 0u128,
                },
        ),
    decreases pages.len(),
{
    let due = Seq::new(
        pages.len(),
        |i: int|
            match pages[i].consumed_rcu {
                Some(units) => units,
                None => 0u128,
            },
    );
    if pages.len() == 0 {
        assert(due =~= Seq::empty());
    } else {
        let rest = pages.drop_last();
        let last = pages.last();
        assert forall|i: int| 0 <= i < rest.len() implies (
        #[trigger] rest[i]).last_evaluated_key is Some by {
            assert(rest[i] == pages[i]);
        }
        assert(pages[pages.len() - 1].last_evaluated_key is Some);
        law_every_page_is_paid_in_full::<E>(worker, rest);
        lemma_pages::<E>(worker, rest);
        let (mid, before) = run(worker, segment_events::<E>(rest));
        let tail = page_events::<E>(last, last.items@.len());
        lemma_page_payment::<E>(mid, last, last.items@.len());
        lemma_run_append(worker, segment_events::<E>(rest), tail);
        lemma_payments_append(before, run(mid, tail).1);
        assert(payments(run(worker, segment_events::<E>(pages)).1) =~= due);
    }
}

/// The last page of a segment asks for nothing more: over a whole segment the worker
/// pays for every page but the last.
pub proof fn law_last_page_ends_the_payments<E>(worker: Worker, pages: Seq<ScanResponse>)
    requires
        worker.phase == Phase::Acquiring,
        worker.queue.len() == 0,
        pages.len() > 0,
        forall|i: int|
            0 <= i < pages.len() - 1 ==> (#[trigger] pages[i]).last_evaluated_key is Some,
        pages.last().last_evaluated_key is None,
    ensures
        payments(run(worker, segment_events::<E>(pages)).1) == Seq::new(
            (pages.len() - 1) as nat,
            |i: int|
                match pages[i].consumed_rcu {
                    Some(units) => units,
                    None => 0u128,
                },
        ),
{
    let rest = pages.drop_last();
    let last = pages.last();
    lemma_pages::<E>(worker, rest);
    law_every_page_is_paid_in_full::<E>(worker, rest);
    let (mid, before) = run(worker, segment_events::<E>(rest));
    let tail = page_events::<E>(last, last.items@.len());
    lemma_page_payment::<E>(mid, last, last.items@.len());
    lemma_run_append(worker, segment_events::<E>(rest), tail);
    lemma_payments_append(before, run(mid, tail).1);
    assert(payments(run(worker, segment_events::<E>(pages)).1) =~= Seq::new(
        (pages.len() - 1) as nat,
        |i: int|
            match pages[i].consumed_rcu {
                Some(units) => units,
                None => 0u128,
            },
    ));
}

/// The scans of a segment read it from its start to its end: the first has no start
/// key, each later one starts where the page before it ended, and all are of the
/// worker's table and segment and ask what they consume.
pub proof fn law_scans_are_threaded<E>(
    table: String,
    total_segments: u32,
    segment: u32,
    pages: Seq<ScanResponse>,
    i: int,
)
    requires
        pages.len() > 0,
        forall|k: int|
            0 <= k < pages.len() - 1 ==> (#[trigger] pages[k]).last_evaluated_key is Some,
        pages.last().last_evaluated_key is None,
        0 <= i < pages.len(),
    ensures
        ({
            let worker = Worker::fresh(table, total_segments, segment);
            let all = scans(run(worker, segment_events::<E>(pages)).1);
            &&& all.len() == pages.len()
            &&& all[i].table == table
            &&& all[i].total_segments == total_segments
            &&& all[i].segment == segment
            &&& all[i].return_consumed_capacity
            &&& i == 0 ==> all[i].exclusive_start_key is None
            &&& i > 0 ==> all[i].exclusive_start_key == pages[i - 1].last_evaluated_key
        }),
{
    law_segment_is_paged_to_exhaustion::<E>(Worker::fresh(table, total_segments, segment), pages);
}

/// Every item of a segment is handed over, page by page and in order, each under the
/// segment's number, and nothing else is.
pub proof fn law_items_are_handed_over_in_order<E>(
    table: String,
    total_segments: u32,
    segment: u32,
    pages: Seq<ScanResponse>,
)
    requires
        pages.len() > 0,
        forall|k: int|
            0 <= k < pages.len() - 1 ==> (#[trigger] pages[k]).last_evaluated_key is Some,
        pages.last().last_evaluated_key is None,
    ensures
        ({
            let worker = Worker::fresh(table, total_segments, segment);
            let handed = deliveries(run(worker, segment_events::<E>(pages)).1);
            let items = pages.flat_map(|page: ScanResponse| page.items@);
            &&& handed.len() == items.len()
            &&& forall|i: int|
                0 <= i < items.len() ==> #[trigger] handed[i] == Ok::<ScannedItem, E>(
                    ScannedItem { segment, item: items[i] },
                )
        }),
{
    law_segment_is_paged_to_exhaustion::<E>(Worker::fresh(table, total_segments, segment), pages);
    lemma_items_of(pages);
}

proof fn lemma_items_of(pages: Seq<ScanResponse>)
    ensures
        items_of(pages) == pages.flat_map(|page: ScanResponse| page.items@),
    decreases pages.len(),
{
    let f = |page: ScanResponse| page.items@;
    if pages.len() > 0 {
        lemma_items_of(pages.drop_last());
        pages.drop_last().lemma_flat_map_push(f, pages.last());
        assert(pages =~= pages.drop_last().push(pages.last()));
    } else {
        assert(items_of(pages) =~= pages.flat_map(f));
    }
}

/// A new worker waits for its first permits, owes nothing and holds nothing.
pub proof fn law_new_worker_owes_nothing(table: String, total_segments: u32, segment: u32)
    ensures
        ({
            let worker = Worker::fresh(table, total_segments, segment);
            &&& worker.phase == Phase::Acquiring
            &&& worker.pending == 0
            &&& worker.queue.len() == 0
            &&& worker.cursor is None
            &&& worker.table == table
            &&& worker.total_segments == total_segments
            &&& worker.segment == segment
        }),
{
}

/// A cancel reaches a worker that waits, a page that was fetched is delivered first,
/// and a consumer that is gone ends a worker that delivers.
pub proof fn law_fetched_pages_are_delivered_before_a_cancel<E>(worker: Worker)
    ensures
        worker.expects(WorkerEvent::<E>::Cancelled) <==> worker.phase == Phase::Acquiring
            || worker.phase == Phase::Scanning,
        worker.phase == Phase::Delivering || worker.phase == Phase::Reporting ==> {
            &&& worker.expects(WorkerEvent::<E>::Delivered)
            &&& worker.expects(WorkerEvent::<E>::ReceiverGone)
            &&& worker.next(WorkerEvent::<E>::ReceiverGone).0.phase == Phase::Stopped
            &&& worker.next(WorkerEvent::<E>::ReceiverGone).1 == WorkerAction::<E>::Stop
        },
        worker.phase == Phase::Acquiring ==> worker.expects(WorkerEvent::<E>::Acquired),
{
}

/// The bucket holds back nothing that came in: what is there at a request is what was
/// there and what came in since at the rate, as long as that is no more than a
/// second's worth or the request, and the request is granted exactly if that covers
/// it. What is not granted stays.
pub proof fn law_bucket_keeps_what_came_in(bucket: Bucket, now: nat, permits: nat)
    requires
        now >= bucket.last_refill,
    ensures
        ({
            let balance = bucket.available + (now - bucket.last_refill) * bucket.rate;
            let after = bucket.asked(now, permits);
            &&& bucket.grants(now, permits) <==> balance >= permits
            &&& after.rate == bucket.rate
            &&& after.last_refill == now
            &&& balance <= bucket.rate * 1_000_000_000 || balance <= permits ==> after.available
                == if balance >= permits {
                balance - permits
            } else {
                balance
            }
            &&& balance >= bucket.rate * 1_000_000_000 >= permits ==> after.available
                == bucket.rate * 1_000_000_000 - permits
        }),
{
    let elapsed = (now - bucket.last_refill) as nat;
    assert((now - bucket.last_refill) * bucket.rate == elapsed * bucket.rate);
    assert(elapsed * bucket.rate >= 0) by (nonlinear_arith);
}

/// The wait is no longer than it has to be: asking again any earlier is in vain.
pub proof fn law_wait_is_no_longer_than_needed(
    bucket: Bucket,
    now: nat,
    permits: nat,
    sooner: nat,
)
    requires
        bucket.rate > 0,
        !bucket.grants(now, permits),
        now >= bucket.last_refill,
        sooner < bucket.wait(now, permits),
    ensures
        !bucket.asked(now, permits).grants(now + sooner, permits),
{
    let short = permits - bucket.refilled(now, permits);
    let rate = bucket.rate as int;
    let wait = (short + rate - 1) / rate;
    assert(sooner * rate < short) by (nonlinear_arith)
        requires
            wait == (short + rate - 1) / rate,
            0 <= sooner < wait,
            rate > 0,
            short > 0,
    ;
    assert((sooner as nat) * bucket.rate == sooner * rate);
}

/// The ceiling is the percentage of the capacity: what a bucket at that rate takes in
/// over a second is so many hundredths of the provisioned units.
pub proof fn law_ceiling_is_the_percentage_of_the_capacity(rcu: u64, percent: u8)
    ensures
        100 * (ceiling_rate(rcu, percent) * NANOS_PER_SEC) == rcu * percent * UNITS_PER_RCU,
        percent == 100 ==> ceiling_rate(rcu, percent) * NANOS_PER_SEC == rcu * UNITS_PER_RCU,
        ceiling_rate(rcu, percent) == 0 <==> rcu == 0 || percent == 0,
{
    let rate = ceiling_rate(rcu, percent) as int;
    assert(rcu * percent >= 0) by (nonlinear_arith);
    assert(100 * (rate * 1_000_000_000) == rate * 100_000_000_000) by (nonlinear_arith);
    if percent == 100 {
        assert(rcu * 100 * 1_000_000_000 == rcu * 100_000_000_000) by (nonlinear_arith);
    }
    assert(rcu * percent == 0 <==> rcu == 0 || percent == 0) by (nonlinear_arith);
}

/// A page costs what it reports, and nothing if it reports nothing.
pub proof fn law_pages_cost_what_they_report(units: u128)
    ensures
        page_cost(Some(units)) == units,
        page_cost(None) == 0,
{
}

/// A scan has as many segments as the config says.
pub proof fn law_segments_are_as_configured(config: ScanConfig)
    requires
        config.segments <= u32::MAX,
    ensures
        segment_count(config) == config.segments,
{
}

/// What the permits of a series come to.
pub open spec fn total(permits: Seq<u128>) -> nat
    decreases permits.len(),
{
    if permits.len() == 0 {
        0
    } else {
        total(permits.drop_last()) + permits.last() as nat
    }
}

/// The capacity that a segment consumes stays under the ceiling: once a bucket that
/// started empty has granted every payment for the pages so far, one after the other,
/// those pages together consumed no more than what came in at its rate since.
pub proof fn law_consumption_stays_under_the_ceiling<E>(
    worker: Worker,
    pages: Seq<ScanResponse>,
    bucket: Bucket,
    asks: Seq<(nat, nat)>,
)
    requires
        worker.phase == Phase::Acquiring,
        worker.queue.len() == 0,
        forall|i: int| 0 <= i < pages.len() ==> (#[trigger] pages[i]).last_evaluated_key is Some,
        bucket.available == 0,
        in_order(bucket, asks),
        granted(bucket, asks) >= total(payments(run(worker, segment_events::<E>(pages)).1)),
    ensures
        total(
            Seq::new(
                pages.len(),
                |i: int|
                    match pages[i].consumed_rcu {
                        Some(units) => units,
                        None => 0u128,
                    },
            ),
        ) <= bucket.rate * (after(bucket, asks).last_refill - bucket.last_refill),
{
    law_every_page_is_paid_in_full::<E>(worker, pages);
    law_grants_stay_under_the_ceiling(bucket, asks);
}

} // verus!

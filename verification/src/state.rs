//! State and progress aggregator: counters, rolling window, rates.
//!
//! Memory is bounded regardless of the number of violations: the feed keeps a fixed
//! rolling window of the last [`ROLLING_WINDOW_CAP`] violations, and tallies are one
//! counter per category. Counters are 64 bits wide and wrap around.
//!
//! Rates are over a trailing window, sampled in [`Aggregator::snapshot`] from the
//! cumulative counters. The [`Clock`] is injectable so that time-derived fields can
//! be driven deterministically.

use std::collections::VecDeque;
use vstd::prelude::*;
use crate::rules::{Violation, ViolationCategory};

verus! {

/// Fixed cap on the in-memory violation feed.
pub const ROLLING_WINDOW_CAP: usize = 1000;

/// Trailing window over which rates are averaged, in nanoseconds.
pub const RATE_WINDOW: u64 = 5_000_000_000;

/// A monotonic time source, in nanoseconds from a start of its own.
pub trait Clock: Send + Sync {
    fn now(&self) -> u64;
}

/// `now` is what `clock` may read.
pub open spec fn clock_reads<C: Clock>(clock: C, now: u64) -> bool {
    call_ensures(C::now, (&clock,), now)
}

/// `std::time::Instant`, a point in time on the machine's monotonic clock.
#[verifier::external_type_specification]
#[verifier::external_body]
pub struct ExInstant(std::time::Instant);

/// `Instant::now` reads the machine's monotonic clock; nothing is promised of the
/// reading.
#[verifier::external_body]
fn instant_now() -> std::time::Instant {
    std::time::Instant::now()
}

/// `Instant::elapsed` reads how much time has passed since `start`, here as whole
/// nanoseconds; nothing is promised of the reading.
#[verifier::external_body]
fn nanos_since(start: &std::time::Instant) -> u64 {
    start.elapsed().as_nanos() as u64
}

/// The machine's clock, used in production.
#[derive(Debug, Clone, Copy)]
pub struct SystemClock {
    start: std::time::Instant,
}

/// `clock` starts at what the machine's clock may read.
pub closed spec fn machine_starts(clock: SystemClock) -> bool {
    call_ensures(instant_now, (), clock.start)
}

/// `now` is what the machine's clock may read, in nanoseconds from the start of
/// `clock`.
pub closed spec fn machine_reads(clock: SystemClock, now: u64) -> bool {
    call_ensures(nanos_since, (&clock.start,), now)
}

impl SystemClock {
    /// A clock that starts now.
    pub fn new() -> (r: Self)
        ensures
            machine_starts(r),
    {
        SystemClock { start: instant_now() }
    }
}

impl Clock for SystemClock {
    fn now(&self) -> (r: u64)
        ensures
            machine_reads(*self, r),
    {
        nanos_since(&self.start)
    }
}

/// How many violations of each category were recorded; a category without any has no
/// entry.
#[derive(Debug, Clone, Copy, PartialEq, Eq)]
pub struct CategoryCounts {
    type_mismatch: Option<u64>,
    size_exceeded: Option<u64>,
    missing_key: Option<u64>,
    ttl_missing: Option<u64>,
    ttl_wrong_type: Option<u64>,
    ttl_ms_magnitude: Option<u64>,
    ttl_malformed: Option<u64>,
    ttl_past_five_years: Option<u64>,
}

impl View for CategoryCounts {
    type V = Map<ViolationCategory, u64>;

    closed spec fn view(&self) -> Map<ViolationCategory, u64> {
        Map::new(
            |category: ViolationCategory| self.entry(category) is Some,
            |category: ViolationCategory| self.entry(category)->0,
        )
    }
}

/// One more, around the end of 64 bits.
pub open spec fn plus_one(n: u64) -> u64 {
    if n == u64::MAX {
        0
    } else {
        (n + 1) as u64
    }
}

/// The difference, around the end of 64 bits.
pub open spec fn less(n: u64, m: u64) -> u64 {
    if n >= m {
        (n - m) as u64
    } else {
        (n - m + 0x1_0000_0000_0000_0000) as u64
    }
}

/// The count of a category, zero if it has no entry.
pub open spec fn count_of(counts: Map<ViolationCategory, u64>, category: ViolationCategory) -> u64 {
    if counts.contains_key(category) {
        counts[category]
    } else {
        0
    }
}

impl CategoryCounts {
    spec fn entry(self, category: ViolationCategory) -> Option<u64> {
        match category {
            ViolationCategory::TypeMismatch => self.type_mismatch,
            ViolationCategory::SizeExceeded => self.size_exceeded,
            ViolationCategory::MissingKey => self.missing_key,
            ViolationCategory::TtlMissing => self.ttl_missing,
            ViolationCategory::TtlWrongType => self.ttl_wrong_type,
            ViolationCategory::TtlMsMagnitude => self.ttl_ms_magnitude,
            ViolationCategory::TtlMalformed => self.ttl_malformed,
            ViolationCategory::TtlPastFiveYears => self.ttl_past_five_years,
        }
    }

    /// No counts.
    pub fn new() -> (r: Self)
        ensures
            r@ == Map::<ViolationCategory, u64>::empty(),
    {
        let r = CategoryCounts {
            type_mismatch: None,
            size_exceeded: None,
            missing_key: None,
            ttl_missing: None,
            ttl_wrong_type: None,
            ttl_ms_magnitude: None,
            ttl_malformed: None,
            ttl_past_five_years: None,
        };
        assert(r@ =~= Map::<ViolationCategory, u64>::empty());
        r
    }

    /// The count of a category, if any violation of it was recorded.
    pub fn get(&self, category: ViolationCategory) -> (r: Option<u64>)
        ensures
            match r {
                Some(n) => self@.contains_key(category) && self@[category] == n,
                None => !self@.contains_key(category),
            },
    {
        match category {
            ViolationCategory::TypeMismatch => self.type_mismatch,
            ViolationCategory::SizeExceeded => self.size_exceeded,
            ViolationCategory::MissingKey => self.missing_key,
            ViolationCategory::TtlMissing => self.ttl_missing,
            ViolationCategory::TtlWrongType => self.ttl_wrong_type,
            ViolationCategory::TtlMsMagnitude => self.ttl_ms_magnitude,
            ViolationCategory::TtlMalformed => self.ttl_malformed,
            ViolationCategory::TtlPastFiveYears => self.ttl_past_five_years,
        }
    }

    /// Counts one more violation of a category.
    pub fn record(&mut self, category: ViolationCategory)
        ensures
            final(self)@ == old(self)@.insert(category, plus_one(count_of(old(self)@, category))),
    {
        let count: u64 = match self.get(category) {
            Some(n) => n,
            None => 0,
        };
        let next = Some(count.wrapping_add(1));
        match category {
            ViolationCategory::TypeMismatch => self.type_mismatch = next,
            ViolationCategory::SizeExceeded => self.size_exceeded = next,
            ViolationCategory::MissingKey => self.missing_key = next,
            ViolationCategory::TtlMissing => self.ttl_missing = next,
            ViolationCategory::TtlWrongType => self.ttl_wrong_type = next,
            ViolationCategory::TtlMsMagnitude => self.ttl_ms_magnitude = next,
            ViolationCategory::TtlMalformed => self.ttl_malformed = next,
            ViolationCategory::TtlPastFiveYears => self.ttl_past_five_years = next,
        }
        assert(self@ =~= old(self)@.insert(category, plus_one(count_of(old(self)@, category))));
    }
}

/// The cumulative counters at one moment.
#[derive(Debug, Clone, Copy, PartialEq)]
pub struct RateSample {
    pub at: u64,
    pub items: u64,
    pub rcu: u128,
}

/// What came in between two moments: so many items and units of read capacity in so
/// many nanoseconds. Only a span of time that is not empty has a rate.
#[derive(Debug, Clone, Copy, PartialEq)]
pub struct RateSpan {
    pub items: u64,
    pub rcu: u128,
    pub nanos: u64,
}

/// An immutable view of scan state for one render frame.
#[derive(Debug, Clone, PartialEq)]
pub struct StateSnapshot {
    pub items_scanned: u64,
    pub total_violations: u64,
    pub category_counts: CategoryCounts,
    pub per_segment_items: Vec<u64>,
    /// The read capacity consumed so far, in units of a hundred-billionth RCU.
    pub consumed_rcu: u128,
    /// What came in over the trailing window, once two samples span some time.
    pub rate: Option<RateSpan>,
    /// The time since the scan began, in nanoseconds.
    pub elapsed: u64,
    /// The estimated time to the end in nanoseconds, once items come in.
    pub eta: Option<u128>,
    pub item_count: u64,
    pub recent_violations: Vec<Violation>,
}

/// The mathematical value of an aggregator.
pub struct Progress {
    pub started_at: u64,
    pub item_count: u64,
    pub items: u64,
    pub per_segment: Seq<u64>,
    pub violations: u64,
    pub consumed: u128,
    pub counts: Map<ViolationCategory, u64>,
    pub window: Seq<Violation>,
    pub samples: Seq<RateSample>,
}

/// `later - earlier`, or zero if the clock went back.
pub open spec fn since(later: u64, earlier: u64) -> u64 {
    if later >= earlier {
        (later - earlier) as u64
    } else {
        0
    }
}

/// The samples without those that have aged out of the trailing window, always
/// keeping the newest.
pub open spec fn pruned(samples: Seq<RateSample>, now: u64) -> Seq<RateSample>
    decreases samples.len(),
{
    if samples.len() > 1 && since(now, samples[0].at) > RATE_WINDOW {
        pruned(samples.subrange(1, samples.len() as int), now)
    } else {
        samples
    }
}

/// What came in from the oldest to the newest sample, if time has passed between
/// them.
pub open spec fn span(samples: Seq<RateSample>) -> Option<RateSpan> {
    if samples.len() > 0 && since(samples.last().at, samples[0].at) > 0 {
        Some(
            RateSpan {
                items: less(samples.last().items, samples[0].items),
                rcu: if samples.last().rcu >= samples[0].rcu {
                    (samples.last().rcu - samples[0].rcu) as u128
                } else {
                    0
                },
                nanos: since(samples.last().at, samples[0].at),
            },
        )
    } else {
        None
    }
}

/// `a / b` rounded to the nearest whole number, and to the even one of two that are
/// equally near.
pub open spec fn nearest(a: nat, b: nat) -> nat {
    let whole = a / b;
    let rest = a % b;
    if 2 * rest > b || (2 * rest == b && whole % 2 == 1) {
        whole + 1
    } else {
        whole
    }
}

/// The time that the remaining items take at the rate of the span, to the nearest
/// nanosecond, if items come in.
pub open spec fn time_left(remaining: nat, rate: Option<RateSpan>) -> Option<nat> {
    match rate {
        Some(r) => if r.items > 0 {
            Some(nearest(remaining * r.nanos as nat, r.items as nat))
        } else {
            None
        },
        None => None,
    }
}

impl Progress {
    /// A scan over so many segments that starts now.
    pub open spec fn fresh(segments: u32, item_count: u64, now: u64) -> Progress {
        Progress {
            started_at: now,
            item_count,
            items: 0,
            per_segment: Seq::new(segments as nat, |i: int| 0u64),
            violations: 0,
            consumed: 0,
            counts: Map::empty(),
            window: Seq::empty(),
            samples: Seq::empty(),
        }
    }

    /// With one more item from `segment`.
    pub open spec fn with_item(self, segment: u32) -> Progress {
        Progress {
            items: plus_one(self.items),
            per_segment: if segment < self.per_segment.len() {
                self.per_segment.update(segment as int, plus_one(self.per_segment[segment as int]))
            } else {
                self.per_segment
            },
            ..self
        }
    }

    /// With one more violation.
    pub open spec fn with_violation(self, violation: Violation) -> Progress {
        Progress {
            violations: plus_one(self.violations),
            counts: self.counts.insert(
                violation.category,
                plus_one(count_of(self.counts, violation.category)),
            ),
            window: latest(self.window.push(violation)),
            ..self
        }
    }

    /// With more read capacity consumed.
    pub open spec fn with_consumed(self, rcu: u128) -> Progress {
        Progress {
            consumed: if self.consumed + rcu <= u128::MAX {
                (self.consumed + rcu) as u128
            } else {
                u128::MAX
            },
            ..self
        }
    }

    /// With the counters sampled at `now`.
    pub open spec fn sampled(self, now: u64) -> Progress {
        Progress {
            samples: pruned(
                self.samples.push(RateSample { at: now, items: self.items, rcu: self.consumed }),
                now,
            ),
            ..self
        }
    }

    /// The items that are still to come, going by the approximate count.
    pub open spec fn remaining(self) -> nat {
        if self.item_count >= self.items {
            (self.item_count - self.items) as nat
        } else {
            0
        }
    }
}

/// The last violations that the window has room for.
pub open spec fn latest(violations: Seq<Violation>) -> Seq<Violation> {
    if violations.len() <= ROLLING_WINDOW_CAP {
        violations
    } else {
        violations.skip(violations.len() - ROLLING_WINDOW_CAP)
    }
}

/// `snapshot` shows the progress at `now`, which has just been sampled.
pub open spec fn shows(snapshot: StateSnapshot, progress: Progress, now: u64) -> bool {
    &&& snapshot.items_scanned == progress.items
    &&& snapshot.total_violations == progress.violations
    &&& snapshot.category_counts@ == progress.counts
    &&& snapshot.per_segment_items@ == progress.per_segment
    &&& snapshot.consumed_rcu == progress.consumed
    &&& snapshot.rate == span(progress.samples)
    &&& snapshot.elapsed == since(now, progress.started_at)
    &&& match (snapshot.eta, time_left(progress.remaining(), span(progress.samples))) {
        (Some(eta), Some(nanos)) => eta == nanos,
        (None, None) => true,
        _ => false,
    }
    &&& snapshot.item_count == progress.item_count
    &&& snapshot.recent_violations@ == progress.window
}

/// Scan progress and violation aggregator.
pub struct Aggregator<C: Clock> {
    clock: C,
    started_at: u64,
    item_count: u64,
    total_items: u64,
    per_segment_items: Vec<u64>,
    total_violations: u64,
    consumed_rcu: u128,
    counts: CategoryCounts,
    window: VecDeque<Violation>,
    samples: VecDeque<RateSample>,
}

impl<C: Clock> View for Aggregator<C> {
    type V = Progress;

    closed spec fn view(&self) -> Progress {
        Progress {
            started_at: self.started_at,
            item_count: self.item_count,
            items: self.total_items,
            per_segment: self.per_segment_items@,
            violations: self.total_violations,
            consumed: self.consumed_rcu,
            counts: self.counts@,
            window: self.window@,
            samples: self.samples@,
        }
    }
}

impl<C: Clock> Aggregator<C> {
    /// The clock that the aggregator goes by.
    pub closed spec fn clock(&self) -> C {
        self.clock
    }

    #[verifier::type_invariant]
    spec fn well_formed(self) -> bool {
        self.window@.len() <= ROLLING_WINDOW_CAP
    }

    /// An aggregator for a scan over `segments` parallel segments, sized against the
    /// table's approximate `item_count`. The scan starts at the clock's time.
    pub fn new(segments: u32, item_count: u64, clock: C) -> (r: Self)
        ensures
            r.clock() == clock,
            exists|now: u64|
                {
                    &&& clock_reads(clock, now)
                    &&& r@ == #[trigger] Progress::fresh(segments, item_count, now)
                },
    {
        let now = clock.now();
        assert(clock_reads(clock, now));
        Self::starting_at(segments, item_count, clock, now)
    }

    /// An aggregator for a scan that started at the time `now` of the clock.
    pub fn starting_at(segments: u32, item_count: u64, clock: C, now: u64) -> (r: Self)
        ensures
            r.clock() == clock,
            r@ == Progress::fresh(segments, item_count, now),
    {
        let mut per_segment_items: Vec<u64> = Vec::new();
        let mut i: u32 = 0;
        while i < segments
            invariant
                i <= segments,
                per_segment_items@ =~= Seq::new(i as nat, |k: int| 0u64),
            decreases segments - i,
        {
            per_segment_items.push(0);
            i += 1;
        }
        let r = Aggregator {
            clock,
            started_at: now,
            item_count,
            total_items: 0,
            per_segment_items,
            total_violations: 0,
            consumed_rcu: 0,
            counts: CategoryCounts::new(),
            window: VecDeque::new(),
            samples: VecDeque::new(),
        };
        assert(r@.samples =~= Seq::empty());
        assert(r@.window =~= Seq::empty());
        r
    }

    /// Records one item read from `segment`. A segment out of range still counts
    /// toward the total.
    pub fn record_item(&mut self, segment: u32)
        ensures
            final(self)@ == old(self)@.with_item(segment),
            final(self).clock() == old(self).clock(),
    {
        proof {
            use_type_invariant(&*self);
        }
        let ghost before = self@;
        self.total_items = self.total_items.wrapping_add(1);
        let index: usize = segment as usize;
        if index < self.per_segment_items.len() {
            let count: u64 = self.per_segment_items[index];
            let mut segments: Vec<u64> = Vec::new();
            std::mem::swap(&mut segments, &mut self.per_segment_items);
            segments[index] = count.wrapping_add(1);
            self.per_segment_items = segments;
        }
        assert(self@.per_segment =~= before.with_item(segment).per_segment);
    }

    /// Records one detected violation: counts it under its category and pushes it
    /// onto the rolling window, evicting the oldest once the window is full.
    pub fn record_violation(&mut self, violation: &Violation)
        ensures
            final(self)@ == old(self)@.with_violation(*violation),
            final(self).clock() == old(self).clock(),
    {
        proof {
            use_type_invariant(&*self);
        }
        let ghost before = self@;
        self.total_violations = self.total_violations.wrapping_add(1);
        let mut counts = self.counts;
        counts.record(violation.category);
        self.counts = counts;
        let mut window: VecDeque<Violation> = VecDeque::new();
        std::mem::swap(&mut window, &mut self.window);
        window.push_back(violation.clone());
        if window.len() > ROLLING_WINDOW_CAP {
            let _ = window.pop_front();
        }
        assert(window@ =~= latest(before.window.push(*violation)));
        self.window = window;
    }

    /// Records read capacity consumed by one page of `segment`. Only the aggregate
    /// is metered.
    pub fn record_consumed(&mut self, _segment: u32, rcu: u128)
        ensures
            final(self)@ == old(self)@.with_consumed(rcu),
            final(self).clock() == old(self).clock(),
    {
        proof {
            use_type_invariant(&*self);
        }
        self.consumed_rcu = self.consumed_rcu.saturating_add(rcu);
    }

    /// A coherent snapshot for the current render frame, at the clock's time.
    pub fn snapshot(&mut self) -> (r: StateSnapshot)
        ensures
            final(self).clock() == old(self).clock(),
            exists|now: u64|
                {
                    &&& clock_reads(old(self).clock(), now)
                    &&& final(self)@ == #[trigger] old(self)@.sampled(now)
                    &&& shows(r, final(self)@, now)
                },
    {
        let now = self.clock.now();
        assert(clock_reads(self.clock(), now));
        self.snapshot_at(now)
    }

    /// A coherent snapshot at the time `now`. Rates are averaged over the trailing
    /// [`RATE_WINDOW`]; the time left is best-effort from the approximate item count.
    pub fn snapshot_at(&mut self, now: u64) -> (r: StateSnapshot)
        ensures
            final(self).clock() == old(self).clock(),
            final(self)@ == old(self)@.sampled(now),
            shows(r, final(self)@, now),
    {
        proof {
            use_type_invariant(&*self);
        }
        let mut samples: VecDeque<RateSample> = VecDeque::new();
        std::mem::swap(&mut samples, &mut self.samples);
        sample(&mut samples, now, self.total_items, self.consumed_rcu);
        let rate = rates(&samples);
        self.samples = samples;

        let remaining: u64 = self.item_count.saturating_sub(self.total_items);
        let eta: Option<u128> = match &rate {
            Some(r) => if r.items > 0 {
                assert(remaining * r.nanos <= 0xffff_ffff_ffff_ffff * 0xffff_ffff_ffff_ffff)
                    by (nonlinear_arith)
                    requires
                        remaining <= 0xffff_ffff_ffff_ffff,
                        r.nanos <= 0xffff_ffff_ffff_ffff,
                ;
                Some(divide_to_nearest(remaining as u128 * r.nanos as u128, r.items))
            } else {
                None
            },
            None => None,
        };
        StateSnapshot {
            items_scanned: self.total_items,
            total_violations: self.total_violations,
            category_counts: self.counts,
            per_segment_items: copy_counts(&self.per_segment_items),
            consumed_rcu: self.consumed_rcu,
            rate,
            elapsed: now.saturating_sub(self.started_at),
            eta,
            item_count: self.item_count,
            recent_violations: copy_window(&self.window),
        }
    }
}

impl Aggregator<SystemClock> {
    /// As [`Aggregator::new`] but on the machine's clock, for production wiring.
    pub fn with_system_clock(segments: u32, item_count: u64) -> (r: Self)
        ensures
            machine_starts(r.clock()),
            exists|now: u64|
                {
                    &&& machine_reads(r.clock(), now)
                    &&& r@ == #[trigger] Progress::fresh(segments, item_count, now)
                },
    {
        Aggregator::new(segments, item_count, SystemClock::new())
    }
}

/// `a / b` rounded to the nearest whole number.
fn divide_to_nearest(a: u128, b: u64) -> (r: u128)
    requires
        b > 0,
        a <= 0xffff_ffff_ffff_ffff * 0xffff_ffff_ffff_ffff,
    ensures
        r == nearest(a as nat, b as nat),
{
    let whole: u128 = a / b as u128;
    let rest: u128 = a % b as u128;
    assert(whole <= a) by (nonlinear_arith)
        requires
            whole == a / b as u128,
            b > 0,
    ;
    if 2 * rest > b as u128 || (2 * rest == b as u128 && whole % 2 == 1) {
        whole + 1
    } else {
        whole
    }
}

/// Appends the current cumulative counters and drops samples that have aged out of
/// the trailing window, always keeping the newest.
fn sample(samples: &mut VecDeque<RateSample>, now: u64, items: u64, rcu: u128)
    ensures
        final(samples)@ == pruned(old(samples)@.push(RateSample { at: now, items, rcu }), now),
{
    let ghost all = samples@.push(RateSample { at: now, items, rcu });
    samples.push_back(RateSample { at: now, items, rcu });
    while samples.len() > 1 && now.saturating_sub(samples[0].at) > RATE_WINDOW
        invariant
            pruned(samples@, now) == pruned(all, now),
        decreases samples@.len(),
    {
        let _ = samples.pop_front();
    }
}

/// What came in across the retained samples, or `None` until two samples span a
/// non-zero interval.
fn rates(samples: &VecDeque<RateSample>) -> (r: Option<RateSpan>)
    ensures
        r == span(samples@),
{
    if samples.len() == 0 {
        return None;
    }
    let oldest = samples[0];
    let newest = samples[samples.len() - 1];
    let nanos: u64 = newest.at.saturating_sub(oldest.at);
    if nanos == 0 {
        return None;
    }
    Some(
        RateSpan {
            items: newest.items.wrapping_sub(oldest.items),
            rcu: newest.rcu.saturating_sub(oldest.rcu),
            nanos,
        },
    )
}

fn copy_counts(counts: &Vec<u64>) -> (r: Vec<u64>)
    ensures
        r@ == counts@,
{
    let mut r: Vec<u64> = Vec::new();
    let mut i: usize = 0;
    while i < counts.len()
        invariant
            i <= counts@.len(),
            r@ =~= counts@.take(i as int),
        decreases counts@.len() - i,
    {
        r.push(counts[i]);
        i += 1;
    }
    r
}

fn copy_window(window: &VecDeque<Violation>) -> (r: Vec<Violation>)
    ensures
        r@ == window@,
{
    let mut r: Vec<Violation> = Vec::new();
    let mut i: usize = 0;
    while i < window.len()
        invariant
            i <= window@.len(),
            r@ =~= window@.take(i as int),
        decreases window@.len() - i,
    {
        r.push(window[i].clone());
        i += 1;
    }
    r
}

/// The progress after a series of violations.
pub open spec fn after_violations(progress: Progress, violations: Seq<Violation>) -> Progress
    decreases violations.len(),
{
    if violations.len() == 0 {
        progress
    } else {
        after_violations(progress, violations.drop_last()).with_violation(violations.last())
    }
}

/// How many of the violations are of a category.
pub open spec fn occurrences(violations: Seq<Violation>, category: ViolationCategory) -> nat
    decreases violations.len(),
{
    if violations.len() == 0 {
        0
    } else {
        occurrences(violations.drop_last(), category) + if violations.last().category == category {
            1nat
        } else {
            0
        }
    }
}

/// After any series of violations the window holds the last of them, in order and at
/// most a thousand; the total is how many there were, and each category's count how
/// many there were of it, both around the end of 64 bits.
pub proof fn law_violations_are_tallied(
    segments: u32,
    item_count: u64,
    now: u64,
    violations: Seq<Violation>,
)
    ensures
        ({
            let after = after_violations(Progress::fresh(segments, item_count, now), violations);
            &&& after.window == latest(violations)
            &&& after.window.len() <= ROLLING_WINDOW_CAP
            &&& after.violations == violations.len() % 0x1_0000_0000_0000_0000
            &&& forall|c: ViolationCategory|
                {
                    &&& #[trigger] count_of(after.counts, c) == occurrences(violations, c)
                        % 0x1_0000_0000_0000_0000
                    &&& after.counts.contains_key(c) <==> occurrences(violations, c) > 0
                }
        }),
    decreases violations.len(),
{
    if violations.len() > 0 {
        let before = violations.drop_last();
        law_violations_are_tallied(segments, item_count, now, before);
        let mid = after_violations(Progress::fresh(segments, item_count, now), before);
        let after = after_violations(Progress::fresh(segments, item_count, now), violations);
        assert(violations =~= before.push(violations.last()));
        assert(after.window =~= latest(violations));
        assert forall|c: ViolationCategory|
            {
                &&& #[trigger] count_of(after.counts, c) == occurrences(violations, c)
                    % 0x1_0000_0000_0000_0000
                &&& after.counts.contains_key(c) <==> occurrences(violations, c) > 0
            } by {
            assert(count_of(mid.counts, c) == occurrences(before, c) % 0x1_0000_0000_0000_0000);
        }
    } else {
        assert(latest(violations) =~= Seq::empty());
    }
}

/// Every violation is of one category: over all categories the occurrences add up to
/// how many there were.
pub proof fn law_categories_partition_the_violations(violations: Seq<Violation>)
    ensures
        violations.len() == occurrences(violations, ViolationCategory::TypeMismatch) + occurrences(
            violations,
            ViolationCategory::SizeExceeded,
        ) + occurrences(violations, ViolationCategory::MissingKey) + occurrences(
            violations,
            ViolationCategory::TtlMissing,
        ) + occurrences(violations, ViolationCategory::TtlWrongType) + occurrences(
            violations,
            ViolationCategory::TtlMsMagnitude,
        ) + occurrences(violations, ViolationCategory::TtlMalformed) + occurrences(
            violations,
            ViolationCategory::TtlPastFiveYears,
        ),
    decreases violations.len(),
{
    if violations.len() > 0 {
        law_categories_partition_the_violations(violations.drop_last());
    }
}

/// The progress after a series of items, each given by its segment.
pub open spec fn after_items(progress: Progress, segments: Seq<u32>) -> Progress
    decreases segments.len(),
{
    if segments.len() == 0 {
        progress
    } else {
        after_items(progress, segments.drop_last()).with_item(segments.last())
    }
}

/// How often a segment occurs.
pub open spec fn times(segments: Seq<u32>, segment: u32) -> nat
    decreases segments.len(),
{
    if segments.len() == 0 {
        0
    } else {
        times(segments.drop_last(), segment) + if segments.last() == segment {
            1nat
        } else {
            0
        }
    }
}

/// After any series of items the total is how many there were, whether their segment
/// is in range or not, and each segment's count is how many there were of it, both
/// around the end of 64 bits.
pub proof fn law_items_are_counted(count: u32, item_count: u64, now: u64, segments: Seq<u32>)
    ensures
        ({
            let after = after_items(Progress::fresh(count, item_count, now), segments);
            &&& after.items == segments.len() % 0x1_0000_0000_0000_0000
            &&& after.per_segment.len() == count
            &&& forall|k: u32|
                k < count ==> #[trigger] after.per_segment[k as int] == times(segments, k)
                    % 0x1_0000_0000_0000_0000
        }),
    decreases segments.len(),
{
    if segments.len() > 0 {
        let before = segments.drop_last();
        law_items_are_counted(count, item_count, now, before);
        let mid = after_items(Progress::fresh(count, item_count, now), before);
        let after = after_items(Progress::fresh(count, item_count, now), segments);
        assert forall|k: u32| k < count implies #[trigger] after.per_segment[k as int] == times(
            segments,
            k,
        ) % 0x1_0000_0000_0000_0000 by {
            assert(mid.per_segment[k as int] == times(before, k) % 0x1_0000_0000_0000_0000);
        }
    }
}

/// The samples are in the order of their times, none later than `now`.
pub open spec fn in_order(samples: Seq<RateSample>, now: u64) -> bool {
    &&& forall|i: int, j: int|
        0 <= i <= j < samples.len() ==> (#[trigger] samples[i]).at <= (#[trigger] samples[j]).at
    &&& forall|i: int| 0 <= i < samples.len() ==> (#[trigger] samples[i]).at <= now
}

proof fn lemma_pruned(samples: Seq<RateSample>, now: u64)
    requires
        samples.len() > 0,
        in_order(samples, now),
    ensures
        pruned(samples, now).len() > 0,
        pruned(samples, now).last() == samples.last(),
        in_order(pruned(samples, now), now),
        pruned(samples, now).len() == 1 || now - pruned(samples, now)[0].at <= RATE_WINDOW,
    decreases samples.len(),
{
    if samples.len() > 1 && since(now, samples[0].at) > RATE_WINDOW {
        lemma_pruned(samples.subrange(1, samples.len() as int), now);
    }
}

/// Stale samples age out: after a snapshot the newest sample is the one just taken,
/// and every other one is at most the trailing window old.
pub proof fn law_rates_are_over_the_trailing_window(progress: Progress, now: u64)
    requires
        in_order(progress.samples, now),
    ensures
        ({
            let samples = progress.sampled(now).samples;
            &&& in_order(samples, now)
            &&& samples.len() > 0
            &&& samples.last() == RateSample {
                at: now,
                items: progress.items,
                rcu: progress.consumed,
            }
            &&& forall|i: int|
                0 <= i < samples.len() - 1 ==> now - (#[trigger] samples[i]).at <= RATE_WINDOW
        }),
{
    let all = progress.samples.push(
        RateSample { at: now, items: progress.items, rcu: progress.consumed },
    );
    assert(in_order(all, now));
    lemma_pruned(all, now);
}

/// There is no rate, and no estimate, before time has passed since the first
/// snapshot.
pub proof fn law_no_rate_before_time_advances(progress: Progress, now: u64)
    requires
        progress.samples.len() == 0,
    ensures
        span(progress.sampled(now).samples) is None,
        time_left(progress.remaining(), span(progress.sampled(now).samples)) is None,
{
}

proof fn lemma_pruned_suffix(samples: Seq<RateSample>, now: u64) -> (dropped: int)
    requires
        samples.len() > 0,
    ensures
        0 <= dropped < samples.len(),
        pruned(samples, now) == samples.skip(dropped),
        forall|k: int|
            0 <= k < dropped ==> now > (#[trigger] samples[k]).at && now - samples[k].at
                > 5_000_000_000,
    decreases samples.len(),
{
    if samples.len() > 1 && since(now, samples[0].at) > RATE_WINDOW {
        let rest = samples.subrange(1, samples.len() as int);
        let dropped = lemma_pruned_suffix(rest, now);
        assert(rest.skip(dropped) =~= samples.skip(dropped + 1));
        assert forall|k: int| 0 <= k < dropped + 1 implies now > (#[trigger] samples[k]).at && now
            - samples[k].at > 5_000_000_000 by {
            if k > 0 {
                assert(rest[k - 1] == samples[k]);
            }
        }
        dropped + 1
    } else {
        assert(samples.skip(0) =~= samples);
        0
    }
}

/// No sample within the trailing five seconds is dropped: a snapshot adds a sample of
/// the counters at its own time and drops from the oldest on, and every one that it
/// drops is more than five seconds old.
pub proof fn law_no_recent_sample_is_dropped(
    progress: Progress,
    now: u64,
    all: Seq<RateSample>,
)
    requires
        all == progress.samples.push(
            RateSample { at: now, items: progress.items, rcu: progress.consumed },
        ),
    ensures
        exists|dropped: int|
            {
                &&& 0 <= dropped < all.len()
                &&& progress.sampled(now).samples == #[trigger] all.skip(dropped)
                &&& forall|k: int|
                    0 <= k < dropped ==> now > (#[trigger] all[k]).at && now - all[k].at
                        > 5_000_000_000
            },
{
    let dropped = lemma_pruned_suffix(all, now);
    assert(progress.sampled(now).samples == all.skip(dropped));
}

/// The rate of a snapshot begins at the oldest earlier snapshot that is at most five
/// seconds old: over samples in order it counts everything that came in from there to
/// now.
pub proof fn law_rate_begins_at_the_oldest_recent_sample(progress: Progress, now: u64, i: int)
    requires
        in_order(progress.samples, now),
        0 <= i < progress.samples.len(),
        now - progress.samples[i].at <= 5_000_000_000,
        now > progress.samples[i].at,
        forall|k: int|
            0 <= k < i ==> now - (#[trigger] progress.samples[k]).at > 5_000_000_000,
        progress.samples[i].items <= progress.items,
        progress.samples[i].rcu <= progress.consumed,
    ensures
        span(progress.sampled(now).samples) == Some(
            RateSpan {
                items: (progress.items - progress.samples[i].items) as u64,
                rcu: (progress.consumed - progress.samples[i].rcu) as u128,
                nanos: (now - progress.samples[i].at) as u64,
            },
        ),
{
    let new = RateSample { at: now, items: progress.items, rcu: progress.consumed };
    let all = progress.samples.push(new);
    let dropped = lemma_pruned_suffix(all, now);
    assert(in_order(all, now));
    lemma_pruned(all, now);
    let kept = pruned(all, now);
    assert(kept[0] == all[dropped]);
    assert(kept.last() == new);
    assert(all[i] == progress.samples[i]);
    if dropped > i {
        assert(all[i].at <= now);
    }
    if dropped < i {
        assert(all[dropped] == progress.samples[dropped]);
    }
}

/// A rate is what came in between the first and the last sample over the time between
/// them; there is none without time between them.
pub proof fn law_rate_is_between_first_and_last(samples: Seq<RateSample>)
    requires
        samples.len() > 0,
        samples[0].items <= samples.last().items,
        samples[0].rcu <= samples.last().rcu,
    ensures
        match span(samples) {
            Some(rate) => {
                &&& samples[0].at + rate.nanos == samples.last().at
                &&& rate.nanos > 0
                &&& samples[0].items + rate.items == samples.last().items
                &&& samples[0].rcu + rate.rcu == samples.last().rcu
            },
            None => samples.last().at <= samples[0].at,
        },
{
}

/// The time left is what the remaining items take at the rate, to within half a
/// nanosecond; there is none without a rate, or without items coming in.
pub proof fn law_time_left_is_at_the_rate(remaining: nat, rate: Option<RateSpan>)
    ensures
        match time_left(remaining, rate) {
            Some(nanos) => {
                &&& rate is Some
                &&& rate->0.items > 0
                &&& 2 * (nanos * rate->0.items) - 2 * (remaining * rate->0.nanos)
                    <= rate->0.items
                &&& 2 * (remaining * rate->0.nanos) - 2 * (nanos * rate->0.items)
                    <= rate->0.items
            },
            None => rate is None || rate->0.items == 0,
        },
{
    if rate is Some && rate->0.items > 0 {
        let a = remaining * rate->0.nanos as nat;
        let b = rate->0.items as nat;
        let whole = a / b;
        let rest = a % b;
        assert(a == whole * b + rest && rest < b) by (nonlinear_arith)
            requires
                whole == a / b,
                rest == a % b,
                b > 0,
        ;
        assert((whole + 1) * b == whole * b + b) by (nonlinear_arith);
    }
}

/// What is left to scan is what the approximate count has over the items so far.
pub proof fn law_remaining_counts_down(progress: Progress)
    ensures
        progress.items <= progress.item_count ==> progress.remaining() + progress.items
            == progress.item_count,
        progress.items >= progress.item_count ==> progress.remaining() == 0,
{
}

/// A snapshot shows the progress as it is: every counter, the window, the rate over
/// the samples, the time left at that rate, and the time since the start.
pub proof fn law_snapshot_shows_the_progress(
    snapshot: StateSnapshot,
    progress: Progress,
    now: u64,
)
    requires
        shows(snapshot, progress, now),
    ensures
        snapshot.items_scanned == progress.items,
        snapshot.total_violations == progress.violations,
        snapshot.category_counts@ == progress.counts,
        snapshot.per_segment_items@ == progress.per_segment,
        snapshot.consumed_rcu == progress.consumed,
        snapshot.item_count == progress.item_count,
        snapshot.recent_violations@ == progress.window,
        now >= progress.started_at ==> progress.started_at + snapshot.elapsed == now,
        now < progress.started_at ==> snapshot.elapsed == 0,
        snapshot.rate == span(progress.samples),
        snapshot.eta is Some <==> time_left(progress.remaining(), span(progress.samples)) is Some,
        snapshot.eta matches Some(eta) ==> time_left(
            progress.remaining(),
            span(progress.samples),
        ) == Some(eta as nat),
{
}

/// What is recorded of one thing leaves the others as they are.
pub proof fn law_recordings_do_not_interfere(
    progress: Progress,
    segment: u32,
    violation: Violation,
    rcu: u128,
    now: u64,
)
    ensures
        ({
            let item = progress.with_item(segment);
            &&& item.violations == progress.violations
            &&& item.counts == progress.counts
            &&& item.window == progress.window
            &&& item.consumed == progress.consumed
            &&& item.samples == progress.samples
            &&& item.started_at == progress.started_at
            &&& item.item_count == progress.item_count
        }),
        ({
            let found = progress.with_violation(violation);
            &&& found.items == progress.items
            &&& found.per_segment == progress.per_segment
            &&& found.consumed == progress.consumed
            &&& found.samples == progress.samples
            &&& found.started_at == progress.started_at
            &&& found.item_count == progress.item_count
        }),
        ({
            let paid = progress.with_consumed(rcu);
            &&& paid.items == progress.items
            &&& paid.per_segment == progress.per_segment
            &&& paid.violations == progress.violations
            &&& paid.counts == progress.counts
            &&& paid.window == progress.window
            &&& paid.samples == progress.samples
            &&& paid.started_at == progress.started_at
            &&& paid.item_count == progress.item_count
            &&& progress.consumed + rcu <= u128::MAX ==> paid.consumed == progress.consumed + rcu
            &&& progress.consumed + rcu > u128::MAX ==> paid.consumed == u128::MAX
        }),
        ({
            let seen = progress.sampled(now);
            &&& seen.items == progress.items
            &&& seen.per_segment == progress.per_segment
            &&& seen.violations == progress.violations
            &&& seen.counts == progress.counts
            &&& seen.window == progress.window
            &&& seen.consumed == progress.consumed
            &&& seen.started_at == progress.started_at
            &&& seen.item_count == progress.item_count
        }),
{
}

/// A scan starts at its own time with nothing counted and an empty count for each
/// segment.
pub proof fn law_scan_starts_empty(segments: u32, item_count: u64, now: u64)
    ensures
        ({
            let start = Progress::fresh(segments, item_count, now);
            &&& start.started_at == now
            &&& start.item_count == item_count
            &&& start.items == 0
            &&& start.violations == 0
            &&& start.consumed == 0
            &&& start.per_segment.len() == segments
            &&& forall|i: int| 0 <= i < segments ==> #[trigger] start.per_segment[i] == 0
            &&& start.counts == Map::<ViolationCategory, u64>::empty()
            &&& start.window.len() == 0
            &&& start.samples.len() == 0
        }),
{
}

/// The window keeps the newest violations, in order, up to a thousand of them: a full
/// one loses its oldest to a new one.
pub proof fn law_window_keeps_the_newest(progress: Progress, violation: Violation)
    requires
        progress.window.len() <= 1000,
    ensures
        ({
            let window = progress.with_violation(violation).window;
            &&& window.len() > 0
            &&& window.last() == violation
            &&& progress.window.len() < 1000 ==> window == progress.window.push(violation)
            &&& progress.window.len() == 1000 ==> {
                &&& window.len() == 1000
                &&& window.drop_last() == progress.window.drop_first()
            }
        }),
{
    let window = progress.with_violation(violation).window;
    if progress.window.len() == 1000 {
        assert(window.drop_last() =~= progress.window.drop_first());
    }
}

} // verus!

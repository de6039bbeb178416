use portunus::quota::scope::QuotaScopeManager;
use portunus::quota::QuotaState;
use portunus::rate_limit::bucket::{saturated_micros, Acquire, TokenBucket};
use portunus::rate_limit::copy::{
    chunk_for_direction, refresh_due, CappedCopy, CappedStep, MAX_CHUNK, MIN_CHUNK,
    SNAPSHOT_REFRESH_MICROS,
};
use portunus::rate_limit::gate::LayeredAcquire;
use portunus::rate_limit::limiter::BandwidthLimiter;
use portunus::rate_limit::stats::{
    reason_from_index, reason_index, reason_to_snapshot, RateLimitStatsAccumulator,
    REJECT_REASON_COUNT,
};
use portunus::stats::RateLimitRejectReason;
use portunus::types::{BandwidthDirection, RejectReason};

const ALL_REASONS: [RejectReason; 6] = [
    RejectReason::ConnConcurrent,
    RejectReason::ConnRate,
    RejectReason::UdpFlowRate,
    RejectReason::OwnerConcurrent,
    RejectReason::OwnerConnRate,
    RejectReason::OwnerUdpFlowRate,
];

#[test]
fn empty_accumulator_drains_to_none() {
    let acc = RateLimitStatsAccumulator::new();
    assert!(acc.drain().is_none());
}

#[test]
fn drain_returns_none_when_accumulator_is_empty() {
    let acc = RateLimitStatsAccumulator::new();
    assert!(
        acc.drain().is_none(),
        "empty accumulator must drain to None for proto3 default-stripping"
    );
}

#[test]
fn drain_returns_snapshot_with_active_only_when_set() {
    let mut acc = RateLimitStatsAccumulator::new();
    acc.set_active_connections(5);
    let snap = acc.drain().expect("non-empty accumulator drains to Some");
    assert_eq!(snap.active_connections, 5);
    assert_eq!(snap.throttle_micros_in, 0);
    assert_eq!(snap.throttle_micros_out, 0);
    assert!(snap.reject_total.is_empty());
}

#[test]
fn record_reject_increments_per_reason_slot() {
    let mut acc = RateLimitStatsAccumulator::new();
    acc.record_reject(RejectReason::ConnConcurrent);
    acc.record_reject(RejectReason::ConnConcurrent);
    acc.record_reject(RejectReason::OwnerUdpFlowRate);
    assert_eq!(acc.reject_total(RejectReason::ConnConcurrent), 2);
    assert_eq!(acc.reject_total(RejectReason::ConnRate), 0);
    assert_eq!(acc.reject_total(RejectReason::OwnerUdpFlowRate), 1);
}

#[test]
fn drain_emits_only_reasons_that_fired() {
    let mut acc = RateLimitStatsAccumulator::new();
    acc.record_reject(RejectReason::ConnRate);
    acc.record_reject(RejectReason::OwnerConcurrent);
    let stats = acc.drain().expect("non-empty drain");
    assert_eq!(stats.reject_total.len(), 2);
    let reasons: Vec<RateLimitRejectReason> = stats.reject_total.iter().map(|(r, _)| *r).collect();
    assert!(reasons.contains(&RateLimitRejectReason::ConnRate));
    assert!(reasons.contains(&RateLimitRejectReason::OwnerConcurrent));
    assert!(!reasons.contains(&RateLimitRejectReason::Unspecified));
    assert!(!reasons.contains(&RateLimitRejectReason::UdpFlowRate));
}

#[test]
fn drain_carries_throttle_and_gauge() {
    let mut acc = RateLimitStatsAccumulator::new();
    acc.record_throttle(BandwidthDirection::In, 12_345);
    acc.record_throttle(BandwidthDirection::Out, 67_890);
    acc.set_active_connections(7);
    let stats = acc.drain().expect("non-empty drain");
    assert_eq!(stats.throttle_micros_in, 12_345);
    assert_eq!(stats.throttle_micros_out, 67_890);
    assert_eq!(stats.active_connections, 7);
    assert!(stats.reject_total.is_empty());
}

#[test]
fn record_throttle_accumulates_per_direction() {
    let mut acc = RateLimitStatsAccumulator::new();
    acc.record_throttle(BandwidthDirection::In, 1_000);
    acc.record_throttle(BandwidthDirection::In, 500);
    acc.record_throttle(BandwidthDirection::Out, 2_000);
    assert_eq!(acc.throttle_micros(BandwidthDirection::In), 1_500);
    assert_eq!(acc.throttle_micros(BandwidthDirection::Out), 2_000);
}

#[test]
fn drain_active_connections_clamps_to_u32_max() {
    let mut acc = RateLimitStatsAccumulator::new();
    acc.set_active_connections(u64::from(u32::MAX) + 1);
    let stats = acc.drain().expect("non-empty drain");
    assert_eq!(stats.active_connections, u32::MAX);
}

#[test]
fn reject_reason_index_round_trip() {
    for reason in ALL_REASONS {
        let idx = reason_index(reason);
        let back = reason_from_index(idx);
        assert_eq!(reason, back, "round trip failed for {reason:?}");
    }
}

#[test]
fn reason_to_snapshot_maps_every_reason() {
    assert_eq!(
        reason_to_snapshot(RejectReason::ConnConcurrent),
        RateLimitRejectReason::ConnConcurrent
    );
    assert_eq!(reason_to_snapshot(RejectReason::ConnRate), RateLimitRejectReason::ConnRate);
    assert_eq!(reason_to_snapshot(RejectReason::UdpFlowRate), RateLimitRejectReason::UdpFlowRate);
    assert_eq!(
        reason_to_snapshot(RejectReason::OwnerConcurrent),
        RateLimitRejectReason::OwnerConcurrent
    );
    assert_eq!(
        reason_to_snapshot(RejectReason::OwnerConnRate),
        RateLimitRejectReason::OwnerConnRate
    );
    assert_eq!(
        reason_to_snapshot(RejectReason::OwnerUdpFlowRate),
        RateLimitRejectReason::OwnerUdpFlowRate
    );
}

#[test]
fn drain_labels_all_reasons_via_snapshot_mapping() {
    let mut acc = RateLimitStatsAccumulator::new();
    for reason in ALL_REASONS {
        acc.record_reject(reason);
    }
    let stats = acc.drain().expect("non-empty drain");
    assert_eq!(stats.reject_total.len(), REJECT_REASON_COUNT);
    let reasons: Vec<RateLimitRejectReason> = stats.reject_total.iter().map(|(r, _)| *r).collect();
    for mirror in [
        RateLimitRejectReason::ConnConcurrent,
        RateLimitRejectReason::ConnRate,
        RateLimitRejectReason::UdpFlowRate,
        RateLimitRejectReason::OwnerConcurrent,
        RateLimitRejectReason::OwnerConnRate,
        RateLimitRejectReason::OwnerUdpFlowRate,
    ] {
        assert!(reasons.contains(&mirror), "missing {mirror:?} in drain");
    }
}

#[test]
fn active_connections_getter_reflects_set_value() {
    let mut acc = RateLimitStatsAccumulator::new();
    assert_eq!(acc.active_connections(), 0);
    acc.set_active_connections(42);
    assert_eq!(acc.active_connections(), 42);
}

#[test]
fn acquire_succeeds_within_burst() {
    let mut b = TokenBucket::new(1_000_000, 10_000);
    assert_eq!(b.acquire_at(5_000, 0), Acquire::Granted);
    assert_eq!(b.acquire_at(5_000, 0), Acquire::Granted);
    match b.acquire_at(1, 0) {
        Acquire::Throttled { deficit } => assert!(deficit > 0),
        Acquire::Granted => panic!("should be throttled"),
    }
}

#[test]
fn refill_recovers_after_sleep() {
    let mut b = TokenBucket::new(1_000, 1_000);
    assert_eq!(b.acquire_at(1_000, 0), Acquire::Granted);
    assert!(matches!(b.acquire_at(1, 0), Acquire::Throttled { .. }));
    assert_eq!(b.acquire_at(500, 500_000), Acquire::Granted);
    assert!(matches!(b.acquire_at(1, 500_000), Acquire::Throttled { .. }));
}

#[test]
fn deficit_matches_rate() {
    let mut b = TokenBucket::new(100, 100);
    assert_eq!(b.acquire_at(100, 0), Acquire::Granted);
    match b.acquire_at(50, 0) {
        Acquire::Throttled { deficit } => {
            assert!((450_000..=550_000).contains(&deficit), "deficit {deficit}");
            // After that long the same request is granted.
            assert_eq!(b.acquire_at(50, deficit), Acquire::Granted);
        }
        Acquire::Granted => panic!("should be throttled"),
    }
}

#[test]
fn pool_caps_at_burst() {
    let mut b = TokenBucket::new(1_000, 100);
    assert_eq!(b.acquire_at(100, 10_000_000), Acquire::Granted);
    assert!(matches!(b.acquire_at(1, 10_000_000), Acquire::Throttled { .. }));
}

#[test]
fn zero_acquire_is_a_noop_grant() {
    let mut b = TokenBucket::new(1, 1);
    let _ = b.acquire_at(1, 0);
    assert_eq!(b.acquire_at(0, 0), Acquire::Granted);
}

#[test]
fn carryover_preserves_tokens_on_rate_raise() {
    let mut prior = TokenBucket::new(1_000, 1_000);
    assert_eq!(prior.acquire_at(500, 0), Acquire::Granted);
    let snapshot = prior.tokens_snapshot();
    assert!(snapshot <= 500, "expected ~500 left, got {snapshot}");
    let next = TokenBucket::with_carryover(2_000, 2_000, &prior);
    let after = next.tokens_snapshot();
    assert!(after <= snapshot, "carryover minted free tokens: {after} > {snapshot}");
    assert_eq!((next.rate_per_sec(), next.burst()), (2_000, 2_000));
}

#[test]
fn carryover_clamps_tokens_on_burst_lower() {
    let prior = TokenBucket::new(10_000, 10_000);
    assert_eq!(prior.tokens_snapshot(), 10_000);
    let mut next = TokenBucket::with_carryover(10_000, 1_000, &prior);
    assert_eq!(next.tokens_snapshot(), 1_000);
    assert_eq!(next.acquire_at(1_000, 0), Acquire::Granted);
    assert!(matches!(next.acquire_at(1, 0), Acquire::Throttled { .. }));
}

#[test]
fn acquire_reads_the_clock() {
    let mut b = TokenBucket::new(1, 10);
    assert_eq!(b.acquire(10), Acquire::Granted);
    // No second passes between the two calls.
    assert!(matches!(b.acquire(10), Acquire::Throttled { .. }));
    // A bucket that refills at once grants again once the clock has moved on.
    let mut fast = TokenBucket::new(1_000_000_000_000, 10);
    assert_eq!(fast.acquire(10), Acquire::Granted);
    let mut granted = false;
    for _ in 0..10_000_000 {
        if fast.acquire(10) == Acquire::Granted {
            granted = true;
            break;
        }
    }
    assert!(granted);
}

#[test]
fn chunks_follow_the_tightest_cap() {
    let slow = BandwidthLimiter::new(Some(TokenBucket::new(200_000, 200_000)), None);
    let fast = BandwidthLimiter::new(Some(TokenBucket::new(10_000_000, 10_000_000)), None);
    let none = BandwidthLimiter::new(None, None);
    // A tenth of a second of 200 kB/s.
    assert_eq!(chunk_for_direction(BandwidthDirection::In, Some(&slow), Some(&fast)), 20_000);
    assert_eq!(chunk_for_direction(BandwidthDirection::In, Some(&fast), Some(&slow)), 20_000);
    assert_eq!(chunk_for_direction(BandwidthDirection::In, Some(&fast), None), MAX_CHUNK);
    assert_eq!(chunk_for_direction(BandwidthDirection::Out, Some(&slow), None), MAX_CHUNK);
    assert_eq!(chunk_for_direction(BandwidthDirection::In, Some(&none), None), MAX_CHUNK);
    let crawl = BandwidthLimiter::new(Some(TokenBucket::new(100, 100)), None);
    assert_eq!(chunk_for_direction(BandwidthDirection::In, Some(&crawl), None), MIN_CHUNK);
}

#[test]
fn limits_are_looked_up_again_in_time() {
    assert!(!refresh_due(SNAPSHOT_REFRESH_MICROS - 1));
    assert!(refresh_due(SNAPSHOT_REFRESH_MICROS));
}

#[test]
fn no_cap_directions_pass_through_freely() {
    let mut rule =
        Some(BandwidthLimiter::new(None, Some(TokenBucket::new(100 * 1024, 100 * 1024))));
    let mut stats = Some(RateLimitStatsAccumulator::new());
    let micros = copy_under(256 * 1024, &mut None, &mut None, &mut rule, &mut stats);
    assert!(micros < 500_000, "uncapped direction must not throttle, took {micros} us");
    assert_eq!(stats.unwrap().throttle_micros(BandwidthDirection::In), 0);
}

#[test]
fn a_copy_without_limits_only_counts() {
    let mut quotas = QuotaScopeManager::new();
    let mut copy = CappedCopy::new(BandwidthDirection::In, None);
    assert_eq!(copy.before_read(&quotas, None, None), CappedStep::Read { len: MAX_CHUNK });
    assert_eq!(copy.after_read(10_000, &mut quotas), CappedStep::Pass);
    let (mut o, mut os, mut r, mut rs) = (None, None, None, None);
    assert_eq!(
        copy.pass(&mut o, &mut os, &mut r, &mut rs),
        CappedStep::Write { len: 10_000 }
    );
    copy.after_write();
    assert_eq!(copy.total, 10_000);
    assert_eq!(copy.after_read(0, &mut quotas), CappedStep::Close);
}

#[test]
fn the_owner_holds_a_chunk_back_before_the_rule() {
    let mut quotas = QuotaScopeManager::new();
    let mut copy = CappedCopy::new(BandwidthDirection::In, None);
    let mut owner = Some(BandwidthLimiter::new(Some(TokenBucket::new(1_000, 1_000)), None));
    let mut owner_stats = Some(RateLimitStatsAccumulator::new());
    let mut rule = Some(BandwidthLimiter::new(Some(TokenBucket::new(1_000_000, 1_000_000)), None));
    let mut rule_stats = Some(RateLimitStatsAccumulator::new());
    assert_eq!(copy.after_read(1_000, &mut quotas), CappedStep::Pass);
    assert_eq!(
        copy.pass_at(&mut owner, &mut owner_stats, &mut rule, &mut rule_stats, 0, 0),
        CappedStep::Write { len: 1_000 }
    );
    copy.after_write();
    assert_eq!(copy.after_read(500, &mut quotas), CappedStep::Pass);
    // The owner's pool is empty: half a second is missing.
    assert_eq!(
        copy.pass_at(&mut owner, &mut owner_stats, &mut rule, &mut rule_stats, 0, 0),
        CappedStep::Wait { micros: 500_000 }
    );
    assert_eq!(owner_stats.as_ref().unwrap().throttle_micros(BandwidthDirection::In), 500_000);
    assert_eq!(rule_stats.as_ref().unwrap().throttle_micros(BandwidthDirection::In), 0);
    assert_eq!(
        copy.pass_at(&mut owner, &mut owner_stats, &mut rule, &mut rule_stats, 500_000, 0),
        CappedStep::Write { len: 500 }
    );
}

#[test]
fn a_capped_copy_stops_where_the_quota_ends() {
    let mut quotas = QuotaScopeManager::new();
    let q = quotas.install(
        "alice",
        "edge-01",
        QuotaState { monthly_bytes: 1_000_000, budget_remaining_bytes: 64, exhausted: false },
    );
    let mut copy = CappedCopy::new(BandwidthDirection::Out, Some(q));
    assert_eq!(copy.after_read(60, &mut quotas), CappedStep::Pass);
    assert_eq!(quotas.remaining(q), 4);
    let (mut o, mut os, mut r, mut rs) = (None, None, None, None);
    assert_eq!(copy.pass(&mut o, &mut os, &mut r, &mut rs), CappedStep::Write { len: 60 });
    copy.after_write();
    assert_eq!(copy.after_read(5, &mut quotas), CappedStep::Close);
    assert!(quotas.is_exhausted(q));
    assert_eq!(copy.before_read(&quotas, None, None), CappedStep::Close);
}

#[test]
fn refusals_are_counted_where_they_were_made() {
    let mut owner = Some(RateLimitStatsAccumulator::new());
    let mut rule = Some(RateLimitStatsAccumulator::new());
    assert!(LayeredAcquire::Granted.settle(&mut owner, &mut rule));
    assert!(!LayeredAcquire::OwnerRejected(RejectReason::OwnerConcurrent)
        .settle(&mut owner, &mut rule));
    assert!(!LayeredAcquire::RuleRejected(RejectReason::ConnRate).settle(&mut owner, &mut rule));
    let (owner, rule) = (owner.unwrap(), rule.unwrap());
    assert_eq!(owner.reject_total(RejectReason::OwnerConcurrent), 1);
    assert_eq!(owner.reject_total(RejectReason::ConnRate), 0);
    assert_eq!(rule.reject_total(RejectReason::ConnRate), 1);
    assert_eq!(rule.reject_total(RejectReason::OwnerConcurrent), 0);
}

#[test]
fn the_owner_is_charged_once_while_the_rule_holds_a_chunk_back() {
    let mut quotas = QuotaScopeManager::new();
    let mut copy = CappedCopy::new(BandwidthDirection::Out, None);
    let mut owner = Some(BandwidthLimiter::new(None, Some(TokenBucket::new(1_500, 1_500))));
    let mut rule = Some(BandwidthLimiter::new(None, Some(TokenBucket::new(1_000, 1_000))));
    let (mut owner_stats, mut rule_stats) = (None, None);
    assert_eq!(copy.after_read(1_000, &mut quotas), CappedStep::Pass);
    assert_eq!(
        copy.pass_at(&mut owner, &mut owner_stats, &mut rule, &mut rule_stats, 0, 0),
        CappedStep::Write { len: 1_000 }
    );
    copy.after_write();
    assert_eq!(copy.after_read(500, &mut quotas), CappedStep::Pass);
    assert_eq!(
        copy.pass_at(&mut owner, &mut owner_stats, &mut rule, &mut rule_stats, 0, 0),
        CappedStep::Wait { micros: 500_000 }
    );
    // The owner has nothing left, and is not asked again.
    assert_eq!(
        copy.pass_at(&mut owner, &mut owner_stats, &mut rule, &mut rule_stats, 0, 500_000),
        CappedStep::Write { len: 500 }
    );
    copy.after_write();
    assert_eq!(copy.total, 1_500);
}

/// Copies that many bytes under the limits, with a clock that only moves while
/// the copy waits. Returns how many microseconds it took.
fn copy_under(
    bytes: usize,
    owner: &mut Option<BandwidthLimiter>,
    owner_stats: &mut Option<RateLimitStatsAccumulator>,
    rule: &mut Option<BandwidthLimiter>,
    rule_stats: &mut Option<RateLimitStatsAccumulator>,
) -> u64 {
    let mut quotas = QuotaScopeManager::new();
    let mut copy = CappedCopy::new(BandwidthDirection::In, None);
    let mut now: u64 = 0;
    let mut left = bytes;
    while left > 0 {
        let CappedStep::Read { len } = copy.before_read(&quotas, rule.as_ref(), owner.as_ref())
        else {
            panic!("there is more to read")
        };
        let n = left.min(len);
        assert_eq!(copy.after_read(n, &mut quotas), CappedStep::Pass);
        loop {
            match copy.pass_at(owner, owner_stats, rule, rule_stats, now, now) {
                CappedStep::Wait { micros } => now += micros,
                CappedStep::Write { len } => {
                    assert_eq!(len, n);
                    break;
                }
                step => panic!("{step:?}"),
            }
        }
        copy.after_write();
        left -= n;
    }
    assert_eq!(copy.total, bytes as u64);
    now
}

fn capped_in(rate: u64) -> Option<BandwidthLimiter> {
    Some(BandwidthLimiter::new(Some(TokenBucket::new(rate, rate)), None))
}

#[test]
fn t010_bandwidth_cap_shapes_to_target_rate_within_10pct() {
    for rate in [100 * 1024_u64, 1024 * 1024, 10 * 1024 * 1024] {
        let bytes = usize::try_from(rate * 5).expect("rate x 5 fits in usize on test hosts");
        let mut rule = capped_in(rate);
        let mut stats = Some(RateLimitStatsAccumulator::new());
        let micros = copy_under(bytes, &mut None, &mut None, &mut rule, &mut stats);
        let elapsed_secs = micros as f64 / 1_000_000.0;
        assert!(elapsed_secs > 0.0, "rate={rate}: elapsed must advance");
        let measured = bytes as f64 / elapsed_secs;
        let lower = rate as f64 * 0.9;
        let upper = rate as f64 * 1.5;
        assert!(
            measured >= lower && measured <= upper,
            "rate={rate}: measured={measured:.0}B/s outside [{lower:.0}, {upper:.0}]"
        );
        assert!(
            stats.unwrap().throttle_micros(BandwidthDirection::In) > 0,
            "rate={rate}: throttle micros must be non-zero"
        );
    }
}

#[test]
fn ingress_cap_throttles_to_target_rate() {
    let mut rule = capped_in(100 * 1024);
    let mut stats = Some(RateLimitStatsAccumulator::new());
    let micros = copy_under(1024 * 1024, &mut None, &mut None, &mut rule, &mut stats);
    assert!(micros >= 5_000_000, "1 MiB at 100 KiB/s should take >=5 s, took {micros} us");
    assert!(
        stats.unwrap().throttle_micros(BandwidthDirection::In) > 0,
        "throttle micros must be non-zero on the In direction"
    );
}

#[test]
fn t030_owner_bandwidth_cap_throttles_independently() {
    let mut owner = capped_in(100 * 1024);
    let mut owner_stats = Some(RateLimitStatsAccumulator::new());
    let mut rule = capped_in(1024 * 1024 * 1024);
    let mut rule_stats = Some(RateLimitStatsAccumulator::new());
    let micros =
        copy_under(1024 * 1024, &mut owner, &mut owner_stats, &mut rule, &mut rule_stats);
    assert!(
        micros >= 5_000_000,
        "owner cap of 100 KiB/s must throttle 1 MiB to >=5 s, took {micros} us"
    );
    assert!(
        owner_stats.unwrap().throttle_micros(BandwidthDirection::In) > 0,
        "owner throttle micros must be non-zero on the In direction"
    );
    assert_eq!(
        rule_stats.unwrap().throttle_micros(BandwidthDirection::In),
        0,
        "rule throttle counter must NOT bump when owner is the binding cap"
    );
}

#[test]
fn a_reading_of_the_clock_saturates() {
    assert_eq!(saturated_micros(0), 0);
    assert_eq!(saturated_micros(1_500_000), 1_500_000);
    assert_eq!(saturated_micros(u128::from(u64::MAX)), u64::MAX);
    assert_eq!(saturated_micros(u128::from(u64::MAX) + 1), u64::MAX);
}

#[test]
fn t025_per_owner_ceiling_binds_before_per_rule_cap() {
    let mut owner = capped_in(5 * 1024 * 1024);
    let mut owner_stats = Some(RateLimitStatsAccumulator::new());
    let mut rule = capped_in(10 * 1024 * 1024);
    let mut rule_stats = Some(RateLimitStatsAccumulator::new());
    let bytes = 16 * 1024 * 1024_usize;
    let micros = copy_under(bytes, &mut owner, &mut owner_stats, &mut rule, &mut rule_stats);
    assert!(micros >= 1_500_000, "owner=5MB/s should take >=1.5s for 16MiB, took {micros} us");
    assert!(
        owner_stats.unwrap().throttle_micros(BandwidthDirection::In) > 0,
        "owner throttle micros must be non-zero - owner is binding"
    );
    assert_eq!(
        rule_stats.unwrap().throttle_micros(BandwidthDirection::In),
        0,
        "rule layer never throttled - its accumulator must stay at 0"
    );
}

#[test]
fn rate_limited_copy_debits_quota_and_halts_at_budget() {
    let mut quotas = QuotaScopeManager::new();
    let budget: i64 = 100 * 1024;
    let q = quotas.install(
        "alice",
        "edge-01",
        QuotaState { monthly_bytes: 1_000_000, budget_remaining_bytes: budget, exhausted: false },
    );
    let mut rule = capped_in(1024 * 1024 * 1024);
    let (mut owner, mut owner_stats, mut rule_stats) = (None, None, None);
    let mut copy = CappedCopy::new(BandwidthDirection::In, Some(q));
    let push: usize = 320 * 1024;
    let mut left = push;
    let mut written: usize = 0;
    while let CappedStep::Read { len } = copy.before_read(&quotas, rule.as_ref(), owner.as_ref()) {
        let n = len.min(left);
        left -= n;
        if copy.after_read(n, &mut quotas) != CappedStep::Pass {
            break;
        }
        let step = copy.pass_at(&mut owner, &mut owner_stats, &mut rule, &mut rule_stats, 0, 0);
        let CappedStep::Write { len } = step else {
            panic!("the cap does not bind here: {step:?}")
        };
        written += len;
        copy.after_write();
    }
    assert!(quotas.is_exhausted(q), "quota must be exhausted after an over-budget transfer");
    assert_eq!(quotas.remaining(q), 0, "remaining budget must saturate at 0");
    assert!(
        copy.total < push as u64,
        "copy must halt at the budget, not forward all {push} bytes"
    );
    assert!(copy.total <= 100 * 1024);
    assert_eq!(written as u64, copy.total);
}

#[test]
fn a_refusal_empties_the_pool() {
    let mut b = TokenBucket::new(1_000, 1_000);
    assert_eq!(b.acquire_at(600, 0), Acquire::Granted);
    assert_eq!(b.tokens_snapshot(), 400);
    // All 500 tokens have to come in again, at 1000 a second.
    assert_eq!(b.acquire_at(500, 0), Acquire::Throttled { deficit: 500_000 });
    assert_eq!(b.tokens_snapshot(), 0);
    assert_eq!(b.acquire_at(500, 500_000), Acquire::Granted);
}

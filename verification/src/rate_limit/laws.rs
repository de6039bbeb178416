//! What the limits promise, call by call and over several calls.

use vstd::prelude::*;

use super::bucket::{saturated_micros, Acquire, TokenBucket};
use super::copy::{chunk_for_direction, refresh_due, CappedCopy, CappedStep};
use super::gate::LayeredAcquire;
use super::limiter::BandwidthLimiter;
use super::stats::RateLimitStatsAccumulator;
use crate::quota::scope::{QuotaHandle, QuotaScopeManager};
use crate::stats::{RateLimitRejectReason, RateLimitStatsSnapshot};
use crate::types::{BandwidthDirection, RejectReason};

verus! {

/// The tokens that came in join those in the pool, up to the burst; a refill never
/// takes any away. An attempt is granted exactly if the pool then holds enough, and
/// takes what it asked for; a refusal leaves nothing. Whoever asks for nothing gets
/// it, and changes nothing.
pub proof fn law_the_pool_grows_by_what_came_in(
    bucket: &mut TokenBucket,
    n: u64,
    now: u64,
    outcome: Acquire,
)
    requires
        bucket@.wf(),
        call_ensures(TokenBucket::acquire_at, (bucket, n, now), outcome),
    ensures
        ({
            let before = old(bucket)@;
            let after = final(bucket)@;
            let gone: int = if now > before.last_refill_micros {
                now - before.last_refill_micros
            } else {
                0
            };
            let came = gone * before.rate_per_sec / 1_000_000;
            let pool: int = if before.tokens + came <= before.burst {
                before.tokens + came
            } else {
                before.burst as int
            };
            &&& before.tokens <= pool <= before.burst
            &&& outcome is Granted <==> n <= pool
            &&& n == 0 ==> after == before
            &&& n > 0 && outcome is Granted ==> after.tokens == pool - n
            &&& outcome is Throttled ==> after.tokens == 0
            &&& n > 0 && came > 0 ==> after.last_refill_micros == now
            &&& came == 0 ==> after.last_refill_micros == before.last_refill_micros
            &&& after.rate_per_sec == before.rate_per_sec
            &&& after.burst == before.burst
        }),
{
    let before = bucket@;
    let gone: int = if now > before.last_refill_micros {
        now - before.last_refill_micros
    } else {
        0
    };
    let rate = before.rate_per_sec as int;
    assert(gone * rate >= 0) by (nonlinear_arith)
        requires
            gone >= 0,
            rate >= 0,
    ;
    assert(gone == 0 ==> gone * rate == 0);
}

/// The wait that a refusal names is the shortest that brings in all the tokens
/// that were asked for, unless the number of them in millionths does not fit a
/// count.
pub proof fn law_the_wait_is_the_shortest_that_covers_the_request(
    bucket: &mut TokenBucket,
    n: u64,
    now: u64,
    deficit: u64,
)
    requires
        bucket@.wf(),
        n * 1_000_000 <= u64::MAX,
        call_ensures(TokenBucket::acquire_at, (bucket, n, now), Acquire::Throttled { deficit }),
    ensures
        deficit * old(bucket)@.rate_per_sec >= n * 1_000_000,
        (deficit - 1) * old(bucket)@.rate_per_sec < n * 1_000_000,
{
    let rate = bucket@.rate_per_sec as int;
    let want = n * 1_000_000;
    let wait = (want + rate - 1) / rate;
    assert(wait * rate >= want && (wait - 1) * rate < want && 0 <= wait <= u64::MAX)
        by (nonlinear_arith)
        requires
            rate >= 1,
            0 <= want <= u64::MAX,
            wait == (want + rate - 1) / rate,
    ;
    assert(deficit == wait);
}

/// A new bucket holds its burst: that much is granted at once, and no more,
/// whatever the clock shows.
pub proof fn law_a_new_bucket_grants_its_burst(
    rate_per_sec: u64,
    burst: u64,
    bucket: &mut TokenBucket,
    n: u64,
    now: u64,
    outcome: Acquire,
)
    requires
        rate_per_sec > 0,
        burst > 0,
        call_ensures(TokenBucket::new, (rate_per_sec, burst), *bucket),
        call_ensures(TokenBucket::acquire_at, (bucket, n, now), outcome),
    ensures
        old(bucket)@.tokens == burst,
        old(bucket)@.burst == burst,
        old(bucket)@.rate_per_sec == rate_per_sec,
        outcome is Granted <==> n <= burst,
        outcome is Granted && n > 0 ==> final(bucket)@.tokens == burst - n,
{
    law_the_pool_grows_by_what_came_in(bucket, n, now, outcome);
}

/// A bucket that takes over from another one holds what that one held, up to its
/// own burst.
pub proof fn law_carryover_keeps_what_fits(
    rate_per_sec: u64,
    burst: u64,
    prior: &TokenBucket,
    held: u64,
    next: TokenBucket,
    tokens: u64,
)
    requires
        rate_per_sec > 0,
        burst > 0,
        call_ensures(TokenBucket::tokens_snapshot, (prior,), held),
        call_ensures(TokenBucket::with_carryover, (rate_per_sec, burst, prior), next),
        call_ensures(TokenBucket::tokens_snapshot, (&next,), tokens),
    ensures
        tokens == (if held <= burst {
            held
        } else {
            burst
        }),
        next@.tokens == tokens,
        next@.rate_per_sec == rate_per_sec,
        next@.burst == burst,
        next@.last_refill_micros == 0,
        prior@.tokens == held,
{
}

/// A bucket says of itself what it was made with.
pub proof fn law_a_bucket_knows_its_numbers(
    rate_per_sec: u64,
    burst: u64,
    bucket: TokenBucket,
    rate: u64,
    most: u64,
    held: u64,
)
    requires
        rate_per_sec > 0,
        burst > 0,
        call_ensures(TokenBucket::new, (rate_per_sec, burst), bucket),
        call_ensures(TokenBucket::rate_per_sec, (&bucket,), rate),
        call_ensures(TokenBucket::burst, (&bucket,), most),
        call_ensures(TokenBucket::tokens_snapshot, (&bucket,), held),
    ensures
        rate == rate_per_sec,
        most == burst,
        held == burst,
{
}

/// By its own clock too a bucket grants whatever the pool holds already, refuses
/// what it can never hold, and hands out no token twice.
pub proof fn law_a_bucket_grants_what_it_holds(bucket: &mut TokenBucket, n: u64, outcome: Acquire)
    requires
        bucket@.wf(),
        call_ensures(TokenBucket::acquire, (bucket, n), outcome),
    ensures
        n <= old(bucket)@.tokens ==> outcome is Granted,
        n > old(bucket)@.burst ==> outcome is Throttled,
        outcome is Granted ==> final(bucket)@.tokens + n <= old(bucket)@.burst || n == 0,
        outcome is Granted ==> final(bucket)@.tokens + n >= old(bucket)@.tokens,
        outcome is Throttled ==> final(bucket)@.tokens == 0,
        final(bucket)@.rate_per_sec == old(bucket)@.rate_per_sec,
        final(bucket)@.burst == old(bucket)@.burst,
        final(bucket)@.last_refill_micros >= old(bucket)@.last_refill_micros,
{
    assert forall|now: u64| #[trigger] bucket@.acquired(n, now) == (final(bucket)@, outcome) implies {
        &&& n <= bucket@.tokens ==> outcome is Granted
        &&& outcome is Granted ==> final(bucket)@.tokens + n >= bucket@.tokens
    } by {
        let gone: int = if now > bucket@.last_refill_micros {
            now - bucket@.last_refill_micros
        } else {
            0
        };
        let rate = bucket@.rate_per_sec as int;
        assert(gone * rate >= 0) by (nonlinear_arith)
            requires
                gone >= 0,
                rate >= 0,
        ;
    }
}

/// A limiter asks the bucket of the direction, and no other. Without one nothing
/// is held up.
pub proof fn law_a_limiter_asks_the_bucket_of_the_direction(
    limiter: &mut BandwidthLimiter,
    bucket: &mut TokenBucket,
    direction: BandwidthDirection,
    n: u64,
    now: u64,
    outcome: Acquire,
    alone: Acquire,
)
    requires
        limiter@.wf(),
        bucket@.wf(),
        call_ensures(BandwidthLimiter::acquire_bandwidth, (limiter, direction, n, now), outcome),
        call_ensures(TokenBucket::acquire_at, (bucket, n, now), alone),
    ensures
        direction == BandwidthDirection::In ==> {
            &&& final(limiter)@.egress == old(limiter)@.egress
            &&& old(limiter)@.ingress is None ==> outcome is Granted
                && final(limiter)@.ingress is None
            &&& old(limiter)@.ingress == Some(old(bucket)@) ==> outcome == alone
                && final(limiter)@.ingress == Some(final(bucket)@)
        },
        direction == BandwidthDirection::Out ==> {
            &&& final(limiter)@.ingress == old(limiter)@.ingress
            &&& old(limiter)@.egress is None ==> outcome is Granted && final(limiter)@.egress is None
            &&& old(limiter)@.egress == Some(old(bucket)@) ==> outcome == alone
                && final(limiter)@.egress == Some(final(bucket)@)
        },
{
}

/// A limiter has the buckets that it was made of, each for its direction, and
/// names their rates.
pub proof fn law_a_limiter_has_the_buckets_it_was_made_of(
    ingress: Option<TokenBucket>,
    egress: Option<TokenBucket>,
    limiter: BandwidthLimiter,
    capped: bool,
    rate_in: Option<u64>,
    rate_out: Option<u64>,
)
    requires
        call_ensures(BandwidthLimiter::new, (ingress, egress), limiter),
        call_ensures(BandwidthLimiter::has_bandwidth_cap, (&limiter,), capped),
        call_ensures(
            BandwidthLimiter::bandwidth_rate_per_sec,
            (&limiter, BandwidthDirection::In),
            rate_in,
        ),
        call_ensures(
            BandwidthLimiter::bandwidth_rate_per_sec,
            (&limiter, BandwidthDirection::Out),
            rate_out,
        ),
    ensures
        capped <==> ingress is Some || egress is Some,
        ingress is None <==> rate_in is None,
        egress is None <==> rate_out is None,
        ingress matches Some(b) ==> rate_in == Some(b@.rate_per_sec) && limiter@.ingress == Some(b@),
        egress matches Some(b) ==> rate_out == Some(b@.rate_per_sec) && limiter@.egress == Some(b@),
{
}

/// A chunk is what the slower of the two limits lets pass in a tenth of a second,
/// but at least 8192 and at most 65536 bytes; without a limit it is the largest.
pub proof fn law_a_chunk_lasts_a_tenth_of_a_second(
    direction: BandwidthDirection,
    rule: Option<&BandwidthLimiter>,
    owner: Option<&BandwidthLimiter>,
    chunk: usize,
    rule_rate: Option<u64>,
    owner_rate: Option<u64>,
)
    requires
        call_ensures(chunk_for_direction, (direction, rule, owner), chunk),
        rule is None ==> rule_rate is None,
        owner is None ==> owner_rate is None,
        rule matches Some(l) ==> call_ensures(
            BandwidthLimiter::bandwidth_rate_per_sec,
            (l, direction),
            rule_rate,
        ),
        owner matches Some(l) ==> call_ensures(
            BandwidthLimiter::bandwidth_rate_per_sec,
            (l, direction),
            owner_rate,
        ),
    ensures
        8192 <= chunk <= 65536,
        rule_rate is None && owner_rate is None ==> chunk == 65536,
        rule_rate matches Some(r) ==> chunk <= 8192 || chunk * 10 <= r,
        owner_rate matches Some(r) ==> chunk <= 8192 || chunk * 10 <= r,
        chunk < 65536 ==> {
            ||| rule_rate matches Some(r) && r < chunk * 10 + 10
            ||| owner_rate matches Some(r) && r < chunk * 10 + 10
        },
{
}

/// Limits are looked up again after a tenth of a second, and not before.
pub proof fn law_limits_are_looked_up_every_tenth_of_a_second(elapsed_micros: u64, due: bool)
    requires
        call_ensures(refresh_due, (elapsed_micros,), due),
    ensures
        due <==> elapsed_micros >= 100_000,
{
}

/// A copy starts with nothing.
pub proof fn law_a_paced_copy_starts_with_nothing(
    direction: BandwidthDirection,
    quota: Option<QuotaHandle>,
    copy: CappedCopy,
)
    requires
        call_ensures(CappedCopy::new, (direction, quota), copy),
    ensures
        copy.direction == direction,
        copy.quota == quota,
        copy.total == 0,
        copy.held == 0,
        !copy.owner_passed,
{
}

/// Before a read a copy stops if its quota is used up, and only then; else it
/// reads a chunk.
pub proof fn law_a_paced_copy_reads_until_the_quota_is_used_up(
    copy: &CappedCopy,
    quotas: &QuotaScopeManager,
    rule: Option<&BandwidthLimiter>,
    owner: Option<&BandwidthLimiter>,
    step: CappedStep,
    chunk: usize,
)
    requires
        copy.funded_by(*quotas),
        call_ensures(CappedCopy::before_read, (copy, quotas, rule, owner), step),
        call_ensures(chunk_for_direction, (copy.direction, rule, owner), chunk),
    ensures
        copy.quota matches Some(q) && quotas.states()[q.id()].exhausted ==> step == CappedStep::Close,
        copy.quota is None || !quotas.states()[copy.quota->0.id()].exhausted ==> step
            == (CappedStep::Read { len: chunk }),
{
}

/// What was read goes on exactly if the quota covers all of it, and then the quota
/// is less by that much. No other quota is touched. The end of the stream costs
/// nothing.
pub proof fn law_a_paced_copy_pays_before_it_passes(
    copy: &mut CappedCopy,
    n: usize,
    quotas: &mut QuotaScopeManager,
    step: CappedStep,
)
    requires
        copy.funded_by(*quotas),
        n <= i64::MAX,
        call_ensures(CappedCopy::after_read, (copy, n, quotas), step),
    ensures
        final(copy).total == old(copy).total,
        final(copy).direction == old(copy).direction,
        final(copy).quota == old(copy).quota,
        step == CappedStep::Pass || step == CappedStep::Close,
        n == 0 ==> step == CappedStep::Close && final(quotas).states() == old(quotas).states(),
        step == CappedStep::Pass ==> final(copy).held == n && !final(copy).owner_passed,
        old(copy).quota is None ==> final(quotas).states() == old(quotas).states() && (n > 0
            ==> step == CappedStep::Pass),
        old(copy).quota matches Some(q) ==> {
            let had = old(quotas).states()[q.id()];
            let left = final(quotas).states()[q.id()];
            &&& n > 0 ==> (step == CappedStep::Pass <==> !had.exhausted && n
                <= had.budget_remaining_bytes)
            &&& step == CappedStep::Pass ==> left.budget_remaining_bytes
                == had.budget_remaining_bytes - n && !left.exhausted
            &&& n > 0 && step == CappedStep::Close ==> left.exhausted
            &&& left.monthly_bytes == had.monthly_bytes
            &&& final(quotas).states().len() == old(quotas).states().len()
            &&& forall|i: int|
                0 <= i < old(quotas).states().len() && i != q.id() ==> #[trigger] final(quotas).states()[i] == old(quotas).states()[i]
        },
{
}

/// A chunk passes the owner's limit, then the rule's. Each limit is asked for the
/// whole chunk in the direction of the copy and answers as it would if it were
/// asked alone; where it refuses, its wait is the wait, and it alone is counted.
/// Once the owner has let the chunk pass it is not asked again.
pub proof fn law_a_chunk_passes_the_owner_then_the_rule(
    copy: &mut CappedCopy,
    owner: &mut Option<BandwidthLimiter>,
    owner_stats: &mut Option<RateLimitStatsAccumulator>,
    rule: &mut Option<BandwidthLimiter>,
    rule_stats: &mut Option<RateLimitStatsAccumulator>,
    owner_now: u64,
    rule_now: u64,
    step: CappedStep,
    owner_alone: &mut BandwidthLimiter,
    owner_outcome: Acquire,
    rule_alone: &mut BandwidthLimiter,
    rule_outcome: Acquire,
)
    requires
        *owner == Some(*owner_alone),
        *rule == Some(*rule_alone),
        owner_alone@.wf(),
        rule_alone@.wf(),
        call_ensures(
            BandwidthLimiter::acquire_bandwidth,
            (owner_alone, copy.direction, copy.held as u64, owner_now),
            owner_outcome,
        ),
        call_ensures(
            BandwidthLimiter::acquire_bandwidth,
            (rule_alone, copy.direction, copy.held as u64, rule_now),
            rule_outcome,
        ),
        call_ensures(
            CappedCopy::pass_at,
            (copy, owner, owner_stats, rule, rule_stats, owner_now, rule_now),
            step,
        ),
    ensures
        final(copy).held == old(copy).held,
        final(copy).total == old(copy).total,
        final(copy).quota == old(copy).quota,
        final(copy).direction == old(copy).direction,
        *final(owner) is Some,
        *final(rule) is Some,
        !old(copy).owner_passed && owner_outcome is Throttled ==> {
            &&& step == (CappedStep::Wait { micros: owner_outcome->deficit })
            &&& !final(copy).owner_passed
            &&& final(owner)->0@ == final(owner_alone)@
            &&& final(rule)->0@ == old(rule)->0@
            &&& super::copy::stats_view(*final(rule_stats)) == super::copy::stats_view(
                *old(rule_stats),
            )
        },
        !old(copy).owner_passed && owner_outcome is Granted ==> final(owner)->0@ == final(owner_alone)@,
        old(copy).owner_passed ==> final(owner)->0@ == old(owner)->0@,
        old(copy).owner_passed || owner_outcome is Granted ==> {
            &&& final(copy).owner_passed
            &&& final(rule)->0@ == final(rule_alone)@
            &&& super::copy::stats_view(*final(owner_stats)) == super::copy::stats_view(
                *old(owner_stats),
            )
            &&& rule_outcome is Granted ==> step == (CappedStep::Write { len: old(copy).held })
                && super::copy::stats_view(*final(rule_stats)) == super::copy::stats_view(
                *old(rule_stats),
            )
            &&& rule_outcome is Throttled ==> step == (CappedStep::Wait {
                micros: rule_outcome->deficit,
            })
        },
{
}

/// A limit that is not there holds nothing up, and stays away.
pub proof fn law_no_limit_no_wait(
    copy: &mut CappedCopy,
    owner: &mut Option<BandwidthLimiter>,
    owner_stats: &mut Option<RateLimitStatsAccumulator>,
    rule: &mut Option<BandwidthLimiter>,
    rule_stats: &mut Option<RateLimitStatsAccumulator>,
    owner_now: u64,
    rule_now: u64,
    step: CappedStep,
)
    requires
        super::copy::limiter_wf(super::copy::limiter_view(*owner)),
        super::copy::limiter_wf(super::copy::limiter_view(*rule)),
        call_ensures(
            CappedCopy::pass_at,
            (copy, owner, owner_stats, rule, rule_stats, owner_now, rule_now),
            step,
        ),
    ensures
        *old(owner) is None ==> *final(owner) is None && final(copy).owner_passed,
        *old(rule) is None ==> *final(rule) is None,
        *old(owner) is None && *old(rule) is None ==> step == (CappedStep::Write {
            len: old(copy).held,
        }),
{
}

/// The wait for a limit is counted with that limit, in its direction.
pub proof fn law_a_wait_is_counted_where_it_arose(
    copy: &mut CappedCopy,
    owner: &mut Option<BandwidthLimiter>,
    owner_stats: &mut Option<RateLimitStatsAccumulator>,
    rule: &mut Option<BandwidthLimiter>,
    rule_stats: &mut Option<RateLimitStatsAccumulator>,
    owner_now: u64,
    rule_now: u64,
    micros: u64,
)
    requires
        super::copy::limiter_wf(super::copy::limiter_view(*owner)),
        super::copy::limiter_wf(super::copy::limiter_view(*rule)),
        *owner_stats is Some,
        *rule_stats is Some,
        call_ensures(
            CappedCopy::pass_at,
            (copy, owner, owner_stats, rule, rule_stats, owner_now, rule_now),
            CappedStep::Wait { micros },
        ),
    ensures
        *final(owner_stats) is Some,
        *final(rule_stats) is Some,
        ({
            let (o0, o1) = (old(owner_stats)->0@, final(owner_stats)->0@);
            let (r0, r1) = (old(rule_stats)->0@, final(rule_stats)->0@);
            let inbound = old(copy).direction == BandwidthDirection::In;
            if final(copy).owner_passed {
                &&& o1 == o0
                &&& r1.rejects == r0.rejects
                &&& r1.active_connections == r0.active_connections
                &&& inbound ==> r1.throttle_micros_in == r0.throttle_micros_in.wrapping_add(micros)
                    && r1.throttle_micros_out == r0.throttle_micros_out
                &&& !inbound ==> r1.throttle_micros_out == r0.throttle_micros_out.wrapping_add(
                    micros,
                ) && r1.throttle_micros_in == r0.throttle_micros_in
            } else {
                &&& r1 == r0
                &&& o1.rejects == o0.rejects
                &&& o1.active_connections == o0.active_connections
                &&& inbound ==> o1.throttle_micros_in == o0.throttle_micros_in.wrapping_add(micros)
                    && o1.throttle_micros_out == o0.throttle_micros_out
                &&& !inbound ==> o1.throttle_micros_out == o0.throttle_micros_out.wrapping_add(
                    micros,
                ) && o1.throttle_micros_in == o0.throttle_micros_in
            }
        }),
{
}

/// A chunk that was written is counted once, and the next one starts afresh.
pub proof fn law_a_written_chunk_is_counted_once(copy: &mut CappedCopy)
    requires
        copy.total + copy.held <= u64::MAX,
        call_ensures(CappedCopy::after_write, (copy,), ()),
    ensures
        final(copy).total == old(copy).total + old(copy).held,
        final(copy).held == 0,
        !final(copy).owner_passed,
        final(copy).direction == old(copy).direction,
        final(copy).quota == old(copy).quota,
{
}

/// A connection is admitted exactly if both limits grant it. Whoever refuses
/// counts the refusal once under its reason, and nothing else is counted.
pub proof fn law_whoever_refuses_counts_it(
    outcome: LayeredAcquire,
    owner_stats: &mut Option<RateLimitStatsAccumulator>,
    rule_stats: &mut Option<RateLimitStatsAccumulator>,
    admitted: bool,
    reason: RejectReason,
    owner_before: u64,
    owner_after: u64,
    rule_before: u64,
    rule_after: u64,
)
    requires
        *owner_stats is Some,
        *rule_stats is Some,
        call_ensures(LayeredAcquire::settle, (outcome, owner_stats, rule_stats), admitted),
        call_ensures(
            RateLimitStatsAccumulator::reject_total,
            (&(*owner_stats)->0, reason),
            owner_before,
        ),
        call_ensures(
            RateLimitStatsAccumulator::reject_total,
            (&(*rule_stats)->0, reason),
            rule_before,
        ),
        call_ensures(
            RateLimitStatsAccumulator::reject_total,
            (&(*final(owner_stats))->0, reason),
            owner_after,
        ),
        call_ensures(
            RateLimitStatsAccumulator::reject_total,
            (&(*final(rule_stats))->0, reason),
            rule_after,
        ),
    ensures
        admitted <==> outcome == LayeredAcquire::Granted,
        *final(owner_stats) is Some,
        *final(rule_stats) is Some,
        owner_after == (if outcome == LayeredAcquire::OwnerRejected(reason) {
            owner_before.wrapping_add(1)
        } else {
            owner_before
        }),
        rule_after == (if outcome == LayeredAcquire::RuleRejected(reason) {
            rule_before.wrapping_add(1)
        } else {
            rule_before
        }),
        final(owner_stats)->0@.throttle_micros_in == old(owner_stats)->0@.throttle_micros_in,
        final(owner_stats)->0@.throttle_micros_out == old(owner_stats)->0@.throttle_micros_out,
        final(owner_stats)->0@.active_connections == old(owner_stats)->0@.active_connections,
        final(rule_stats)->0@.throttle_micros_in == old(rule_stats)->0@.throttle_micros_in,
        final(rule_stats)->0@.throttle_micros_out == old(rule_stats)->0@.throttle_micros_out,
        final(rule_stats)->0@.active_connections == old(rule_stats)->0@.active_connections,
{
}

/// Who keeps no counters still gets the answer.
pub proof fn law_refusals_need_no_counters(
    outcome: LayeredAcquire,
    owner_stats: &mut Option<RateLimitStatsAccumulator>,
    rule_stats: &mut Option<RateLimitStatsAccumulator>,
    admitted: bool,
)
    requires
        call_ensures(LayeredAcquire::settle, (outcome, owner_stats, rule_stats), admitted),
    ensures
        admitted <==> outcome == LayeredAcquire::Granted,
        *old(owner_stats) is None <==> *final(owner_stats) is None,
        *old(rule_stats) is None <==> *final(rule_stats) is None,
{
}

/// Every reason has a count of its own: a refusal is added to that of its reason
/// and to no other.
pub proof fn law_every_reason_has_its_own_count(
    stats: &mut RateLimitStatsAccumulator,
    reason: RejectReason,
    asked: RejectReason,
    before: u64,
    after: u64,
)
    requires
        stats@.wf(),
        call_ensures(RateLimitStatsAccumulator::reject_total, (&*stats, asked), before),
        call_ensures(RateLimitStatsAccumulator::record_reject, (stats, reason), ()),
        call_ensures(RateLimitStatsAccumulator::reject_total, (&*final(stats), asked), after),
    ensures
        after == (if asked == reason {
            before.wrapping_add(1)
        } else {
            before
        }),
        final(stats)@.throttle_micros_in == old(stats)@.throttle_micros_in,
        final(stats)@.throttle_micros_out == old(stats)@.throttle_micros_out,
        final(stats)@.active_connections == old(stats)@.active_connections,
{
}

/// Waits are added up for each direction by itself.
pub proof fn law_waits_add_up_per_direction(
    stats: &mut RateLimitStatsAccumulator,
    direction: BandwidthDirection,
    micros: u64,
    asked: BandwidthDirection,
    before: u64,
    after: u64,
)
    requires
        stats@.wf(),
        call_ensures(RateLimitStatsAccumulator::throttle_micros, (&*stats, asked), before),
        call_ensures(RateLimitStatsAccumulator::record_throttle, (stats, direction, micros), ()),
        call_ensures(RateLimitStatsAccumulator::throttle_micros, (&*final(stats), asked), after),
    ensures
        after == (if asked == direction {
            before.wrapping_add(micros)
        } else {
            before
        }),
        final(stats)@.rejects == old(stats)@.rejects,
        final(stats)@.active_connections == old(stats)@.active_connections,
{
}

/// A report names every reason that has applied, once and with its count, and no
/// other. There is none exactly if nothing was counted.
pub proof fn law_a_report_shows_every_count(
    stats: &RateLimitStatsAccumulator,
    report: Option<RateLimitStatsSnapshot>,
    active: u64,
    waited_in: u64,
    waited_out: u64,
    counts: spec_fn(RejectReason) -> u64,
)
    requires
        call_ensures(RateLimitStatsAccumulator::drain, (stats,), report),
        call_ensures(RateLimitStatsAccumulator::active_connections, (stats,), active),
        call_ensures(
            RateLimitStatsAccumulator::throttle_micros,
            (stats, BandwidthDirection::In),
            waited_in,
        ),
        call_ensures(
            RateLimitStatsAccumulator::throttle_micros,
            (stats, BandwidthDirection::Out),
            waited_out,
        ),
        forall|reason: RejectReason|
            call_ensures(
                RateLimitStatsAccumulator::reject_total,
                (stats, reason),
                #[trigger] counts(reason),
            ),
    ensures
        report is None <==> active == 0 && waited_in == 0 && waited_out == 0 && counts(
            RejectReason::ConnConcurrent,
        ) == 0 && counts(RejectReason::ConnRate) == 0 && counts(RejectReason::UdpFlowRate) == 0
            && counts(RejectReason::OwnerConcurrent) == 0 && counts(RejectReason::OwnerConnRate)
            == 0 && counts(RejectReason::OwnerUdpFlowRate) == 0,
        report matches Some(snap) ==> {
            let rows = snap.reject_total@;
            &&& snap.throttle_micros_in == waited_in
            &&& snap.throttle_micros_out == waited_out
            &&& active <= u32::MAX ==> snap.active_connections == active
            &&& active > u32::MAX ==> snap.active_connections == u32::MAX
            &&& forall|i: int, j: int|
                0 <= i < j < rows.len() ==> (#[trigger] rows[i]).0 != (#[trigger] rows[j]).0
            &&& forall|i: int| 0 <= i < rows.len() ==> (#[trigger] rows[i]).1 > 0
            &&& rows.contains(
                (RateLimitRejectReason::ConnConcurrent, counts(RejectReason::ConnConcurrent)),
            ) == (counts(RejectReason::ConnConcurrent) > 0)
            &&& rows.contains((RateLimitRejectReason::ConnRate, counts(RejectReason::ConnRate)))
                == (counts(RejectReason::ConnRate) > 0)
            &&& rows.contains(
                (RateLimitRejectReason::UdpFlowRate, counts(RejectReason::UdpFlowRate)),
            ) == (counts(RejectReason::UdpFlowRate) > 0)
            &&& rows.contains(
                (RateLimitRejectReason::OwnerConcurrent, counts(RejectReason::OwnerConcurrent)),
            ) == (counts(RejectReason::OwnerConcurrent) > 0)
            &&& rows.contains(
                (RateLimitRejectReason::OwnerConnRate, counts(RejectReason::OwnerConnRate)),
            ) == (counts(RejectReason::OwnerConnRate) > 0)
            &&& rows.contains(
                (RateLimitRejectReason::OwnerUdpFlowRate, counts(RejectReason::OwnerUdpFlowRate)),
            ) == (counts(RejectReason::OwnerUdpFlowRate) > 0)
            &&& forall|i: int|
                0 <= i < rows.len() ==> (#[trigger] rows[i]).0
                    != RateLimitRejectReason::Unspecified
        },
{
    let v = stats@;
    assert(v.rejects.len() == 6);
    assert(v.rejects[0] == counts(RejectReason::ConnConcurrent));
    assert(v.rejects[1] == counts(RejectReason::ConnRate));
    assert(v.rejects[2] == counts(RejectReason::UdpFlowRate));
    assert(v.rejects[3] == counts(RejectReason::OwnerConcurrent));
    assert(v.rejects[4] == counts(RejectReason::OwnerConnRate));
    assert(v.rejects[5] == counts(RejectReason::OwnerUdpFlowRate));
    assert(report is None <==> v.rejects =~= Seq::new(6, |i: int| 0u64) && active == 0 && waited_in
        == 0 && waited_out == 0);
    reveal_with_fuel(super::stats::RateLimitStatsView::fired, 7);
    let rows = v.fired(6);
    assert forall|reason: RateLimitRejectReason, count: u64|
        rows.contains((reason, count)) == (count > 0 && match reason {
            RateLimitRejectReason::Unspecified => false,
            RateLimitRejectReason::ConnConcurrent => count == v.rejects[0],
            RateLimitRejectReason::ConnRate => count == v.rejects[1],
            RateLimitRejectReason::UdpFlowRate => count == v.rejects[2],
            RateLimitRejectReason::OwnerConcurrent => count == v.rejects[3],
            RateLimitRejectReason::OwnerConnRate => count == v.rejects[4],
            RateLimitRejectReason::OwnerUdpFlowRate => count == v.rejects[5],
        }) by {
        lemma_fired_contains(v, 6, reason, count);
    }
    lemma_fired_distinct(v, 6);
    assert forall|i: int| 0 <= i < rows.len() implies (#[trigger] rows[i]).1 > 0 && rows[i].0
        != RateLimitRejectReason::Unspecified by {
        assert(rows.contains((rows[i].0, rows[i].1)));
    }
}

proof fn lemma_fired_contains(
    v: super::stats::RateLimitStatsView,
    upto: nat,
    reason: RateLimitRejectReason,
    count: u64,
)
    requires
        upto <= 6,
        v.rejects.len() == 6,
    ensures
        v.fired(upto).contains((reason, count)) <==> exists|k: int|
            0 <= k < upto && super::stats::reported_at(k as usize) == reason && (
            #[trigger] v.rejects[k]) == count && count > 0,
    decreases upto,
{
    if upto > 0 {
        let before = v.fired((upto - 1) as nat);
        lemma_fired_contains(v, (upto - 1) as nat, reason, count);
        let rows = v.fired(upto);
        if v.rejects[upto - 1] != 0 {
            let row = (super::stats::reported_at((upto - 1) as usize), v.rejects[upto - 1]);
            assert(rows == before.push(row));
            if before.contains((reason, count)) {
                let i = choose|i: int| 0 <= i < before.len() && before[i] == (reason, count);
                assert(rows[i] == (reason, count));
            }
            if row == (reason, count) {
                assert(rows[before.len() as int] == row);
            }
            if rows.contains((reason, count)) && row != (reason, count) {
                let i = choose|i: int| 0 <= i < rows.len() && rows[i] == (reason, count);
                assert(before[i] == (reason, count));
            }
        }
    }
}

proof fn lemma_fired_distinct(v: super::stats::RateLimitStatsView, upto: nat)
    requires
        upto <= 6,
        v.rejects.len() == 6,
    ensures
        forall|i: int, j: int|
            0 <= i < j < v.fired(upto).len() ==> (#[trigger] v.fired(upto)[i]).0 != (
            #[trigger] v.fired(upto)[j]).0,
    decreases upto,
{
    if upto > 0 {
        let before = v.fired((upto - 1) as nat);
        lemma_fired_distinct(v, (upto - 1) as nat);
        assert forall|i: int| 0 <= i < before.len() implies (#[trigger] before[i]).0
            != super::stats::reported_at((upto - 1) as usize) by {
            assert(before.contains((before[i].0, before[i].1)));
            lemma_fired_contains(v, (upto - 1) as nat, before[i].0, before[i].1);
        }
    }
}

/// New counters show nothing.
pub proof fn law_new_counters_show_nothing(
    stats: RateLimitStatsAccumulator,
    reason: RejectReason,
    count: u64,
    report: Option<RateLimitStatsSnapshot>,
)
    requires
        call_ensures(RateLimitStatsAccumulator::new, (), stats),
        call_ensures(RateLimitStatsAccumulator::reject_total, (&stats, reason), count),
        call_ensures(RateLimitStatsAccumulator::drain, (&stats,), report),
    ensures
        count == 0,
        report is None,
        stats@.throttle_micros_in == 0,
        stats@.throttle_micros_out == 0,
        stats@.active_connections == 0,
{
}

/// The number of connections is the one that was set last.
pub proof fn law_active_connections_are_those_set_last(
    stats: &mut RateLimitStatsAccumulator,
    n: u64,
    active: u64,
)
    requires
        stats@.wf(),
        call_ensures(RateLimitStatsAccumulator::set_active_connections, (stats, n), ()),
        call_ensures(RateLimitStatsAccumulator::active_connections, (&*final(stats),), active),
    ensures
        active == n,
        final(stats)@.rejects == old(stats)@.rejects,
        final(stats)@.throttle_micros_in == old(stats)@.throttle_micros_in,
        final(stats)@.throttle_micros_out == old(stats)@.throttle_micros_out,
{
}

/// Places and reasons name each other.
pub proof fn law_places_and_reasons_name_each_other(
    reason: RejectReason,
    index: usize,
    back: RejectReason,
    reported: RateLimitRejectReason,
    reported_index: usize,
)
    requires
        call_ensures(super::stats::reason_index, (reason,), index),
        call_ensures(super::stats::reason_from_index, (index,), back),
        call_ensures(super::stats::reason_to_snapshot, (reason,), reported),
        call_ensures(RateLimitRejectReason::as_index, (reported,), reported_index),
    ensures
        index < 6,
        back == reason,
        reported_index == index + 1,
        reason == RejectReason::ConnConcurrent <==> reported
            == RateLimitRejectReason::ConnConcurrent,
        reason == RejectReason::ConnRate <==> reported == RateLimitRejectReason::ConnRate,
        reason == RejectReason::UdpFlowRate <==> reported == RateLimitRejectReason::UdpFlowRate,
        reason == RejectReason::OwnerConcurrent <==> reported
            == RateLimitRejectReason::OwnerConcurrent,
        reason == RejectReason::OwnerConnRate <==> reported == RateLimitRejectReason::OwnerConnRate,
        reason == RejectReason::OwnerUdpFlowRate <==> reported
            == RateLimitRejectReason::OwnerUdpFlowRate,
{
}

/// The microseconds from the start of a clock to an instant, or as many as can be
/// counted.
pub open spec fn counted_micros(epoch: tokio::time::Instant, now: tokio::time::Instant) -> int {
    if crate::clock::micros_from(epoch, now) > u64::MAX {
        u64::MAX as int
    } else {
        crate::clock::micros_from(epoch, now) as int
    }
}

/// A limit reads its clock at some instant. One that there is not, or that has no cap,
/// has no clock and reads 0.
pub open spec fn reads_at(
    limiter: Option<BandwidthLimiter>,
    direction: BandwidthDirection,
    micros: u64,
) -> bool {
    match limiter {
        Some(l) => match l.spec_epoch(direction) {
            Some(epoch) => exists|now: tokio::time::Instant|
                micros == #[trigger] counted_micros(epoch, now),
            None => micros == 0,
        },
        None => micros == 0,
    }
}

/// A number of microseconds is counted as it is, up to the largest count.
pub proof fn law_microseconds_are_counted_up_to_the_largest(micros: u128, count: u64)
    requires
        call_ensures(saturated_micros, (micros,), count),
    ensures
        micros <= u64::MAX ==> count == micros,
        micros > u64::MAX ==> count == u64::MAX,
{
}

/// An attempt by the clock of a bucket is one at some instant since the bucket was made.
pub proof fn law_a_bucket_goes_by_its_clock(bucket: &mut TokenBucket, n: u64, outcome: Acquire)
    requires
        bucket@.wf(),
        call_ensures(TokenBucket::acquire, (bucket, n), outcome),
    ensures
        exists|now: tokio::time::Instant|
            old(bucket)@.acquired(
                n,
                #[trigger] counted_micros(old(bucket).spec_epoch(), now) as u64,
            ) == (final(bucket)@, outcome),
        final(bucket).spec_epoch() == old(bucket).spec_epoch(),
{
    let epoch = bucket.spec_epoch();
    let now = choose|now: tokio::time::Instant|
        (final(bucket)@, outcome) == bucket@.acquired(
            n,
            #[trigger] super::bucket::reading(epoch, now),
        );
    assert(super::bucket::reading(epoch, now) == counted_micros(epoch, now) as u64);
}

/// A chunk goes past the limits by their own clocks as it does at the instants that the
/// clocks read.
pub proof fn law_a_chunk_goes_by_the_clocks_of_its_limits(
    copy: &mut CappedCopy,
    owner: &mut Option<BandwidthLimiter>,
    owner_stats: &mut Option<RateLimitStatsAccumulator>,
    rule: &mut Option<BandwidthLimiter>,
    rule_stats: &mut Option<RateLimitStatsAccumulator>,
    step: CappedStep,
)
    requires
        super::copy::limiter_wf(super::copy::limiter_view(*owner)),
        super::copy::limiter_wf(super::copy::limiter_view(*rule)),
        call_ensures(CappedCopy::pass, (copy, owner, owner_stats, rule, rule_stats), step),
    ensures
        exists|owner_now: u64, rule_now: u64|
            reads_at(*old(owner), old(copy).direction, owner_now) && reads_at(
                *old(rule),
                old(copy).direction,
                rule_now,
            ) && #[trigger] super::copy::pass_view(
                *old(copy),
                *old(owner),
                *old(owner_stats),
                *old(rule),
                *old(rule_stats),
            ).passed(owner_now, rule_now) == (
                super::copy::pass_view(
                    *final(copy),
                    *final(owner),
                    *final(owner_stats),
                    *final(rule),
                    *final(rule_stats),
                ),
                step,
            ),
{
    let start = super::copy::pass_view(*copy, *owner, *owner_stats, *rule, *rule_stats);
    let end = super::copy::pass_view(
        *final(copy),
        *final(owner),
        *final(owner_stats),
        *final(rule),
        *final(rule_stats),
    );
    let direction = copy.direction;
    let (owner_now, rule_now) = choose|owner_now: u64, rule_now: u64|
        super::limiter::shows(super::copy::layer_epoch(*owner, direction), owner_now)
            && super::limiter::shows(super::copy::layer_epoch(*rule, direction), rule_now) && (
            end,
            step,
        ) == #[trigger] start.passed(owner_now, rule_now);
    lemma_shown_is_read(*owner, direction, owner_now);
    lemma_shown_is_read(*rule, direction, rule_now);
}

proof fn lemma_shown_is_read(
    limiter: Option<BandwidthLimiter>,
    direction: BandwidthDirection,
    micros: u64,
)
    requires
        super::limiter::shows(super::copy::layer_epoch(limiter, direction), micros),
    ensures
        reads_at(limiter, direction, micros),
{
    if let Some(epoch) = super::copy::layer_epoch(limiter, direction) {
        let now = choose|now: tokio::time::Instant|
            micros == #[trigger] super::bucket::reading(epoch, now);
        assert(micros == counted_micros(epoch, now));
    }
}

} // verus!

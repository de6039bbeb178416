//! Copying under a bandwidth cap: each chunk waits until the buckets of the
//! owner and of the rule have let it pass, in this order. A quota, where there
//! is one, has covered the chunk before that.

use tokio::time::Instant;
use vstd::prelude::*;

use super::bucket::Acquire;
use super::limiter::{BandwidthLimiter, LimiterView};
use super::stats::{RateLimitStatsAccumulator, RateLimitStatsView};
use crate::quota::scope::{QuotaHandle, QuotaScopeManager};
use crate::quota::{to_quota_bytes, ConsumeOutcome};
use crate::types::BandwidthDirection;

verus! {

/// The most that is read at once.
pub const MAX_CHUNK: usize = 65536;

/// The least that is read at once.
pub const MIN_CHUNK: usize = 8192;

/// How many milliseconds of the cap one chunk is to last.
pub const PACING_TARGET_MS: u64 = 100;

/// After how many microseconds the limits are looked up again.
pub const SNAPSHOT_REFRESH_MICROS: u64 = 100_000;

/// The lesser of two caps, where there are any.
pub open spec fn tightest(a: Option<u64>, b: Option<u64>) -> Option<u64> {
    match (a, b) {
        (Some(a), Some(b)) => Some(
            if a <= b {
                a
            } else {
                b
            },
        ),
        (Some(a), None) => Some(a),
        (None, b) => b,
    }
}

/// How much is read at once under a cap: what the cap lets pass in the pacing
/// time, within the bounds of a chunk.
pub open spec fn chunk_for(cap: Option<u64>) -> usize {
    match cap {
        None => MAX_CHUNK,
        Some(bps) => {
            let target = bps * PACING_TARGET_MS / 1000;
            if target < MIN_CHUNK {
                MIN_CHUNK
            } else if target > MAX_CHUNK {
                MAX_CHUNK
            } else {
                target as usize
            }
        },
    }
}

fn rate_of(direction: BandwidthDirection, limiter: Option<&BandwidthLimiter>) -> (rate:
    Option<u64>)
    ensures
        rate == (match limiter {
            Some(l) => l@.rate(direction),
            None => None,
        }),
{
    match limiter {
        Some(l) => l.bandwidth_rate_per_sec(direction),
        None => None,
    }
}

/// How much is read at once, under the limits of the rule and of the owner.
pub fn chunk_for_direction(
    direction: BandwidthDirection,
    rule: Option<&BandwidthLimiter>,
    owner: Option<&BandwidthLimiter>,
) -> (chunk: usize)
    ensures
        chunk == chunk_for(
            tightest(
                (match rule {
                    Some(l) => l@.rate(direction),
                    None => None,
                }),
                (match owner {
                    Some(l) => l@.rate(direction),
                    None => None,
                }),
            ),
        ),
        MIN_CHUNK <= chunk <= MAX_CHUNK,
{
    let rule_bps = rate_of(direction, rule);
    let owner_bps = rate_of(direction, owner);
    let tightest_bps = match (rule_bps, owner_bps) {
        (Some(a), Some(b)) => Some(
            if a <= b {
                a
            } else {
                b
            },
        ),
        (Some(a), None) => Some(a),
        (None, b) => b,
    };
    match tightest_bps {
        None => MAX_CHUNK,
        Some(bps) => {
            let target: u64 = if bps <= u64::MAX / PACING_TARGET_MS {
                bps * PACING_TARGET_MS / 1000
            } else {
                u64::MAX / 1000
            };
            if target < MIN_CHUNK as u64 {
                MIN_CHUNK
            } else if target > MAX_CHUNK as u64 {
                MAX_CHUNK
            } else {
                target as usize
            }
        },
    }
}

/// Whether limits that were looked up `elapsed_micros` ago are to be looked up
/// again.
pub fn refresh_due(elapsed_micros: u64) -> (due: bool)
    ensures
        due == (elapsed_micros >= SNAPSHOT_REFRESH_MICROS),
{
    elapsed_micros >= SNAPSHOT_REFRESH_MICROS
}

/// What one direction of a copy has to do next.
#[derive(Clone, Copy, Debug, PartialEq, Eq, Structural)]
pub enum CappedStep {
    /// Read up to that many bytes.
    Read { len: usize },
    /// Bring the chunk past the limits.
    Pass,
    /// Wait that many microseconds, then bring the chunk past the limits.
    Wait { micros: u64 },
    /// Write the chunk.
    Write { len: usize },
    /// Shut the writing half down and stop.
    Close,
}

/// One direction of a copy under a bandwidth cap.
#[derive(Clone, Copy, Debug, PartialEq, Eq, Structural)]
pub struct CappedCopy {
    /// The direction.
    pub direction: BandwidthDirection,
    /// The quota, where there is one.
    pub quota: Option<QuotaHandle>,
    /// How many bytes were written.
    pub total: u64,
    /// The size of the chunk that is on its way.
    pub held: usize,
    /// The owner's limit has let the chunk pass.
    pub owner_passed: bool,
}

pub open spec fn limiter_view(limiter: Option<BandwidthLimiter>) -> Option<LimiterView> {
    match limiter {
        Some(l) => Some(l@),
        None => None,
    }
}

pub open spec fn stats_view(stats: Option<RateLimitStatsAccumulator>) -> Option<RateLimitStatsView> {
    match stats {
        Some(s) => Some(s@),
        None => None,
    }
}

/// From when on the times of a limit are counted, if there is one and it has a cap
/// for the direction.
pub open spec fn layer_epoch(
    limiter: Option<BandwidthLimiter>,
    direction: BandwidthDirection,
) -> Option<Instant> {
    match limiter {
        Some(l) => l.spec_epoch(direction),
        None => None,
    }
}

/// The times of both directions are counted from when they were before.
pub open spec fn same_epochs(
    before: Option<BandwidthLimiter>,
    after: Option<BandwidthLimiter>,
) -> bool {
    forall|d: BandwidthDirection| #[trigger] layer_epoch(after, d) == layer_epoch(before, d)
}

pub open spec fn limiter_wf(limiter: Option<LimiterView>) -> bool {
    limiter matches Some(l) ==> l.wf()
}

/// What an attempt to bring `n` bytes past a limit leaves and answers. Where
/// there is no limit, or `skip` says that it was passed before, nothing stands
/// in the way.
pub open spec fn layer_acquired(
    limiter: Option<LimiterView>,
    skip: bool,
    direction: BandwidthDirection,
    n: u64,
    now: u64,
) -> (Option<LimiterView>, Acquire) {
    match limiter {
        Some(l) if !skip => {
            let (after, outcome) = l.acquired(direction, n, now);
            (Some(after), outcome)
        },
        _ => (limiter, Acquire::Granted),
    }
}

/// The counts after an attempt: a wait is counted.
pub open spec fn layer_counted(
    stats: Option<RateLimitStatsView>,
    direction: BandwidthDirection,
    outcome: Acquire,
) -> Option<RateLimitStatsView> {
    match (stats, outcome) {
        (Some(s), Acquire::Throttled { deficit }) => Some(s.after_throttle(direction, deficit)),
        _ => stats,
    }
}

/// A chunk on its way, with the limits and the counts of the owner and of the
/// rule.
pub struct PassView {
    pub copy: CappedCopy,
    pub owner: Option<LimiterView>,
    pub owner_stats: Option<RateLimitStatsView>,
    pub rule: Option<LimiterView>,
    pub rule_stats: Option<RateLimitStatsView>,
}

pub open spec fn pass_view(
    copy: CappedCopy,
    owner: Option<BandwidthLimiter>,
    owner_stats: Option<RateLimitStatsAccumulator>,
    rule: Option<BandwidthLimiter>,
    rule_stats: Option<RateLimitStatsAccumulator>,
) -> PassView {
    PassView {
        copy,
        owner: limiter_view(owner),
        owner_stats: stats_view(owner_stats),
        rule: limiter_view(rule),
        rule_stats: stats_view(rule_stats),
    }
}

impl PassView {
    /// The chunk before the limit of the owner.
    pub open spec fn at_owner(self, owner_now: u64) -> (PassView, Acquire) {
        let (owner, outcome) = layer_acquired(
            self.owner,
            self.copy.owner_passed,
            self.copy.direction,
            self.copy.held as u64,
            owner_now,
        );
        let owner_stats = layer_counted(self.owner_stats, self.copy.direction, outcome);
        let copy = CappedCopy {
            owner_passed: self.copy.owner_passed || outcome is Granted,
            ..self.copy
        };
        (PassView { copy, owner, owner_stats, ..self }, outcome)
    }

    /// The chunk before the limit of the rule.
    pub open spec fn at_rule(self, rule_now: u64) -> (PassView, Acquire) {
        let (rule, outcome) = layer_acquired(
            self.rule,
            false,
            self.copy.direction,
            self.copy.held as u64,
            rule_now,
        );
        let rule_stats = layer_counted(self.rule_stats, self.copy.direction, outcome);
        (PassView { rule, rule_stats, ..self }, outcome)
    }

    /// What bringing the chunk past the limits leaves, and what is to be done
    /// next.
    pub open spec fn passed(self, owner_now: u64, rule_now: u64) -> (PassView, CappedStep) {
        let (after_owner, owner_outcome) = self.at_owner(owner_now);
        let (after_rule, rule_outcome) = after_owner.at_rule(rule_now);
        match (owner_outcome, rule_outcome) {
            (Acquire::Throttled { deficit }, _) => (
                after_owner,
                CappedStep::Wait { micros: deficit },
            ),
            (Acquire::Granted, Acquire::Throttled { deficit }) => (
                after_rule,
                CappedStep::Wait { micros: deficit },
            ),
            (Acquire::Granted, Acquire::Granted) => (
                after_rule,
                CappedStep::Write { len: self.copy.held },
            ),
        }
    }

    /// What a series of attempts at these instants leaves.
    pub open spec fn after_passes(self, instants: Seq<(u64, u64)>) -> PassView
        decreases instants.len(),
    {
        if instants.len() == 0 {
            self
        } else {
            let (owner_now, rule_now) = instants.last();
            self.after_passes(instants.drop_last()).passed(owner_now, rule_now).0
        }
    }

    /// How often the owner's limit let the chunk pass in such a series.
    pub open spec fn owner_grants(self, instants: Seq<(u64, u64)>) -> nat
        decreases instants.len(),
    {
        if instants.len() == 0 {
            0
        } else {
            let before = self.after_passes(instants.drop_last());
            let asked = !before.copy.owner_passed;
            self.owner_grants(instants.drop_last()) + (if asked && before.at_owner(
                instants.last().0,
            ).1 is Granted {
                1nat
            } else {
                0nat
            })
        }
    }
}

/// The owner comes first: as long as its limit holds the chunk back, the limit
/// and the counts of the rule stay as they are, and nothing is written. Once the
/// chunk is past it, only the rule can hold the chunk back.
pub proof fn law_the_owner_gates_the_rule(chunk: PassView, owner_now: u64, rule_now: u64)
    ensures
        ({
            let (after, step) = chunk.passed(owner_now, rule_now);
            if chunk.at_owner(owner_now).1 is Throttled {
                &&& step is Wait
                &&& after.rule == chunk.rule
                &&& after.rule_stats == chunk.rule_stats
                &&& !after.copy.owner_passed
            } else {
                &&& after.copy.owner_passed
                &&& step is Write <==> chunk.at_owner(owner_now).0.at_rule(rule_now).1 is Granted
                &&& step is Write ==> step == CappedStep::Write { len: chunk.copy.held }
            }
        }),
{
}

/// However often a chunk has to wait, the owner's limit is charged for it once.
pub proof fn law_the_owner_is_charged_once(chunk: PassView, instants: Seq<(u64, u64)>)
    requires
        !chunk.copy.owner_passed,
    ensures
        chunk.owner_grants(instants) == (if chunk.after_passes(instants).copy.owner_passed {
            1nat
        } else {
            0nat
        }),
        chunk.after_passes(instants).copy.held == chunk.copy.held,
    decreases instants.len(),
{
    if instants.len() > 0 {
        law_the_owner_is_charged_once(chunk, instants.drop_last());
    }
}

/// The reading of the clock by which a limit counts. Where nothing limits the
/// direction, it is 0.
fn clock_of(limiter: &Option<BandwidthLimiter>, direction: BandwidthDirection) -> (micros: u64)
    ensures
        super::limiter::shows(layer_epoch(*limiter, direction), micros),
{
    match limiter {
        Some(l) => l.now_micros(direction),
        None => 0,
    }
}

/// Tries to bring `n` bytes past one limit and counts the wait, if any.
fn acquire_layer(
    limiter: &mut Option<BandwidthLimiter>,
    stats: &mut Option<RateLimitStatsAccumulator>,
    direction: BandwidthDirection,
    n: u64,
    now_micros: u64,
) -> (outcome: Acquire)
    requires
        limiter_wf(limiter_view(*old(limiter))),
    ensures
        limiter_wf(limiter_view(*final(limiter))),
        (limiter_view(*final(limiter)), outcome) == layer_acquired(
            limiter_view(*old(limiter)),
            false,
            direction,
            n,
            now_micros,
        ),
        stats_view(*final(stats)) =~= layer_counted(stats_view(*old(stats)), direction, outcome),
        same_epochs(*old(limiter), *final(limiter)),
{
    let outcome = match limiter {
        Some(l) => l.acquire_bandwidth(direction, n, now_micros),
        None => Acquire::Granted,
    };
    if let Acquire::Throttled { deficit } = outcome {
        match stats {
            Some(s) => {
                s.record_throttle(direction, deficit);
            },
            None => {},
        }
    }
    outcome
}

impl CappedCopy {
    pub fn new(direction: BandwidthDirection, quota: Option<QuotaHandle>) -> (copy: CappedCopy)
        ensures
            copy == (CappedCopy { direction, quota, total: 0, held: 0, owner_passed: false }),
    {
        CappedCopy { direction, quota, total: 0, held: 0, owner_passed: false }
    }

    /// The quota, if there is one, was given out by `quotas`.
    pub open spec fn funded_by(self, quotas: QuotaScopeManager) -> bool {
        &&& quotas.wf()
        &&& self.quota matches Some(q) ==> quotas.issued(q)
    }

    /// Before a read: nothing is read once the quota is used up.
    pub fn before_read(
        &self,
        quotas: &QuotaScopeManager,
        rule: Option<&BandwidthLimiter>,
        owner: Option<&BandwidthLimiter>,
    ) -> (step: CappedStep)
        requires
            self.funded_by(*quotas),
        ensures
            step == (if self.quota is Some && quotas.state_of(self.quota->0).exhausted {
                CappedStep::Close
            } else {
                CappedStep::Read {
                    len: chunk_for(
                        tightest(
                            (match rule {
                                Some(l) => l@.rate(self.direction),
                                None => None,
                            }),
                            (match owner {
                                Some(l) => l@.rate(self.direction),
                                None => None,
                            }),
                        ),
                    ),
                }
            }),
    {
        if let Some(q) = self.quota {
            if quotas.is_exhausted(q) {
                return CappedStep::Close;
            }
        }
        CappedStep::Read { len: chunk_for_direction(self.direction, rule, owner) }
    }

    /// After a read of `n` bytes: a chunk goes on only if the quota covers all
    /// of it. No bytes is the end of the stream.
    pub fn after_read(&mut self, n: usize, quotas: &mut QuotaScopeManager) -> (step: CappedStep)
        requires
            old(self).funded_by(*old(quotas)),
        ensures
            final(self).funded_by(*final(quotas)),
            final(quotas).users() == old(quotas).users(),
            ({
                let drawn = crate::quota::quota_bytes(n as nat);
                let covered = match old(self).quota {
                    Some(q) => old(quotas).state_of(q).consumed(drawn).1 == ConsumeOutcome::Granted,
                    None => true,
                };
                &&& step == (if n > 0 && covered {
                    CappedStep::Pass
                } else {
                    CappedStep::Close
                })
                &&& *final(self) == (if n > 0 && covered {
                    CappedCopy { held: n, owner_passed: false, ..*old(self) }
                } else {
                    *old(self)
                })
                &&& final(quotas).states() =~= match old(self).quota {
                    Some(q) if n > 0 => old(quotas).states().update(
                        q.id(),
                        old(quotas).state_of(q).consumed(drawn).0,
                    ),
                    _ => old(quotas).states(),
                }
            }),
    {
        if n == 0 {
            return CappedStep::Close;
        }
        if let Some(q) = self.quota {
            match quotas.consume(q, to_quota_bytes(n as u64)) {
                ConsumeOutcome::Granted => {},
                ConsumeOutcome::Exhausted => {
                    return CappedStep::Close;
                },
            }
        }
        self.held = n;
        self.owner_passed = false;
        CappedStep::Pass
    }

    /// Brings the chunk past the limit of the owner and then past that of the
    /// rule, each at what its own clock shows. The outcome is that of
    /// [`CappedCopy::pass_at`] at those times.
    pub fn pass(
        &mut self,
        owner: &mut Option<BandwidthLimiter>,
        owner_stats: &mut Option<RateLimitStatsAccumulator>,
        rule: &mut Option<BandwidthLimiter>,
        rule_stats: &mut Option<RateLimitStatsAccumulator>,
    ) -> (step: CappedStep)
        requires
            limiter_wf(limiter_view(*old(owner))),
            limiter_wf(limiter_view(*old(rule))),
        ensures
            limiter_wf(limiter_view(*final(owner))),
            limiter_wf(limiter_view(*final(rule))),
            same_epochs(*old(owner), *final(owner)),
            same_epochs(*old(rule), *final(rule)),
            exists|owner_now: u64, rule_now: u64|
                super::limiter::shows(layer_epoch(*old(owner), old(self).direction), owner_now)
                    && super::limiter::shows(
                    layer_epoch(*old(rule), old(self).direction),
                    rule_now,
                ) && (
                    pass_view(
                        *final(self),
                        *final(owner),
                        *final(owner_stats),
                        *final(rule),
                        *final(rule_stats),
                    ),
                    step,
                ) == #[trigger] pass_view(
                    *old(self),
                    *old(owner),
                    *old(owner_stats),
                    *old(rule),
                    *old(rule_stats),
                ).passed(owner_now, rule_now),
    {
        let owner_now: u64 = clock_of(owner, self.direction);
        let rule_now: u64 = clock_of(rule, self.direction);
        self.pass_at(owner, owner_stats, rule, rule_stats, owner_now, rule_now)
    }

    /// Brings the chunk past the limit of the owner and then past that of the
    /// rule. The rule is not asked before the owner has let the chunk pass, and
    /// the owner is not asked again after that.
    pub fn pass_at(
        &mut self,
        owner: &mut Option<BandwidthLimiter>,
        owner_stats: &mut Option<RateLimitStatsAccumulator>,
        rule: &mut Option<BandwidthLimiter>,
        rule_stats: &mut Option<RateLimitStatsAccumulator>,
        owner_now: u64,
        rule_now: u64,
    ) -> (step: CappedStep)
        requires
            limiter_wf(limiter_view(*old(owner))),
            limiter_wf(limiter_view(*old(rule))),
        ensures
            limiter_wf(limiter_view(*final(owner))),
            limiter_wf(limiter_view(*final(rule))),
            same_epochs(*old(owner), *final(owner)),
            same_epochs(*old(rule), *final(rule)),
            (
                pass_view(
                    *final(self),
                    *final(owner),
                    *final(owner_stats),
                    *final(rule),
                    *final(rule_stats),
                ),
                step,
            ) == pass_view(
                *old(self),
                *old(owner),
                *old(owner_stats),
                *old(rule),
                *old(rule_stats),
            ).passed(owner_now, rule_now),
    {
        let n: u64 = self.held as u64;
        if !self.owner_passed {
            match acquire_layer(owner, owner_stats, self.direction, n, owner_now) {
                Acquire::Throttled { deficit } => {
                    return CappedStep::Wait { micros: deficit };
                },
                Acquire::Granted => {},
            }
            self.owner_passed = true;
        }
        match acquire_layer(rule, rule_stats, self.direction, n, rule_now) {
            Acquire::Throttled { deficit } => CappedStep::Wait { micros: deficit },
            Acquire::Granted => CappedStep::Write { len: self.held },
        }
    }

    /// After the chunk was written.
    pub fn after_write(&mut self)
        requires
            old(self).total + old(self).held <= u64::MAX,
        ensures
            *final(self) == (CappedCopy {
                total: (old(self).total + old(self).held) as u64,
                held: 0,
                owner_passed: false,
                ..*old(self)
            }),
    {
        self.total = self.total + self.held as u64;
        self.held = 0;
        self.owner_passed = false;
    }
}

} // verus!

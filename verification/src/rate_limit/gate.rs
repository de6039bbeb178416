//! Admission: the limit of the owner is asked first, then that of the rule.

use vstd::prelude::*;

use super::stats::{RateLimitStatsAccumulator, RateLimitStatsView};
use crate::types::RejectReason;

verus! {

/// What asking both limits came to.
#[derive(Clone, Copy, Debug, PartialEq, Eq, Structural)]
pub enum LayeredAcquire {
    Granted,
    OwnerRejected(RejectReason),
    RuleRejected(RejectReason),
}

/// The counts of an owner or of a rule after a refusal, if there was one.
pub open spec fn reject_counted(
    stats: Option<RateLimitStatsView>,
    refusal: Option<RejectReason>,
) -> Option<RateLimitStatsView> {
    match (stats, refusal) {
        (Some(s), Some(reason)) => Some(s.after_reject(reason)),
        _ => stats,
    }
}

impl LayeredAcquire {
    pub open spec fn owner_refusal(self) -> Option<RejectReason> {
        match self {
            LayeredAcquire::OwnerRejected(reason) => Some(reason),
            _ => None,
        }
    }

    pub open spec fn rule_refusal(self) -> Option<RejectReason> {
        match self {
            LayeredAcquire::RuleRejected(reason) => Some(reason),
            _ => None,
        }
    }

    /// Whether something is let in. A refusal is counted where it was made: with
    /// the owner or with the rule.
    pub fn settle(
        self,
        owner_stats: &mut Option<RateLimitStatsAccumulator>,
        rule_stats: &mut Option<RateLimitStatsAccumulator>,
    ) -> (admitted: bool)
        ensures
            admitted == (self is Granted),
            super::copy::stats_view(*final(owner_stats)) =~= reject_counted(
                super::copy::stats_view(*old(owner_stats)),
                self.owner_refusal(),
            ),
            super::copy::stats_view(*final(rule_stats)) =~= reject_counted(
                super::copy::stats_view(*old(rule_stats)),
                self.rule_refusal(),
            ),
    {
        match self {
            LayeredAcquire::Granted => true,
            LayeredAcquire::OwnerRejected(reason) => {
                match owner_stats {
                    Some(s) => {
                        s.record_reject(reason);
                    },
                    None => {},
                }
                false
            },
            LayeredAcquire::RuleRejected(reason) => {
                match rule_stats {
                    Some(s) => {
                        s.record_reject(reason);
                    },
                    None => {},
                }
                false
            },
        }
    }
}

} // verus!

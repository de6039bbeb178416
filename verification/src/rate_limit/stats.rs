//! Counts of what a rate limit did.

use vstd::prelude::*;

use crate::stats::{RateLimitRejectReason, RateLimitStatsSnapshot};
use crate::types::{BandwidthDirection, RejectReason};

verus! {

/// How many reasons to turn something away there are.
pub const REJECT_REASON_COUNT: usize = 6;

pub open spec fn spec_reason_index(reason: RejectReason) -> usize {
    match reason {
        RejectReason::ConnConcurrent => 0,
        RejectReason::ConnRate => 1,
        RejectReason::UdpFlowRate => 2,
        RejectReason::OwnerConcurrent => 3,
        RejectReason::OwnerConnRate => 4,
        RejectReason::OwnerUdpFlowRate => 5,
    }
}

/// The place of a reason among the counts.
pub fn reason_index(reason: RejectReason) -> (index: usize)
    ensures
        index == spec_reason_index(reason),
        index < REJECT_REASON_COUNT,
{
    match reason {
        RejectReason::ConnConcurrent => 0,
        RejectReason::ConnRate => 1,
        RejectReason::UdpFlowRate => 2,
        RejectReason::OwnerConcurrent => 3,
        RejectReason::OwnerConnRate => 4,
        RejectReason::OwnerUdpFlowRate => 5,
    }
}

/// The reason at a place among the counts.
pub fn reason_from_index(index: usize) -> (reason: RejectReason)
    requires
        index < REJECT_REASON_COUNT,
    ensures
        spec_reason_index(reason) == index,
{
    match index {
        0 => RejectReason::ConnConcurrent,
        1 => RejectReason::ConnRate,
        2 => RejectReason::UdpFlowRate,
        3 => RejectReason::OwnerConcurrent,
        4 => RejectReason::OwnerConnRate,
        _ => RejectReason::OwnerUdpFlowRate,
    }
}

pub open spec fn spec_reason_to_snapshot(reason: RejectReason) -> RateLimitRejectReason {
    match reason {
        RejectReason::ConnConcurrent => RateLimitRejectReason::ConnConcurrent,
        RejectReason::ConnRate => RateLimitRejectReason::ConnRate,
        RejectReason::UdpFlowRate => RateLimitRejectReason::UdpFlowRate,
        RejectReason::OwnerConcurrent => RateLimitRejectReason::OwnerConcurrent,
        RejectReason::OwnerConnRate => RateLimitRejectReason::OwnerConnRate,
        RejectReason::OwnerUdpFlowRate => RateLimitRejectReason::OwnerUdpFlowRate,
    }
}

/// The reason as it is reported.
pub fn reason_to_snapshot(reason: RejectReason) -> (reported: RateLimitRejectReason)
    ensures
        reported == spec_reason_to_snapshot(reason),
{
    match reason {
        RejectReason::ConnConcurrent => RateLimitRejectReason::ConnConcurrent,
        RejectReason::ConnRate => RateLimitRejectReason::ConnRate,
        RejectReason::UdpFlowRate => RateLimitRejectReason::UdpFlowRate,
        RejectReason::OwnerConcurrent => RateLimitRejectReason::OwnerConcurrent,
        RejectReason::OwnerConnRate => RateLimitRejectReason::OwnerConnRate,
        RejectReason::OwnerUdpFlowRate => RateLimitRejectReason::OwnerUdpFlowRate,
    }
}

/// Every reason has a place of its own, and its number in a report is one more:
/// zero stands for no reason at all.
pub proof fn law_reason_index_is_injective(a: RejectReason, b: RejectReason)
    ensures
        spec_reason_index(a) == spec_reason_index(b) ==> a == b,
        spec_reason_to_snapshot(a).spec_index() == spec_reason_index(a) + 1,
{
}

/// The counts of one rule or of one owner.
#[derive(Debug)]
pub struct RateLimitStatsAccumulator {
    reject_total_by_reason: [u64; 6],
    throttle_micros_in: u64,
    throttle_micros_out: u64,
    active_connections: u64,
}

/// The counts as a mathematical value.
#[verifier::ext_equal]
pub struct RateLimitStatsView {
    /// How often each reason applied, by the place of the reason.
    pub rejects: Seq<u64>,
    pub throttle_micros_in: u64,
    pub throttle_micros_out: u64,
    pub active_connections: u64,
}

impl RateLimitStatsView {
    pub open spec fn wf(self) -> bool {
        self.rejects.len() == REJECT_REASON_COUNT
    }

    /// Nothing was counted.
    pub open spec fn zero() -> RateLimitStatsView {
        RateLimitStatsView {
            rejects: Seq::new(REJECT_REASON_COUNT as nat, |i: int| 0u64),
            throttle_micros_in: 0,
            throttle_micros_out: 0,
            active_connections: 0,
        }
    }

    pub open spec fn reject_total(self, reason: RejectReason) -> u64 {
        self.rejects[spec_reason_index(reason) as int]
    }

    pub open spec fn after_reject(self, reason: RejectReason) -> RateLimitStatsView {
        RateLimitStatsView {
            rejects: self.rejects.update(
                spec_reason_index(reason) as int,
                self.reject_total(reason).wrapping_add(1),
            ),
            ..self
        }
    }

    pub open spec fn throttle_micros(self, direction: BandwidthDirection) -> u64 {
        match direction {
            BandwidthDirection::In => self.throttle_micros_in,
            BandwidthDirection::Out => self.throttle_micros_out,
        }
    }

    pub open spec fn after_throttle(
        self,
        direction: BandwidthDirection,
        micros: u64,
    ) -> RateLimitStatsView {
        match direction {
            BandwidthDirection::In => RateLimitStatsView {
                throttle_micros_in: self.throttle_micros_in.wrapping_add(micros),
                ..self
            },
            BandwidthDirection::Out => RateLimitStatsView {
                throttle_micros_out: self.throttle_micros_out.wrapping_add(micros),
                ..self
            },
        }
    }

    /// The reasons at the first `upto` places that applied, with their counts.
    pub open spec fn fired(self, upto: nat) -> Seq<(RateLimitRejectReason, u64)>
        decreases upto,
    {
        if upto == 0 {
            Seq::empty()
        } else {
            let before = self.fired((upto - 1) as nat);
            let count = self.rejects[upto - 1];
            if count == 0 {
                before
            } else {
                before.push((reported_at((upto - 1) as usize), count))
            }
        }
    }
}

/// The reason at a place, as it is reported.
pub open spec fn reported_at(index: usize) -> RateLimitRejectReason {
    match index {
        0 => RateLimitRejectReason::ConnConcurrent,
        1 => RateLimitRejectReason::ConnRate,
        2 => RateLimitRejectReason::UdpFlowRate,
        3 => RateLimitRejectReason::OwnerConcurrent,
        4 => RateLimitRejectReason::OwnerConnRate,
        _ => RateLimitRejectReason::OwnerUdpFlowRate,
    }
}

impl View for RateLimitStatsAccumulator {
    type V = RateLimitStatsView;

    closed spec fn view(&self) -> RateLimitStatsView {
        RateLimitStatsView {
            rejects: self.reject_total_by_reason@,
            throttle_micros_in: self.throttle_micros_in,
            throttle_micros_out: self.throttle_micros_out,
            active_connections: self.active_connections,
        }
    }
}

impl RateLimitStatsAccumulator {
    pub fn new() -> (acc: RateLimitStatsAccumulator)
        ensures
            acc@.wf(),
            acc@ =~= RateLimitStatsView::zero(),
    {
        RateLimitStatsAccumulator {
            reject_total_by_reason: [0, 0, 0, 0, 0, 0],
            throttle_micros_in: 0,
            throttle_micros_out: 0,
            active_connections: 0,
        }
    }

    /// Counts something that was turned away.
    pub fn record_reject(&mut self, reason: RejectReason)
        ensures
            old(self)@.wf(),
            final(self)@.wf(),
            final(self)@ =~= old(self)@.after_reject(reason),
    {
        let index: usize = reason_index(reason);
        let count: u64 = self.reject_total_by_reason[index];
        self.reject_total_by_reason[index] = count.wrapping_add(1);
    }

    /// Counts a wait of `micros` microseconds.
    pub fn record_throttle(&mut self, direction: BandwidthDirection, micros: u64)
        ensures
            old(self)@.wf(),
            final(self)@.wf(),
            final(self)@ =~= old(self)@.after_throttle(direction, micros),
    {
        match direction {
            BandwidthDirection::In => {
                self.throttle_micros_in = self.throttle_micros_in.wrapping_add(micros);
            },
            BandwidthDirection::Out => {
                self.throttle_micros_out = self.throttle_micros_out.wrapping_add(micros);
            },
        }
    }

    /// Replaces the number of open connections.
    pub fn set_active_connections(&mut self, n: u64)
        ensures
            old(self)@.wf(),
            final(self)@.wf(),
            final(self)@ =~= (RateLimitStatsView { active_connections: n, ..old(self)@ }),
    {
        self.active_connections = n;
    }

    pub fn active_connections(&self) -> (n: u64)
        ensures
            self@.wf(),
            n == self@.active_connections,
    {
        self.active_connections
    }

    pub fn reject_total(&self, reason: RejectReason) -> (count: u64)
        ensures
            self@.wf(),
            count == self@.reject_total(reason),
    {
        self.reject_total_by_reason[reason_index(reason)]
    }

    pub fn throttle_micros(&self, direction: BandwidthDirection) -> (micros: u64)
        ensures
            self@.wf(),
            micros == self@.throttle_micros(direction),
    {
        match direction {
            BandwidthDirection::In => self.throttle_micros_in,
            BandwidthDirection::Out => self.throttle_micros_out,
        }
    }

    /// What there is to report: nothing if nothing was counted, else the
    /// reasons that applied and the other counts.
    pub fn drain(&self) -> (report: Option<RateLimitStatsSnapshot>)
        ensures
            self@.wf(),
            report is None <==> self@ =~= RateLimitStatsView::zero(),
            report matches Some(snap) ==> {
                &&& snap.reject_total@ == self@.fired(REJECT_REASON_COUNT as nat)
                &&& snap.throttle_micros_in == self@.throttle_micros_in
                &&& snap.throttle_micros_out == self@.throttle_micros_out
                &&& snap.active_connections == (if self@.active_connections <= u32::MAX {
                    self@.active_connections as u32
                } else {
                    u32::MAX
                })
            },
    {
        let mut reject_total: Vec<(RateLimitRejectReason, u64)> = Vec::new();
        let mut index: usize = 0;
        while index < REJECT_REASON_COUNT
            invariant
                index <= REJECT_REASON_COUNT,
                reject_total@ == self@.fired(index as nat),
                reject_total@.len() == 0 <==> forall|i: int|
                    0 <= i < index ==> #[trigger] self@.rejects[i] == 0,
            decreases REJECT_REASON_COUNT - index,
        {
            let total: u64 = self.reject_total_by_reason[index];
            if total != 0 {
                let reason = reason_from_index(index);
                reject_total.push((reason_to_snapshot(reason), total));
                assert(self@.rejects[index as int] != 0);
            }
            index = index + 1;
        }
        if reject_total.len() == 0 && self.throttle_micros_in == 0 && self.throttle_micros_out == 0
            && self.active_connections == 0 {
            return None;
        }
        assert(self@ =~= RateLimitStatsView::zero() ==> forall|i: int|
            0 <= i < REJECT_REASON_COUNT ==> #[trigger] self@.rejects[i] == 0);
        let active_connections: u32 = if self.active_connections <= u32::MAX as u64 {
            self.active_connections as u32
        } else {
            u32::MAX
        };
        Some(
            RateLimitStatsSnapshot {
                reject_total,
                throttle_micros_in: self.throttle_micros_in,
                throttle_micros_out: self.throttle_micros_out,
                active_connections,
            },
        )
    }
}

} // verus!

//! What is done with the replies of the upstreams.

use vstd::prelude::*;

use super::error::UdpAction;
use super::listener::RunOutcome;
use super::registry::{FlowId, FlowKey};
use super::rule::{RuleView, UdpRule};
use crate::quota::scope::QuotaScopeManager;
use crate::stats::ErrorCounters;

verus! {

/// How many replies of one flow are taken before the other flows have a turn.
pub const DEMUX_FAIRNESS_BUDGET: usize = 32;

/// What a demultiplexer is told.
#[derive(Clone, Copy, Debug, PartialEq, Eq, Structural)]
pub enum DemuxCommand {
    /// Wait for replies on this flow too.
    AddFlow { key: FlowKey, flow: FlowId },
    /// Stop.
    Shutdown,
}

/// How taking replies off the socket of a flow ended.
#[derive(Clone, Copy, Debug, PartialEq, Eq, Structural)]
pub enum RecvOutcome {
    /// That many replies were taken.
    Received(usize),
    /// The socket failed, or had none.
    Failed(UdpAction),
}

/// What is to be done after replies were taken.
#[derive(Clone, Copy, Debug, PartialEq, Eq, Structural)]
pub enum DrainNext {
    /// Send them to the client, and report to
    /// [`UdpRule::forward_reply_batch`].
    Forward,
    /// Take the replies one by one instead.
    Singly,
    /// Nothing more for now.
    Done,
}

impl RuleView {
    /// After replies of these sizes went back to the client, one after the
    /// other.
    pub open spec fn replied_all(
        self,
        id: FlowId,
        port: u16,
        sizes: Seq<u64>,
        now: u64,
    ) -> RuleView
        decreases sizes.len(),
    {
        if sizes.len() == 0 {
            self
        } else {
            self.replied_all(id, port, sizes.drop_last(), now).booked_out(
                id,
                port,
                sizes.last(),
                now,
            )
        }
    }

    /// After replies were lost because the socket was not ready.
    pub open spec fn reply_blocked(self) -> RuleView {
        let errors = self.stats.errors;
        self.with_errors(ErrorCounters { wouldblock: errors.wouldblock.wrapping_add(1), ..errors })
    }

    /// After taking replies failed.
    pub open spec fn after_recv_failure(
        self,
        key: FlowKey,
        id: FlowId,
        failure: UdpAction,
    ) -> RuleView {
        match failure {
            UdpAction::Evict => self.evicted(key, id),
            UdpAction::MessageTooLarge => self.oversized(),
            _ => self,
        }
    }
}

impl UdpRule {
    /// Replies were taken off the socket of a flow in one go, or that failed.
    pub fn drain_one_flow_batched(
        &mut self,
        quotas: &QuotaScopeManager,
        key: FlowKey,
        id: FlowId,
        outcome: RecvOutcome,
    ) -> (next: DrainNext)
        requires
            old(self).wf(*quotas),
            old(self)@.flows.contains_key(id),
        ensures
            final(self).wf(*quotas),
            match outcome {
                RecvOutcome::Received(n) => {
                    &&& final(self)@ == old(self)@
                    &&& next == (if n == 0 {
                        DrainNext::Done
                    } else {
                        DrainNext::Forward
                    })
                },
                RecvOutcome::Failed(failure) => {
                    &&& final(self)@ =~= old(self)@.after_recv_failure(key, id, failure)
                    &&& next == (if failure == UdpAction::WouldBlock {
                        DrainNext::Singly
                    } else {
                        DrainNext::Done
                    })
                },
            },
    {
        match outcome {
            RecvOutcome::Received(n) => if n == 0 {
                DrainNext::Done
            } else {
                DrainNext::Forward
            },
            RecvOutcome::Failed(failure) => {
                self.recv_failed(quotas, key, id, failure);
                match failure {
                    UdpAction::WouldBlock => DrainNext::Singly,
                    _ => DrainNext::Done,
                }
            },
        }
    }

    /// Taking replies off the socket of a flow failed.
    pub fn recv_failed(
        &mut self,
        quotas: &QuotaScopeManager,
        key: FlowKey,
        id: FlowId,
        failure: UdpAction,
    )
        requires
            old(self).wf(*quotas),
            old(self)@.flows.contains_key(id),
        ensures
            final(self).wf(*quotas),
            final(self)@ =~= old(self)@.after_recv_failure(key, id, failure),
    {
        match failure {
            UdpAction::Evict => self.evict(quotas, key, id),
            UdpAction::MessageTooLarge => {
                self.stats.errors.inc_emsgsize();
                assert(self@.flows == old(self)@.flows);
            },
            _ => {},
        }
    }

    /// Replies of these sizes were sent to the client, or as many as the socket
    /// accepted. Those that it did not accept are lost. The bytes of those that
    /// it accepted are also to be credited to the target of the flow, if it has
    /// one.
    pub fn forward_reply_batch(
        &mut self,
        quotas: &mut QuotaScopeManager,
        key: FlowKey,
        id: FlowId,
        sizes: &Vec<u64>,
        outcome: RunOutcome,
        now_nanos: u64,
    )
        requires
            old(self).wf(*old(quotas)),
            old(self)@.flows.contains_key(id),
            outcome matches RunOutcome::Sent(sent) ==> sent <= sizes@.len(),
        ensures
            final(self).wf(*final(quotas)),
            final(quotas).users() == old(quotas).users(),
            match outcome {
                RunOutcome::Sent(sent) => {
                    let delivered = sizes@.take(sent as int);
                    let booked = old(self)@.replied_all(id, key.listen_port, delivered, now_nanos);
                    &&& final(self)@ =~= (if sent < sizes@.len() {
                        booked.reply_blocked()
                    } else {
                        booked
                    })
                    &&& final(quotas).states() =~= old(self)@.flows[id].drawn_all(
                        old(quotas).states(),
                        delivered,
                    )
                },
                RunOutcome::WouldBlock => {
                    &&& final(self)@ =~= old(self)@.reply_blocked()
                    &&& final(quotas).states() == old(quotas).states()
                },
                RunOutcome::Failed(_) => {
                    &&& final(self)@ == old(self)@
                    &&& final(quotas).states() == old(quotas).states()
                },
            },
    {
        match outcome {
            RunOutcome::Sent(sent) => {
                let mut i: usize = 0;
                while i < sent
                    invariant
                        i <= sent <= sizes@.len(),
                        self.wf(*quotas),
                        old(self)@.flows.contains_key(id),
                        self@.flows.contains_key(id),
                        self@.flows[id].quota == old(self)@.flows[id].quota,
                        quotas.users() == old(quotas).users(),
                        self@ =~= old(self)@.replied_all(
                            id,
                            key.listen_port,
                            sizes@.take(i as int),
                            now_nanos,
                        ),
                        quotas.states() =~= old(self)@.flows[id].drawn_all(
                            old(quotas).states(),
                            sizes@.take(i as int),
                        ),
                    decreases sent - i,
                {
                    let n: u64 = sizes[i];
                    self.book_out(quotas, id, key.listen_port, n, now_nanos);
                    if let Some(flow) = self.flows.get(id) {
                        flow.quota_consume_after_send(quotas, n);
                    }
                    i = i + 1;
                    assert(sizes@.take(i as int).drop_last() =~= sizes@.take(i - 1));
                }
                if sent < sizes.len() {
                    let ghost booked = self@;
                    self.stats.errors.inc_wouldblock();
                    assert(self@.flows == booked.flows);
                }
            },
            RunOutcome::WouldBlock => {
                self.stats.errors.inc_wouldblock();
                assert(self@.flows == old(self)@.flows);
            },
            RunOutcome::Failed(_) => {},
        }
    }

    /// Whether replies are still to be waited for on a flow: unless it is over.
    pub fn rearm(&self, id: FlowId) -> (again: bool)
        ensures
            again == (self@.flows.contains_key(id) && !self@.flows[id].cancelled),
    {
        match self.flows.get(id) {
            Some(flow) => !flow.is_cancelled(),
            None => false,
        }
    }
}

/// One turn of a flow whose replies are taken one by one.
#[derive(Clone, Copy, Debug, PartialEq, Eq, Structural)]
pub struct FlowTurn {
    left: usize,
}

impl FlowTurn {
    /// How many more replies may be taken.
    pub closed spec fn spec_left(self) -> nat {
        self.left as nat
    }

    pub fn new() -> (turn: FlowTurn)
        ensures
            turn.spec_left() == DEMUX_FAIRNESS_BUDGET,
    {
        FlowTurn { left: DEMUX_FAIRNESS_BUDGET }
    }

    /// Whether one more reply may be taken; if so, it counts.
    pub fn take(&mut self) -> (may: bool)
        ensures
            may == (old(self).spec_left() > 0),
            final(self).spec_left() == old(self).spec_left() - (if may {
                1int
            } else {
                0
            }),
    {
        if self.left > 0 {
            self.left = self.left - 1;
            true
        } else {
            false
        }
    }
}

/// A batch is within the turn of a flow.
pub proof fn law_batch_is_within_a_turn()
    ensures
        super::batch::BATCH_SIZE <= DEMUX_FAIRNESS_BUDGET,
{
}

} // verus!

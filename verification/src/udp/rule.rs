//! Everything that one UDP rule keeps: which source has which slot, the flows
//! themselves, and the counters.

use vstd::prelude::*;

use super::flow::FlowView;
use super::registry::{FlowId, FlowKey, Slot, UdpFlowRegistry};
use super::table::FlowTable;
use crate::quota::scope::QuotaScopeManager;
use crate::stats::{ErrorCounters, RuleStats, RuleStatsView};

verus! {

/// One UDP rule.
pub struct UdpRule {
    pub registry: UdpFlowRegistry,
    pub flows: FlowTable,
    pub stats: RuleStats,
}

/// One UDP rule as a mathematical value.
#[verifier::ext_equal]
pub struct RuleView {
    pub slots: Map<FlowKey, Slot>,
    pub cap: nat,
    pub dropped_overflow: u64,
    pub flows: Map<FlowId, FlowView>,
    pub next_flow: u64,
    pub stats: RuleStatsView,
}

impl RuleView {
    /// Every live slot has a flow of its own, and every flow an address and a quota
    /// that `quotas` gave out, if any.
    pub open spec fn wf(self, quotas: QuotaScopeManager) -> bool {
        &&& quotas.wf()
        &&& forall|key: FlowKey| #[trigger]
            self.slots.contains_key(key) && self.slots[key] is Live ==> self.flows.contains_key(
                self.slots[key]->Live_0,
            )
        &&& forall|a: FlowKey, b: FlowKey|
            a != b && #[trigger] self.slots.contains_key(a) && #[trigger] self.slots.contains_key(b)
                && self.slots[a] is Live ==> self.slots[a] != self.slots[b]
        &&& forall|id: FlowId| #[trigger]
            self.flows.contains_key(id) ==> self.flows[id].wf() && self.flows[id].funded_by(quotas)
    }

    /// A rule without flows.
    pub open spec fn fresh(cap: nat, stats: RuleStatsView) -> RuleView {
        RuleView {
            slots: Map::empty(),
            cap,
            dropped_overflow: 0,
            flows: Map::empty(),
            next_flow: 0,
            stats,
        }
    }

    pub open spec fn with_errors(self, errors: ErrorCounters) -> RuleView {
        RuleView { stats: RuleStatsView { errors, ..self.stats }, ..self }
    }

    /// After a datagram of `n` bytes from the client went upstream.
    pub open spec fn booked_in(self, id: FlowId, port: u16, n: u64, now: u64) -> RuleView {
        RuleView {
            flows: self.flows.insert(id, self.flows[id].after_inbound(n, now)),
            stats: self.stats.after_datagram_in(port, n),
            ..self
        }
    }

    /// After a datagram of `n` bytes went back to the client.
    pub open spec fn booked_out(self, id: FlowId, port: u16, n: u64, now: u64) -> RuleView {
        RuleView {
            flows: self.flows.insert(id, self.flows[id].after_outbound(n, now)),
            stats: self.stats.after_datagram_out(port, n),
            ..self
        }
    }

    /// After a flow was ended and its slot freed.
    pub open spec fn closed(self, key: FlowKey, id: FlowId) -> RuleView {
        RuleView {
            slots: self.slots.remove(key),
            flows: self.flows.insert(id, self.flows[id].after_cancel()),
            ..self
        }
    }

    /// After a flow was dropped because its other end is gone.
    pub open spec fn evicted(self, key: FlowKey, id: FlowId) -> RuleView {
        let errors = self.stats.errors;
        self.closed(key, id).with_errors(
            ErrorCounters { icmp_evict: errors.icmp_evict.wrapping_add(1), ..errors },
        )
    }

    /// The flow is over, and no slot has it.
    pub open spec fn ended(self, id: FlowId) -> bool {
        &&& self.flows.contains_key(id)
        &&& self.flows[id].cancelled
        &&& forall|key: FlowKey| #[trigger] self.slots.get(key) != Some(Slot::Live(id))
    }

    /// After a flow that is over was taken out.
    pub open spec fn without(self, id: FlowId) -> RuleView {
        RuleView { flows: self.flows.remove(id), ..self }
    }

    /// After a datagram was too large to send.
    pub open spec fn oversized(self) -> RuleView {
        let errors = self.stats.errors;
        self.with_errors(ErrorCounters { emsgsize: errors.emsgsize.wrapping_add(1), ..errors })
    }
}

impl View for UdpRule {
    type V = RuleView;

    open spec fn view(&self) -> RuleView {
        RuleView {
            slots: self.registry.slots(),
            cap: self.registry.spec_cap() as nat,
            dropped_overflow: self.registry.spec_dropped_overflow(),
            flows: self.flows@,
            next_flow: self.flows.spec_next(),
            stats: self.stats@,
        }
    }
}

impl UdpRule {
    pub open spec fn wf(&self, quotas: QuotaScopeManager) -> bool {
        &&& self.registry.wf()
        &&& self.flows.wf()
        &&& self@.wf(quotas)
    }

    /// A rule without flows.
    pub fn new(cap: usize, stats: RuleStats) -> (rule: UdpRule)
        ensures
            rule.registry.wf(),
            rule.flows.wf(),
            rule@ =~= RuleView::fresh(cap as nat, stats@),
    {
        UdpRule { registry: UdpFlowRegistry::new(cap), flows: FlowTable::new(), stats }
    }

    /// Counts a datagram of `n` bytes from the client that went upstream.
    /// Returns the target that is to be credited with it, if any.
    pub(crate) fn book_in(
        &mut self,
        quotas: &QuotaScopeManager,
        id: FlowId,
        port: u16,
        n: u64,
        now_nanos: u64,
    ) -> (target: Option<u32>)
        requires
            old(self).wf(*quotas),
            old(self)@.flows.contains_key(id),
        ensures
            final(self).wf(*quotas),
            final(self)@ =~= old(self)@.booked_in(id, port, n, now_nanos),
            target == old(self)@.flows[id].target_idx,
    {
        proof {
            self.flows.lemma_known(id);
        }
        let mut target: Option<u32> = None;
        if let Some(mut flow) = self.flows.take(id) {
            target = flow.bump_inbound(n, now_nanos);
            self.flows.put(id, flow);
        }
        self.stats.inc_datagram_in(port, n);
        target
    }

    /// Counts a datagram of `n` bytes that went back to the client. Returns the
    /// target that is to be credited with it, if any.
    pub(crate) fn book_out(
        &mut self,
        quotas: &QuotaScopeManager,
        id: FlowId,
        port: u16,
        n: u64,
        now_nanos: u64,
    ) -> (target: Option<u32>)
        requires
            old(self).wf(*quotas),
            old(self)@.flows.contains_key(id),
        ensures
            final(self).wf(*quotas),
            final(self)@ =~= old(self)@.booked_out(id, port, n, now_nanos),
            target == old(self)@.flows[id].target_idx,
    {
        proof {
            self.flows.lemma_known(id);
        }
        let mut target: Option<u32> = None;
        if let Some(mut flow) = self.flows.take(id) {
            target = flow.bump_outbound(n, now_nanos);
            self.flows.put(id, flow);
        }
        self.stats.inc_datagram_out(port, n);
        target
    }

    /// Ends a flow and frees its slot.
    pub(crate) fn close(&mut self, quotas: &QuotaScopeManager, key: FlowKey, id: FlowId)
        requires
            old(self).wf(*quotas),
            old(self)@.flows.contains_key(id),
        ensures
            final(self).wf(*quotas),
            final(self)@ =~= old(self)@.closed(key, id),
    {
        proof {
            self.flows.lemma_known(id);
        }
        self.registry.remove(key);
        if let Some(mut flow) = self.flows.take(id) {
            flow.cancel();
            self.flows.put(id, flow);
        }
    }

    /// Takes out a flow that is over, and returns what was reserved for it, to be
    /// given back. `None` if there is no such flow, or if it is not over.
    pub fn take_ended(&mut self, quotas: &QuotaScopeManager, id: FlowId) -> (guards: Option<
        Vec<u64>,
    >)
        requires
            old(self).wf(*quotas),
        ensures
            final(self).wf(*quotas),
            guards is Some <==> old(self)@.ended(id),
            match guards {
                Some(guards) => {
                    &&& guards@ == old(self)@.flows[id].admit_guards
                    &&& final(self)@ =~= old(self)@.without(id)
                },
                None => final(self)@ == old(self)@,
            },
    {
        match self.flows.get(id) {
            Some(flow) => {
                if !flow.is_cancelled() {
                    return None;
                }
            },
            None => {
                return None;
            },
        }
        let live = self.registry.snapshot_live();
        let mut i: usize = 0;
        while i < live.len()
            invariant
                i <= live@.len(),
                super::registry::lists_live(live@, self@.slots),
                self.wf(*quotas),
                *self == *old(self),
                forall|j: int| 0 <= j < i ==> (#[trigger] live@[j]).1 != id,
            decreases live@.len() - i,
        {
            if live[i].1 == id {
                assert(self@.slots.get(live@[i as int].0) == Some(Slot::Live(id)));
                return None;
            }
            i = i + 1;
        }
        proof {
            assert forall|key: FlowKey| #[trigger] self@.slots.get(key) != Some(
                Slot::Live(id),
            ) by {
                if self@.slots.get(key) == Some(Slot::Live(id)) {
                    assert(live@.contains((key, id)));
                }
            }
            assert forall|key: FlowKey| #[trigger]
                self@.slots.contains_key(key) && self@.slots[key] is Live implies self@.slots[key]->Live_0
                != id by {
                assert(self@.slots.get(key) != Some(Slot::Live(id)));
            }
        }
        match self.flows.take(id) {
            Some(flow) => Some(flow.into_admit_guards()),
            None => None,
        }
    }

    /// Drops a flow whose other end is gone.
    pub(crate) fn evict(&mut self, quotas: &QuotaScopeManager, key: FlowKey, id: FlowId)
        requires
            old(self).wf(*quotas),
            old(self)@.flows.contains_key(id),
        ensures
            final(self).wf(*quotas),
            final(self)@ =~= old(self)@.evicted(key, id),
    {
        self.close(quotas, key, id);
        self.stats.errors.inc_icmp_evict();
    }
}

/// The next number of a flow has not been given out.
pub(crate) proof fn lemma_numbers_are_new(rule: UdpRule)
    requires
        rule.flows.wf(),
    ensures
        !rule@.flows.contains_key(FlowId(rule@.next_flow)),
{
    let id = FlowId(rule@.next_flow);
    if rule.flows@.contains_key(id) {
        rule.flows.lemma_known(id);
    }
}

/// What was reserved for a flow stays with it whatever passes through it, and can
/// be given back as soon as it has ended.
pub proof fn law_what_was_reserved_is_given_back(
    rule: RuleView,
    quotas: QuotaScopeManager,
    key: FlowKey,
    id: FlowId,
    port: u16,
    n: u64,
    now: u64,
)
    requires
        rule.wf(quotas),
        rule.slots.get(key) == Some(Slot::Live(id)),
    ensures
        rule.booked_in(id, port, n, now).flows[id].admit_guards == rule.flows[id].admit_guards,
        rule.booked_out(id, port, n, now).flows[id].admit_guards == rule.flows[id].admit_guards,
        rule.closed(key, id).ended(id),
        rule.closed(key, id).flows[id].admit_guards == rule.flows[id].admit_guards,
        rule.evicted(key, id).ended(id),
        rule.evicted(key, id).flows[id].admit_guards == rule.flows[id].admit_guards,
{
    assert forall|other: FlowKey| #[trigger] rule.closed(key, id).slots.get(other) != Some(
        Slot::Live(id),
    ) by {
        assert(rule.slots.contains_key(key));
        assert(rule.closed(key, id).slots.contains_key(other) ==> rule.slots.contains_key(other));
    }
    assert(rule.evicted(key, id).slots == rule.closed(key, id).slots);
}

} // verus!

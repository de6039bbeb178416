//! Ends flows on which nothing has passed for a while.

use vstd::prelude::*;

use super::registry::{FlowKey, Slot};
use super::rule::{RuleView, UdpRule};
use crate::quota::scope::QuotaScopeManager;

verus! {

/// The shortest time between two sweeps, in nanoseconds.
pub const MIN_SWEEP_PERIOD_NANOS: u64 = 25_000_000;

/// How long to wait between two sweeps: a quarter of the idle window, but not
/// less than the shortest time. `None` if flows are never ended.
pub fn sweep_period(idle_window_nanos: u64) -> (period: Option<u64>)
    ensures
        period == (if idle_window_nanos == 0 {
            None
        } else if idle_window_nanos / 4 >= MIN_SWEEP_PERIOD_NANOS {
            Some((idle_window_nanos / 4) as u64)
        } else {
            Some(MIN_SWEEP_PERIOD_NANOS)
        }),
{
    if idle_window_nanos == 0 {
        return None;
    }
    let quarter: u64 = idle_window_nanos / 4;
    if quarter >= MIN_SWEEP_PERIOD_NANOS {
        Some(quarter)
    } else {
        Some(MIN_SWEEP_PERIOD_NANOS)
    }
}

impl RuleView {
    /// The key has a live flow on which nothing has passed for longer than the
    /// idle window.
    pub open spec fn idle(self, key: FlowKey, now: u64, idle_window: u64) -> bool {
        self.slots.get(key) matches Some(Slot::Live(id)) && now - self.flows[id].last_seen_nanos
            > idle_window
    }

    /// The rule after the flows of these keys were ended, one after the other.
    pub open spec fn swept(self, keys: Seq<FlowKey>) -> RuleView
        decreases keys.len(),
    {
        if keys.len() == 0 {
            self
        } else {
            let before = self.swept(keys.drop_last());
            before.closed(keys.last(), self.slots[keys.last()]->Live_0)
        }
    }
}

/// Ending flows frees exactly their slots, and changes of every flow at most
/// that it is over.
proof fn lemma_swept(view: RuleView, keys: Seq<FlowKey>)
    requires
        forall|i: int|
            0 <= i < keys.len() ==> view.slots.contains_key(#[trigger] keys[i])
                && view.slots[keys[i]] is Live && view.flows.contains_key(
                view.slots[keys[i]]->Live_0,
            ),
    ensures
        ({
            let after = view.swept(keys);
            &&& after.flows.dom() =~= view.flows.dom()
            &&& forall|id: super::registry::FlowId| #[trigger]
                after.flows.contains_key(id) ==> after.flows[id] == view.flows[id]
                    || after.flows[id] == view.flows[id].after_cancel()
            &&& forall|key: FlowKey| #[trigger]
                after.slots.contains_key(key) <==> view.slots.contains_key(key) && !keys.contains(
                    key,
                )
            &&& forall|key: FlowKey| #[trigger]
                after.slots.contains_key(key) ==> after.slots[key] == view.slots[key]
            &&& forall|i: int|
                0 <= i < keys.len() ==> after.flows[view.slots[#[trigger] keys[i]]->Live_0].cancelled
            &&& forall|id: super::registry::FlowId|
                view.flows.contains_key(id) && (forall|i: int|
                    0 <= i < keys.len() ==> view.slots[#[trigger] keys[i]] != Slot::Live(id))
                    ==> #[trigger] after.flows[id] == view.flows[id]
            &&& after.stats == view.stats
            &&& after.cap == view.cap
            &&& after.next_flow == view.next_flow
            &&& after.dropped_overflow == view.dropped_overflow
        }),
    decreases keys.len(),
{
    if keys.len() > 0 {
        let rest = keys.drop_last();
        assert forall|i: int| 0 <= i < rest.len() implies view.slots.contains_key(
            #[trigger] rest[i],
        ) && view.slots[rest[i]] is Live && view.flows.contains_key(
            view.slots[rest[i]]->Live_0,
        ) by {
            assert(rest[i] == keys[i]);
        }
        lemma_swept(view, rest);
        assert forall|key: FlowKey| keys.contains(key) == (rest.contains(key) || key
            == keys.last()) by {
            if rest.contains(key) {
                let i = choose|i: int| 0 <= i < rest.len() && rest[i] == key;
                assert(keys[i] == key);
            }
            if keys.contains(key) && key != keys.last() {
                let i = choose|i: int| 0 <= i < keys.len() && keys[i] == key;
                assert(rest[i] == key);
            }
            if key == keys.last() {
                assert(keys[keys.len() - 1] == key);
            }
        }
        assert forall|i: int| 0 <= i < keys.len() implies view.swept(
            keys,
        ).flows[view.slots[#[trigger] keys[i]]->Live_0].cancelled by {
            if i < rest.len() {
                assert(rest[i] == keys[i]);
            }
        }
        assert forall|id: super::registry::FlowId|
            view.flows.contains_key(id) && (forall|i: int|
                0 <= i < keys.len() ==> view.slots[#[trigger] keys[i]] != Slot::Live(
                    id,
                )) implies #[trigger] view.swept(keys).flows[id] == view.flows[id] by {
            assert forall|i: int| 0 <= i < rest.len() implies view.slots[#[trigger] rest[i]]
                != Slot::Live(id) by {
                assert(rest[i] == keys[i]);
            }
            assert(view.slots[keys[keys.len() - 1]] != Slot::Live(id));
        }
    }
}

impl UdpRule {
    /// Ends every flow that is idle at `now_nanos`, and returns their keys.
    pub fn sweep_once(
        &mut self,
        quotas: &QuotaScopeManager,
        now_nanos: u64,
        idle_window_nanos: u64,
    ) -> (ended: Vec<FlowKey>)
        requires
            old(self).wf(*quotas),
        ensures
            final(self).wf(*quotas),
            final(self)@ =~= old(self)@.swept(ended@),
            ended@.no_duplicates(),
            forall|key: FlowKey| #[trigger]
                ended@.contains(key) <==> old(self)@.idle(key, now_nanos, idle_window_nanos),
            forall|key: FlowKey, id: super::registry::FlowId|
                #![trigger ended@.contains(key), old(self)@.flows[id]]
                old(self)@.slots.get(key) == Some(Slot::Live(id)) ==> (ended@.contains(key)
                    <==> now_nanos - old(self)@.flows[id].last_seen_nanos > idle_window_nanos),
    {
        let live = self.registry.snapshot_live();
        let mut ended: Vec<FlowKey> = Vec::new();
        let ghost before = self@;
        let mut i: usize = 0;
        while i < live.len()
            invariant
                i <= live@.len(),
                before == old(self)@,
                old(self).wf(*quotas),
                self.wf(*quotas),
                super::registry::lists_live(live@, before.slots),
                self@ =~= before.swept(ended@),
                ended@.no_duplicates(),
                forall|j: int|
                    0 <= j < ended@.len() ==> before.slots.contains_key(#[trigger] ended@[j])
                        && before.slots[ended@[j]] is Live && before.flows.contains_key(
                        before.slots[ended@[j]]->Live_0,
                    ),
                forall|j: int|
                    0 <= j < i ==> ended@.contains((#[trigger] live@[j]).0) == before.idle(
                        live@[j].0,
                        now_nanos,
                        idle_window_nanos,
                    ),
                forall|j: int|
                    0 <= j < ended@.len() ==> exists|k: int|
                        0 <= k < i && (#[trigger] live@[k]).0 == #[trigger] ended@[j],
            decreases live@.len() - i,
        {
            let (key, id) = live[i];
            let ghost so_far = ended@;
            proof {
                lemma_swept(before, ended@);
                assert(before.slots.get(live@[i as int].0) == Some(Slot::Live(id)));
                if so_far.contains(key) {
                    let j = choose|j: int| 0 <= j < so_far.len() && so_far[j] == key;
                    let k = choose|k: int|
                        0 <= k < i && (#[trigger] live@[k]).0 == so_far[j];
                    assert(live@[k].0 == live@[i as int].0);
                }
                assert(!so_far.contains(key));
            }
            let mut idle = false;
            if let Some(flow) = self.flows.get(id) {
                let last: u64 = flow.last_seen_at();
                idle = now_nanos > last && now_nanos - last > idle_window_nanos;
            }
            assert(idle == before.idle(key, now_nanos, idle_window_nanos));
            if idle {
                self.close(quotas, key, id);
                ended.push(key);
                proof {
                    assert(ended@.drop_last() =~= so_far);
                    assert forall|k: FlowKey| ended@.contains(k) == (so_far.contains(k) || k
                        == key) by {
                        if so_far.contains(k) {
                            let j = choose|j: int| 0 <= j < so_far.len() && so_far[j] == k;
                            assert(ended@[j] == k);
                        }
                        if k == key {
                            assert(ended@[so_far.len() as int] == k);
                        }
                    }
                    assert forall|j: int| 0 <= j < i implies ended@.contains(
                        (#[trigger] live@[j]).0,
                    ) == before.idle(live@[j].0, now_nanos, idle_window_nanos) by {
                        assert(live@[j].0 != live@[i as int].0);
                    }
                    assert forall|j: int| 0 <= j < ended@.len() implies exists|k: int|
                        0 <= k < i + 1 && (#[trigger] live@[k]).0 == #[trigger] ended@[j] by {
                        if j == so_far.len() {
                            assert(live@[i as int].0 == ended@[j]);
                        } else {
                            assert(ended@[j] == so_far[j]);
                        }
                    }
                }
            }
            i = i + 1;
        }
        proof {
            assert forall|key: FlowKey| #[trigger] ended@.contains(key) implies before.idle(
                key,
                now_nanos,
                idle_window_nanos,
            ) by {
                let j = choose|j: int| 0 <= j < ended@.len() && ended@[j] == key;
                let k = choose|k: int| 0 <= k < i && (#[trigger] live@[k]).0 == ended@[j];
                assert(live@[k].0 == key);
            }
            assert forall|key: FlowKey|
                before.idle(key, now_nanos, idle_window_nanos) implies #[trigger] ended@.contains(
                key,
            ) by {
                let id = before.slots[key]->Live_0;
                assert(live@.contains((key, id)));
                let k = choose|k: int| 0 <= k < live@.len() && live@[k] == (key, id);
                assert(live@[k].0 == key);
            }
        }
        ended
    }
}

/// A sweep ends exactly the flows that are idle: their slots are free and they
/// are over, and every other slot is as it was.
pub proof fn law_sweep_ends_what_is_idle(
    before: RuleView,
    ended: Seq<FlowKey>,
    key: FlowKey,
    now: u64,
    idle_window: u64,
)
    requires
        forall|k: FlowKey| #[trigger]
            before.slots.contains_key(k) && before.slots[k] is Live ==> before.flows.contains_key(
                before.slots[k]->Live_0,
            ),
        forall|k: FlowKey| #[trigger] ended.contains(k) <==> before.idle(k, now, idle_window),
    ensures
        ({
            let after = before.swept(ended);
            if before.idle(key, now, idle_window) {
                &&& !after.slots.contains_key(key)
                &&& after.flows[before.slots[key]->Live_0].cancelled
            } else {
                after.slots.get(key) == before.slots.get(key)
            }
        }),
{
    assert forall|i: int| 0 <= i < ended.len() implies before.slots.contains_key(
        #[trigger] ended[i],
    ) && before.slots[ended[i]] is Live && before.flows.contains_key(
        before.slots[ended[i]]->Live_0,
    ) by {
        assert(ended.contains(ended[i]));
    }
    lemma_swept(before, ended);
    if before.idle(key, now, idle_window) {
        assert(ended.contains(key));
        let i = choose|i: int| 0 <= i < ended.len() && ended[i] == key;
        assert(ended[i] == key);
    } else {
        assert(!ended.contains(key));
    }
}

/// A sweep goes by when a flow was last seen, and by nothing else of it: if that was
/// longer ago than the idle window, its key is named, its slot is free and it is over;
/// if not, its slot and the flow stay as they are.
pub proof fn law_a_sweep_goes_by_when_a_flow_was_last_seen(
    rule: &mut UdpRule,
    quotas: &QuotaScopeManager,
    now: u64,
    idle_window: u64,
    ended: Vec<FlowKey>,
    key: FlowKey,
    id: super::registry::FlowId,
)
    requires
        rule.wf(*quotas),
        call_ensures(UdpRule::sweep_once, (rule, quotas, now, idle_window), ended),
        rule@.slots.get(key) == Some(Slot::Live(id)),
    ensures
        ({
            let before = old(rule)@;
            let after = final(rule)@;
            let flow = before.flows[id];
            if now - flow.last_seen_nanos > idle_window {
                &&& ended@.contains(key)
                &&& after.slots.get(key) is None
                &&& after.flows.contains_key(id)
                &&& after.flows[id] == (super::flow::FlowView { cancelled: true, ..flow })
            } else {
                &&& !ended@.contains(key)
                &&& after.slots.get(key) == Some(Slot::Live(id))
                &&& after.flows.contains_key(id)
                &&& after.flows[id] == flow
            }
        }),
{
    let before = rule@;
    assert(before.slots.contains_key(key));
    assert forall|i: int| 0 <= i < ended@.len() implies before.slots.contains_key(
        #[trigger] ended@[i],
    ) && before.slots[ended@[i]] is Live && before.flows.contains_key(
        before.slots[ended@[i]]->Live_0,
    ) by {
        assert(ended@.contains(ended@[i]));
    }
    lemma_swept(before, ended@);
    if ended@.contains(key) {
        let i = choose|i: int| 0 <= i < ended@.len() && ended@[i] == key;
        assert(before.swept(ended@).flows[before.slots[ended@[i]]->Live_0].cancelled);
        assert(before.swept(ended@).flows.contains_key(id));
    } else {
        assert forall|i: int| 0 <= i < ended@.len() implies before.slots[#[trigger] ended@[i]]
            != Slot::Live(id) by {
            assert(ended@.contains(ended@[i]));
        }
        assert(before.swept(ended@).slots.contains_key(key));
    }
}

/// A sweep names live flows only, each once, and leaves everything else alone: slots
/// that are being set up, flows that no slot has, and all counters.
pub proof fn law_a_sweep_leaves_the_rest_alone(
    rule: &mut UdpRule,
    quotas: &QuotaScopeManager,
    now: u64,
    idle_window: u64,
    ended: Vec<FlowKey>,
    key: FlowKey,
    id: super::registry::FlowId,
)
    requires
        rule.wf(*quotas),
        call_ensures(UdpRule::sweep_once, (rule, quotas, now, idle_window), ended),
    ensures
        ({
            let before = old(rule)@;
            let after = final(rule)@;
            &&& !(before.slots.get(key) matches Some(Slot::Live(_))) ==> !ended@.contains(key)
                && after.slots.get(key) == before.slots.get(key)
            &&& before.flows.contains_key(id) <==> after.flows.contains_key(id)
            &&& before.flows.contains_key(id) && (forall|k: FlowKey| #[trigger]
                before.slots.get(k) != Some(Slot::Live(id))) ==> after.flows[id] == before.flows[id]
            &&& ended@.no_duplicates()
            &&& after.stats == before.stats
            &&& after.cap == before.cap
            &&& after.dropped_overflow == before.dropped_overflow
            &&& after.next_flow == before.next_flow
        }),
{
    let before = rule@;
    assert forall|i: int| 0 <= i < ended@.len() implies before.slots.contains_key(
        #[trigger] ended@[i],
    ) && before.slots[ended@[i]] is Live && before.flows.contains_key(
        before.slots[ended@[i]]->Live_0,
    ) by {
        assert(ended@.contains(ended@[i]));
    }
    lemma_swept(before, ended@);
    let after = before.swept(ended@);
    assert(after.slots.contains_key(key) <==> before.slots.contains_key(key) && !ended@.contains(
        key,
    ));
    assert(before.flows.dom().contains(id) == after.flows.dom().contains(id));
    if before.flows.contains_key(id) && (forall|k: FlowKey| #[trigger]
        before.slots.get(k) != Some(Slot::Live(id))) {
        assert forall|i: int| 0 <= i < ended@.len() implies before.slots[#[trigger] ended@[i]]
            != Slot::Live(id) by {
            assert(before.slots.get(ended@[i]) != Some(Slot::Live(id)));
        }
    }
}

/// Sweeps come four times in an idle window, but not more often than every 25
/// milliseconds; without a window there are none.
pub proof fn law_sweeps_come_four_times_in_a_window(idle_window: u64, period: Option<u64>)
    requires
        call_ensures(sweep_period, (idle_window,), period),
    ensures
        idle_window == 0 <==> period is None,
        period matches Some(p) ==> {
            &&& p >= 25_000_000
            &&& idle_window >= 100_000_000 ==> p * 4 <= idle_window < (p + 1) * 4
            &&& 0 < idle_window < 100_000_000 ==> p == 25_000_000
        },
{
}

} // verus!

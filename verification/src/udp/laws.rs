//! What a UDP rule promises, call by call and over the life of a flow.

use vstd::prelude::*;

use super::demux::{DrainNext, FlowTurn, RecvOutcome};
use super::error::UdpAction;
use super::flow::{FlowView, UdpFlow};
use super::listener::{
    bind_addr_for, BatchState, BatchStep, ColdFlow, ColdNext, ConnectOutcome, DatagramAction,
    FlushNext, PendingRun, RunOutcome,
};
use super::registry::{FlowId, FlowKey, Slot};
use super::relay::{BuiltFlow, InboundStep, RelayStep, TargetStep, TargetTurn};
use super::rule::{RuleView, UdpRule};
use crate::addr::SocketAddr;
use crate::failover::TargetWalk;
use crate::quota::scope::{QuotaHandle, QuotaScopeManager};
use crate::quota::QuotaState;
use crate::rate_limit::gate::LayeredAcquire;
use crate::rate_limit::stats::RateLimitStatsAccumulator;
use crate::resolver::ConnectError;
use crate::stats::{ErrorCounters, PerPortCounters, RuleStats, RuleStatsView};

verus! {

/// A datagram of a source that has a flow goes to that flow, unless the flow's quota
/// is used up. If the flow is over already, the rule's quota counts as well, and the
/// datagram may wait for its turn. Nothing changes.
pub proof fn law_a_known_source_goes_to_its_flow(
    rule: &mut UdpRule,
    quotas: &QuotaScopeManager,
    rule_quota: Option<QuotaHandle>,
    key: FlowKey,
    n: u64,
    action: DatagramAction,
    id: FlowId,
)
    requires
        rule.wf(*quotas),
        super::listener::rule_funded(rule_quota, *quotas),
        rule@.slots.get(key) == Some(Slot::Live(id)),
        call_ensures(UdpRule::handle_datagram, (rule, quotas, rule_quota, key, n), action),
    ensures
        final(rule)@ == old(rule)@,
        ({
            let flow = old(rule)@.flows[id];
            let spent = flow.quota is Some && quotas.states()[flow.quota->0.id()].exhausted;
            let rule_spent = rule_quota is Some && quotas.states()[rule_quota->0.id()].exhausted;
            &&& !flow.cancelled && !spent ==> action == (DatagramAction::Send { flow: id })
            &&& !flow.cancelled && spent ==> action == DatagramAction::Drop
            &&& flow.cancelled && !rule_spent && !spent ==> action == (DatagramAction::SendWaiting {
                flow: id,
            })
            &&& flow.cancelled && (rule_spent || spent) ==> action == DatagramAction::Drop
        }),
{
}

/// A datagram of a new source opens a flow if a slot is free and the rule's quota is
/// not used up. Without a free slot it is lost and counted as such; a second one of a
/// source whose flow is being set up is lost and counted too.
pub proof fn law_a_new_source_opens_a_flow_under_the_cap(
    rule: &mut UdpRule,
    quotas: &QuotaScopeManager,
    rule_quota: Option<QuotaHandle>,
    key: FlowKey,
    n: u64,
    action: DatagramAction,
    cold_key: FlowKey,
)
    requires
        rule.wf(*quotas),
        super::listener::rule_funded(rule_quota, *quotas),
        !(rule@.slots.get(key) matches Some(Slot::Live(_))),
        call_ensures(UdpRule::handle_datagram, (rule, quotas, rule_quota, key, n), action),
        action matches DatagramAction::Open(cold) ==> call_ensures(
            ColdFlow::key,
            (&cold,),
            cold_key,
        ),
    ensures
        ({
            let before = old(rule)@;
            let after = final(rule)@;
            let rule_spent = rule_quota is Some && quotas.states()[rule_quota->0.id()].exhausted;
            let errors = before.stats.errors;
            if rule_spent {
                &&& action == DatagramAction::Drop
                &&& after == before
            } else if before.slots.get(key) == Some(Slot::Pending) {
                &&& action == DatagramAction::Drop
                &&& after == (RuleView {
                    stats: RuleStatsView {
                        errors: ErrorCounters {
                            flows_pending_drops: errors.flows_pending_drops.wrapping_add(1),
                            ..errors
                        },
                        ..before.stats
                    },
                    ..before
                })
            } else if before.slots.dom().len() >= before.cap {
                &&& action == DatagramAction::Drop
                &&& after == (RuleView {
                    dropped_overflow: before.dropped_overflow.wrapping_add(1),
                    stats: RuleStatsView {
                        flows_dropped_overflow: before.stats.flows_dropped_overflow.wrapping_add(1),
                        ..before.stats
                    },
                    ..before
                })
            } else {
                &&& action is Open
                &&& cold_key == key
                &&& after == (RuleView {
                    slots: before.slots.insert(key, Slot::Pending),
                    ..before
                })
            }
        }),
{
}

/// From the first datagram to a flow: the source is admitted, its name resolves, the
/// first address connects. Then the source has a flow of its own, the next datagram
/// goes to it, and nothing else of the rule has changed. The flow talks to that
/// address, was seen just now, draws on the rule's quota and keeps what was reserved
/// for it.
pub proof fn law_a_source_that_is_admitted_and_connected_has_a_flow(
    rule: &mut UdpRule,
    quotas: &QuotaScopeManager,
    rule_quota: Option<QuotaHandle>,
    key: FlowKey,
    n: u64,
    cold: ColdFlow,
    at_gate: &mut UdpRule,
    guards: Vec<u64>,
    owner_stats: &mut Option<RateLimitStatsAccumulator>,
    rule_stats: &mut Option<RateLimitStatsAccumulator>,
    admitted: Option<ColdFlow>,
    at_dns: &mut UdpRule,
    addrs: Vec<SocketAddr>,
    resolved: ColdNext,
    at_connect: &mut UdpRule,
    now: u64,
    connected: ColdNext,
    again: &mut UdpRule,
    action: DatagramAction,
)
    requires
        rule.wf(*quotas),
        super::listener::rule_funded(rule_quota, *quotas),
        rule_quota matches Some(q) ==> !quotas.states()[q.id()].exhausted,
        call_ensures(
            UdpRule::handle_datagram,
            (rule, quotas, rule_quota, key, n),
            DatagramAction::Open(cold),
        ),
        *at_gate == *final(rule),
        call_ensures(
            UdpRule::acquire_first_packet,
            (at_gate, quotas, cold, LayeredAcquire::Granted, guards, owner_stats, rule_stats),
            admitted,
        ),
        *at_dns == *final(at_gate),
        addrs@.len() > 0,
        call_ensures(
            UdpRule::cold_resolved,
            (at_dns, quotas, admitted->0, Some(addrs)),
            resolved,
        ),
        *at_connect == *final(at_dns),
        at_connect@.slots.dom().len() < usize::MAX,
        at_connect@.next_flow < u64::MAX,
        call_ensures(
            UdpRule::cold_connected,
            (
                at_connect,
                quotas,
                rule_quota,
                resolved->Connect_0,
                ConnectOutcome::Connected,
                now,
            ),
            connected,
        ),
        *again == *final(at_connect),
        call_ensures(UdpRule::handle_datagram, (again, quotas, rule_quota, key, n), action),
    ensures
        admitted is Some,
        resolved matches ColdNext::Connect(_, addr) && addr == addrs@[0],
        connected matches ColdNext::HandOver { flow } && {
            let before = old(rule)@;
            let after = final(at_connect)@;
            &&& action == (DatagramAction::Send { flow })
            &&& !before.flows.contains_key(flow)
            &&& after.slots == before.slots.insert(key, Slot::Live(flow))
            &&& after.flows.dom() == before.flows.dom().insert(flow)
            &&& forall|other: FlowId|
                before.flows.contains_key(other) ==> #[trigger] after.flows[other]
                    == before.flows[other]
            &&& after.flows[flow] == (FlowView {
                source_addr: key.src,
                upstream_addrs: seq![addrs@[0]],
                current_addr_idx: 0,
                last_seen_nanos: now,
                bytes_in: 0,
                bytes_out: 0,
                datagrams_in: 0,
                datagrams_out: 0,
                cancelled: false,
                target_idx: None,
                quota: rule_quota,
                admit_guards: guards@,
            })
            &&& after.stats == before.stats
            &&& after.cap == before.cap
            &&& after.dropped_overflow == before.dropped_overflow
        },
{
    let before = rule@;
    let after = final(at_connect)@;
    let flow = connected->flow;
    super::rule::lemma_numbers_are_new(*rule);
    assert(after.slots =~= before.slots.insert(key, Slot::Live(flow)));
    assert(after.flows.dom() =~= before.flows.dom().insert(flow));
}

/// A source that a limit refuses, or whose name has no address, leaves no slot, and
/// nothing else of the rule changes but the count of names that failed.
pub proof fn law_a_source_that_is_turned_away_leaves_no_slot(
    rule: &mut UdpRule,
    quotas: &QuotaScopeManager,
    cold: ColdFlow,
    key: FlowKey,
    outcome: LayeredAcquire,
    guards: Vec<u64>,
    owner_stats: &mut Option<RateLimitStatsAccumulator>,
    rule_stats: &mut Option<RateLimitStatsAccumulator>,
    admitted: Option<ColdFlow>,
    at_dns: &mut UdpRule,
    addrs: Option<Vec<SocketAddr>>,
    next: ColdNext,
)
    requires
        rule.wf(*quotas),
        at_dns.wf(*quotas),
        call_ensures(ColdFlow::key, (&cold,), key),
        rule@.slots.get(key) == Some(Slot::Pending),
        at_dns@.slots.get(key) == Some(Slot::Pending),
        outcome != LayeredAcquire::Granted,
        addrs matches Some(found) ==> found@.len() == 0,
        call_ensures(
            UdpRule::acquire_first_packet,
            (rule, quotas, cold, outcome, guards, owner_stats, rule_stats),
            admitted,
        ),
        call_ensures(UdpRule::cold_resolved, (at_dns, quotas, cold, addrs), next),
    ensures
        admitted is None,
        final(rule)@ == (RuleView { slots: old(rule)@.slots.remove(key), ..old(rule)@ }),
        next is Done,
        final(at_dns)@ == (RuleView {
            slots: old(at_dns)@.slots.remove(key),
            stats: RuleStatsView {
                dns_failures: old(at_dns)@.stats.dns_failures.wrapping_add(1),
                ..old(at_dns)@.stats
            },
            ..old(at_dns)@
        }),
{
}

/// Who refuses a first datagram counts it, as for a connection.
pub proof fn law_a_refused_flow_is_counted_like_a_connection(
    rule: &mut UdpRule,
    quotas: &QuotaScopeManager,
    cold: ColdFlow,
    outcome: LayeredAcquire,
    guards: Vec<u64>,
    owner_stats: &mut Option<RateLimitStatsAccumulator>,
    rule_stats: &mut Option<RateLimitStatsAccumulator>,
    admitted: Option<ColdFlow>,
    owner_alone: &mut Option<RateLimitStatsAccumulator>,
    rule_alone: &mut Option<RateLimitStatsAccumulator>,
    settled: bool,
)
    requires
        rule.wf(*quotas),
        *owner_alone == *owner_stats,
        *rule_alone == *rule_stats,
        call_ensures(LayeredAcquire::settle, (outcome, owner_alone, rule_alone), settled),
        call_ensures(
            UdpRule::acquire_first_packet,
            (rule, quotas, cold, outcome, guards, owner_stats, rule_stats),
            admitted,
        ),
    ensures
        admitted is Some <==> settled,
        crate::rate_limit::copy::stats_view(*final(owner_stats))
            == crate::rate_limit::copy::stats_view(*final(owner_alone)),
        crate::rate_limit::copy::stats_view(*final(rule_stats))
            == crate::rate_limit::copy::stats_view(*final(rule_alone)),
        settled ==> final(rule)@ == old(rule)@,
{
}

/// An address that cannot be connected is followed by the next one, in order. When
/// the last one has failed, the slot is free again and the failure of the name is
/// counted. Each refused connection is counted, a missing socket is not.
pub proof fn law_addresses_are_connected_in_order(
    rule: &mut UdpRule,
    quotas: &QuotaScopeManager,
    rule_quota: Option<QuotaHandle>,
    cold: ColdFlow,
    key: FlowKey,
    outcome: ConnectOutcome,
    now: u64,
    next: ColdNext,
)
    requires
        rule.wf(*quotas),
        super::listener::rule_funded(rule_quota, *quotas),
        call_ensures(ColdFlow::key, (&cold,), key),
        rule@.slots.get(key) == Some(Slot::Pending),
        cold.spec_tried() < cold.spec_addrs().len(),
        rule@.slots.dom().len() < usize::MAX,
        rule@.next_flow < u64::MAX,
        outcome != ConnectOutcome::Connected,
        call_ensures(
            UdpRule::cold_connected,
            (rule, quotas, rule_quota, cold, outcome, now),
            next,
        ),
    ensures
        ({
            let before = old(rule)@;
            let after = final(rule)@;
            let at = cold.spec_tried() as int;
            let refused = before.stats.errors.upstream_connect_failed;
            &&& after.stats.errors == (ErrorCounters {
                upstream_connect_failed: if outcome == ConnectOutcome::ConnectFailed {
                    refused.wrapping_add(1)
                } else {
                    refused
                },
                ..before.stats.errors
            })
            &&& at + 1 < cold.spec_addrs().len() ==> {
                &&& next matches ColdNext::Connect(more, addr)
                &&& addr == cold.spec_addrs()[at + 1]
                &&& more.spec_tried() == at + 1
                &&& more.spec_addrs() == cold.spec_addrs()
                &&& more.spec_key() == cold.spec_key()
                &&& more.spec_guards() == cold.spec_guards()
                &&& after == (RuleView {
                    stats: RuleStatsView { errors: after.stats.errors, ..before.stats },
                    ..before
                })
            }
            &&& at + 1 == cold.spec_addrs().len() ==> {
                &&& next is Done
                &&& after == (RuleView {
                    slots: before.slots.remove(key),
                    stats: RuleStatsView {
                        errors: after.stats.errors,
                        dns_failures: before.stats.dns_failures.wrapping_add(1),
                        ..before.stats
                    },
                    ..before
                })
            }
        }),
{
}

/// A flow that cannot be handed over is over, its slot is free and it is counted;
/// else nothing changes and its first datagram is sent.
pub proof fn law_a_flow_is_handed_over_or_dropped(
    rule: &mut UdpRule,
    quotas: &QuotaScopeManager,
    key: FlowKey,
    id: FlowId,
    accepted: bool,
    send: bool,
)
    requires
        rule.wf(*quotas),
        rule@.flows.contains_key(id),
        call_ensures(UdpRule::cold_handed_over, (rule, quotas, key, id, accepted), send),
    ensures
        send == accepted,
        accepted ==> final(rule)@ == old(rule)@,
        !accepted ==> final(rule)@ == (RuleView {
            slots: old(rule)@.slots.remove(key),
            flows: old(rule)@.flows.insert(
                id,
                FlowView { cancelled: true, ..old(rule)@.flows[id] },
            ),
            stats: RuleStatsView {
                errors: ErrorCounters {
                    addflow_dropped: old(rule)@.stats.errors.addflow_dropped.wrapping_add(1),
                    ..old(rule)@.stats.errors
                },
                ..old(rule)@.stats
            },
            ..old(rule)@
        }),
{
}

/// What became of a datagram that was sent: the call on the rule that was made.
pub enum SendCall {
    Fast(Option<UdpAction>, Option<u32>),
    Waiting(bool, Option<u32>),
    First(Option<UdpAction>),
    Relayed(bool, RelayStep),
}

/// One of the calls that book a datagram from a client was made.
pub open spec fn booked_by(
    rule: &mut UdpRule,
    quotas: &mut QuotaScopeManager,
    key: FlowKey,
    id: FlowId,
    n: u64,
    now: u64,
    call: SendCall,
) -> bool {
    match call {
        SendCall::Fast(failure, target) => call_ensures(
            UdpRule::fast_sent,
            (rule, quotas, key, id, n, failure, now),
            target,
        ),
        SendCall::Waiting(sent, target) => call_ensures(
            UdpRule::waiting_sent,
            (rule, quotas, key, id, n, sent, now),
            target,
        ),
        SendCall::First(failure) => call_ensures(
            UdpRule::cold_sent,
            (rule, quotas, key, id, n, failure, now),
            (),
        ),
        SendCall::Relayed(sent, step) => call_ensures(
            UdpRule::relay_sent,
            (rule, quotas, key, id, n, sent, now),
            step,
        ),
    }
}

/// The datagram was sent.
pub open spec fn went_out(call: SendCall) -> bool {
    match call {
        SendCall::Fast(failure, _) => failure is None,
        SendCall::Waiting(sent, _) => sent,
        SendCall::First(failure) => failure is None,
        SendCall::Relayed(sent, _) => sent,
    }
}

/// However a datagram of a client was sent, it is booked the same way: once with its
/// flow, once with the rule on its listen port, and as one draw on the flow's quota.
/// No slot and no other flow changes.
pub proof fn law_a_sent_datagram_is_booked_once(
    rule: &mut UdpRule,
    quotas: &mut QuotaScopeManager,
    key: FlowKey,
    id: FlowId,
    n: u64,
    now: u64,
    call: SendCall,
    flow: &mut UdpFlow,
    target: Option<u32>,
    stats: &mut RuleStats,
    drawn: &mut QuotaScopeManager,
    covered: bool,
)
    requires
        rule.wf(*quotas),
        rule@.flows.contains_key(id),
        went_out(call),
        booked_by(rule, quotas, key, id, n, now, call),
        flow@ == rule@.flows[id],
        call_ensures(UdpFlow::bump_inbound, (flow, n, now), target),
        stats@ == rule@.stats,
        call_ensures(RuleStats::inc_datagram_in, (stats, key.listen_port, n), ()),
        *drawn == *quotas,
        call_ensures(UdpFlow::quota_try_consume, (&*flow, drawn, n), covered),
    ensures
        final(rule)@.flows == old(rule)@.flows.insert(id, final(flow)@),
        final(rule)@.slots == old(rule)@.slots,
        final(rule)@.cap == old(rule)@.cap,
        final(rule)@.dropped_overflow == old(rule)@.dropped_overflow,
        final(rule)@.next_flow == old(rule)@.next_flow,
        !(call is Relayed) ==> final(rule)@.stats == final(stats)@,
        call is Relayed && old(rule)@.slots.dom().len() <= u32::MAX ==> final(rule)@.stats == (
        RuleStatsView { active_flows: old(rule)@.slots.dom().len() as u32, ..final(stats)@ }),
        call is Relayed && old(rule)@.slots.dom().len() > u32::MAX ==> final(rule)@.stats == final(stats)@,
        final(quotas).states() == final(drawn).states(),
        final(quotas).users() == old(quotas).users(),
        call matches SendCall::Fast(_, named) ==> named == target,
        call matches SendCall::Waiting(_, named) ==> named == target,
        call matches SendCall::Relayed(_, step) ==> step == RelayStep::Done,
{
}

/// A datagram that was not sent costs nothing and is booked nowhere. If the other end
/// is gone, the slot is free, the flow is over, and that is counted; one that is too
/// large is counted, except the first of a flow; in every other case nothing changes.
pub proof fn law_a_datagram_that_was_not_sent_costs_nothing(
    rule: &mut UdpRule,
    quotas: &mut QuotaScopeManager,
    key: FlowKey,
    id: FlowId,
    n: u64,
    now: u64,
    call: SendCall,
)
    requires
        rule.wf(*quotas),
        rule@.flows.contains_key(id),
        !went_out(call),
        !(call is Relayed),
        booked_by(rule, quotas, key, id, n, now, call),
    ensures
        final(quotas).states() == old(quotas).states(),
        final(quotas).users() == old(quotas).users(),
        call matches SendCall::Fast(_, named) ==> named is None,
        call matches SendCall::Waiting(_, named) ==> named is None,
        ({
            let before = old(rule)@;
            let after = final(rule)@;
            let errors = before.stats.errors;
            let (gone, large) = match call {
                SendCall::Fast(Some(why), _) => (
                    why == UdpAction::Evict,
                    why == UdpAction::MessageTooLarge,
                ),
                SendCall::First(Some(why)) => (why == UdpAction::Evict, false),
                _ => (false, false),
            };
            &&& gone ==> after == (RuleView {
                slots: before.slots.remove(key),
                flows: before.flows.insert(id, FlowView { cancelled: true, ..before.flows[id] }),
                stats: RuleStatsView {
                    errors: ErrorCounters {
                        icmp_evict: errors.icmp_evict.wrapping_add(1),
                        ..errors
                    },
                    ..before.stats
                },
                ..before
            })
            &&& large ==> after == (RuleView {
                stats: RuleStatsView {
                    errors: ErrorCounters { emsgsize: errors.emsgsize.wrapping_add(1), ..errors },
                    ..before.stats
                },
                ..before
            })
            &&& !gone && !large ==> after == before
        }),
{
}

/// A relayed datagram goes to the flow's current address, unless its quota is used
/// up. An address that fails is followed by the next one, in order; when the last one
/// has failed, that is counted as a failure of the name, and nothing was paid.
pub proof fn law_a_relay_tries_one_address_after_the_other(
    rule: &mut UdpRule,
    quotas: &mut QuotaScopeManager,
    key: FlowKey,
    id: FlowId,
    n: u64,
    now: u64,
    start: RelayStep,
    step: RelayStep,
)
    requires
        rule.wf(*quotas),
        rule@.flows.contains_key(id),
        rule@.flows[id].upstream_addrs.len() <= usize::MAX,
        call_ensures(UdpRule::relay_start, (&*rule, &*quotas, id), start),
        call_ensures(UdpRule::relay_sent, (rule, quotas, key, id, n, false, now), step),
    ensures
        ({
            let before = old(rule)@;
            let after = final(rule)@;
            let flow = before.flows[id];
            let at = flow.current_addr_idx;
            let spent = flow.quota is Some && old(quotas).states()[flow.quota->0.id()].exhausted;
            &&& spent ==> start == RelayStep::Done
            &&& !spent ==> start == RelayStep::Send(flow.upstream_addrs[at as int])
            &&& at + 1 < flow.upstream_addrs.len() ==> {
                &&& step == RelayStep::Send(flow.upstream_addrs[at + 1])
                &&& after.flows[id].current_addr_idx == at + 1
                &&& after == (RuleView {
                    flows: before.flows.insert(
                        id,
                        FlowView { current_addr_idx: after.flows[id].current_addr_idx, ..flow },
                    ),
                    ..before
                })
            }
            &&& at + 1 == flow.upstream_addrs.len() ==> {
                &&& step == RelayStep::Done
                &&& after == (RuleView {
                    stats: RuleStatsView {
                        dns_failures: before.stats.dns_failures.wrapping_add(1),
                        ..before.stats
                    },
                    ..before
                })
            }
            &&& final(quotas).states() == old(quotas).states()
        }),
{
}

/// A reply passes unless the flow's quota is used up. One that was sent is booked
/// once with the flow, once with the rule on its listen port, and as one draw on the
/// flow's quota; one that was not costs nothing.
pub proof fn law_a_sent_reply_is_booked_once(
    rule: &mut UdpRule,
    quotas: &mut QuotaScopeManager,
    key: FlowKey,
    id: FlowId,
    n: u64,
    sent: bool,
    now: u64,
    pass: bool,
    flow: &mut UdpFlow,
    target: Option<u32>,
    stats: &mut RuleStats,
    drawn: &mut QuotaScopeManager,
    covered: bool,
)
    requires
        rule.wf(*quotas),
        rule@.flows.contains_key(id),
        call_ensures(UdpRule::reply_received, (&*rule, &*quotas, id), pass),
        call_ensures(UdpRule::reply_sent, (rule, quotas, key, id, n, sent, now), ()),
        flow@ == rule@.flows[id],
        call_ensures(UdpFlow::bump_outbound, (flow, n, now), target),
        stats@ == rule@.stats,
        call_ensures(RuleStats::inc_datagram_out, (stats, key.listen_port, n), ()),
        *drawn == *quotas,
        call_ensures(UdpFlow::quota_try_consume, (&*flow, drawn, n), covered),
    ensures
        ({
            let quota = old(rule)@.flows[id].quota;
            pass <==> quota is None || !old(quotas).states()[quota->0.id()].exhausted
        }),
        sent ==> {
            &&& final(rule)@ == (RuleView {
                flows: old(rule)@.flows.insert(id, final(flow)@),
                stats: final(stats)@,
                ..old(rule)@
            })
            &&& final(quotas).states() == final(drawn).states()
        },
        !sent ==> {
            &&& final(rule)@ == old(rule)@
            &&& final(quotas).states() == old(quotas).states()
        },
        final(quotas).users() == old(quotas).users(),
{
}

/// The bytes of so many datagrams.
pub open spec fn bytes_of(sizes: Seq<u64>) -> int
    decreases sizes.len(),
{
    if sizes.len() == 0 {
        0
    } else {
        bytes_of(sizes.drop_last()) + sizes.last()
    }
}

proof fn lemma_bytes_of(sizes: Seq<u64>)
    ensures
        bytes_of(sizes) >= 0,
    decreases sizes.len(),
{
    if sizes.len() > 0 {
        lemma_bytes_of(sizes.drop_last());
    }
}

proof fn lemma_booked_all(rule: RuleView, id: FlowId, port: u16, sizes: Seq<u64>, now: u64)
    requires
        rule.flows.contains_key(id),
        rule.flows[id].bytes_in + bytes_of(sizes) <= u64::MAX,
        rule.stats.bytes_in + bytes_of(sizes) <= u64::MAX,
        rule.flows[id].datagrams_in + sizes.len() <= u64::MAX,
        rule.stats.datagrams_in + sizes.len() <= u64::MAX,
        rule.stats.per_port.contains_key(port) ==> {
            &&& rule.stats.per_port[port].bytes_in + bytes_of(sizes) <= u64::MAX
            &&& rule.stats.per_port[port].datagrams_in + sizes.len() <= u64::MAX
        },
    ensures
        ({
            let after = rule.booked_all(id, port, sizes, now);
            &&& after.flows == rule.flows.insert(
                id,
                FlowView {
                    bytes_in: (rule.flows[id].bytes_in + bytes_of(sizes)) as u64,
                    datagrams_in: (rule.flows[id].datagrams_in + sizes.len()) as u64,
                    last_seen_nanos: if sizes.len() == 0 {
                        rule.flows[id].last_seen_nanos
                    } else {
                        now
                    },
                    ..rule.flows[id]
                },
            )
            &&& after.slots == rule.slots
            &&& after.cap == rule.cap
            &&& after.dropped_overflow == rule.dropped_overflow
            &&& after.next_flow == rule.next_flow
            &&& after.stats == (RuleStatsView {
                bytes_in: (rule.stats.bytes_in + bytes_of(sizes)) as u64,
                datagrams_in: (rule.stats.datagrams_in + sizes.len()) as u64,
                per_port: after.stats.per_port,
                ..rule.stats
            })
            &&& !rule.stats.per_port.contains_key(port) ==> after.stats.per_port
                == rule.stats.per_port
            &&& rule.stats.per_port.contains_key(port) ==> after.stats.per_port
                == rule.stats.per_port.insert(
                port,
                PerPortCounters {
                    bytes_in: (rule.stats.per_port[port].bytes_in + bytes_of(sizes)) as u64,
                    datagrams_in: (rule.stats.per_port[port].datagrams_in + sizes.len()) as u64,
                    ..rule.stats.per_port[port]
                },
            )
        }),
    decreases sizes.len(),
{
    lemma_bytes_of(sizes);
    if sizes.len() == 0 {
        assert(rule.flows =~= rule.flows.insert(id, rule.flows[id]));
        if rule.stats.per_port.contains_key(port) {
            assert(rule.stats.per_port =~= rule.stats.per_port.insert(
                port,
                rule.stats.per_port[port],
            ));
        }
    } else {
        lemma_bytes_of(sizes.drop_last());
        lemma_booked_all(rule, id, port, sizes.drop_last(), now);
        assert(rule.booked_all(id, port, sizes, now).flows =~= rule.flows.insert(
            id,
            rule.booked_all(id, port, sizes, now).flows[id],
        ));
        if rule.stats.per_port.contains_key(port) {
            assert(rule.booked_all(id, port, sizes, now).stats.per_port
                =~= rule.stats.per_port.insert(
                port,
                rule.booked_all(id, port, sizes, now).stats.per_port[port],
            ));
        }
    }
}

/// A run of datagrams is booked as far as it was accepted: so many datagrams and the
/// bytes of exactly those. The first one that was not accepted is tried by itself.
pub proof fn law_a_run_is_booked_as_far_as_it_was_accepted(
    rule: &mut UdpRule,
    quotas: &mut QuotaScopeManager,
    run: &PendingRun,
    sent: usize,
    now: u64,
    next: FlushNext,
)
    requires
        rule.wf(*quotas),
        rule@.flows.contains_key(run.flow),
        sent <= run.sizes@.len(),
        rule@.flows[run.flow].bytes_in + bytes_of(run.sizes@.take(sent as int)) <= u64::MAX,
        rule@.stats.bytes_in + bytes_of(run.sizes@.take(sent as int)) <= u64::MAX,
        rule@.flows[run.flow].datagrams_in + sent <= u64::MAX,
        rule@.stats.datagrams_in + sent <= u64::MAX,
        rule@.stats.per_port.contains_key(run.key.listen_port) ==> {
            let row = rule@.stats.per_port[run.key.listen_port];
            &&& row.bytes_in + bytes_of(run.sizes@.take(sent as int)) <= u64::MAX
            &&& row.datagrams_in + sent <= u64::MAX
        },
        call_ensures(UdpRule::flush_run, (rule, quotas, run, RunOutcome::Sent(sent), now), next),
    ensures
        ({
            let before = old(rule)@;
            let after = final(rule)@;
            let flow = before.flows[run.flow];
            let bytes = bytes_of(run.sizes@.take(sent as int));
            &&& sent < run.sizes@.len() ==> next == (FlushNext::Probe { at: sent })
            &&& sent == run.sizes@.len() ==> next == FlushNext::Done
            &&& after.slots == before.slots
            &&& after.flows == before.flows.insert(run.flow, after.flows[run.flow])
            &&& after.flows[run.flow].bytes_in == flow.bytes_in + bytes
            &&& after.flows[run.flow].datagrams_in == flow.datagrams_in + sent
            &&& sent > 0 ==> after.flows[run.flow].last_seen_nanos == now
            &&& after.flows[run.flow] == (FlowView {
                bytes_in: after.flows[run.flow].bytes_in,
                datagrams_in: after.flows[run.flow].datagrams_in,
                last_seen_nanos: after.flows[run.flow].last_seen_nanos,
                ..flow
            })
            &&& after.stats.bytes_in == before.stats.bytes_in + bytes
            &&& after.stats.datagrams_in == before.stats.datagrams_in + sent
            &&& after.stats == (RuleStatsView {
                bytes_in: after.stats.bytes_in,
                datagrams_in: after.stats.datagrams_in,
                per_port: after.stats.per_port,
                ..before.stats
            })
            &&& after.stats.per_port.dom() == before.stats.per_port.dom()
            &&& forall|port: u16|
                port != run.key.listen_port ==> #[trigger] after.stats.per_port[port]
                    == before.stats.per_port[port]
            &&& before.stats.per_port.contains_key(run.key.listen_port) ==> {
                let (b, a) = (
                    before.stats.per_port[run.key.listen_port],
                    after.stats.per_port[run.key.listen_port],
                );
                &&& a.bytes_in == b.bytes_in + bytes
                &&& a.datagrams_in == b.datagrams_in + sent
                &&& a == (PerPortCounters {
                    bytes_in: a.bytes_in,
                    datagrams_in: a.datagrams_in,
                    ..b
                })
            }
        }),
{
    let accepted = run.sizes@.take(sent as int);
    lemma_bytes_of(accepted);
    lemma_booked_all(rule@, run.flow, run.key.listen_port, accepted, now);
    assert(accepted.len() == sent);
    assert(final(rule)@.stats.per_port.dom() =~= rule@.stats.per_port.dom());
}

/// A run of which nothing was accepted is booked nowhere. If the socket was not ready,
/// its datagrams are sent one by one; if the other end is gone, the slot is free and
/// the flow over.
pub proof fn law_a_run_that_was_not_accepted_is_booked_nowhere(
    rule: &mut UdpRule,
    quotas: &mut QuotaScopeManager,
    run: &PendingRun,
    outcome: RunOutcome,
    now: u64,
    next: FlushNext,
)
    requires
        rule.wf(*quotas),
        rule@.flows.contains_key(run.flow),
        !(outcome is Sent),
        call_ensures(UdpRule::flush_run, (rule, quotas, run, outcome, now), next),
    ensures
        ({
            let before = old(rule)@;
            let after = final(rule)@;
            let errors = before.stats.errors;
            match outcome {
                RunOutcome::Failed(UdpAction::Evict) => {
                    &&& next == FlushNext::Done
                    &&& after == (RuleView {
                        slots: before.slots.remove(run.key),
                        flows: before.flows.insert(
                            run.flow,
                            FlowView { cancelled: true, ..before.flows[run.flow] },
                        ),
                        stats: RuleStatsView {
                            errors: ErrorCounters {
                                icmp_evict: errors.icmp_evict.wrapping_add(1),
                                ..errors
                            },
                            ..before.stats
                        },
                        ..before
                    })
                },
                RunOutcome::Failed(UdpAction::MessageTooLarge) => {
                    &&& next == FlushNext::Done
                    &&& after == (RuleView {
                        stats: RuleStatsView {
                            errors: ErrorCounters {
                                emsgsize: errors.emsgsize.wrapping_add(1),
                                ..errors
                            },
                            ..before.stats
                        },
                        ..before
                    })
                },
                RunOutcome::WouldBlock => next == FlushNext::SendSingly && after == before,
                _ => next == FlushNext::Done && after == before,
            }
        }),
{
}

proof fn lemma_refunded_all(flow: FlowView, states: Seq<QuotaState>, sizes: Seq<u64>)
    requires
        flow.quota is Some,
        0 <= flow.quota->0.id() < states.len(),
        states[flow.quota->0.id()].budget_remaining_bytes >= 0,
        states[flow.quota->0.id()].budget_remaining_bytes + bytes_of(sizes) <= i64::MAX,
    ensures
        flow.refunded_all(states, sizes) == states.update(
            flow.quota->0.id(),
            QuotaState {
                budget_remaining_bytes: (states[flow.quota->0.id()].budget_remaining_bytes
                    + bytes_of(sizes)) as i64,
                ..states[flow.quota->0.id()]
            },
        ),
    decreases sizes.len(),
{
    lemma_bytes_of(sizes);
    let id = flow.quota->0.id();
    if sizes.len() == 0 {
        assert(flow.refunded_all(states, sizes) =~= states.update(id, states[id]));
    } else {
        lemma_bytes_of(sizes.drop_last());
        lemma_refunded_all(flow, states, sizes.drop_last());
        assert(flow.refunded_all(states, sizes) =~= states.update(
            id,
            QuotaState {
                budget_remaining_bytes: (states[id].budget_remaining_bytes + bytes_of(
                    sizes,
                )) as i64,
                ..states[id]
            },
        ));
    }
}

/// The bytes of the datagrams of a run that were not accepted go back to the flow's
/// quota: exactly those, and to no other quota.
pub proof fn law_what_a_run_did_not_send_is_given_back(
    rule: &mut UdpRule,
    quotas: &mut QuotaScopeManager,
    run: &PendingRun,
    outcome: RunOutcome,
    now: u64,
    next: FlushNext,
    other: int,
)
    requires
        rule.wf(*quotas),
        rule@.flows.contains_key(run.flow),
        outcome matches RunOutcome::Sent(sent) ==> sent <= run.sizes@.len(),
        rule@.flows[run.flow].quota is Some,
        quotas.states()[rule@.flows[run.flow].quota->0.id()].budget_remaining_bytes >= 0,
        quotas.states()[rule@.flows[run.flow].quota->0.id()].budget_remaining_bytes + bytes_of(
            run.sizes@.skip(
                if outcome is Sent {
                    outcome->Sent_0 as int
                } else {
                    0
                },
            ),
        ) <= i64::MAX,
        0 <= other < quotas.states().len(),
        other != rule@.flows[run.flow].quota->0.id(),
        call_ensures(UdpRule::flush_run, (rule, quotas, run, outcome, now), next),
    ensures
        ({
            let q = old(rule)@.flows[run.flow].quota->0.id();
            let kept = run.sizes@.skip(
                if outcome is Sent {
                    outcome->Sent_0 as int
                } else {
                    0
                },
            );
            let (before, after) = (old(quotas).states()[q], final(quotas).states()[q]);
            &&& after.budget_remaining_bytes == before.budget_remaining_bytes + bytes_of(kept)
            &&& after.exhausted == before.exhausted
            &&& after.monthly_bytes == before.monthly_bytes
            &&& final(quotas).states()[other] == old(quotas).states()[other]
            &&& final(quotas).users() == old(quotas).users()
        }),
{
    let flow = rule@.flows[run.flow];
    let kept = run.sizes@.skip(
        if outcome is Sent {
            outcome->Sent_0 as int
        } else {
            0
        },
    );
    assert(run.sizes@.skip(0) =~= run.sizes@);
    assert(flow.funded_by(*quotas));
    lemma_bytes_of(kept);
    lemma_refunded_all(flow, quotas.states(), kept);
}

/// Datagrams of one flow that come one after the other are collected into one run, in
/// order, with their places and sizes; a datagram of another flow, or of none, closes
/// the run first. What joins a run is paid for at once; what the quota does not cover
/// is lost. A datagram without a live flow takes the long way.
pub proof fn law_datagrams_of_one_flow_make_a_run(
    batch: &mut BatchState,
    rule: &UdpRule,
    quotas: &mut QuotaScopeManager,
    key: FlowKey,
    n: u64,
    step: BatchStep,
    flow: UdpFlow,
    drawn: &mut QuotaScopeManager,
    covered: bool,
)
    requires
        batch.wf(),
        batch.next < usize::MAX,
        rule.wf(*quotas),
        *drawn == *quotas,
        flow@.funded_by(*quotas),
        (rule@.slots.get(key) matches Some(Slot::Live(id)) ==> flow@ == rule@.flows[id]),
        call_ensures(UdpFlow::quota_try_consume, (&flow, drawn, n), covered),
        call_ensures(BatchState::process, (batch, rule, quotas, key, n), step),
    ensures
        final(batch).next == old(batch).next + 1,
        ({
            let slot = rule@.slots.get(key);
            let live = slot matches Some(Slot::Live(id)) && !rule@.flows[id].cancelled;
            let id = slot->0->Live_0;
            let before = old(batch).pending;
            let after = final(batch).pending;
            if !live {
                &&& step.cold
                &&& after is None
                &&& step.flush is Some <==> before is Some
                &&& before is Some ==> step.flush->0@ == before->0@
                &&& final(quotas).states() == old(quotas).states()
            } else {
                &&& !step.cold
                &&& final(quotas).states() == final(drawn).states()
                &&& !covered ==> {
                    &&& step.flush is None
                    &&& after is Some <==> before is Some
                    &&& before is Some ==> after->0@ == before->0@
                }
                &&& covered ==> {
                    let joins = before is Some && before->0.flow == id;
                    &&& after is Some
                    &&& after->0.flow == id
                    &&& joins ==> {
                        &&& step.flush is None
                        &&& after->0.key == before->0.key
                        &&& after->0.indices@ == before->0.indices@.push(old(batch).next)
                        &&& after->0.sizes@ == before->0.sizes@.push(n)
                    }
                    &&& !joins ==> {
                        &&& step.flush is Some <==> before is Some
                        &&& before is Some ==> step.flush->0@ == before->0@
                        &&& after->0.key == key
                        &&& after->0.indices@ == seq![old(batch).next]
                        &&& after->0.sizes@ == seq![n]
                    }
                }
            }
        }),
{
}

/// A batch starts with no run and ends by handing out the one it has.
pub proof fn law_a_batch_ends_with_its_last_run(
    fresh: BatchState,
    batch: &mut BatchState,
    flush: Option<PendingRun>,
)
    requires
        batch.wf(),
        call_ensures(BatchState::new, (), fresh),
        call_ensures(BatchState::finish, (batch,), flush),
    ensures
        fresh.pending is None,
        fresh.next == 0,
        flush == old(batch).pending,
        final(batch).pending is None,
{
}

proof fn lemma_replied_all(rule: RuleView, id: FlowId, port: u16, sizes: Seq<u64>, now: u64)
    requires
        rule.flows.contains_key(id),
        rule.flows[id].bytes_out + bytes_of(sizes) <= u64::MAX,
        rule.stats.bytes_out + bytes_of(sizes) <= u64::MAX,
        rule.flows[id].datagrams_out + sizes.len() <= u64::MAX,
        rule.stats.datagrams_out + sizes.len() <= u64::MAX,
        rule.stats.per_port.contains_key(port) ==> {
            &&& rule.stats.per_port[port].bytes_out + bytes_of(sizes) <= u64::MAX
            &&& rule.stats.per_port[port].datagrams_out + sizes.len() <= u64::MAX
        },
    ensures
        ({
            let after = rule.replied_all(id, port, sizes, now);
            &&& after.flows == rule.flows.insert(
                id,
                FlowView {
                    bytes_out: (rule.flows[id].bytes_out + bytes_of(sizes)) as u64,
                    datagrams_out: (rule.flows[id].datagrams_out + sizes.len()) as u64,
                    last_seen_nanos: if sizes.len() == 0 {
                        rule.flows[id].last_seen_nanos
                    } else {
                        now
                    },
                    ..rule.flows[id]
                },
            )
            &&& after.slots == rule.slots
            &&& after.cap == rule.cap
            &&& after.dropped_overflow == rule.dropped_overflow
            &&& after.next_flow == rule.next_flow
            &&& after.stats == (RuleStatsView {
                bytes_out: (rule.stats.bytes_out + bytes_of(sizes)) as u64,
                datagrams_out: (rule.stats.datagrams_out + sizes.len()) as u64,
                per_port: after.stats.per_port,
                ..rule.stats
            })
            &&& !rule.stats.per_port.contains_key(port) ==> after.stats.per_port
                == rule.stats.per_port
            &&& rule.stats.per_port.contains_key(port) ==> after.stats.per_port
                == rule.stats.per_port.insert(
                port,
                PerPortCounters {
                    bytes_out: (rule.stats.per_port[port].bytes_out + bytes_of(sizes)) as u64,
                    datagrams_out: (rule.stats.per_port[port].datagrams_out + sizes.len()) as u64,
                    ..rule.stats.per_port[port]
                },
            )
        }),
    decreases sizes.len(),
{
    lemma_bytes_of(sizes);
    if sizes.len() == 0 {
        assert(rule.flows =~= rule.flows.insert(id, rule.flows[id]));
        if rule.stats.per_port.contains_key(port) {
            assert(rule.stats.per_port =~= rule.stats.per_port.insert(
                port,
                rule.stats.per_port[port],
            ));
        }
    } else {
        lemma_bytes_of(sizes.drop_last());
        lemma_replied_all(rule, id, port, sizes.drop_last(), now);
        assert(rule.replied_all(id, port, sizes, now).flows =~= rule.flows.insert(
            id,
            rule.replied_all(id, port, sizes, now).flows[id],
        ));
        if rule.stats.per_port.contains_key(port) {
            assert(rule.replied_all(id, port, sizes, now).stats.per_port
                =~= rule.stats.per_port.insert(
                port,
                rule.replied_all(id, port, sizes, now).stats.per_port[port],
            ));
        }
    }
}

/// Replies are booked as far as they were accepted: so many datagrams and the bytes
/// of exactly those; they are a sign of life. If some were not accepted, that is
/// counted once. No slot and no other flow changes.
pub proof fn law_replies_are_booked_as_far_as_they_were_accepted(
    rule: &mut UdpRule,
    quotas: &mut QuotaScopeManager,
    key: FlowKey,
    id: FlowId,
    sizes: &Vec<u64>,
    sent: usize,
    now: u64,
)
    requires
        rule.wf(*quotas),
        rule@.flows.contains_key(id),
        sent <= sizes@.len(),
        rule@.flows[id].bytes_out + bytes_of(sizes@.take(sent as int)) <= u64::MAX,
        rule@.stats.bytes_out + bytes_of(sizes@.take(sent as int)) <= u64::MAX,
        rule@.flows[id].datagrams_out + sent <= u64::MAX,
        rule@.stats.datagrams_out + sent <= u64::MAX,
        rule@.stats.per_port.contains_key(key.listen_port) ==> {
            let row = rule@.stats.per_port[key.listen_port];
            &&& row.bytes_out + bytes_of(sizes@.take(sent as int)) <= u64::MAX
            &&& row.datagrams_out + sent <= u64::MAX
        },
        call_ensures(
            UdpRule::forward_reply_batch,
            (rule, quotas, key, id, sizes, RunOutcome::Sent(sent), now),
            (),
        ),
    ensures
        ({
            let before = old(rule)@;
            let after = final(rule)@;
            let flow = before.flows[id];
            let bytes = bytes_of(sizes@.take(sent as int));
            let blocked = before.stats.errors.wouldblock;
            &&& after.slots == before.slots
            &&& after.flows == before.flows.insert(id, after.flows[id])
            &&& after.flows[id].bytes_out == flow.bytes_out + bytes
            &&& after.flows[id].datagrams_out == flow.datagrams_out + sent
            &&& sent > 0 ==> after.flows[id].last_seen_nanos == now
            &&& after.flows[id] == (FlowView {
                bytes_out: after.flows[id].bytes_out,
                datagrams_out: after.flows[id].datagrams_out,
                last_seen_nanos: after.flows[id].last_seen_nanos,
                ..flow
            })
            &&& after.stats.bytes_out == before.stats.bytes_out + bytes
            &&& after.stats.datagrams_out == before.stats.datagrams_out + sent
            &&& after.stats.errors == (ErrorCounters {
                wouldblock: if sent < sizes@.len() {
                    blocked.wrapping_add(1)
                } else {
                    blocked
                },
                ..before.stats.errors
            })
            &&& after.stats == (RuleStatsView {
                bytes_out: after.stats.bytes_out,
                datagrams_out: after.stats.datagrams_out,
                per_port: after.stats.per_port,
                errors: after.stats.errors,
                ..before.stats
            })
            &&& after.stats.per_port.dom() == before.stats.per_port.dom()
            &&& forall|port: u16|
                port != key.listen_port ==> #[trigger] after.stats.per_port[port]
                    == before.stats.per_port[port]
            &&& before.stats.per_port.contains_key(key.listen_port) ==> {
                let (b, a) = (
                    before.stats.per_port[key.listen_port],
                    after.stats.per_port[key.listen_port],
                );
                &&& a.bytes_out == b.bytes_out + bytes
                &&& a.datagrams_out == b.datagrams_out + sent
                &&& a == (PerPortCounters {
                    bytes_out: a.bytes_out,
                    datagrams_out: a.datagrams_out,
                    ..b
                })
            }
        }),
{
    let accepted = sizes@.take(sent as int);
    lemma_bytes_of(accepted);
    lemma_replied_all(rule@, id, key.listen_port, accepted, now);
    assert(accepted.len() == sent);
    assert(final(rule)@.stats.per_port.dom() =~= rule@.stats.per_port.dom());
}

/// Each reply of a batch that was sent is booked as if it had been sent by itself:
/// one after the other, the same counters, on the same port, from the same quota.
pub proof fn law_a_batch_of_one_is_a_reply(
    rule: &mut UdpRule,
    quotas: &mut QuotaScopeManager,
    key: FlowKey,
    id: FlowId,
    sizes: &Vec<u64>,
    now: u64,
    alone: &mut UdpRule,
    alone_quotas: &mut QuotaScopeManager,
)
    requires
        rule.wf(*quotas),
        rule@.flows.contains_key(id),
        sizes@.len() == 1,
        *alone == *rule,
        *alone_quotas == *quotas,
        call_ensures(
            UdpRule::forward_reply_batch,
            (rule, quotas, key, id, sizes, RunOutcome::Sent(1), now),
            (),
        ),
        call_ensures(
            UdpRule::reply_sent,
            (alone, alone_quotas, key, id, sizes@[0], true, now),
            (),
        ),
    ensures
        final(rule)@ == final(alone)@,
        final(quotas).states() == final(alone_quotas).states(),
{
    let one = sizes@.take(1);
    assert(one.len() == 1 && one.last() == sizes@[0]);
    assert(one.drop_last() =~= Seq::<u64>::empty());
    reveal_with_fuel(RuleView::replied_all, 2);
    reveal_with_fuel(FlowView::drawn_all, 2);
}

/// The same for a run from a client: a run of one that was sent books what a single
/// datagram does.
pub proof fn law_a_run_of_one_is_a_datagram(
    rule: &mut UdpRule,
    quotas: &mut QuotaScopeManager,
    run: &PendingRun,
    now: u64,
    next: FlushNext,
    alone: &mut UdpRule,
    alone_quotas: &mut QuotaScopeManager,
    target: Option<u32>,
)
    requires
        rule.wf(*quotas),
        rule@.flows.contains_key(run.flow),
        run.sizes@.len() == 1,
        *alone == *rule,
        *alone_quotas == *quotas,
        call_ensures(UdpRule::flush_run, (rule, quotas, run, RunOutcome::Sent(1), now), next),
        call_ensures(
            UdpRule::fast_sent,
            (alone, alone_quotas, run.key, run.flow, run.sizes@[0], None, now),
            target,
        ),
    ensures
        final(rule)@ == final(alone)@,
        final(quotas).states() == old(quotas).states(),
        next == FlushNext::Done,
{
    let one = run.sizes@.take(1);
    assert(one.len() == 1 && one.last() == run.sizes@[0]);
    assert(one.drop_last() =~= Seq::<u64>::empty());
    assert(run.sizes@.skip(1) =~= Seq::<u64>::empty());
    reveal_with_fuel(RuleView::booked_all, 2);
}

/// Replies that could not be sent are booked nowhere and cost nothing; that the
/// socket was not ready is counted.
pub proof fn law_replies_that_were_not_sent_cost_nothing(
    rule: &mut UdpRule,
    quotas: &mut QuotaScopeManager,
    key: FlowKey,
    id: FlowId,
    sizes: &Vec<u64>,
    outcome: RunOutcome,
    now: u64,
)
    requires
        rule.wf(*quotas),
        rule@.flows.contains_key(id),
        !(outcome is Sent),
        call_ensures(
            UdpRule::forward_reply_batch,
            (rule, quotas, key, id, sizes, outcome, now),
            (),
        ),
    ensures
        final(quotas).states() == old(quotas).states(),
        outcome is Failed ==> final(rule)@ == old(rule)@,
        outcome is WouldBlock ==> final(rule)@ == (RuleView {
            stats: RuleStatsView {
                errors: ErrorCounters {
                    wouldblock: old(rule)@.stats.errors.wouldblock.wrapping_add(1),
                    ..old(rule)@.stats.errors
                },
                ..old(rule)@.stats
            },
            ..old(rule)@
        }),
{
}

/// What was received is forwarded, if it is anything. A socket that was not ready is
/// read datagram by datagram. If the other end is gone, the slot is free and the flow
/// over; what was too large is counted; everything else changes nothing.
pub proof fn law_what_was_received_is_forwarded(
    rule: &mut UdpRule,
    quotas: &QuotaScopeManager,
    key: FlowKey,
    id: FlowId,
    outcome: RecvOutcome,
    next: DrainNext,
    single: &mut UdpRule,
    failure: UdpAction,
)
    requires
        rule.wf(*quotas),
        rule@.flows.contains_key(id),
        *single == *rule,
        call_ensures(UdpRule::drain_one_flow_batched, (rule, quotas, key, id, outcome), next),
        call_ensures(UdpRule::recv_failed, (single, quotas, key, id, failure), ()),
    ensures
        outcome matches RecvOutcome::Received(n) ==> {
            &&& n > 0 ==> next == DrainNext::Forward
            &&& n == 0 ==> next == DrainNext::Done
            &&& final(rule)@ == old(rule)@
        },
        outcome matches RecvOutcome::Failed(why) ==> {
            &&& why == UdpAction::WouldBlock ==> next == DrainNext::Singly
            &&& why != UdpAction::WouldBlock ==> next == DrainNext::Done
            &&& why == failure ==> final(rule)@ == final(single)@
        },
        ({
            let before = old(single)@;
            let after = final(single)@;
            let errors = before.stats.errors;
            match failure {
                UdpAction::Evict => after == (RuleView {
                    slots: before.slots.remove(key),
                    flows: before.flows.insert(
                        id,
                        FlowView { cancelled: true, ..before.flows[id] },
                    ),
                    stats: RuleStatsView {
                        errors: ErrorCounters {
                            icmp_evict: errors.icmp_evict.wrapping_add(1),
                            ..errors
                        },
                        ..before.stats
                    },
                    ..before
                }),
                UdpAction::MessageTooLarge => after == (RuleView {
                    stats: RuleStatsView {
                        errors: ErrorCounters {
                            emsgsize: errors.emsgsize.wrapping_add(1),
                            ..errors
                        },
                        ..before.stats
                    },
                    ..before
                }),
                _ => after == before,
            }
        }),
{
}

/// Replies are waited for on a flow exactly as long as it is there and not over. One
/// turn takes 32 datagrams, and no more.
pub proof fn law_replies_are_waited_for_until_the_flow_is_over(
    rule: &UdpRule,
    id: FlowId,
    again: bool,
    fresh: FlowTurn,
    turn: &mut FlowTurn,
    may: bool,
)
    requires
        call_ensures(UdpRule::rearm, (rule, id), again),
        call_ensures(FlowTurn::new, (), fresh),
        call_ensures(FlowTurn::take, (turn,), may),
    ensures
        again <==> rule@.flows.contains_key(id) && !rule@.flows[id].cancelled,
        fresh.spec_left() == 32,
        may <==> old(turn).spec_left() > 0,
        may ==> final(turn).spec_left() + 1 == old(turn).spec_left(),
        !may ==> final(turn).spec_left() == 0,
{
}

/// A datagram of a source that has a flow is relayed by it; a new source opens one
/// unless the rule's quota is used up.
pub proof fn law_a_known_source_is_relayed(
    rule: &UdpRule,
    quotas: &QuotaScopeManager,
    rule_quota: Option<QuotaHandle>,
    key: FlowKey,
    step: InboundStep,
)
    requires
        rule.wf(*quotas),
        super::listener::rule_funded(rule_quota, *quotas),
        call_ensures(UdpRule::handle_inbound, (rule, quotas, rule_quota, key), step),
    ensures
        rule@.slots.get(key) matches Some(Slot::Live(id)) ==> step == InboundStep::Relay(id),
        !(rule@.slots.get(key) matches Some(Slot::Live(_))) ==> {
            let spent = rule_quota is Some && quotas.states()[rule_quota->0.id()].exhausted;
            &&& spent ==> step == InboundStep::Drop
            &&& !spent ==> step == InboundStep::Open
        },
{
}

/// A flow is built for a source that has none while there is a slot; a source that
/// has one keeps it, also if it got it meanwhile; without a slot the source is lost
/// and counted; without a socket nothing happens. The new flow has all addresses, its
/// target, the rule's quota and what was reserved for it.
pub proof fn law_a_flow_is_built_once_per_source(
    rule: &mut UdpRule,
    quotas: &QuotaScopeManager,
    rule_quota: Option<QuotaHandle>,
    key: FlowKey,
    addrs: Vec<SocketAddr>,
    target_idx: Option<u32>,
    guards: Vec<u64>,
    bound: bool,
    now: u64,
    built: BuiltFlow,
)
    requires
        rule.wf(*quotas),
        super::listener::rule_funded(rule_quota, *quotas),
        addrs@.len() > 0,
        rule@.slots.dom().len() < usize::MAX - 1,
        rule@.next_flow < u64::MAX,
        call_ensures(
            UdpRule::build_or_lookup_flow,
            (rule, quotas, rule_quota, key, addrs, target_idx, guards, bound, now),
            built,
        ),
    ensures
        ({
            let before = old(rule)@;
            let after = final(rule)@;
            let slot = before.slots.get(key);
            if !bound {
                built == BuiltFlow::Nowhere && after == before
            } else if slot is Some && slot->0 is Live {
                built == BuiltFlow::Existing(slot->0->Live_0) && after == before
            } else if slot is Some || before.slots.dom().len() >= before.cap {
                &&& built == BuiltFlow::Nowhere
                &&& after == (RuleView {
                    dropped_overflow: before.dropped_overflow.wrapping_add(1),
                    stats: RuleStatsView {
                        flows_dropped_overflow: before.stats.flows_dropped_overflow.wrapping_add(1),
                        ..before.stats
                    },
                    ..before
                })
            } else {
                &&& built matches BuiltFlow::Opened(id)
                &&& !before.flows.contains_key(id)
                &&& after.slots == before.slots.insert(key, Slot::Live(id))
                &&& after.flows == before.flows.insert(
                    id,
                    FlowView {
                        source_addr: key.src,
                        upstream_addrs: addrs@,
                        current_addr_idx: 0,
                        last_seen_nanos: now,
                        bytes_in: 0,
                        bytes_out: 0,
                        datagrams_in: 0,
                        datagrams_out: 0,
                        cancelled: false,
                        target_idx,
                        quota: rule_quota,
                        admit_guards: guards@,
                    },
                )
                &&& after.stats == before.stats
                &&& after.cap == before.cap
                &&& after.dropped_overflow == before.dropped_overflow
            }
        }),
{
    super::rule::lemma_numbers_are_new(*rule);
}

/// A name with addresses gives all of them, and nothing is counted; one without is a
/// failure and counted once; a missing socket is not a failure of the name.
pub proof fn law_only_names_without_address_are_failures(
    rule: &mut UdpRule,
    quotas: &QuotaScopeManager,
    resolved: Result<Vec<SocketAddr>, ConnectError>,
    addrs: Option<Vec<SocketAddr>>,
)
    requires
        rule.wf(*quotas),
        call_ensures(UdpRule::target_addrs, (rule, quotas, resolved), addrs),
    ensures
        ({
            let before = old(rule)@;
            let after = final(rule)@;
            let good = resolved matches Ok(found) && found@.len() > 0;
            let failed = match resolved {
                Ok(found) => found@.len() == 0,
                Err(e) => e is Resolution,
            };
            &&& addrs is Some <==> good
            &&& addrs is Some ==> addrs->0 == resolved->Ok_0
            &&& after == (RuleView {
                stats: RuleStatsView {
                    dns_failures: if failed {
                        before.stats.dns_failures.wrapping_add(1)
                    } else {
                        before.stats.dns_failures
                    },
                    ..before.stats
                },
                ..before
            })
        }),
{
}

/// The target that was asked for is the one that is reported: as reached if it has an
/// address, and then a flow is built to it; else as failed, and the next target of
/// the order is asked, until there is no other. Every target without an address is
/// counted, and giving up once more.
pub proof fn law_targets_are_resolved_in_order(
    rule: &mut UdpRule,
    quotas: &QuotaScopeManager,
    walk: &mut TargetWalk,
    asked: usize,
    addrs: Option<Vec<SocketAddr>>,
    turn: TargetTurn,
    now_at: usize,
)
    requires
        rule.wf(*quotas),
        walk@.wf(),
        call_ensures(TargetWalk::current, (&*walk,), asked),
        call_ensures(UdpRule::target_resolved, (rule, quotas, walk, addrs), turn),
        call_ensures(TargetWalk::current, (&*final(walk),), now_at),
    ensures
        turn.report.target == asked,
        ({
            let before = old(rule)@;
            let after = final(rule)@;
            let good = addrs is Some && addrs->0@.len() > 0;
            let last = old(walk)@.at + 1 == old(walk)@.order.len();
            let failures = before.stats.dns_failures;
            &&& turn.report.success <==> good
            &&& good ==> {
                &&& turn.step matches TargetStep::Build { target_idx, addrs: found }
                &&& asked <= u32::MAX ==> target_idx == asked
                &&& asked > u32::MAX ==> target_idx == u32::MAX
                &&& found == addrs->0
                &&& after == before
                &&& final(walk)@ == old(walk)@
            }
            &&& !good && !last ==> {
                &&& turn.step == TargetStep::Resolve(now_at)
                &&& final(walk)@.at == old(walk)@.at + 1
                &&& after == (RuleView {
                    stats: RuleStatsView {
                        dns_failures: failures.wrapping_add(1),
                        ..before.stats
                    },
                    ..before
                })
            }
            &&& !good && last ==> {
                &&& turn.step == TargetStep::GiveUp
                &&& after == (RuleView {
                    stats: RuleStatsView {
                        dns_failures: failures.wrapping_add(1).wrapping_add(1),
                        ..before.stats
                    },
                    ..before
                })
            }
            &&& final(walk)@.order == old(walk)@.order
        }),
{
}

/// Draining ends every flow that has a slot and frees all slots; flows without a slot
/// stay as they are, and the gauge of flows shows none. A listener that finishes does
/// the same, but shows how many there were.
pub proof fn law_draining_ends_every_flow(
    rule: &mut UdpRule,
    quotas: &QuotaScopeManager,
    finished: &mut UdpRule,
    key: FlowKey,
    id: FlowId,
)
    requires
        rule.wf(*quotas),
        *finished == *rule,
        call_ensures(UdpRule::drain, (rule, quotas), ()),
        call_ensures(UdpRule::finish_listener, (finished, quotas), ()),
    ensures
        ({
            let before = old(rule)@;
            let after = final(rule)@;
            let end = final(finished)@;
            let count = before.slots.dom().len();
            &&& after.slots.get(key) is None
            &&& after.flows.contains_key(id) <==> before.flows.contains_key(id)
            &&& before.slots.get(key) == Some(Slot::Live(id)) ==> after.flows[id] == (FlowView {
                cancelled: true,
                ..before.flows[id]
            })
            &&& before.flows.contains_key(id) && (forall|k: FlowKey| #[trigger]
                before.slots.get(k) != Some(Slot::Live(id))) ==> after.flows[id] == before.flows[id]
            &&& after.stats == (RuleStatsView { active_flows: 0, ..before.stats })
            &&& after.cap == before.cap
            &&& after.next_flow == before.next_flow
            &&& after.dropped_overflow == before.dropped_overflow
            &&& end.slots == after.slots
            &&& end.flows == after.flows
            &&& count <= u32::MAX ==> end.stats == (RuleStatsView {
                active_flows: count as u32,
                ..before.stats
            })
        }),
{
    let before = rule@;
    assert(final(rule)@.slots =~= Map::<FlowKey, Slot>::empty());
    if before.slots.get(key) == Some(Slot::Live(id)) {
        assert(before.slots.contains_key(key));
        assert(before.reachable(id));
        assert(before.flows.contains_key(id));
    }
    if before.flows.contains_key(id) && (forall|k: FlowKey| #[trigger]
        before.slots.get(k) != Some(Slot::Live(id))) {
        if before.reachable(id) {
            let k = choose|k: FlowKey|
                #![trigger before.slots.contains_key(k)]
                before.slots.contains_key(k) && before.slots[k] == Slot::Live(id);
            assert(before.slots.get(k) == Some(Slot::Live(id)));
        }
    }
    assert(final(finished)@.flows =~= final(rule)@.flows) by {
        assert forall|i: FlowId| before.regauged().reachable(i) == before.reachable(i) by {
            assert(before.regauged().slots == before.slots);
            if before.reachable(i) {
                let k = choose|k: FlowKey|
                    #![trigger before.slots.contains_key(k)]
                    before.slots.contains_key(k) && before.slots[k] == Slot::Live(i);
                assert(before.regauged().slots.contains_key(k));
            }
            if before.regauged().reachable(i) {
                let k = choose|k: FlowKey|
                    #![trigger before.regauged().slots.contains_key(k)]
                    before.regauged().slots.contains_key(k) && before.regauged().slots[k]
                        == Slot::Live(i);
                assert(before.slots.contains_key(k));
            }
        }
    }
}

/// The gauge of flows shows how many slots are taken, and nothing else changes.
pub proof fn law_the_gauge_shows_the_slots(rule: &mut UdpRule, quotas: &QuotaScopeManager)
    requires
        rule.wf(*quotas),
        call_ensures(UdpRule::pump_stats, (rule, quotas), ()),
    ensures
        ({
            let count = old(rule)@.slots.dom().len();
            &&& count <= u32::MAX ==> final(rule)@.stats.active_flows == count
            &&& count > u32::MAX ==> final(rule)@.stats.active_flows == u32::MAX
            &&& final(rule)@ == (RuleView {
                stats: RuleStatsView {
                    active_flows: final(rule)@.stats.active_flows,
                    ..old(rule)@.stats
                },
                ..old(rule)@
            })
        }),
{
}

/// A flow that is over and has no slot can be taken out, once, and gives back what was
/// reserved for it; no other flow and no slot changes. A flow that is not over stays.
pub proof fn law_an_ended_flow_is_taken_out_once(
    rule: &mut UdpRule,
    quotas: &QuotaScopeManager,
    id: FlowId,
    guards: Option<Vec<u64>>,
    again: &mut UdpRule,
    none: Option<Vec<u64>>,
    other: FlowId,
)
    requires
        rule.wf(*quotas),
        other != id,
        call_ensures(UdpRule::take_ended, (rule, quotas, id), guards),
        *again == *final(rule),
        call_ensures(UdpRule::take_ended, (again, quotas, id), none),
    ensures
        ({
            let before = old(rule)@;
            let after = final(rule)@;
            let slotless = forall|key: FlowKey| #[trigger]
                before.slots.get(key) != Some(Slot::Live(id));
            &&& guards is Some <==> before.flows.contains_key(id) && before.flows[id].cancelled
                && slotless
            &&& guards is Some ==> {
                &&& guards->0@ == before.flows[id].admit_guards
                &&& !after.flows.contains_key(id)
                &&& none is None
            }
            &&& guards is None ==> after == before
            &&& after.flows.get(other) == before.flows.get(other)
            &&& after.slots == before.slots
            &&& after.stats == before.stats
            &&& after.cap == before.cap
            &&& after.next_flow == before.next_flow
        }),
{
}

/// A new rule has its cap, its counters, and nothing else.
pub proof fn law_a_new_rule_is_empty(cap: usize, stats: RuleStats, rule: UdpRule, key: FlowKey)
    requires
        call_ensures(UdpRule::new, (cap, stats), rule),
    ensures
        rule@.cap == cap,
        rule@.stats == stats@,
        rule@.slots.get(key) is None,
        rule@.slots.dom() == Set::<FlowKey>::empty(),
        rule@.flows == Map::<FlowId, FlowView>::empty(),
        rule@.dropped_overflow == 0,
{
    assert(rule@.slots.dom() =~= Set::<FlowKey>::empty());
}

/// An upstream socket is bound to any address and any port, of the family of the
/// address that it is to talk to.
pub proof fn law_a_socket_is_bound_in_the_family_of_its_peer(addr: SocketAddr, bind: SocketAddr)
    requires
        call_ensures(bind_addr_for, (addr,), bind),
    ensures
        addr is V4 ==> bind == (SocketAddr::V4 { ip: 0, port: 0 }),
        addr is V6 ==> bind == (SocketAddr::V6 { ip: 0, port: 0, flowinfo: 0, scope_id: 0 }),
{
}

proof fn lemma_drawn_all(flow: FlowView, states: Seq<QuotaState>, sizes: Seq<u64>)
    requires
        flow.quota is Some,
        0 <= flow.quota->0.id() < states.len(),
        !states[flow.quota->0.id()].exhausted,
        bytes_of(sizes) <= states[flow.quota->0.id()].budget_remaining_bytes,
    ensures
        flow.drawn_all(states, sizes) == states.update(
            flow.quota->0.id(),
            QuotaState {
                budget_remaining_bytes: (states[flow.quota->0.id()].budget_remaining_bytes
                    - bytes_of(sizes)) as i64,
                ..states[flow.quota->0.id()]
            },
        ),
    decreases sizes.len(),
{
    lemma_bytes_of(sizes);
    let id = flow.quota->0.id();
    if sizes.len() == 0 {
        assert(flow.drawn_all(states, sizes) =~= states.update(id, states[id]));
    } else {
        lemma_bytes_of(sizes.drop_last());
        lemma_drawn_all(flow, states, sizes.drop_last());
        assert(flow.drawn_all(states, sizes) =~= states.update(
            id,
            QuotaState {
                budget_remaining_bytes: (states[id].budget_remaining_bytes - bytes_of(
                    sizes,
                )) as i64,
                ..states[id]
            },
        ));
    }
}

/// Replies that were sent draw their bytes from the flow's quota, as far as it covers
/// them: exactly those, and from no other quota. A flow without a quota draws on none.
pub proof fn law_sent_replies_draw_their_bytes(
    rule: &mut UdpRule,
    quotas: &mut QuotaScopeManager,
    key: FlowKey,
    id: FlowId,
    sizes: &Vec<u64>,
    sent: usize,
    now: u64,
    other: int,
)
    requires
        rule.wf(*quotas),
        rule@.flows.contains_key(id),
        sent <= sizes@.len(),
        call_ensures(
            UdpRule::forward_reply_batch,
            (rule, quotas, key, id, sizes, RunOutcome::Sent(sent), now),
            (),
        ),
        0 <= other < quotas.states().len(),
    ensures
        ({
            let quota = old(rule)@.flows[id].quota;
            let bytes = bytes_of(sizes@.take(sent as int));
            let (before, after) = (old(quotas).states(), final(quotas).states());
            &&& quota is None ==> after == before
            &&& quota is Some && !before[quota->0.id()].exhausted && bytes
                <= before[quota->0.id()].budget_remaining_bytes ==> {
                let q = quota->0.id();
                &&& after[q].budget_remaining_bytes == before[q].budget_remaining_bytes - bytes
                &&& after[q].exhausted == before[q].exhausted
                &&& after[q].monthly_bytes == before[q].monthly_bytes
                &&& other != q ==> after[other] == before[other]
            }
            &&& final(quotas).users() == old(quotas).users()
        }),
{
    let flow = rule@.flows[id];
    let accepted = sizes@.take(sent as int);
    assert(flow.funded_by(*quotas));
    lemma_bytes_of(accepted);
    if flow.quota is Some {
        let q = flow.quota->0.id();
        if !quotas.states()[q].exhausted && bytes_of(accepted)
            <= quotas.states()[q].budget_remaining_bytes {
            lemma_drawn_all(flow, quotas.states(), accepted);
        }
    } else {
        lemma_no_quota(flow, quotas.states(), accepted);
    }
}

proof fn lemma_no_quota(flow: FlowView, states: Seq<QuotaState>, sizes: Seq<u64>)
    requires
        flow.quota is None,
    ensures
        flow.drawn_all(states, sizes) == states,
        flow.refunded_all(states, sizes) == states,
    decreases sizes.len(),
{
    if sizes.len() > 0 {
        lemma_no_quota(flow, states, sizes.drop_last());
    }
}

/// A run of a flow without a quota touches no quota.
pub proof fn law_without_a_quota_nothing_is_given_back(
    rule: &mut UdpRule,
    quotas: &mut QuotaScopeManager,
    run: &PendingRun,
    outcome: RunOutcome,
    now: u64,
    next: FlushNext,
)
    requires
        rule.wf(*quotas),
        rule@.flows.contains_key(run.flow),
        rule@.flows[run.flow].quota is None,
        outcome matches RunOutcome::Sent(sent) ==> sent <= run.sizes@.len(),
        call_ensures(UdpRule::flush_run, (rule, quotas, run, outcome, now), next),
    ensures
        final(quotas).states() == old(quotas).states(),
        final(quotas).users() == old(quotas).users(),
{
    let flow = rule@.flows[run.flow];
    lemma_no_quota(flow, quotas.states(), run.sizes@);
    if outcome is Sent {
        lemma_no_quota(flow, quotas.states(), run.sizes@.skip(outcome->Sent_0 as int));
    }
}

} // verus!

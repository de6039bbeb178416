//! UDP listeners whose flows keep all the addresses of their upstream and go on
//! to the next one when a datagram cannot be sent. This is how rules with
//! several targets are served: the first datagram of a source chooses a target,
//! and the flow sticks to it.

use vstd::prelude::*;

use super::flow::{FlowView, UdpFlow};
use super::registry::{FlowId, FlowKey, Slot, TryGetOrReserve};
use super::rule::{RuleView, UdpRule};
use crate::addr::SocketAddr;
use crate::failover::{HealthReport, TargetWalk};
use crate::quota::scope::{QuotaHandle, QuotaScopeManager};
use crate::resolver::ConnectError;
use crate::stats::RuleStatsView;

verus! {

/// What is to be done with a datagram from a client.
#[derive(Clone, Copy, Debug, PartialEq, Eq, Structural)]
pub enum InboundStep {
    /// Nothing; it is lost.
    Drop,
    /// Relay it through this flow, beginning with [`UdpRule::relay_start`].
    Relay(FlowId),
    /// Ask the rate limits, then find an upstream for a new flow.
    Open,
}

/// What is to be done next to relay a datagram.
#[derive(Clone, Copy, Debug, PartialEq, Eq, Structural)]
pub enum RelayStep {
    /// Nothing.
    Done,
    /// Send it to this address, and report to [`UdpRule::relay_sent`].
    Send(SocketAddr),
}

/// What is to be done next to find a target for a new flow.
#[derive(Debug)]
pub enum TargetStep {
    /// Resolve this target, and report to [`UdpRule::target_resolved`].
    Resolve(usize),
    /// Open a flow to these addresses of the target, with
    /// [`UdpRule::build_or_lookup_flow`].
    Build { target_idx: u32, addrs: Vec<SocketAddr> },
    /// No target has an address; the datagram is lost.
    GiveUp,
}

/// What came of resolving one target: what its health is to be told, and what is
/// to be done next.
#[derive(Debug)]
pub struct TargetTurn {
    pub report: HealthReport,
    pub step: TargetStep,
}

/// A flow for a new source.
#[derive(Clone, Copy, Debug, PartialEq, Eq, Structural)]
pub enum BuiltFlow {
    /// There is none.
    Nowhere,
    /// The source has got one in the meantime.
    Existing(FlowId),
    /// This one was opened. Begin to wait for its replies.
    Opened(FlowId),
}

impl RuleView {
    /// After the gauge of live flows was brought up to date, if it can show the
    /// number.
    pub open spec fn regauged(self) -> RuleView {
        if self.slots.dom().len() <= u32::MAX {
            RuleView {
                stats: RuleStatsView {
                    active_flows: self.slots.dom().len() as u32,
                    ..self.stats
                },
                ..self
            }
        } else {
            self
        }
    }

    /// After a flow went on to its next address, if it has one.
    pub open spec fn address_failed(self, id: FlowId) -> RuleView {
        let flow = self.flows[id];
        if flow.current_addr_idx + 1 < flow.upstream_addrs.len() {
            let next = FlowView { current_addr_idx: (flow.current_addr_idx + 1) as usize, ..flow };
            RuleView { flows: self.flows.insert(id, next), ..self }
        } else {
            self.dns_failed()
        }
    }
}

/// A flow as it is opened for a source.
pub open spec fn new_flow_view(
    src: SocketAddr,
    addrs: Seq<SocketAddr>,
    target_idx: Option<u32>,
    quota: Option<QuotaHandle>,
    guards: Seq<u64>,
    now: u64,
) -> FlowView {
    FlowView { quota, admit_guards: guards, ..FlowView::opened(src, addrs, target_idx, now) }
}

impl UdpRule {
    /// Decides what becomes of a datagram: a known source has its flow, and a
    /// new one gets none once the quota of the rule is used up.
    pub fn handle_inbound(
        &self,
        quotas: &QuotaScopeManager,
        rule_quota: Option<QuotaHandle>,
        key: FlowKey,
    ) -> (step: InboundStep)
        requires
            self.wf(*quotas),
            super::listener::rule_funded(rule_quota, *quotas),
        ensures
            step == (match self@.live(key) {
                Some(id) => InboundStep::Relay(id),
                None => if super::listener::rule_exhausted(rule_quota, *quotas) {
                    InboundStep::Drop
                } else {
                    InboundStep::Open
                },
            }),
    {
        if let Some(id) = self.registry.get(key) {
            return InboundStep::Relay(id);
        }
        if let Some(q) = rule_quota {
            if quotas.is_exhausted(q) {
                return InboundStep::Drop;
            }
        }
        InboundStep::Open
    }

    /// Where a datagram of a flow goes first: nowhere, once its quota is used
    /// up.
    pub fn relay_start(&self, quotas: &QuotaScopeManager, id: FlowId) -> (step: RelayStep)
        requires
            self.wf(*quotas),
            self@.flows.contains_key(id),
        ensures
            ({
                let flow = self@.flows[id];
                step == (if flow.quota_allows(*quotas) {
                    RelayStep::Send(flow.upstream_addrs[flow.current_addr_idx as int])
                } else {
                    RelayStep::Done
                })
            }),
    {
        match self.flows.get(id) {
            Some(flow) => if flow.quota_allows(quotas) {
                RelayStep::Send(flow.current_upstream())
            } else {
                RelayStep::Done
            },
            None => RelayStep::Done,
        }
    }

    /// A datagram of `n` bytes was sent to the address in use, or it could not
    /// be. Where it could not, the flow goes on to its next address; at the last
    /// one the datagram is lost. Where it was, the target of the flow is to be
    /// credited with its bytes, if it has one.
    pub fn relay_sent(
        &mut self,
        quotas: &mut QuotaScopeManager,
        key: FlowKey,
        id: FlowId,
        n: u64,
        sent: bool,
        now_nanos: u64,
    ) -> (step: RelayStep)
        requires
            old(self).wf(*old(quotas)),
            old(self)@.flows.contains_key(id),
        ensures
            final(self).wf(*final(quotas)),
            final(quotas).users() == old(quotas).users(),
            ({
                let flow = old(self)@.flows[id];
                let next = flow.current_addr_idx + 1;
                if sent {
                    &&& final(self)@ =~= old(self)@.booked_in(
                        id,
                        key.listen_port,
                        n,
                        now_nanos,
                    ).regauged()
                    &&& final(quotas).states() =~= flow.drawn(old(quotas).states(), n)
                    &&& step == RelayStep::Done
                } else {
                    &&& final(self)@ =~= old(self)@.address_failed(id)
                    &&& final(quotas).states() == old(quotas).states()
                    &&& step == (if next < flow.upstream_addrs.len() {
                        RelayStep::Send(flow.upstream_addrs[next])
                    } else {
                        RelayStep::Done
                    })
                }
            }),
    {
        proof {
            self.flows.lemma_known(id);
        }
        if sent {
            self.book_in(quotas, id, key.listen_port, n, now_nanos);
            if let Some(flow) = self.flows.get(id) {
                flow.quota_consume_after_send(quotas, n);
            }
            self.regauge(quotas);
            return RelayStep::Done;
        }
        let mut next: Option<SocketAddr> = None;
        if let Some(mut flow) = self.flows.take(id) {
            next = flow.advance_upstream();
            self.flows.put(id, flow);
        }
        match next {
            Some(addr) => RelayStep::Send(addr),
            None => {
                assert(self@.flows =~= old(self)@.flows);
                self.stats.inc_dns_failure();
                RelayStep::Done
            },
        }
    }

    /// Brings the gauge of live flows up to date.
    fn regauge(&mut self, quotas: &QuotaScopeManager)
        requires
            old(self).wf(*quotas),
        ensures
            final(self).wf(*quotas),
            final(self)@ =~= old(self)@.regauged(),
    {
        let len: usize = self.registry.len();
        if len <= u32::MAX as usize {
            self.stats.set_active_flows(len as u32);
        }
        assert(self@.flows == old(self)@.flows);
    }

    /// The only target of a rule was resolved, or it could not be. Returns the
    /// addresses for a new flow, if there are any.
    pub fn target_addrs(
        &mut self,
        quotas: &QuotaScopeManager,
        resolved: Result<Vec<SocketAddr>, ConnectError>,
    ) -> (addrs: Option<Vec<SocketAddr>>)
        requires
            old(self).wf(*quotas),
        ensures
            final(self).wf(*quotas),
            match resolved {
                Ok(found) => if found@.len() > 0 {
                    addrs == Some(found) && final(self)@ == old(self)@
                } else {
                    addrs is None && final(self)@ =~= old(self)@.dns_failed()
                },
                Err(ConnectError::Resolution(_)) => {
                    addrs is None && final(self)@ =~= old(self)@.dns_failed()
                },
                Err(ConnectError::Dial(_)) => addrs is None && final(self)@ == old(self)@,
            },
    {
        match super::flow::checked_addrs(resolved, &mut self.stats) {
            Ok(found) => {
                assert(self@ =~= old(self)@);
                Some(found)
            },
            Err(_) => {
                assert(self@.flows == old(self)@.flows);
                None
            },
        }
    }

    /// The target that `walk` is at was resolved, or it could not be. The first
    /// target that has an address gets the flow.
    pub fn target_resolved(
        &mut self,
        quotas: &QuotaScopeManager,
        walk: &mut TargetWalk,
        addrs: Option<Vec<SocketAddr>>,
    ) -> (turn: TargetTurn)
        requires
            old(self).wf(*quotas),
            old(walk)@.wf(),
        ensures
            final(self).wf(*quotas),
            final(walk)@.wf(),
            turn.report.target == old(walk)@.current(),
            if addrs is Some && addrs->0@.len() > 0 {
                &&& final(self)@ == old(self)@
                &&& final(walk)@ == old(walk)@
                &&& turn.report.success
                &&& turn.step == (TargetStep::Build {
                    target_idx: if old(walk)@.current() <= u32::MAX {
                        old(walk)@.current() as u32
                    } else {
                        u32::MAX
                    },
                    addrs: addrs->0,
                })
            } else {
                &&& final(walk)@ =~= old(walk)@.advanced()
                &&& !turn.report.success
                &&& if old(walk)@.exhausted() {
                    &&& final(self)@ =~= old(self)@.dns_failed().dns_failed()
                    &&& turn.step == TargetStep::GiveUp
                } else {
                    &&& final(self)@ =~= old(self)@.dns_failed()
                    &&& turn.step == TargetStep::Resolve(final(walk)@.current() as usize)
                }
            },
    {
        let target: usize = walk.current();
        match addrs {
            Some(addrs) => {
                if addrs.len() > 0 {
                    let target_idx: u32 = if target <= u32::MAX as usize {
                        target as u32
                    } else {
                        u32::MAX
                    };
                    return TargetTurn {
                        report: HealthReport { target, success: true },
                        step: TargetStep::Build { target_idx, addrs },
                    };
                }
            },
            None => {},
        }
        let report = HealthReport { target, success: false };
        self.stats.inc_dns_failure();
        assert(self@.flows == old(self)@.flows);
        match walk.advance() {
            Some(next) => TargetTurn { report, step: TargetStep::Resolve(next) },
            None => {
                self.stats.inc_dns_failure();
                assert(self@.flows == old(self)@.flows);
                TargetTurn { report, step: TargetStep::GiveUp }
            },
        }
    }

    /// Opens a flow for a source, unless it has got one in the meantime or there
    /// is no room. `bound` says whether a socket could be bound for it. What the
    /// rate limits reserved goes to the flow only if it is opened.
    pub fn build_or_lookup_flow(
        &mut self,
        quotas: &QuotaScopeManager,
        rule_quota: Option<QuotaHandle>,
        key: FlowKey,
        addrs: Vec<SocketAddr>,
        target_idx: Option<u32>,
        guards: Vec<u64>,
        bound: bool,
        now_nanos: u64,
    ) -> (built: BuiltFlow)
        requires
            old(self).wf(*quotas),
            super::listener::rule_funded(rule_quota, *quotas),
            addrs@.len() > 0,
            old(self)@.slots.dom().len() < usize::MAX - 1,
            old(self)@.next_flow < u64::MAX,
        ensures
            final(self).wf(*quotas),
            ({
                let before = old(self)@;
                let after = final(self)@;
                if !bound {
                    after == before && built == BuiltFlow::Nowhere
                } else if before.live(key) is Some {
                    after =~= before && built == BuiltFlow::Existing(before.live(key)->0)
                } else if before.slots.contains_key(key) || before.slots.dom().len()
                    >= before.cap {
                    after =~= before.overflowed() && built == BuiltFlow::Nowhere
                } else {
                    &&& after =~= before.opened(
                        key,
                        new_flow_view(key.src, addrs@, target_idx, rule_quota, guards@, now_nanos),
                    )
                    &&& built == BuiltFlow::Opened(FlowId(before.next_flow))
                }
            }),
    {
        if !bound {
            return BuiltFlow::Nowhere;
        }
        match self.registry.try_get_or_reserve(key) {
            TryGetOrReserve::Existing(id) => {
                assert(self@ =~= old(self)@);
                BuiltFlow::Existing(id)
            },
            TryGetOrReserve::CapExhausted => {
                self.stats.inc_flow_dropped_overflow();
                assert(self@.flows == old(self)@.flows);
                BuiltFlow::Nowhere
            },
            TryGetOrReserve::Reserved(reservation) => {
                let mut flow = match target_idx {
                    Some(idx) => UdpFlow::new_multi_target(key.src, addrs, idx, now_nanos),
                    None => UdpFlow::new(key.src, addrs, now_nanos),
                };
                if let Some(q) = rule_quota {
                    flow.attach_quota(q);
                }
                flow.attach_admit_guards(guards);
                assert(flow@ =~= new_flow_view(
                    key.src,
                    addrs@,
                    target_idx,
                    rule_quota,
                    guards@,
                    now_nanos,
                ));
                let id = self.flows.open(flow);
                self.registry.commit(reservation, id);
                assert(self@.flows == old(self)@.flows.insert(id, flow@));
                assert(self@.slots =~= super::registry::after_commit(old(self)@.slots, key, id));
                BuiltFlow::Opened(id)
            },
        }
    }

    /// Whether a reply that came in on a flow is sent on: not once its quota is
    /// used up. The flow stays open.
    pub fn reply_received(&self, quotas: &QuotaScopeManager, id: FlowId) -> (send: bool)
        requires
            self.wf(*quotas),
            self@.flows.contains_key(id),
        ensures
            send == self@.flows[id].quota_allows(*quotas),
    {
        match self.flows.get(id) {
            Some(flow) => flow.quota_allows(quotas),
            None => false,
        }
    }

    /// A reply of `n` bytes was sent to the client, or it could not be. Where it
    /// was, the target of the flow is to be credited with its bytes, if it has
    /// one.
    pub fn reply_sent(
        &mut self,
        quotas: &mut QuotaScopeManager,
        key: FlowKey,
        id: FlowId,
        n: u64,
        sent: bool,
        now_nanos: u64,
    )
        requires
            old(self).wf(*old(quotas)),
            old(self)@.flows.contains_key(id),
        ensures
            final(self).wf(*final(quotas)),
            final(quotas).users() == old(quotas).users(),
            if sent {
                &&& final(self)@ =~= old(self)@.booked_out(id, key.listen_port, n, now_nanos)
                &&& final(quotas).states() =~= old(self)@.flows[id].drawn(
                    old(quotas).states(),
                    n,
                )
            } else {
                &&& final(self)@ == old(self)@
                &&& final(quotas).states() == old(quotas).states()
            },
    {
        if sent {
            self.book_out(quotas, id, key.listen_port, n, now_nanos);
            if let Some(flow) = self.flows.get(id) {
                flow.quota_consume_after_send(quotas, n);
            }
        }
    }

    /// The listener stops: the gauge shows the flows that were left, and they
    /// are ended.
    pub fn finish_listener(&mut self, quotas: &QuotaScopeManager)
        requires
            old(self).wf(*quotas),
        ensures
            final(self).wf(*quotas),
            final(self)@ =~= old(self)@.regauged().all_ended(),
    {
        self.regauge(quotas);
        self.end_all(quotas);
    }
}

/// A flow sticks to its target: nothing that happens to a flow once it is open
/// changes the target, the source or the list of addresses.
pub proof fn law_a_flow_sticks_to_its_target(rule: RuleView, id: FlowId, port: u16, n: u64, now: u64)
    requires
        rule.flows.contains_key(id),
    ensures
        forall|after: RuleView|
            #![trigger after.flows[id]]
            after == rule.booked_in(id, port, n, now) || after == rule.booked_out(id, port, n, now)
                || after == rule.address_failed(id) || after == rule.all_ended() || after
                == rule.regauged() ==> {
                &&& after.flows[id].target_idx == rule.flows[id].target_idx
                &&& after.flows[id].source_addr == rule.flows[id].source_addr
                &&& after.flows[id].upstream_addrs == rule.flows[id].upstream_addrs
            },
{
}

/// A datagram that fails at every address of its flow is lost after as many
/// tries as there are addresses left, and counts as one failure.
pub proof fn law_relay_tries_each_address_once(rule: RuleView, id: FlowId, k: nat)
    requires
        rule.flows.contains_key(id),
        rule.flows[id].wf(),
        rule.flows[id].upstream_addrs.len() <= usize::MAX,
        rule.flows[id].current_addr_idx + k < rule.flows[id].upstream_addrs.len(),
    ensures
        ({
            let after = addresses_failed(rule, id, k);
            &&& after.flows[id].current_addr_idx == rule.flows[id].current_addr_idx + k
            &&& after.flows[id].upstream_addrs == rule.flows[id].upstream_addrs
            &&& after.stats == rule.stats
            &&& rule.flows[id].current_addr_idx + k + 1 == rule.flows[id].upstream_addrs.len()
                ==> after.address_failed(id).stats == rule.dns_failed().stats
        }),
    decreases k,
{
    if k > 0 {
        law_relay_tries_each_address_once(rule, id, (k - 1) as nat);
    }
}

/// After a datagram failed at so many addresses in a row.
pub open spec fn addresses_failed(rule: RuleView, id: FlowId, k: nat) -> RuleView
    decreases k,
{
    if k == 0 {
        rule
    } else {
        addresses_failed(rule, id, (k - 1) as nat).address_failed(id)
    }
}

} // verus!

//! What a UDP listener does with the datagrams of its port.
//!
//! A datagram of a known source goes straight to its flow. One of a new source
//! has to pass, in this order: the quota, the cap on flows, the rate limits of
//! the owner and of the rule, name resolution, and the connection to the
//! upstream. Only then is it sent.

use vstd::prelude::*;

use super::error::UdpAction;
use super::flow::{FlowView, UdpFlow};
use super::registry::{FlowId, FlowKey, Reservation, Slot, TryGetOrReserve};
use super::rule::{RuleView, UdpRule};
use crate::addr::SocketAddr;
use crate::quota::scope::{QuotaHandle, QuotaScopeManager};
use crate::quota::QuotaState;
use crate::rate_limit::gate::LayeredAcquire;
use crate::rate_limit::stats::RateLimitStatsAccumulator;
use crate::stats::{ErrorCounters, RuleStatsView};

verus! {

/// How many datagrams are taken one by one before the listener looks up.
pub const UDP_DRAIN_PER_WAKE: usize = 32;

/// A flow that is being set up.
pub struct ColdFlow {
    reservation: Reservation,
    len: u64,
    guards: Vec<u64>,
    addrs: Vec<SocketAddr>,
    tried: usize,
}

/// What is to be done with a datagram.
pub enum DatagramAction {
    /// Nothing; it is lost.
    Drop,
    /// Send it now, and report to [`UdpRule::fast_sent`].
    Send { flow: FlowId },
    /// Send it when the socket is ready, and report to
    /// [`UdpRule::waiting_sent`].
    SendWaiting { flow: FlowId },
    /// Set up a flow for it.
    Open(ColdFlow),
}

impl ColdFlow {
    /// Whose flow it is.
    pub closed spec fn spec_key(&self) -> FlowKey {
        self.reservation.spec_key()
    }

    /// The size of the datagram that is waiting.
    pub closed spec fn spec_len(&self) -> u64 {
        self.len
    }

    /// What was reserved for the flow with the rate limits.
    pub closed spec fn spec_guards(&self) -> Seq<u64> {
        self.guards@
    }

    /// The addresses of the upstream.
    pub closed spec fn spec_addrs(&self) -> Seq<SocketAddr> {
        self.addrs@
    }

    /// How many of the addresses were tried in vain.
    pub closed spec fn spec_tried(&self) -> nat {
        self.tried as nat
    }

    pub fn key(&self) -> (key: FlowKey)
        ensures
            key == self.spec_key(),
    {
        self.reservation.key()
    }
}

/// The quota of a rule, if it has one, was given out by `quotas`.
pub open spec fn rule_funded(quota: Option<QuotaHandle>, quotas: QuotaScopeManager) -> bool {
    &&& quotas.wf()
    &&& quota matches Some(q) ==> quotas.issued(q)
}

/// The quota of a rule is used up.
pub open spec fn rule_exhausted(quota: Option<QuotaHandle>, quotas: QuotaScopeManager) -> bool {
    quota matches Some(q) && quotas.state_of(q).exhausted
}

impl RuleView {
    /// The live flow of a key.
    pub open spec fn live(self, key: FlowKey) -> Option<FlowId> {
        match self.slots.get(key) {
            Some(Slot::Live(id)) => Some(id),
            _ => None,
        }
    }

    /// After a datagram met a flow that is still being set up.
    pub open spec fn pending_dropped(self) -> RuleView {
        let errors = self.stats.errors;
        self.with_errors(
            ErrorCounters {
                flows_pending_drops: errors.flows_pending_drops.wrapping_add(1),
                ..errors
            },
        )
    }

    /// After a new source found no room.
    pub open spec fn overflowed(self) -> RuleView {
        RuleView {
            dropped_overflow: self.dropped_overflow.wrapping_add(1),
            stats: RuleStatsView {
                flows_dropped_overflow: self.stats.flows_dropped_overflow.wrapping_add(1),
                ..self.stats
            },
            ..self
        }
    }

    /// After a send on an existing flow. `None` is success.
    pub open spec fn after_send(
        self,
        key: FlowKey,
        id: FlowId,
        n: u64,
        failure: Option<UdpAction>,
        now: u64,
    ) -> RuleView {
        match failure {
            None => self.booked_in(id, key.listen_port, n, now),
            Some(UdpAction::Evict) => self.evicted(key, id),
            Some(UdpAction::MessageTooLarge) => self.oversized(),
            Some(_) => self,
        }
    }
}

impl UdpRule {
    /// Decides what becomes of a datagram of `n` bytes.
    pub fn handle_datagram(
        &mut self,
        quotas: &QuotaScopeManager,
        rule_quota: Option<QuotaHandle>,
        key: FlowKey,
        n: u64,
    ) -> (action: DatagramAction)
        requires
            old(self).wf(*quotas),
            rule_funded(rule_quota, *quotas),
        ensures
            final(self).wf(*quotas),
            ({
                let before = old(self)@;
                let after = final(self)@;
                let live = before.live(key);
                if live is Some && !before.flows[live->0].cancelled {
                    &&& after =~= before
                    &&& action == (if before.flows[live->0].quota_allows(*quotas) {
                        DatagramAction::Send { flow: live->0 }
                    } else {
                        DatagramAction::Drop
                    })
                } else if rule_exhausted(rule_quota, *quotas) {
                    &&& after =~= before
                    &&& action == DatagramAction::Drop
                } else if live is Some {
                    &&& after =~= before
                    &&& action == (if before.flows[live->0].quota_allows(*quotas) {
                        DatagramAction::SendWaiting { flow: live->0 }
                    } else {
                        DatagramAction::Drop
                    })
                } else if before.slots.contains_key(key) {
                    &&& after =~= before.pending_dropped()
                    &&& action == DatagramAction::Drop
                } else if before.slots.dom().len() >= before.cap {
                    &&& after =~= before.overflowed()
                    &&& action == DatagramAction::Drop
                } else {
                    &&& after =~= (RuleView {
                        slots: before.slots.insert(key, Slot::Pending),
                        ..before
                    })
                    &&& action matches DatagramAction::Open(cold)
                    &&& cold.spec_key() == key
                    &&& cold.spec_len() == n
                    &&& cold.spec_guards() == Seq::<u64>::empty()
                    &&& cold.spec_addrs() == Seq::<SocketAddr>::empty()
                    &&& cold.spec_tried() == 0
                }
            }),
    {
        if let Some(id) = self.registry.get(key) {
            if let Some(flow) = self.flows.get(id) {
                if !flow.is_cancelled() {
                    if !flow.quota_allows(quotas) {
                        return DatagramAction::Drop;
                    }
                    return DatagramAction::Send { flow: id };
                }
            }
        }
        if let Some(q) = rule_quota {
            if quotas.is_exhausted(q) {
                return DatagramAction::Drop;
            }
        }
        if let Some(Slot::Pending) = self.registry.slot(key) {
            self.stats.errors.inc_flows_pending_drops();
            return DatagramAction::Drop;
        }
        match self.registry.try_get_or_reserve(key) {
            TryGetOrReserve::Existing(id) => {
                if let Some(flow) = self.flows.get(id) {
                    if flow.quota_allows(quotas) {
                        return DatagramAction::SendWaiting { flow: id };
                    }
                }
                DatagramAction::Drop
            },
            TryGetOrReserve::Reserved(reservation) => {
                DatagramAction::Open(
                    ColdFlow {
                        reservation,
                        len: n,
                        guards: Vec::new(),
                        addrs: Vec::new(),
                        tried: 0,
                    },
                )
            },
            TryGetOrReserve::CapExhausted => {
                self.stats.inc_flow_dropped_overflow();
                DatagramAction::Drop
            },
        }
    }

    /// The live flow of a key, unless it is over.
    fn usable_flow(&self, key: FlowKey) -> (id: Option<FlowId>)
        requires
            self.registry.wf(),
        ensures
            id == (match self@.live(key) {
                Some(id) if self@.flows.contains_key(id) && !self@.flows[id].cancelled => Some(id),
                _ => None,
            }),
    {
        if let Some(id) = self.registry.get(key) {
            if let Some(flow) = self.flows.get(id) {
                if !flow.is_cancelled() {
                    return Some(id);
                }
            }
        }
        None
    }

    /// Books a datagram of `n` bytes that was sent: with the flow, with the rule
    /// and with the quota. Returns the target that is to be credited with it,
    /// if any.
    fn book_sent(
        &mut self,
        quotas: &mut QuotaScopeManager,
        key: FlowKey,
        id: FlowId,
        n: u64,
        now_nanos: u64,
    ) -> (target: Option<u32>)
        requires
            old(self).wf(*old(quotas)),
            old(self)@.flows.contains_key(id),
        ensures
            final(self).wf(*final(quotas)),
            final(self)@ =~= old(self)@.booked_in(id, key.listen_port, n, now_nanos),
            final(quotas).users() == old(quotas).users(),
            final(quotas).states() =~= old(self)@.flows[id].drawn(old(quotas).states(), n),
            target == old(self)@.flows[id].target_idx,
    {
        let target = self.book_in(quotas, id, key.listen_port, n, now_nanos);
        if let Some(flow) = self.flows.get(id) {
            flow.quota_consume_after_send(quotas, n);
        }
        target
    }

    /// A datagram of `n` bytes was sent on an existing flow, or the send failed.
    /// Returns the target that is to be credited with it, if any.
    pub fn fast_sent(
        &mut self,
        quotas: &mut QuotaScopeManager,
        key: FlowKey,
        id: FlowId,
        n: u64,
        failure: Option<UdpAction>,
        now_nanos: u64,
    ) -> (target: Option<u32>)
        requires
            old(self).wf(*old(quotas)),
            old(self)@.flows.contains_key(id),
        ensures
            final(self).wf(*final(quotas)),
            final(self)@ =~= old(self)@.after_send(key, id, n, failure, now_nanos),
            final(quotas).users() == old(quotas).users(),
            final(quotas).states() =~= (if failure is None {
                old(self)@.flows[id].drawn(old(quotas).states(), n)
            } else {
                old(quotas).states()
            }),
            target == (if failure is None {
                old(self)@.flows[id].target_idx
            } else {
                None
            }),
    {
        match failure {
            None => self.book_sent(quotas, key, id, n, now_nanos),
            Some(UdpAction::Evict) => {
                self.evict(quotas, key, id);
                None
            },
            Some(UdpAction::MessageTooLarge) => {
                self.stats.errors.inc_emsgsize();
                None
            },
            Some(_) => None,
        }
    }

    /// A datagram of `n` bytes was sent on a flow that somebody else set up, or
    /// one by one after a batch was not accepted, or the send failed. A failure
    /// is left to the next datagram to find.
    pub fn waiting_sent(
        &mut self,
        quotas: &mut QuotaScopeManager,
        key: FlowKey,
        id: FlowId,
        n: u64,
        sent: bool,
        now_nanos: u64,
    ) -> (target: Option<u32>)
        requires
            old(self).wf(*old(quotas)),
            old(self)@.flows.contains_key(id),
        ensures
            final(self).wf(*final(quotas)),
            final(quotas).users() == old(quotas).users(),
            if sent {
                &&& final(self)@ =~= old(self)@.booked_in(id, key.listen_port, n, now_nanos)
                &&& final(quotas).states() =~= old(self)@.flows[id].drawn(old(quotas).states(), n)
                &&& target == old(self)@.flows[id].target_idx
            } else {
                &&& final(self)@ == old(self)@
                &&& final(quotas).states() == old(quotas).states()
                &&& target is None
            },
    {
        if sent {
            self.book_sent(quotas, key, id, n, now_nanos)
        } else {
            None
        }
    }
}

/// Datagrams of one flow that came in one after the other and go out together.
#[derive(Debug)]
pub struct PendingRun {
    pub flow: FlowId,
    pub key: FlowKey,
    /// Their places in the batch.
    pub indices: Vec<usize>,
    /// Their sizes.
    pub sizes: Vec<u64>,
}

/// A run as a mathematical value.
#[verifier::ext_equal]
pub struct RunView {
    pub flow: FlowId,
    pub key: FlowKey,
    pub indices: Seq<usize>,
    pub sizes: Seq<u64>,
}

impl View for PendingRun {
    type V = RunView;

    open spec fn view(&self) -> RunView {
        RunView {
            flow: self.flow,
            key: self.key,
            indices: self.indices@,
            sizes: self.sizes@,
        }
    }
}

impl RunView {
    /// The run is not empty, and its datagrams are in the order in which they
    /// came in, all before place `end`.
    pub open spec fn wf(self, end: int) -> bool {
        &&& self.indices.len() == self.sizes.len()
        &&& self.indices.len() > 0
        &&& forall|i: int| 0 <= i < self.indices.len() ==> #[trigger] self.indices[i] < end
        &&& forall|i: int, j: int|
            0 <= i < j < self.indices.len() ==> #[trigger] self.indices[i]
                < #[trigger] self.indices[j]
    }

    /// The run with one more datagram.
    pub open spec fn extended(self, index: usize, n: u64) -> RunView {
        RunView { indices: self.indices.push(index), sizes: self.sizes.push(n), ..self }
    }
}

pub open spec fn run_view(run: Option<PendingRun>) -> Option<RunView> {
    match run {
        Some(run) => Some(run@),
        None => None,
    }
}

/// A batch of datagrams on its way through the listener.
#[derive(Debug)]
pub struct BatchState {
    /// The run that is being collected.
    pub pending: Option<PendingRun>,
    /// The place of the next datagram.
    pub next: usize,
}

/// What is to be done with one datagram of a batch: first send `flush`, if there
/// is a run to send, then hand the datagram to
/// [`UdpRule::handle_datagram`] if it is `cold`.
#[derive(Debug)]
pub struct BatchStep {
    pub flush: Option<PendingRun>,
    pub cold: bool,
}

impl BatchState {
    pub open spec fn wf(&self) -> bool {
        self.pending matches Some(run) ==> run@.wf(self.next as int)
    }

    pub fn new() -> (batch: BatchState)
        ensures
            batch.wf(),
            batch.pending is None,
            batch.next == 0,
    {
        BatchState { pending: None, next: 0 }
    }

    /// Sorts the next datagram of the batch, of `n` bytes. The bytes of one that
    /// joins a run are drawn at once; one that the quota does not cover is lost.
    pub fn process(
        &mut self,
        rule: &UdpRule,
        quotas: &mut QuotaScopeManager,
        key: FlowKey,
        n: u64,
    ) -> (step: BatchStep)
        requires
            old(self).wf(),
            old(self).next < usize::MAX,
            rule.wf(*old(quotas)),
        ensures
            final(self).wf(),
            final(self).next == old(self).next + 1,
            rule.wf(*final(quotas)),
            final(quotas).users() == old(quotas).users(),
            step.flush matches Some(run) ==> run@.wf(old(self).next as int),
            ({
                let live = rule@.live(key);
                let flow = rule@.flows[live->0];
                let before = run_view(old(self).pending);
                let after = run_view(final(self).pending);
                let flushed = run_view(step.flush);
                let fresh = RunView {
                    flow: live->0,
                    key,
                    indices: seq![old(self).next],
                    sizes: seq![n],
                };
                if live is None || flow.cancelled {
                    &&& flushed == before
                    &&& after is None
                    &&& step.cold
                    &&& final(quotas).states() == old(quotas).states()
                } else {
                    &&& !step.cold
                    &&& final(quotas).states() =~= flow.drawn(old(quotas).states(), n)
                    &&& if !flow.quota_covers(*old(quotas), n) {
                        &&& flushed is None
                        &&& after == before
                    } else if before is Some && before->0.flow == live->0 {
                        &&& flushed is None
                        &&& after matches Some(run) && run =~= before->0.extended(old(self).next, n)
                    } else {
                        &&& flushed == before
                        &&& after matches Some(run) && run =~= fresh
                    }
                }
            }),
    {
        let index: usize = self.next;
        self.next = self.next + 1;
        let live = rule.usable_flow(key);
        match live {
            None => BatchStep { flush: self.pending.take(), cold: true },
            Some(id) => {
                let mut covered = false;
                if let Some(flow) = rule.flows.get(id) {
                    covered = flow.quota_try_consume(quotas, n);
                }
                if !covered {
                    return BatchStep { flush: None, cold: false };
                }
                match self.pending.take() {
                    Some(mut run) => {
                        if run.flow == id {
                            run.indices.push(index);
                            run.sizes.push(n);
                            self.pending = Some(run);
                            BatchStep { flush: None, cold: false }
                        } else {
                            self.pending = Some(
                                PendingRun { flow: id, key, indices: vec![index], sizes: vec![n] },
                            );
                            BatchStep { flush: Some(run), cold: false }
                        }
                    },
                    None => {
                        self.pending = Some(
                            PendingRun { flow: id, key, indices: vec![index], sizes: vec![n] },
                        );
                        BatchStep { flush: None, cold: false }
                    },
                }
            },
        }
    }

    /// The batch is at its end: the run that is left is to be sent.
    pub fn finish(&mut self) -> (flush: Option<PendingRun>)
        requires
            old(self).wf(),
        ensures
            final(self).wf(),
            final(self).pending is None,
            final(self).next == old(self).next,
            flush == old(self).pending,
            flush matches Some(run) ==> run@.wf(old(self).next as int),
    {
        self.pending.take()
    }
}

/// How sending a run ended.
#[derive(Clone, Copy, Debug, PartialEq, Eq, Structural)]
pub enum RunOutcome {
    /// That many datagrams were accepted, the first ones of the run.
    Sent(usize),
    /// The socket was not ready for any.
    WouldBlock,
    /// None was accepted, for this reason.
    Failed(UdpAction),
}

/// What is to be done after a run was sent.
#[derive(Clone, Copy, Debug, PartialEq, Eq, Structural)]
pub enum FlushNext {
    /// Nothing.
    Done,
    /// Some datagrams were not accepted. Send the one at this place of the run
    /// by itself to learn why, and report to [`UdpRule::fast_sent`]; the others
    /// are lost.
    Probe { at: usize },
    /// Send the datagrams one by one, and report each to
    /// [`UdpRule::waiting_sent`].
    SendSingly,
}

impl RuleView {
    /// After datagrams of these sizes went upstream, one after the other.
    pub open spec fn booked_all(
        self,
        id: FlowId,
        port: u16,
        sizes: Seq<u64>,
        now: u64,
    ) -> RuleView
        decreases sizes.len(),
    {
        if sizes.len() == 0 {
            self
        } else {
            self.booked_all(id, port, sizes.drop_last(), now).booked_in(id, port, sizes.last(), now)
        }
    }
}

impl FlowView {
    /// What is left of all quotas after the bytes of datagrams of these sizes
    /// were drawn for the flow.
    pub open spec fn drawn_all(self, states: Seq<QuotaState>, sizes: Seq<u64>) -> Seq<QuotaState>
        decreases sizes.len(),
    {
        if sizes.len() == 0 {
            states
        } else {
            self.drawn(self.drawn_all(states, sizes.drop_last()), sizes.last())
        }
    }

    /// What is left of all quotas after the bytes of datagrams of these sizes
    /// were given back for the flow.
    pub open spec fn refunded_all(self, states: Seq<QuotaState>, sizes: Seq<u64>) -> Seq<QuotaState>
        decreases sizes.len(),
    {
        if sizes.len() == 0 {
            states
        } else {
            self.refunded(self.refunded_all(states, sizes.drop_last()), sizes.last())
        }
    }
}

proof fn lemma_booked_all_keeps(view: RuleView, id: FlowId, port: u16, sizes: Seq<u64>, now: u64)
    requires
        view.flows.contains_key(id),
    ensures
        ({
            let after = view.booked_all(id, port, sizes, now);
            &&& after.flows.dom() =~= view.flows.dom()
            &&& after.flows[id].quota == view.flows[id].quota
            &&& after.flows[id].wf() == view.flows[id].wf()
            &&& forall|other: FlowId| other != id ==> #[trigger] after.flows[other]
                == view.flows[other]
            &&& after.slots == view.slots
        }),
    decreases sizes.len(),
{
    if sizes.len() > 0 {
        lemma_booked_all_keeps(view, id, port, sizes.drop_last(), now);
    }
}

proof fn lemma_refund_by_quota(a: FlowView, b: FlowView, states: Seq<QuotaState>, sizes: Seq<u64>)
    requires
        a.quota == b.quota,
    ensures
        a.refunded_all(states, sizes) == b.refunded_all(states, sizes),
    decreases sizes.len(),
{
    if sizes.len() > 0 {
        lemma_refund_by_quota(a, b, states, sizes.drop_last());
    }
}

impl UdpRule {
    /// Books what became of a run. The bytes of the run were drawn before; those
    /// of the datagrams that were not accepted are given back.
    pub fn flush_run(
        &mut self,
        quotas: &mut QuotaScopeManager,
        run: &PendingRun,
        outcome: RunOutcome,
        now_nanos: u64,
    ) -> (next: FlushNext)
        requires
            old(self).wf(*old(quotas)),
            old(self)@.flows.contains_key(run.flow),
            outcome matches RunOutcome::Sent(sent) ==> sent <= run@.sizes.len(),
        ensures
            final(self).wf(*final(quotas)),
            final(quotas).users() == old(quotas).users(),
            ({
                let id = run.flow;
                let port = run.key.listen_port;
                let sizes = run@.sizes;
                let flow = old(self)@.flows[id];
                match outcome {
                    RunOutcome::Sent(sent) => {
                        &&& final(self)@ =~= old(self)@.booked_all(
                            id,
                            port,
                            sizes.take(sent as int),
                            now_nanos,
                        )
                        &&& final(quotas).states() =~= flow.refunded_all(
                            old(quotas).states(),
                            sizes.skip(sent as int),
                        )
                        &&& next == (if sent < sizes.len() {
                            FlushNext::Probe { at: sent }
                        } else {
                            FlushNext::Done
                        })
                    },
                    RunOutcome::WouldBlock => {
                        &&& final(self)@ == old(self)@
                        &&& final(quotas).states() =~= flow.refunded_all(
                            old(quotas).states(),
                            sizes,
                        )
                        &&& next == FlushNext::SendSingly
                    },
                    RunOutcome::Failed(action) => {
                        &&& final(self)@ =~= old(self)@.after_send(
                            run.key,
                            id,
                            0,
                            Some(action),
                            now_nanos,
                        )
                        &&& final(quotas).states() =~= flow.refunded_all(
                            old(quotas).states(),
                            sizes,
                        )
                        &&& next == FlushNext::Done
                    },
                }
            }),
    {
        match outcome {
            RunOutcome::Sent(sent) => {
                self.book_run(quotas, run, sent, now_nanos);
                proof {
                    lemma_booked_all_keeps(
                        old(self)@,
                        run.flow,
                        run.key.listen_port,
                        run@.sizes.take(sent as int),
                        now_nanos,
                    );
                    lemma_refund_by_quota(
                        old(self)@.flows[run.flow],
                        self@.flows[run.flow],
                        quotas.states(),
                        run@.sizes.skip(sent as int),
                    );
                }
                self.refund_run(quotas, run, sent);
                if sent < run.sizes.len() {
                    FlushNext::Probe { at: sent }
                } else {
                    FlushNext::Done
                }
            },
            RunOutcome::WouldBlock => {
                self.refund_run(quotas, run, 0);
                assert(run@.sizes.skip(0) =~= run@.sizes);
                FlushNext::SendSingly
            },
            RunOutcome::Failed(action) => {
                self.refund_run(quotas, run, 0);
                assert(run@.sizes.skip(0) =~= run@.sizes);
                self.fast_sent(quotas, run.key, run.flow, 0, Some(action), now_nanos);
                FlushNext::Done
            },
        }
    }

    /// Books the first `sent` datagrams of a run.
    fn book_run(
        &mut self,
        quotas: &QuotaScopeManager,
        run: &PendingRun,
        sent: usize,
        now_nanos: u64,
    )
        requires
            old(self).wf(*quotas),
            old(self)@.flows.contains_key(run.flow),
            sent <= run@.sizes.len(),
        ensures
            final(self).wf(*quotas),
            final(self)@ =~= old(self)@.booked_all(
                run.flow,
                run.key.listen_port,
                run@.sizes.take(sent as int),
                now_nanos,
            ),
    {
        let mut i: usize = 0;
        while i < sent
            invariant
                i <= sent <= run@.sizes.len(),
                self.wf(*quotas),
                self@.flows.contains_key(run.flow),
                self@ =~= old(self)@.booked_all(
                    run.flow,
                    run.key.listen_port,
                    run@.sizes.take(i as int),
                    now_nanos,
                ),
            decreases sent - i,
        {
            self.book_in(quotas, run.flow, run.key.listen_port, run.sizes[i], now_nanos);
            i = i + 1;
            assert(run@.sizes.take(i as int).drop_last() =~= run@.sizes.take(i - 1));
        }
    }

    /// Gives back the bytes of the datagrams of a run from place `from` on.
    fn refund_run(&self, quotas: &mut QuotaScopeManager, run: &PendingRun, from: usize)
        requires
            self.wf(*old(quotas)),
            self@.flows.contains_key(run.flow),
            from <= run@.sizes.len(),
        ensures
            self.wf(*final(quotas)),
            final(quotas).users() == old(quotas).users(),
            final(quotas).states() =~= self@.flows[run.flow].refunded_all(
                old(quotas).states(),
                run@.sizes.skip(from as int),
            ),
    {
        let mut i: usize = from;
        assert(run@.sizes.subrange(from as int, from as int) =~= Seq::<u64>::empty());
        while i < run.sizes.len()
            invariant
                from <= i <= run.sizes.len(),
                self.wf(*quotas),
                self@.flows.contains_key(run.flow),
                quotas.users() == old(quotas).users(),
                quotas.states() =~= self@.flows[run.flow].refunded_all(
                    old(quotas).states(),
                    run@.sizes.subrange(from as int, i as int),
                ),
            decreases run.sizes.len() - i,
        {
            if let Some(flow) = self.flows.get(run.flow) {
                flow.quota_restore(quotas, run.sizes[i]);
            }
            i = i + 1;
            assert(run@.sizes.subrange(from as int, i as int).drop_last()
                =~= run@.sizes.subrange(from as int, i - 1));
        }
        assert(run@.sizes.subrange(from as int, i as int) =~= run@.sizes.skip(from as int));
    }
}

/// The bytes of datagrams of these sizes, as a quota counts them.
pub open spec fn byte_sum(sizes: Seq<u64>) -> int
    decreases sizes.len(),
{
    if sizes.len() == 0 {
        0
    } else {
        byte_sum(sizes.drop_last()) + crate::quota::quota_bytes(sizes.last() as nat)
    }
}

proof fn lemma_byte_sum_split(sizes: Seq<u64>, at: int)
    requires
        0 <= at <= sizes.len(),
    ensures
        byte_sum(sizes) == byte_sum(sizes.take(at)) + byte_sum(sizes.skip(at)),
        byte_sum(sizes.skip(at)) >= 0,
        byte_sum(sizes.take(at)) >= 0,
    decreases sizes.len(),
{
    if sizes.len() == 0 {
        assert(sizes.take(at) =~= sizes);
        assert(sizes.skip(at) =~= sizes);
    } else if at == sizes.len() {
        assert(sizes.take(at) =~= sizes);
        assert(sizes.skip(at) =~= Seq::<u64>::empty());
        lemma_byte_sum_split(sizes.drop_last(), at - 1);
        assert(sizes.drop_last().take(at - 1) =~= sizes.drop_last());
    } else {
        lemma_byte_sum_split(sizes.drop_last(), at);
        assert(sizes.drop_last().take(at) =~= sizes.take(at));
        assert(sizes.drop_last().skip(at) =~= sizes.skip(at).drop_last());
    }
}

/// The quotas after one of them had its budget changed to `budget`.
spec fn with_budget(states: Seq<QuotaState>, id: int, budget: int) -> Seq<QuotaState> {
    states.update(id, QuotaState { budget_remaining_bytes: budget as i64, ..states[id] })
}

proof fn lemma_drawn_all(
    flow: FlowView,
    quota: QuotaHandle,
    states: Seq<QuotaState>,
    sizes: Seq<u64>,
)
    requires
        flow.quota == Some(quota),
        0 <= quota.id() < states.len(),
        !states[quota.id()].exhausted,
        byte_sum(sizes) <= states[quota.id()].budget_remaining_bytes,
    ensures
        flow.drawn_all(states, sizes) =~= with_budget(
            states,
            quota.id(),
            states[quota.id()].budget_remaining_bytes - byte_sum(sizes),
        ),
        byte_sum(sizes) >= 0,
    decreases sizes.len(),
{
    if sizes.len() > 0 {
        lemma_drawn_all(flow, quota, states, sizes.drop_last());
    }
}

proof fn lemma_refunded_all(
    flow: FlowView,
    quota: QuotaHandle,
    states: Seq<QuotaState>,
    sizes: Seq<u64>,
)
    requires
        flow.quota == Some(quota),
        0 <= quota.id() < states.len(),
        states[quota.id()].budget_remaining_bytes + byte_sum(sizes) <= i64::MAX,
    ensures
        flow.refunded_all(states, sizes) =~= with_budget(
            states,
            quota.id(),
            states[quota.id()].budget_remaining_bytes + byte_sum(sizes),
        ),
        byte_sum(sizes) >= 0,
    decreases sizes.len(),
{
    if sizes.len() > 0 {
        lemma_byte_sum_split(sizes, sizes.len() - 1);
        assert(sizes.take(sizes.len() - 1) =~= sizes.drop_last());
        lemma_refunded_all(flow, quota, states, sizes.drop_last());
    }
}

/// A run whose bytes were all covered costs the quota exactly the bytes of the
/// datagrams that were accepted.
pub proof fn law_run_costs_what_was_accepted(
    flow: FlowView,
    quota: QuotaHandle,
    states: Seq<QuotaState>,
    sizes: Seq<u64>,
    sent: int,
)
    requires
        flow.quota == Some(quota),
        0 <= quota.id() < states.len(),
        !states[quota.id()].exhausted,
        byte_sum(sizes) <= states[quota.id()].budget_remaining_bytes,
        0 <= sent <= sizes.len(),
    ensures
        flow.refunded_all(flow.drawn_all(states, sizes), sizes.skip(sent)) =~= flow.drawn_all(
            states,
            sizes.take(sent),
        ),
{
    lemma_byte_sum_split(sizes, sent);
    lemma_drawn_all(flow, quota, states, sizes);
    lemma_drawn_all(flow, quota, states, sizes.take(sent));
    lemma_refunded_all(flow, quota, flow.drawn_all(states, sizes), sizes.skip(sent));
}

/// How connecting to an upstream address ended.
#[derive(Clone, Copy, Debug, PartialEq, Eq, Structural)]
pub enum ConnectOutcome {
    Connected,
    /// No socket could be bound.
    BindFailed,
    /// The socket could not be connected.
    ConnectFailed,
}

/// What is to be done next to set up a flow.
pub enum ColdNext {
    /// Connect a new socket to this address, and report to
    /// [`UdpRule::cold_connected`].
    Connect(ColdFlow, SocketAddr),
    /// The flow is open. Hand it to the demultiplexer, and report to
    /// [`UdpRule::cold_handed_over`].
    HandOver { flow: FlowId },
    /// It was given up.
    Done,
}

/// The address to which a socket is bound that is to be connected to `addr`: any
/// address of the same family.
pub fn bind_addr_for(addr: SocketAddr) -> (bind: SocketAddr)
    ensures
        bind == (match addr {
            SocketAddr::V4 { .. } => SocketAddr::V4 { ip: 0, port: 0 },
            SocketAddr::V6 { .. } => SocketAddr::V6 { ip: 0, port: 0, flowinfo: 0, scope_id: 0 },
        }),
{
    match addr {
        SocketAddr::V4 { .. } => SocketAddr::V4 { ip: 0, port: 0 },
        SocketAddr::V6 { .. } => SocketAddr::V6 { ip: 0, port: 0, flowinfo: 0, scope_id: 0 },
    }
}

impl RuleView {
    /// After a flow that was being set up was given up.
    pub open spec fn released(self, key: FlowKey) -> RuleView {
        RuleView { slots: super::registry::after_release(self.slots, key), ..self }
    }

    /// After no upstream address was found or could be reached.
    pub open spec fn dns_failed(self) -> RuleView {
        RuleView {
            stats: RuleStatsView {
                dns_failures: self.stats.dns_failures.wrapping_add(1),
                ..self.stats
            },
            ..self
        }
    }

    /// After one address was tried in vain.
    pub open spec fn connect_failed(self, outcome: ConnectOutcome) -> RuleView {
        let errors = self.stats.errors;
        if outcome == ConnectOutcome::ConnectFailed {
            self.with_errors(
                ErrorCounters {
                    upstream_connect_failed: errors.upstream_connect_failed.wrapping_add(1),
                    ..errors
                },
            )
        } else {
            self
        }
    }

    /// After a flow was opened under the next number.
    pub open spec fn opened(self, key: FlowKey, flow: FlowView) -> RuleView {
        let id = FlowId(self.next_flow);
        RuleView {
            slots: super::registry::after_commit(self.slots, key, id),
            flows: self.flows.insert(id, flow),
            next_flow: (self.next_flow + 1) as u64,
            ..self
        }
    }

    /// After the demultiplexer did not take a flow.
    pub open spec fn not_handed_over(self, key: FlowKey, id: FlowId) -> RuleView {
        let errors = self.stats.errors;
        self.closed(key, id).with_errors(
            ErrorCounters { addflow_dropped: errors.addflow_dropped.wrapping_add(1), ..errors },
        )
    }

    /// After the first datagram of a flow was sent. `None` is success.
    pub open spec fn after_first_send(
        self,
        key: FlowKey,
        id: FlowId,
        n: u64,
        failure: Option<UdpAction>,
        now: u64,
    ) -> RuleView {
        match failure {
            None => self.booked_in(id, key.listen_port, n, now),
            Some(UdpAction::Evict) => self.evicted(key, id),
            Some(_) => self,
        }
    }
}

/// A flow as it is opened for `cold` to `addr`.
pub open spec fn cold_flow_view(
    cold: ColdFlow,
    addr: SocketAddr,
    quota: Option<QuotaHandle>,
    now: u64,
) -> FlowView {
    FlowView {
        quota,
        admit_guards: cold.spec_guards(),
        ..FlowView::opened(cold.spec_key().src, seq![addr], None, now)
    }
}

impl UdpRule {
    fn release(&mut self, quotas: &QuotaScopeManager, cold: ColdFlow)
        requires
            old(self).wf(*quotas),
        ensures
            final(self).wf(*quotas),
            final(self)@ =~= old(self)@.released(cold.spec_key()),
    {
        self.registry.release(cold.reservation);
        assert(self@.flows == old(self)@.flows);
    }

    /// The rate limits of the owner and of the rule were asked about a new flow.
    /// `guards` is what they reserved for it. `None` if it was refused.
    pub fn acquire_first_packet(
        &mut self,
        quotas: &QuotaScopeManager,
        cold: ColdFlow,
        outcome: LayeredAcquire,
        guards: Vec<u64>,
        owner_stats: &mut Option<RateLimitStatsAccumulator>,
        rule_stats: &mut Option<RateLimitStatsAccumulator>,
    ) -> (admitted: Option<ColdFlow>)
        requires
            old(self).wf(*quotas),
        ensures
            final(self).wf(*quotas),
            crate::rate_limit::copy::stats_view(*final(owner_stats))
                =~= crate::rate_limit::gate::reject_counted(
                crate::rate_limit::copy::stats_view(*old(owner_stats)),
                outcome.owner_refusal(),
            ),
            crate::rate_limit::copy::stats_view(*final(rule_stats))
                =~= crate::rate_limit::gate::reject_counted(
                crate::rate_limit::copy::stats_view(*old(rule_stats)),
                outcome.rule_refusal(),
            ),
            if outcome == LayeredAcquire::Granted {
                &&& final(self)@ == old(self)@
                &&& admitted matches Some(c)
                &&& c.spec_key() == cold.spec_key()
                &&& c.spec_len() == cold.spec_len()
                &&& c.spec_guards() == guards@
                &&& c.spec_addrs() == cold.spec_addrs()
                &&& c.spec_tried() == cold.spec_tried()
            } else {
                &&& final(self)@ =~= old(self)@.released(cold.spec_key())
                &&& admitted is None
            },
    {
        if outcome.settle(owner_stats, rule_stats) {
            let mut cold = cold;
            cold.guards = guards;
            Some(cold)
        } else {
            self.release(quotas, cold);
            None
        }
    }

    /// The upstream was resolved. `None` if that failed.
    pub fn cold_resolved(
        &mut self,
        quotas: &QuotaScopeManager,
        cold: ColdFlow,
        addrs: Option<Vec<SocketAddr>>,
    ) -> (next: ColdNext)
        requires
            old(self).wf(*quotas),
        ensures
            final(self).wf(*quotas),
            if addrs is Some && addrs->0@.len() > 0 {
                &&& final(self)@ == old(self)@
                &&& next matches ColdNext::Connect(c, addr)
                &&& addr == addrs->0@[0]
                &&& c.spec_key() == cold.spec_key()
                &&& c.spec_len() == cold.spec_len()
                &&& c.spec_guards() == cold.spec_guards()
                &&& c.spec_addrs() == addrs->0@
                &&& c.spec_tried() == 0
            } else {
                &&& final(self)@ =~= old(self)@.released(cold.spec_key()).dns_failed()
                &&& next is Done
            },
    {
        match addrs {
            Some(addrs) => {
                if addrs.len() > 0 {
                    let first = addrs[0];
                    let mut cold = cold;
                    cold.addrs = addrs;
                    cold.tried = 0;
                    return ColdNext::Connect(cold, first);
                }
            },
            None => {},
        }
        self.stats.inc_dns_failure();
        assert(self@.flows == old(self)@.flows);
        self.release(quotas, cold);
        ColdNext::Done
    }

    /// The address that is being tried was connected, or it could not be. The
    /// first that is connected is kept for as long as the flow lives.
    pub fn cold_connected(
        &mut self,
        quotas: &QuotaScopeManager,
        rule_quota: Option<QuotaHandle>,
        cold: ColdFlow,
        outcome: ConnectOutcome,
        now_nanos: u64,
    ) -> (next: ColdNext)
        requires
            old(self).wf(*quotas),
            rule_funded(rule_quota, *quotas),
            cold.spec_tried() < cold.spec_addrs().len(),
            old(self)@.slots.dom().len() < usize::MAX,
            old(self)@.next_flow < u64::MAX,
        ensures
            final(self).wf(*quotas),
            ({
                let before = old(self)@;
                let tried = before.connect_failed(outcome);
                let upnext = cold.spec_tried() + 1;
                if outcome == ConnectOutcome::Connected {
                    let addr = cold.spec_addrs()[cold.spec_tried() as int];
                    &&& final(self)@ =~= before.opened(
                        cold.spec_key(),
                        cold_flow_view(cold, addr, rule_quota, now_nanos),
                    )
                    &&& next == ColdNext::HandOver { flow: FlowId(before.next_flow) }
                } else if upnext < cold.spec_addrs().len() {
                    &&& final(self)@ =~= tried
                    &&& next matches ColdNext::Connect(c, addr)
                    &&& addr == cold.spec_addrs()[upnext as int]
                    &&& c.spec_key() == cold.spec_key()
                    &&& c.spec_len() == cold.spec_len()
                    &&& c.spec_guards() == cold.spec_guards()
                    &&& c.spec_addrs() == cold.spec_addrs()
                    &&& c.spec_tried() == upnext
                } else {
                    &&& final(self)@ =~= tried.released(cold.spec_key()).dns_failed()
                    &&& next is Done
                }
            }),
    {
        let addr = cold.addrs[cold.tried];
        match outcome {
            ConnectOutcome::Connected => {
                let key = cold.reservation.key();
                let mut flow = UdpFlow::new(key.src, vec![addr], now_nanos);
                if let Some(q) = rule_quota {
                    flow.attach_quota(q);
                }
                flow.attach_admit_guards(cold.guards);
                assert(flow@ =~= cold_flow_view(cold, addr, rule_quota, now_nanos));
                let id = self.flows.open(flow);
                self.registry.commit(cold.reservation, id);
                assert(self@.flows == old(self)@.flows.insert(id, flow@));
                return ColdNext::HandOver { flow: id };
            },
            ConnectOutcome::ConnectFailed => {
                self.stats.errors.inc_upstream_connect_failed();
            },
            ConnectOutcome::BindFailed => {},
        }
        assert(self@.flows == old(self)@.flows);
        if cold.tried < cold.addrs.len() - 1 {
            let mut cold = cold;
            cold.tried = cold.tried + 1;
            let addr = cold.addrs[cold.tried];
            ColdNext::Connect(cold, addr)
        } else {
            self.release(quotas, cold);
            self.stats.inc_dns_failure();
            assert(self@.flows == old(self)@.flows);
            ColdNext::Done
        }
    }

    /// The demultiplexer took a new flow, or it did not; then the flow is ended.
    /// Whether the first datagram is to be sent.
    pub fn cold_handed_over(
        &mut self,
        quotas: &QuotaScopeManager,
        key: FlowKey,
        id: FlowId,
        accepted: bool,
    ) -> (send: bool)
        requires
            old(self).wf(*quotas),
            old(self)@.flows.contains_key(id),
        ensures
            final(self).wf(*quotas),
            send == accepted,
            final(self)@ =~= (if accepted {
                old(self)@
            } else {
                old(self)@.not_handed_over(key, id)
            }),
    {
        if !accepted {
            self.stats.errors.inc_addflow_dropped();
            self.close(quotas, key, id);
        }
        accepted
    }

    /// The first datagram of a new flow was sent, or the send failed.
    pub fn cold_sent(
        &mut self,
        quotas: &mut QuotaScopeManager,
        key: FlowKey,
        id: FlowId,
        n: u64,
        failure: Option<UdpAction>,
        now_nanos: u64,
    )
        requires
            old(self).wf(*old(quotas)),
            old(self)@.flows.contains_key(id),
        ensures
            final(self).wf(*final(quotas)),
            final(self)@ =~= old(self)@.after_first_send(key, id, n, failure, now_nanos),
            final(quotas).users() == old(quotas).users(),
            final(quotas).states() =~= (if failure is None {
                old(self)@.flows[id].drawn(old(quotas).states(), n)
            } else {
                old(quotas).states()
            }),
    {
        match failure {
            None => {
                self.book_sent(quotas, key, id, n, now_nanos);
            },
            Some(UdpAction::Evict) => {
                self.evict(quotas, key, id);
            },
            Some(_) => {},
        }
    }
}

/// Whatever goes wrong while a flow is set up, its slot is free again
/// afterwards: the registry is as it was before the datagram came.
pub proof fn law_a_flow_that_fails_leaves_no_slot(
    before: RuleView,
    key: FlowKey,
    flow: FlowView,
)
    requires
        !before.slots.contains_key(key),
    ensures
        ({
            let pending = RuleView { slots: before.slots.insert(key, Slot::Pending), ..before };
            let open = pending.opened(key, flow);
            let id = FlowId(before.next_flow);
            &&& pending.released(key).slots =~= before.slots
            &&& open.not_handed_over(key, id).slots =~= before.slots
            &&& open.not_handed_over(key, id).flows[id].cancelled
            &&& open.evicted(key, id).slots =~= before.slots
            &&& open.evicted(key, id).flows[id].cancelled
        }),
{
}

} // verus!

//! One UDP flow: a client source and the upstream it talks to.

use vstd::prelude::*;

use crate::addr::SocketAddr;
use crate::quota::scope::{QuotaHandle, QuotaScopeManager};
use crate::quota::{to_quota_bytes, ConsumeOutcome};
use crate::resolver::{ConnectError, ResolverError};
use crate::stats::{RuleStats, RuleStatsView};

verus! {

/// One flow. Instants are nanoseconds from a fixed origin.
#[derive(Debug)]
pub struct UdpFlow {
    source_addr: SocketAddr,
    upstream_addrs: Vec<SocketAddr>,
    current_addr_idx: usize,
    last_seen_nanos: u64,
    bytes_in: u64,
    bytes_out: u64,
    datagrams_in: u64,
    datagrams_out: u64,
    cancelled: bool,
    target_idx: Option<u32>,
    quota: Option<QuotaHandle>,
    admit_guards: Vec<u64>,
}

/// A flow as a mathematical value.
#[verifier::ext_equal]
pub struct FlowView {
    /// Where the client is.
    pub source_addr: SocketAddr,
    /// Where the datagrams may go, the preferred address first.
    pub upstream_addrs: Seq<SocketAddr>,
    /// Which of these addresses is in use.
    pub current_addr_idx: usize,
    /// When the last datagram passed.
    pub last_seen_nanos: u64,
    pub bytes_in: u64,
    pub bytes_out: u64,
    pub datagrams_in: u64,
    pub datagrams_out: u64,
    /// The flow is over.
    pub cancelled: bool,
    /// The target of the rule that the flow sticks to, where there are several.
    pub target_idx: Option<u32>,
    /// The quota, where there is one.
    pub quota: Option<QuotaHandle>,
    /// What was reserved for the flow with the rate limits.
    pub admit_guards: Seq<u64>,
}

impl FlowView {
    /// There is an address, and the one in use is among them.
    pub open spec fn wf(self) -> bool {
        &&& self.upstream_addrs.len() > 0
        &&& self.current_addr_idx < self.upstream_addrs.len()
    }

    /// A flow that has just been opened.
    pub open spec fn opened(
        source_addr: SocketAddr,
        upstream_addrs: Seq<SocketAddr>,
        target_idx: Option<u32>,
        now: u64,
    ) -> FlowView {
        FlowView {
            source_addr,
            upstream_addrs,
            current_addr_idx: 0,
            last_seen_nanos: now,
            bytes_in: 0,
            bytes_out: 0,
            datagrams_in: 0,
            datagrams_out: 0,
            cancelled: false,
            target_idx,
            quota: None,
            admit_guards: Seq::empty(),
        }
    }

    /// After a datagram of `n` bytes from the client.
    pub open spec fn after_inbound(self, n: u64, now: u64) -> FlowView {
        FlowView {
            bytes_in: self.bytes_in.wrapping_add(n),
            datagrams_in: self.datagrams_in.wrapping_add(1),
            last_seen_nanos: now,
            ..self
        }
    }

    /// After a datagram of `n` bytes to the client.
    pub open spec fn after_outbound(self, n: u64, now: u64) -> FlowView {
        FlowView {
            bytes_out: self.bytes_out.wrapping_add(n),
            datagrams_out: self.datagrams_out.wrapping_add(1),
            last_seen_nanos: now,
            ..self
        }
    }

    pub open spec fn after_cancel(self) -> FlowView {
        FlowView { cancelled: true, ..self }
    }

    /// The quota of the flow, if it has one, was given out by `quotas`.
    pub open spec fn funded_by(self, quotas: QuotaScopeManager) -> bool {
        &&& quotas.wf()
        &&& self.quota matches Some(q) ==> quotas.issued(q)
    }

    /// The quota is not used up.
    pub open spec fn quota_allows(self, quotas: QuotaScopeManager) -> bool {
        self.quota matches Some(q) ==> !quotas.state_of(q).exhausted
    }

    /// Whether the quota covers `n` bytes.
    pub open spec fn quota_covers(self, quotas: QuotaScopeManager, n: u64) -> bool {
        self.quota matches Some(q) ==> quotas.state_of(q).consumed(
            crate::quota::quota_bytes(n as nat),
        ).1 == ConsumeOutcome::Granted
    }

    /// What is left of all quotas after `n` bytes were drawn for the flow.
    pub open spec fn drawn(
        self,
        states: Seq<crate::quota::QuotaState>,
        n: u64,
    ) -> Seq<crate::quota::QuotaState> {
        match self.quota {
            Some(q) => states.update(
                q.id(),
                states[q.id()].consumed(crate::quota::quota_bytes(n as nat)).0,
            ),
            None => states,
        }
    }

    /// What is left of all quotas after `n` bytes were given back for the flow.
    pub open spec fn refunded(
        self,
        states: Seq<crate::quota::QuotaState>,
        n: u64,
    ) -> Seq<crate::quota::QuotaState> {
        match self.quota {
            Some(q) => states.update(
                q.id(),
                states[q.id()].restored(crate::quota::quota_bytes(n as nat)),
            ),
            None => states,
        }
    }
}

impl View for UdpFlow {
    type V = FlowView;

    closed spec fn view(&self) -> FlowView {
        FlowView {
            source_addr: self.source_addr,
            upstream_addrs: self.upstream_addrs@,
            current_addr_idx: self.current_addr_idx,
            last_seen_nanos: self.last_seen_nanos,
            bytes_in: self.bytes_in,
            bytes_out: self.bytes_out,
            datagrams_in: self.datagrams_in,
            datagrams_out: self.datagrams_out,
            cancelled: self.cancelled,
            target_idx: self.target_idx,
            quota: self.quota,
            admit_guards: self.admit_guards@,
        }
    }
}

impl UdpFlow {
    fn open(
        source_addr: SocketAddr,
        upstream_addrs: Vec<SocketAddr>,
        target_idx: Option<u32>,
        now_nanos: u64,
    ) -> (flow: UdpFlow)
        requires
            upstream_addrs@.len() > 0,
        ensures
            flow@ =~= FlowView::opened(source_addr, upstream_addrs@, target_idx, now_nanos),
    {
        UdpFlow {
            source_addr,
            upstream_addrs,
            current_addr_idx: 0,
            last_seen_nanos: now_nanos,
            bytes_in: 0,
            bytes_out: 0,
            datagrams_in: 0,
            datagrams_out: 0,
            cancelled: false,
            target_idx,
            quota: None,
            admit_guards: Vec::new(),
        }
    }

    /// A flow of a rule with one target.
    pub fn new(source_addr: SocketAddr, upstream_addrs: Vec<SocketAddr>, now_nanos: u64) -> (flow:
        UdpFlow)
        requires
            upstream_addrs@.len() > 0,
        ensures
            flow@ =~= FlowView::opened(source_addr, upstream_addrs@, None, now_nanos),
            flow@.wf(),
    {
        UdpFlow::open(source_addr, upstream_addrs, None, now_nanos)
    }

    /// A flow of a rule with several targets, which sticks to the one at
    /// `target_idx`.
    pub fn new_multi_target(
        source_addr: SocketAddr,
        upstream_addrs: Vec<SocketAddr>,
        target_idx: u32,
        now_nanos: u64,
    ) -> (flow: UdpFlow)
        requires
            upstream_addrs@.len() > 0,
        ensures
            flow@ =~= FlowView::opened(source_addr, upstream_addrs@, Some(target_idx), now_nanos),
            flow@.wf(),
    {
        UdpFlow::open(source_addr, upstream_addrs, Some(target_idx), now_nanos)
    }

    /// Puts the flow under a quota.
    pub fn attach_quota(&mut self, quota: QuotaHandle)
        ensures
            final(self)@ =~= (FlowView { quota: Some(quota), ..old(self)@ }),
    {
        self.quota = Some(quota);
    }

    /// Gives the flow what was reserved for it with the rate limits.
    pub fn attach_admit_guards(&mut self, guards: Vec<u64>)
        ensures
            final(self)@ =~= (if guards@.len() == 0 {
                old(self)@
            } else {
                FlowView { admit_guards: guards@, ..old(self)@ }
            }),
    {
        if guards.len() == 0 {
            return;
        }
        self.admit_guards = guards;
    }

    /// Whether the quota is not used up. A flow without a quota may always send.
    pub fn quota_allows(&self, quotas: &QuotaScopeManager) -> (allows: bool)
        requires
            self@.funded_by(*quotas),
        ensures
            allows == self@.quota_allows(*quotas),
    {
        match self.quota {
            None => true,
            Some(q) => !quotas.is_exhausted(q),
        }
    }

    /// Draws the bytes of a datagram that was sent. Whether they were covered.
    pub fn quota_consume_after_send(&self, quotas: &mut QuotaScopeManager, n: u64) -> (covered:
        bool)
        requires
            self@.funded_by(*old(quotas)),
        ensures
            self@.funded_by(*final(quotas)),
            covered == self@.quota_covers(*old(quotas), n),
            final(quotas).users() == old(quotas).users(),
            final(quotas).states() =~= self@.drawn(old(quotas).states(), n),
    {
        self.quota_try_consume(quotas, n)
    }

    /// Draws the bytes of a datagram that is yet to be sent. If they were
    /// covered and it is not sent after all, they are to be given back with
    /// [`UdpFlow::quota_restore`].
    pub fn quota_try_consume(&self, quotas: &mut QuotaScopeManager, n: u64) -> (covered: bool)
        requires
            self@.funded_by(*old(quotas)),
        ensures
            self@.funded_by(*final(quotas)),
            covered == self@.quota_covers(*old(quotas), n),
            final(quotas).users() == old(quotas).users(),
            final(quotas).states() =~= self@.drawn(old(quotas).states(), n),
    {
        match self.quota {
            None => true,
            Some(q) => match quotas.consume(q, to_quota_bytes(n)) {
                ConsumeOutcome::Granted => true,
                ConsumeOutcome::Exhausted => false,
            },
        }
    }

    /// Gives back the bytes of a datagram that was not sent.
    pub fn quota_restore(&self, quotas: &mut QuotaScopeManager, n: u64)
        requires
            self@.funded_by(*old(quotas)),
        ensures
            self@.funded_by(*final(quotas)),
            final(quotas).users() == old(quotas).users(),
            final(quotas).states() =~= self@.refunded(old(quotas).states(), n),
    {
        if let Some(q) = self.quota {
            quotas.restore(q, to_quota_bytes(n));
        }
    }

    /// The address in use.
    pub fn current_upstream(&self) -> (addr: SocketAddr)
        requires
            self@.wf(),
        ensures
            addr == self@.upstream_addrs[self@.current_addr_idx as int],
    {
        self.upstream_addrs[self.current_addr_idx]
    }

    /// Goes on to the next address. At the last one it stays, and the result is
    /// `None`.
    pub fn advance_upstream(&mut self) -> (addr: Option<SocketAddr>)
        requires
            old(self)@.wf(),
        ensures
            final(self)@.wf(),
            ({
                let next = old(self)@.current_addr_idx + 1;
                if next < old(self)@.upstream_addrs.len() {
                    &&& addr == Some(old(self)@.upstream_addrs[next])
                    &&& final(self)@ =~= (FlowView {
                        current_addr_idx: next as usize,
                        ..old(self)@
                    })
                } else {
                    &&& addr is None
                    &&& final(self)@ =~= old(self)@
                }
            }),
    {
        if self.current_addr_idx < self.upstream_addrs.len() - 1 {
            self.current_addr_idx = self.current_addr_idx + 1;
            Some(self.upstream_addrs[self.current_addr_idx])
        } else {
            None
        }
    }

    /// Counts a datagram of `n` bytes from the client. Returns the target that
    /// is to be credited with them, if any.
    pub fn bump_inbound(&mut self, n: u64, now_nanos: u64) -> (target: Option<u32>)
        ensures
            final(self)@ =~= old(self)@.after_inbound(n, now_nanos),
            target == old(self)@.target_idx,
    {
        self.bytes_in = self.bytes_in.wrapping_add(n);
        self.datagrams_in = self.datagrams_in.wrapping_add(1);
        self.last_seen_nanos = now_nanos;
        self.target_idx
    }

    /// Counts a datagram of `n` bytes to the client. Returns the target that is
    /// to be credited with them, if any.
    pub fn bump_outbound(&mut self, n: u64, now_nanos: u64) -> (target: Option<u32>)
        ensures
            final(self)@ =~= old(self)@.after_outbound(n, now_nanos),
            target == old(self)@.target_idx,
    {
        self.bytes_out = self.bytes_out.wrapping_add(n);
        self.datagrams_out = self.datagrams_out.wrapping_add(1);
        self.last_seen_nanos = now_nanos;
        self.target_idx
    }

    /// When the last datagram passed.
    pub fn last_seen_at(&self) -> (nanos: u64)
        ensures
            nanos == self@.last_seen_nanos,
    {
        self.last_seen_nanos
    }

    /// Pretends that the last datagram passed at `nanos`.
    pub fn force_last_seen(&mut self, nanos: u64)
        ensures
            final(self)@ =~= (FlowView { last_seen_nanos: nanos, ..old(self)@ }),
    {
        self.last_seen_nanos = nanos;
    }

    /// The target that is to be credited with the bytes of the flow, if any.
    pub fn target_idx(&self) -> (target: Option<u32>)
        ensures
            target == self@.target_idx,
    {
        self.target_idx
    }

    /// Bytes from the client that went upstream.
    pub fn bytes_in(&self) -> (bytes: u64)
        ensures
            bytes == self@.bytes_in,
    {
        self.bytes_in
    }

    /// Bytes that went back to the client.
    pub fn bytes_out(&self) -> (bytes: u64)
        ensures
            bytes == self@.bytes_out,
    {
        self.bytes_out
    }

    /// Datagrams from the client that went upstream.
    pub fn datagrams_in(&self) -> (count: u64)
        ensures
            count == self@.datagrams_in,
    {
        self.datagrams_in
    }

    /// Datagrams that went back to the client.
    pub fn datagrams_out(&self) -> (count: u64)
        ensures
            count == self@.datagrams_out,
    {
        self.datagrams_out
    }

    /// What was reserved for the flow, to be given back.
    pub(crate) fn into_admit_guards(self) -> (guards: Vec<u64>)
        ensures
            guards@ == self@.admit_guards,
    {
        self.admit_guards
    }

    pub fn source_addr(&self) -> (addr: SocketAddr)
        ensures
            addr == self@.source_addr,
    {
        self.source_addr
    }

    /// Ends the flow.
    pub fn cancel(&mut self)
        ensures
            final(self)@ =~= old(self)@.after_cancel(),
    {
        self.cancelled = true;
    }

    pub fn is_cancelled(&self) -> (over: bool)
        ensures
            over == self@.cancelled,
    {
        self.cancelled
    }
}

/// The counters of a rule after a target was resolved, or could not be.
pub open spec fn resolution_counted(
    stats: RuleStatsView,
    resolved: Result<Vec<SocketAddr>, ConnectError>,
) -> RuleStatsView {
    match resolved {
        Ok(addrs) if addrs@.len() > 0 => stats,
        Err(ConnectError::Dial(_)) => stats,
        _ => RuleStatsView { dns_failures: stats.dns_failures.wrapping_add(1), ..stats },
    }
}

/// The addresses of a target, at least one. That there are none is a failure
/// like any other of the resolver, and these are counted.
pub(crate) fn checked_addrs(
    resolved: Result<Vec<SocketAddr>, ConnectError>,
    stats: &mut RuleStats,
) -> (addrs: Result<Vec<SocketAddr>, ConnectError>)
    ensures
        final(stats)@ =~= resolution_counted(old(stats)@, resolved),
        match resolved {
            Ok(found) => if found@.len() > 0 {
                addrs == resolved
            } else {
                addrs matches Err(ConnectError::Resolution(ResolverError::EmptyAnswer))
            },
            Err(e) => addrs == resolved,
        },
{
    match resolved {
        Ok(found) => {
            if found.len() > 0 {
                Ok(found)
            } else {
                stats.inc_dns_failure();
                Err(ConnectError::Resolution(ResolverError::EmptyAnswer))
            }
        },
        Err(ConnectError::Resolution(e)) => {
            stats.inc_dns_failure();
            Err(ConnectError::Resolution(e))
        },
        Err(ConnectError::Dial(e)) => Err(ConnectError::Dial(e)),
    }
}

/// A flow to a target that was resolved, or could not be. `bound` is whether a
/// socket could be bound for it.
pub fn build_flow_dns(
    resolved: Result<Vec<SocketAddr>, ConnectError>,
    bound: Result<(), std::io::Error>,
    source_addr: SocketAddr,
    stats: &mut RuleStats,
    now_nanos: u64,
) -> (flow: Result<UdpFlow, ConnectError>)
    ensures
        final(stats)@ =~= resolution_counted(old(stats)@, resolved),
        match (resolved, bound) {
            (Err(e), _) => flow == Err::<UdpFlow, ConnectError>(e),
            (Ok(addrs), _) if addrs@.len() == 0 => {
                flow matches Err(ConnectError::Resolution(ResolverError::EmptyAnswer))
            },
            (Ok(_), Err(e)) => flow == Err::<UdpFlow, ConnectError>(ConnectError::Dial(e)),
            (Ok(addrs), Ok(_)) => {
                &&& flow matches Ok(f)
                &&& f@ =~= FlowView::opened(source_addr, addrs@, None, now_nanos)
            },
        },
{
    let addrs = match checked_addrs(resolved, stats) {
        Ok(addrs) => addrs,
        Err(e) => {
            return Err(e);
        },
    };
    match bound {
        Ok(_) => Ok(UdpFlow::new(source_addr, addrs, now_nanos)),
        Err(e) => Err(ConnectError::Dial(e)),
    }
}

/// Giving back what was drawn for a datagram leaves the quotas as they were.
pub proof fn law_refund_undoes_a_covered_draw(flow: FlowView, quotas: QuotaScopeManager, n: u64)
    requires
        flow.funded_by(quotas),
        flow.quota_covers(quotas, n),
    ensures
        flow.refunded(flow.drawn(quotas.states(), n), n) =~= quotas.states(),
{
    if let Some(q) = flow.quota {
        crate::quota::law_restore_undoes_a_grant(
            quotas.state_of(q),
            crate::quota::quota_bytes(n as nat),
        );
    }
}

/// A new flow has its source and its addresses, starts with the first address, was
/// seen just now, and has counted nothing. Only a flow of a rule with several targets
/// has a target.
pub proof fn law_a_new_flow_starts_afresh(
    source_addr: SocketAddr,
    addrs: Vec<SocketAddr>,
    target: u32,
    now: u64,
    plain: UdpFlow,
    multi: UdpFlow,
)
    requires
        addrs@.len() > 0,
        call_ensures(UdpFlow::new, (source_addr, addrs, now), plain),
        call_ensures(UdpFlow::new_multi_target, (source_addr, addrs, target, now), multi),
    ensures
        plain@ == (FlowView {
            source_addr,
            upstream_addrs: addrs@,
            current_addr_idx: 0,
            last_seen_nanos: now,
            bytes_in: 0,
            bytes_out: 0,
            datagrams_in: 0,
            datagrams_out: 0,
            cancelled: false,
            target_idx: None,
            quota: None,
            admit_guards: Seq::empty(),
        }),
        multi@ == (FlowView { target_idx: Some(target), ..plain@ }),
{
}

/// What passes through a flow is counted in its direction, as one datagram and so
/// many bytes; either direction is a sign of life. Nothing else changes, and the
/// target of the flow is named.
pub proof fn law_what_passes_is_counted_and_seen(
    flow: &mut UdpFlow,
    n: u64,
    now: u64,
    target: Option<u32>,
    reply: &mut UdpFlow,
    reply_target: Option<u32>,
)
    requires
        call_ensures(UdpFlow::bump_inbound, (flow, n, now), target),
        call_ensures(UdpFlow::bump_outbound, (reply, n, now), reply_target),
    ensures
        final(flow)@ == (FlowView {
            bytes_in: old(flow)@.bytes_in.wrapping_add(n),
            datagrams_in: old(flow)@.datagrams_in.wrapping_add(1),
            last_seen_nanos: now,
            ..old(flow)@
        }),
        final(reply)@ == (FlowView {
            bytes_out: old(reply)@.bytes_out.wrapping_add(n),
            datagrams_out: old(reply)@.datagrams_out.wrapping_add(1),
            last_seen_nanos: now,
            ..old(reply)@
        }),
        target == old(flow)@.target_idx,
        reply_target == old(reply)@.target_idx,
{
}

/// A flow shows what it has.
pub proof fn law_a_flow_shows_what_it_has(
    flow: &UdpFlow,
    source: SocketAddr,
    upstream: SocketAddr,
    seen: u64,
    target: Option<u32>,
    bytes_in: u64,
    bytes_out: u64,
    datagrams_in: u64,
    datagrams_out: u64,
    over: bool,
)
    requires
        flow@.wf(),
        call_ensures(UdpFlow::source_addr, (flow,), source),
        call_ensures(UdpFlow::current_upstream, (flow,), upstream),
        call_ensures(UdpFlow::last_seen_at, (flow,), seen),
        call_ensures(UdpFlow::target_idx, (flow,), target),
        call_ensures(UdpFlow::bytes_in, (flow,), bytes_in),
        call_ensures(UdpFlow::bytes_out, (flow,), bytes_out),
        call_ensures(UdpFlow::datagrams_in, (flow,), datagrams_in),
        call_ensures(UdpFlow::datagrams_out, (flow,), datagrams_out),
        call_ensures(UdpFlow::is_cancelled, (flow,), over),
    ensures
        source == flow@.source_addr,
        upstream == flow@.upstream_addrs[flow@.current_addr_idx as int],
        seen == flow@.last_seen_nanos,
        target == flow@.target_idx,
        bytes_in == flow@.bytes_in,
        bytes_out == flow@.bytes_out,
        datagrams_in == flow@.datagrams_in,
        datagrams_out == flow@.datagrams_out,
        over == flow@.cancelled,
{
}

/// A flow goes on to its next address, in order, and stays at the last one.
pub proof fn law_a_flow_tries_its_addresses_in_order(
    flow: &mut UdpFlow,
    next: Option<SocketAddr>,
    upstream: SocketAddr,
)
    requires
        flow@.wf(),
        flow@.upstream_addrs.len() <= usize::MAX,
        call_ensures(UdpFlow::advance_upstream, (flow,), next),
        call_ensures(UdpFlow::current_upstream, (&*final(flow),), upstream),
    ensures
        ({
            let at = old(flow)@.current_addr_idx;
            let addrs = old(flow)@.upstream_addrs;
            &&& at + 1 < addrs.len() ==> next == Some(upstream) && upstream == addrs[at + 1]
            &&& at + 1 == addrs.len() ==> next is None && upstream == addrs[at as int]
            &&& final(flow)@ == (FlowView {
                current_addr_idx: final(flow)@.current_addr_idx,
                ..old(flow)@
            })
        }),
{
}

/// Each of the other changes to a flow changes that and nothing else.
pub proof fn law_changes_to_a_flow_are_separate(
    a: &mut UdpFlow,
    quota: QuotaHandle,
    b: &mut UdpFlow,
    guards: Vec<u64>,
    c: &mut UdpFlow,
    d: &mut UdpFlow,
    nanos: u64,
)
    requires
        guards@.len() > 0,
        call_ensures(UdpFlow::attach_quota, (a, quota), ()),
        call_ensures(UdpFlow::attach_admit_guards, (b, guards), ()),
        call_ensures(UdpFlow::cancel, (c,), ()),
        call_ensures(UdpFlow::force_last_seen, (d, nanos), ()),
    ensures
        final(a)@ == (FlowView { quota: Some(quota), ..old(a)@ }),
        final(b)@ == (FlowView { admit_guards: guards@, ..old(b)@ }),
        final(c)@ == (FlowView { cancelled: true, ..old(c)@ }),
        final(d)@ == (FlowView { last_seen_nanos: nanos, ..old(d)@ }),
{
}

/// A flow without a quota is never held up by one and draws on none. A flow with one
/// may go on until it is used up, and a datagram draws its bytes from it, as one draw.
pub proof fn law_a_flow_draws_on_its_own_quota(
    flow: &UdpFlow,
    quotas: &mut QuotaScopeManager,
    n: u64,
    allows: bool,
    covered: bool,
    after_send: &mut QuotaScopeManager,
    covered_after: bool,
    alone: &mut QuotaScopeManager,
    outcome: ConsumeOutcome,
)
    requires
        flow@.funded_by(*quotas),
        n <= i64::MAX,
        *alone == *quotas,
        *after_send == *quotas,
        call_ensures(UdpFlow::quota_allows, (flow, &*quotas), allows),
        call_ensures(UdpFlow::quota_try_consume, (flow, quotas, n), covered),
        call_ensures(UdpFlow::quota_consume_after_send, (flow, after_send, n), covered_after),
        flow@.quota matches Some(q) ==> call_ensures(
            QuotaScopeManager::consume,
            (alone, q, n as i64),
            outcome,
        ),
    ensures
        flow@.quota is None ==> {
            &&& allows
            &&& covered
            &&& covered_after
            &&& final(quotas).states() == old(quotas).states()
            &&& final(after_send).states() == old(after_send).states()
        },
        flow@.quota matches Some(q) ==> {
            &&& allows <==> !old(quotas).states()[q.id()].exhausted
            &&& covered <==> outcome == ConsumeOutcome::Granted
            &&& covered_after == covered
            &&& final(quotas).states() == final(alone).states()
            &&& final(after_send).states() == final(alone).states()
        },
        final(quotas).users() == old(quotas).users(),
        final(after_send).users() == old(after_send).users(),
{
}

/// What a flow gives back goes to its own quota.
pub proof fn law_a_flow_refunds_its_own_quota(
    flow: &UdpFlow,
    quotas: &mut QuotaScopeManager,
    n: u64,
    alone: &mut QuotaScopeManager,
)
    requires
        flow@.funded_by(*quotas),
        n <= i64::MAX,
        *alone == *quotas,
        call_ensures(UdpFlow::quota_restore, (flow, quotas, n), ()),
        flow@.quota matches Some(q) ==> call_ensures(
            QuotaScopeManager::restore,
            (alone, q, n as i64),
            (),
        ),
    ensures
        flow@.quota is None ==> final(quotas).states() == old(quotas).states(),
        flow@.quota is Some ==> final(quotas).states() == final(alone).states(),
        final(quotas).users() == old(quotas).users(),
{
}

/// A flow is built exactly if there is an address and a socket. A name without an
/// address is a failure of the resolution and counted once; a missing socket is not.
pub proof fn law_a_flow_needs_an_address_and_a_socket(
    resolved: Result<Vec<SocketAddr>, ConnectError>,
    bound: Result<(), std::io::Error>,
    source_addr: SocketAddr,
    stats: &mut RuleStats,
    now: u64,
    built: Result<UdpFlow, ConnectError>,
    fresh: UdpFlow,
)
    requires
        call_ensures(build_flow_dns, (resolved, bound, source_addr, stats, now), built),
        resolved matches Ok(addrs) ==> call_ensures(UdpFlow::new, (source_addr, addrs, now), fresh),
    ensures
        built is Ok <==> (resolved matches Ok(addrs) && addrs@.len() > 0) && bound is Ok,
        built matches Ok(flow) ==> flow@ == fresh@,
        resolved matches Err(e) ==> built == Err::<UdpFlow, ConnectError>(e),
        resolved matches Ok(addrs) && addrs@.len() == 0 ==> (built matches Err(
            ConnectError::Resolution(ResolverError::EmptyAnswer),
        )),
        ({
            let failed = match resolved {
                Ok(addrs) => addrs@.len() == 0,
                Err(e) => e is Resolution,
            };
            final(stats)@ == (RuleStatsView {
                dns_failures: if failed {
                    old(stats)@.dns_failures.wrapping_add(1)
                } else {
                    old(stats)@.dns_failures
                },
                ..old(stats)@
            })
        }),
{
}

} // verus!

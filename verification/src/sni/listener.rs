//! A listener that reads the server name of a connection before it decides
//! which rule serves it.

use vstd::prelude::*;

use super::route_table::{SniMatch, SniMatchKind, SniRoutingTable};
use crate::addr::{IpAddr, SocketAddr};
use crate::proxy_protocol::{ProxyProtocolPrelude, ProxyProtocolVersion};
use crate::quota::scope::QuotaHandle;
use crate::rate_limit::gate::LayeredAcquire;
use crate::rate_limit::stats::RateLimitStatsAccumulator;
use crate::stats::{RuleStats, RuleStatsView, SniListenerStatsSnapshot};
use crate::types::RuleId;

verus! {

/// How many connections of one listener may be read ahead at once.
pub const MAX_INFLIGHT_PEEKS: usize = 1024;

/// How long it took to read ahead.
#[derive(Debug)]
pub struct PeekDurationHistogram {
    bounds_nanos: Vec<u128>,
    buckets: Vec<u64>,
    sum_micros: u64,
    count: u64,
}

/// A histogram as a mathematical value.
#[verifier::ext_equal]
pub struct HistogramView {
    /// The bounds of the buckets.
    pub bounds_nanos: Seq<u128>,
    /// How many times were within each bound.
    pub buckets: Seq<u64>,
    /// All times together.
    pub sum_micros: u64,
    /// How many times there were.
    pub count: u64,
}

/// The first bound from `from` on that a time is within; the number of bounds
/// if there is none.
pub open spec fn bucket_index(bounds_nanos: Seq<u128>, elapsed_nanos: u128, from: int) -> int
    decreases bounds_nanos.len() - from,
{
    if 0 <= from < bounds_nanos.len() && elapsed_nanos > bounds_nanos[from] {
        bucket_index(bounds_nanos, elapsed_nanos, from + 1)
    } else {
        from
    }
}

/// A time in microseconds; the largest count stands for any longer time.
pub open spec fn nanos_to_micros(nanos: u128) -> u64 {
    if nanos / 1000 <= u64::MAX {
        (nanos / 1000) as u64
    } else {
        u64::MAX
    }
}

impl HistogramView {
    pub open spec fn wf(self) -> bool {
        self.buckets.len() == self.bounds_nanos.len()
    }

    pub open spec fn empty(bounds_nanos: Seq<u128>) -> HistogramView {
        HistogramView {
            bounds_nanos,
            buckets: Seq::new(bounds_nanos.len(), |i: int| 0u64),
            sum_micros: 0,
            count: 0,
        }
    }

    /// With one more time. It counts in its bucket and in all that come after.
    pub open spec fn observed(self, elapsed_nanos: u128) -> HistogramView {
        let first = bucket_index(self.bounds_nanos, elapsed_nanos, 0);
        HistogramView {
            buckets: Seq::new(
                self.buckets.len(),
                |i: int|
                    if i >= first {
                        self.buckets[i].wrapping_add(1)
                    } else {
                        self.buckets[i]
                    },
            ),
            sum_micros: self.sum_micros.wrapping_add(nanos_to_micros(elapsed_nanos)),
            count: self.count.wrapping_add(1),
            ..self
        }
    }
}

impl View for PeekDurationHistogram {
    type V = HistogramView;

    closed spec fn view(&self) -> HistogramView {
        HistogramView {
            bounds_nanos: self.bounds_nanos@,
            buckets: self.buckets@,
            sum_micros: self.sum_micros,
            count: self.count,
        }
    }
}

impl PeekDurationHistogram {
    /// A histogram with these bounds, in nanoseconds.
    pub fn new(bounds_nanos: Vec<u128>) -> (histogram: PeekDurationHistogram)
        ensures
            histogram@ =~= HistogramView::empty(bounds_nanos@),
            histogram@.wf(),
    {
        let mut buckets: Vec<u64> = Vec::new();
        let mut i: usize = 0;
        while i < bounds_nanos.len()
            invariant
                i <= bounds_nanos.len(),
                buckets@ =~= Seq::new(i as nat, |j: int| 0u64),
            decreases bounds_nanos.len() - i,
        {
            buckets.push(0);
            i = i + 1;
        }
        PeekDurationHistogram { bounds_nanos, buckets, sum_micros: 0, count: 0 }
    }

    /// Counts a time.
    pub fn observe(&mut self, elapsed_nanos: u128)
        requires
            old(self)@.wf(),
        ensures
            final(self)@.wf(),
            final(self)@ =~= old(self)@.observed(elapsed_nanos),
    {
        let mut first: usize = 0;
        while first < self.bounds_nanos.len() && elapsed_nanos > self.bounds_nanos[first]
            invariant
                *self == *old(self),
                first <= self.bounds_nanos@.len(),
                bucket_index(self.bounds_nanos@, elapsed_nanos, 0) == bucket_index(
                    self.bounds_nanos@,
                    elapsed_nanos,
                    first as int,
                ),
            decreases self.bounds_nanos@.len() - first,
        {
            first = first + 1;
        }
        let mut i: usize = first;
        while i < self.buckets.len()
            invariant
                first <= i,
                self.buckets@.len() == old(self).buckets@.len(),
                self.bounds_nanos@ == old(self).bounds_nanos@,
                self.sum_micros == old(self).sum_micros,
                self.count == old(self).count,
                forall|j: int|
                    0 <= j < self.buckets@.len() ==> #[trigger] self.buckets@[j] == (if first <= j
                        < i {
                        old(self).buckets@[j].wrapping_add(1)
                    } else {
                        old(self).buckets@[j]
                    }),
            decreases self.buckets@.len() - i,
        {
            let count: u64 = self.buckets[i];
            self.buckets.set(i, count.wrapping_add(1));
            i = i + 1;
        }
        let micros: u64 = if elapsed_nanos / 1000 <= u64::MAX as u128 {
            (elapsed_nanos / 1000) as u64
        } else {
            u64::MAX
        };
        self.sum_micros = self.sum_micros.wrapping_add(micros);
        self.count = self.count.wrapping_add(1);
    }

    /// The buckets, all times together, and how many there were.
    pub fn snapshot(&self) -> (snap: (Vec<u64>, u64, u64))
        ensures
            snap.0@ == self@.buckets,
            snap.1 == self@.sum_micros,
            snap.2 == self@.count,
    {
        let buckets = self.buckets.clone();
        assert(buckets@ =~= self.buckets@);
        (buckets, self.sum_micros, self.count)
    }
}

/// The counters of one listener.
#[derive(Debug)]
pub struct SniListenerCounters {
    /// Connections that no rule serves.
    pub miss: u64,
    /// Connections that did not begin as they should. Those that took too long
    /// are not among them.
    pub parse_failures: u64,
    /// Connections that were refused because too many were being read ahead.
    pub peek_capacity_rejections: u64,
    /// How long it took to read ahead.
    pub peek_histogram: PeekDurationHistogram,
}

/// The counters as a mathematical value.
#[verifier::ext_equal]
pub struct CountersView {
    pub miss: u64,
    pub parse_failures: u64,
    pub peek_capacity_rejections: u64,
    pub peek_histogram: HistogramView,
}

impl View for SniListenerCounters {
    type V = CountersView;

    open spec fn view(&self) -> CountersView {
        CountersView {
            miss: self.miss,
            parse_failures: self.parse_failures,
            peek_capacity_rejections: self.peek_capacity_rejections,
            peek_histogram: self.peek_histogram@,
        }
    }
}

impl SniListenerCounters {
    /// All zero, with a histogram of these bounds.
    pub fn new(bounds_nanos: Vec<u128>) -> (counters: SniListenerCounters)
        ensures
            counters@ =~= (CountersView {
                miss: 0,
                parse_failures: 0,
                peek_capacity_rejections: 0,
                peek_histogram: HistogramView::empty(bounds_nanos@),
            }),
            counters@.peek_histogram.wf(),
    {
        SniListenerCounters {
            miss: 0,
            parse_failures: 0,
            peek_capacity_rejections: 0,
            peek_histogram: PeekDurationHistogram::new(bounds_nanos),
        }
    }

    /// What is reported of the listener on a port.
    pub fn snapshot(&self, listen_port: u16) -> (snap: SniListenerStatsSnapshot)
        ensures
            snap.listen_port == listen_port,
            snap.sni_route_miss_total == self@.miss,
            snap.client_hello_parse_failures_total == self@.parse_failures,
            snap.client_hello_peek_bucket_counts@ == self@.peek_histogram.buckets,
            snap.client_hello_peek_sum_micros == self@.peek_histogram.sum_micros,
            snap.client_hello_peek_count == self@.peek_histogram.count,
    {
        let (buckets, sum_micros, count) = self.peek_histogram.snapshot();
        SniListenerStatsSnapshot {
            listen_port,
            sni_route_miss_total: self.miss,
            client_hello_parse_failures_total: self.parse_failures,
            client_hello_peek_bucket_counts: buckets,
            client_hello_peek_sum_micros: sum_micros,
            client_hello_peek_count: count,
        }
    }
}

/// Where connections go.
#[derive(Debug)]
pub enum Target {
    Ip(IpAddr),
    Dns(String),
}

/// One rule that the listener serves.
#[derive(Debug)]
pub struct SniRuleSlot {
    pub rule_id: RuleId,
    pub target: Target,
    pub target_port: u16,
    pub proxy_protocol: Option<ProxyProtocolVersion>,
    pub prefer_ipv6: bool,
    pub listen_port: u16,
    pub stats: RuleStats,
    pub quota: Option<QuotaHandle>,
}

/// The rules that the listener serves, each in a slot of its own.
#[derive(Debug)]
pub struct SniRouteResolver {
    pub slots: Vec<SniRuleSlot>,
}

/// The routing table and the rules that it leads to, which only ever change
/// together.
pub struct SniDispatchState {
    pub table: SniRoutingTable,
    pub resolver: SniRouteResolver,
}

impl SniDispatchState {
    pub open spec fn wf(&self) -> bool {
        &&& self.table.wf()
        &&& self.resolver.wf()
    }
}

/// How reading ahead ended.
#[derive(Debug)]
pub enum PeekOutcome {
    /// The client said hello, with or without a server name.
    Hello { sni: Option<String> },
    /// The client took too long.
    Timeout,
    /// The client said something else, or nothing more.
    Failed,
}

/// What happened to a connection.
#[derive(Clone, Copy, Debug, PartialEq, Eq, Structural)]
pub enum SniEvent {
    ClientHelloTimeout,
    ParseFailed,
    NoMatch,
    NoSni { fallback_used: bool },
    UnknownRule,
    Routed,
}

/// What is to become of a connection.
#[derive(Clone, Copy, Debug, PartialEq, Eq, Structural)]
pub enum SniAction {
    /// Close it.
    Drop { event: SniEvent },
    /// It belongs to the rule at this place. Ask the limits, and go on with
    /// [`admit_routed`].
    Dispatch { slot: usize, kind: SniMatchKind, event: SniEvent },
}

/// A rule slot as a mathematical value.
#[verifier::ext_equal]
pub struct SlotView {
    pub rule_id: RuleId,
    pub target: Target,
    pub target_port: u16,
    pub proxy_protocol: Option<ProxyProtocolVersion>,
    pub prefer_ipv6: bool,
    pub listen_port: u16,
    pub stats: RuleStatsView,
    pub quota: Option<QuotaHandle>,
}

impl View for SniRuleSlot {
    type V = SlotView;

    open spec fn view(&self) -> SlotView {
        SlotView {
            rule_id: self.rule_id,
            target: self.target,
            target_port: self.target_port,
            proxy_protocol: self.proxy_protocol,
            prefer_ipv6: self.prefer_ipv6,
            listen_port: self.listen_port,
            stats: self.stats@,
            quota: self.quota,
        }
    }
}

impl SlotView {
    /// After a connection was routed here. It counts by how it was matched.
    pub open spec fn routed(self, kind: SniMatchKind) -> SlotView {
        let stats = self.stats;
        SlotView {
            stats: match kind {
                SniMatchKind::Exact => RuleStatsView {
                    sni_route_exact_total: stats.sni_route_exact_total.wrapping_add(1),
                    ..stats
                },
                SniMatchKind::Wildcard => RuleStatsView {
                    sni_route_wildcard_total: stats.sni_route_wildcard_total.wrapping_add(1),
                    ..stats
                },
                SniMatchKind::Fallback => RuleStatsView {
                    sni_route_fallback_total: stats.sni_route_fallback_total.wrapping_add(1),
                    ..stats
                },
            },
            ..self
        }
    }
}

/// No two slots have the same rule.
pub open spec fn distinct_rules(slots: Seq<SlotView>) -> bool {
    forall|i: int, j: int|
        0 <= i < j < slots.len() ==> (#[trigger] slots[i]).rule_id != (#[trigger] slots[j]).rule_id
}

/// The slots with one more rule, or with another slot for a rule that has one.
pub open spec fn with_slot(slots: Seq<SlotView>, slot: SlotView) -> Seq<SlotView> {
    let at = slot_of(slots, slot.rule_id, 0);
    if at < slots.len() {
        slots.update(at, slot)
    } else {
        slots.push(slot)
    }
}

proof fn lemma_slot_of(slots: Seq<SlotView>, rule_id: RuleId, from: int)
    requires
        0 <= from <= slots.len(),
    ensures
        ({
            let at = slot_of(slots, rule_id, from);
            &&& from <= at <= slots.len()
            &&& forall|i: int| from <= i < at ==> (#[trigger] slots[i]).rule_id != rule_id
            &&& at < slots.len() ==> slots[at].rule_id == rule_id
        }),
    decreases slots.len() - from,
{
    if from < slots.len() && slots[from].rule_id != rule_id {
        lemma_slot_of(slots, rule_id, from + 1);
    }
}

/// A rule is found at the one place that has it.
pub proof fn law_a_rule_has_one_slot(slots: Seq<SlotView>, i: int)
    requires
        distinct_rules(slots),
        0 <= i < slots.len(),
    ensures
        slot_of(slots, slots[i].rule_id, 0) == i,
{
    lemma_slot_of(slots, slots[i].rule_id, 0);
}

impl SniRouteResolver {
    /// No two slots have the same rule.
    pub open spec fn wf(&self) -> bool {
        distinct_rules(self.slot_views())
    }

    /// No rules.
    pub fn new() -> (resolver: SniRouteResolver)
        ensures
            resolver.wf(),
            resolver.slot_views() =~= Seq::<SlotView>::empty(),
    {
        SniRouteResolver { slots: Vec::new() }
    }

    /// Adds a rule. A slot that the rule has already is replaced.
    pub fn insert(&mut self, slot: SniRuleSlot)
        requires
            old(self).wf(),
        ensures
            final(self).wf(),
            final(self).slot_views() =~= with_slot(old(self).slot_views(), slot@),
    {
        proof {
            lemma_slot_of(self.slot_views(), slot.rule_id, 0);
        }
        match self.position(slot.rule_id) {
            Some(at) => self.slots.set(at, slot),
            None => self.slots.push(slot),
        }
        assert(self.slot_views() =~= with_slot(old(self).slot_views(), slot@));
    }

    pub open spec fn slot_views(&self) -> Seq<SlotView> {
        self.slots@.map_values(|slot: SniRuleSlot| slot@)
    }

    /// The place of a rule.
    pub fn position(&self, rule_id: RuleId) -> (at: Option<usize>)
        ensures
            match at {
                Some(i) => i < self.slots@.len() && slot_of(self.slot_views(), rule_id, 0) == i,
                None => slot_of(self.slot_views(), rule_id, 0) == self.slots@.len(),
            },
    {
        let mut i: usize = 0;
        while i < self.slots.len() && self.slots[i].rule_id != rule_id
            invariant
                i <= self.slots@.len(),
                slot_of(self.slot_views(), rule_id, 0) == slot_of(
                    self.slot_views(),
                    rule_id,
                    i as int,
                ),
            decreases self.slots@.len() - i,
        {
            i = i + 1;
        }
        if i < self.slots.len() {
            Some(i)
        } else {
            None
        }
    }
}

/// The first place from `from` on that holds the rule; the number of places if
/// there is none.
pub open spec fn slot_of(slots: Seq<SlotView>, rule_id: RuleId, from: int) -> int
    decreases slots.len() - from,
{
    if 0 <= from < slots.len() && slots[from].rule_id != rule_id {
        slot_of(slots, rule_id, from + 1)
    } else {
        from
    }
}

pub open spec fn sni_view(sni: Option<String>) -> Option<Seq<char>> {
    match sni {
        Some(name) => Some(name@),
        None => None,
    }
}

/// What is to become of a connection whose client said hello.
pub open spec fn route_action(found: SniMatch, slots: Seq<SlotView>, named: bool) -> SniAction {
    match found {
        SniMatch::Miss => SniAction::Drop {
            event: if named {
                SniEvent::NoMatch
            } else {
                SniEvent::NoSni { fallback_used: false }
            },
        },
        SniMatch::Hit { rule_id, kind } => {
            let slot = slot_of(slots, rule_id, 0);
            if slot >= slots.len() {
                SniAction::Drop { event: SniEvent::UnknownRule }
            } else {
                SniAction::Dispatch {
                    slot: slot as usize,
                    kind,
                    event: if kind == SniMatchKind::Fallback && !named {
                        SniEvent::NoSni { fallback_used: true }
                    } else {
                        SniEvent::Routed
                    },
                }
            }
        },
    }
}

/// What is to become of a connection, by how reading ahead ended.
pub open spec fn peek_action(
    outcome: PeekOutcome,
    table: super::route_table::TableView,
    slots: Seq<SlotView>,
) -> SniAction {
    match outcome {
        PeekOutcome::Timeout => SniAction::Drop { event: SniEvent::ClientHelloTimeout },
        PeekOutcome::Failed => SniAction::Drop { event: SniEvent::ParseFailed },
        PeekOutcome::Hello { sni } => route_action(
            table.lookup(sni_view(sni)),
            slots,
            sni is Some,
        ),
    }
}

/// The counters of the listener after reading ahead ended.
pub open spec fn peek_counted(
    counters: CountersView,
    outcome: PeekOutcome,
    action: SniAction,
    elapsed_nanos: u128,
) -> CountersView {
    CountersView {
        peek_histogram: counters.peek_histogram.observed(elapsed_nanos),
        parse_failures: if outcome is Failed {
            counters.parse_failures.wrapping_add(1)
        } else {
            counters.parse_failures
        },
        miss: if outcome is Hello && action is Drop {
            counters.miss.wrapping_add(1)
        } else {
            counters.miss
        },
        ..counters
    }
}

/// The rules after a connection was dispatched to one of them.
pub open spec fn slots_after(slots: Seq<SlotView>, action: SniAction) -> Seq<SlotView> {
    match action {
        SniAction::Dispatch { slot, kind, .. } => slots.update(
            slot as int,
            slots[slot as int].routed(kind),
        ),
        SniAction::Drop { .. } => slots,
    }
}

/// A listener.
#[derive(Debug)]
pub struct SniListener {
    pub listen_port: u16,
    pub counters: SniListenerCounters,
    /// How many connections may be read ahead at once.
    pub max_inflight_peeks: usize,
    /// How many connections are being read ahead.
    pub inflight_peeks: usize,
}

impl SniListener {
    /// No more connections are being read ahead than may be.
    pub open spec fn wf(&self) -> bool {
        &&& self.inflight_peeks <= self.max_inflight_peeks
        &&& self.counters@.peek_histogram.wf()
    }

    /// A listener on a port that reads at most `max_inflight_peeks` connections
    /// ahead.
    pub fn new(listen_port: u16, bounds_nanos: Vec<u128>, max_inflight_peeks: usize) -> (listener:
        SniListener)
        ensures
            listener.wf(),
            listener.listen_port == listen_port,
            listener.max_inflight_peeks == max_inflight_peeks,
            listener.inflight_peeks == 0,
            listener.counters@ =~= (CountersView {
                miss: 0,
                parse_failures: 0,
                peek_capacity_rejections: 0,
                peek_histogram: HistogramView::empty(bounds_nanos@),
            }),
    {
        SniListener {
            listen_port,
            counters: SniListenerCounters::new(bounds_nanos),
            max_inflight_peeks,
            inflight_peeks: 0,
        }
    }

    /// A connection came in. Whether it is read ahead; if not, it is to be
    /// closed at once.
    pub fn accept(&mut self) -> (peek: bool)
        requires
            old(self).wf(),
        ensures
            final(self).wf(),
            final(self).listen_port == old(self).listen_port,
            final(self).max_inflight_peeks == old(self).max_inflight_peeks,
            peek == (old(self).inflight_peeks < old(self).max_inflight_peeks),
            final(self).inflight_peeks == old(self).inflight_peeks + (if peek {
                1int
            } else {
                0
            }),
            final(self).counters@ =~= (if peek {
                old(self).counters@
            } else {
                CountersView {
                    peek_capacity_rejections: old(
                        self,
                    ).counters@.peek_capacity_rejections.wrapping_add(1),
                    ..old(self).counters@
                }
            }),
    {
        if self.inflight_peeks < self.max_inflight_peeks {
            self.inflight_peeks = self.inflight_peeks + 1;
            true
        } else {
            self.counters.peek_capacity_rejections =
            self.counters.peek_capacity_rejections.wrapping_add(1);
            false
        }
    }

    /// Reading a connection ahead has ended; `state` is what the listener served
    /// when the connection came in. Says what is to become of the connection.
    pub fn handle_accept(
        &mut self,
        state: &mut SniDispatchState,
        outcome: PeekOutcome,
        elapsed_nanos: u128,
    ) -> (action: SniAction)
        requires
            old(self).wf(),
            old(state).wf(),
        ensures
            final(self).wf(),
            final(state).wf(),
            final(state).table == old(state).table,
            final(self).listen_port == old(self).listen_port,
            final(self).max_inflight_peeks == old(self).max_inflight_peeks,
            final(self).inflight_peeks == (if old(self).inflight_peeks > 0 {
                old(self).inflight_peeks - 1
            } else {
                0
            }),
            action == peek_action(outcome, old(state).table@, old(state).resolver.slot_views()),
            final(self).counters@ =~= peek_counted(
                old(self).counters@,
                outcome,
                action,
                elapsed_nanos,
            ),
            final(state).resolver.slot_views() =~= slots_after(
                old(state).resolver.slot_views(),
                action,
            ),
    {
        self.counters.peek_histogram.observe(elapsed_nanos);
        if self.inflight_peeks > 0 {
            self.inflight_peeks = self.inflight_peeks - 1;
        }
        let sni = match outcome {
            PeekOutcome::Timeout => {
                return SniAction::Drop { event: SniEvent::ClientHelloTimeout };
            },
            PeekOutcome::Failed => {
                self.counters.parse_failures = self.counters.parse_failures.wrapping_add(1);
                return SniAction::Drop { event: SniEvent::ParseFailed };
            },
            PeekOutcome::Hello { sni } => sni,
        };
        let found = match &sni {
            Some(name) => state.table.lookup(Some(name.as_str())),
            None => state.table.lookup(None),
        };
        let (rule_id, kind) = match found {
            SniMatch::Hit { rule_id, kind } => (rule_id, kind),
            SniMatch::Miss => {
                self.counters.miss = self.counters.miss.wrapping_add(1);
                let event = if sni.is_some() {
                    SniEvent::NoMatch
                } else {
                    SniEvent::NoSni { fallback_used: false }
                };
                return SniAction::Drop { event };
            },
        };
        let slot: usize = match state.resolver.position(rule_id) {
            Some(slot) => slot,
            None => {
                self.counters.miss = self.counters.miss.wrapping_add(1);
                return SniAction::Drop { event: SniEvent::UnknownRule };
            },
        };
        let stats = &mut state.resolver.slots[slot].stats;
        match kind {
            SniMatchKind::Exact => {
                stats.sni_route_exact_total = stats.sni_route_exact_total.wrapping_add(1);
            },
            SniMatchKind::Wildcard => {
                stats.sni_route_wildcard_total = stats.sni_route_wildcard_total.wrapping_add(1);
            },
            SniMatchKind::Fallback => {
                stats.sni_route_fallback_total = stats.sni_route_fallback_total.wrapping_add(1);
            },
        }
        let event = if kind == SniMatchKind::Fallback && sni.is_none() {
            SniEvent::NoSni { fallback_used: true }
        } else {
            SniEvent::Routed
        };
        assert(state.resolver.slot_views() =~= slots_after(
            old(state).resolver.slot_views(),
            SniAction::Dispatch { slot, kind, event },
        ));
        SniAction::Dispatch { slot, kind, event }
    }
}

/// The limits of the owner and of the rule were asked about a connection that
/// was routed. The place of the rule that is to serve it; `None` if it is to be
/// closed, because it was not routed or because one of them refused it. A
/// refusal is counted with whoever refused.
pub fn admit_routed(
    action: SniAction,
    outcome: LayeredAcquire,
    owner_stats: &mut Option<RateLimitStatsAccumulator>,
    rule_stats: &mut Option<RateLimitStatsAccumulator>,
) -> (serve: Option<usize>)
    ensures
        serve == (match action {
            SniAction::Dispatch { slot, .. } if outcome == LayeredAcquire::Granted => Some(slot),
            _ => None,
        }),
        crate::rate_limit::copy::stats_view(*final(owner_stats)) =~= (if action is Dispatch {
            crate::rate_limit::gate::reject_counted(crate::rate_limit::copy::stats_view(*old(owner_stats)), outcome.owner_refusal())
        } else {
            crate::rate_limit::copy::stats_view(*old(owner_stats))
        }),
        crate::rate_limit::copy::stats_view(*final(rule_stats)) =~= (if action is Dispatch {
            crate::rate_limit::gate::reject_counted(crate::rate_limit::copy::stats_view(*old(rule_stats)), outcome.rule_refusal())
        } else {
            crate::rate_limit::copy::stats_view(*old(rule_stats))
        }),
{
    match action {
        SniAction::Dispatch { slot, .. } => {
            if outcome.settle(owner_stats, rule_stats) {
                Some(slot)
            } else {
                None
            }
        },
        SniAction::Drop { .. } => None,
    }
}

/// The header that a rule sends ahead of a connection from `source`, if it sends
/// one. `local` is the address at which the connection came in; without it a
/// rule that sends a header cannot serve the connection, and the result is
/// `Err`.
pub fn prelude_for(
    version: Option<ProxyProtocolVersion>,
    source: SocketAddr,
    local: Option<SocketAddr>,
) -> (prelude: Result<Option<ProxyProtocolPrelude>, ()>)
    ensures
        prelude == match (version, local) {
            (None, _) => Ok::<Option<ProxyProtocolPrelude>, ()>(None),
            (Some(version), Some(destination)) => Ok(
                Some(ProxyProtocolPrelude { version, source, destination }),
            ),
            (Some(_), None) => Err(()),
        },
{
    match version {
        None => Ok(None),
        Some(version) => match local {
            Some(destination) => Ok(Some(ProxyProtocolPrelude { version, source, destination })),
            None => Err(()),
        },
    }
}

/// With ascending bounds, a time counts in exactly the buckets whose bound it
/// is within.
pub proof fn law_histogram_is_cumulative(h: HistogramView, elapsed_nanos: u128, i: int)
    requires
        h.wf(),
        forall|a: int, b: int|
            0 <= a <= b < h.bounds_nanos.len() ==> h.bounds_nanos[a] <= h.bounds_nanos[b],
        0 <= i < h.buckets.len(),
    ensures
        h.observed(elapsed_nanos).buckets[i] == (if elapsed_nanos <= h.bounds_nanos[i] {
            h.buckets[i].wrapping_add(1)
        } else {
            h.buckets[i]
        }),
{
    lemma_bucket_index(h.bounds_nanos, elapsed_nanos, 0);
}

proof fn lemma_bucket_index(bounds: Seq<u128>, elapsed: u128, from: int)
    requires
        0 <= from <= bounds.len(),
    ensures
        ({
            let first = bucket_index(bounds, elapsed, from);
            &&& from <= first <= bounds.len()
            &&& forall|i: int| from <= i < first ==> elapsed > #[trigger] bounds[i]
            &&& first < bounds.len() ==> elapsed <= bounds[first]
        }),
    decreases bounds.len() - from,
{
    if from < bounds.len() && elapsed > bounds[from] {
        lemma_bucket_index(bounds, elapsed, from + 1);
    }
}

impl HistogramView {
    /// With these times, one after the other.
    pub open spec fn observed_all(self, times: Seq<u128>) -> HistogramView
        decreases times.len(),
    {
        if times.len() == 0 {
            self
        } else {
            self.observed_all(times.drop_last()).observed(times.last())
        }
    }
}

/// How many of the times are in bucket `j` or in one before it. A time that is
/// within no bound is in none.
pub open spec fn times_within(bounds_nanos: Seq<u128>, times: Seq<u128>, j: int) -> nat
    decreases times.len(),
{
    if times.len() == 0 {
        0
    } else {
        times_within(bounds_nanos, times.drop_last(), j) + (if bucket_index(
            bounds_nanos,
            times.last(),
            0,
        ) <= j {
            1nat
        } else {
            0nat
        })
    }
}

/// All times together, in whole microseconds each.
pub open spec fn micros_total(times: Seq<u128>) -> nat
    decreases times.len(),
{
    if times.len() == 0 {
        0
    } else {
        micros_total(times.drop_last()) + (times.last() / 1000) as nat
    }
}

proof fn lemma_times_within(bounds_nanos: Seq<u128>, times: Seq<u128>, i: int, j: int)
    requires
        i <= j,
    ensures
        times_within(bounds_nanos, times, i) <= times_within(bounds_nanos, times, j) <= times.len(),
    decreases times.len(),
{
    if times.len() > 0 {
        lemma_times_within(bounds_nanos, times.drop_last(), i, j);
    }
}

/// After any run of times a bucket shows how many were in it or in one before
/// it, so that the buckets never go down and none shows more than the count; the
/// sum is that of the times, and the count is their number.
pub proof fn law_histogram_shows_the_run(bounds_nanos: Seq<u128>, times: Seq<u128>)
    requires
        times.len() <= u64::MAX,
        micros_total(times) <= u64::MAX,
    ensures
        ({
            let h = HistogramView::empty(bounds_nanos).observed_all(times);
            &&& h.wf()
            &&& h.bounds_nanos == bounds_nanos
            &&& forall|j: int|
                0 <= j < h.buckets.len() ==> #[trigger] h.buckets[j] == times_within(
                    bounds_nanos,
                    times,
                    j,
                )
            &&& forall|i: int, j: int|
                0 <= i <= j < h.buckets.len() ==> #[trigger] h.buckets[i] <= #[trigger] h.buckets[j]
            &&& forall|j: int| 0 <= j < h.buckets.len() ==> #[trigger] h.buckets[j] <= h.count
            &&& h.sum_micros == micros_total(times)
            &&& h.count == times.len()
        }),
    decreases times.len(),
{
    let h = HistogramView::empty(bounds_nanos).observed_all(times);
    if times.len() > 0 {
        law_histogram_shows_the_run(bounds_nanos, times.drop_last());
        let earlier = HistogramView::empty(bounds_nanos).observed_all(times.drop_last());
        assert forall|j: int| 0 <= j < h.buckets.len() implies #[trigger] h.buckets[j]
            == times_within(bounds_nanos, times, j) by {
            lemma_times_within(bounds_nanos, times.drop_last(), j, j);
            assert(earlier.buckets[j] == times_within(bounds_nanos, times.drop_last(), j));
        }
    }
    assert forall|i: int, j: int| 0 <= i <= j < h.buckets.len() implies #[trigger] h.buckets[i]
        <= #[trigger] h.buckets[j] by {
        lemma_times_within(bounds_nanos, times, i, j);
    }
    assert forall|j: int| 0 <= j < h.buckets.len() implies #[trigger] h.buckets[j] <= h.count by {
        lemma_times_within(bounds_nanos, times, j, j);
    }
}

/// A time counts in the first bucket whose bound it is within and in every one after
/// it, once in the count, and with its whole microseconds in the sum.
pub proof fn law_a_time_is_observed_once(
    histogram: &mut PeekDurationHistogram,
    elapsed_nanos: u128,
    first: int,
    i: int,
    shown: (Vec<u64>, u64, u64),
)
    requires
        histogram@.wf(),
        0 <= first <= histogram@.bounds_nanos.len(),
        forall|k: int| 0 <= k < first ==> elapsed_nanos > #[trigger] histogram@.bounds_nanos[k],
        first < histogram@.bounds_nanos.len() ==> elapsed_nanos <= histogram@.bounds_nanos[first],
        0 <= i < histogram@.buckets.len(),
        call_ensures(PeekDurationHistogram::observe, (histogram, elapsed_nanos), ()),
        call_ensures(PeekDurationHistogram::snapshot, (&*final(histogram),), shown),
    ensures
        final(histogram)@.bounds_nanos == old(histogram)@.bounds_nanos,
        shown.0@.len() == old(histogram)@.buckets.len(),
        i < first ==> shown.0@[i] == old(histogram)@.buckets[i],
        i >= first ==> shown.0@[i] == old(histogram)@.buckets[i].wrapping_add(1),
        elapsed_nanos / 1000 <= u64::MAX ==> shown.1 == old(histogram)@.sum_micros.wrapping_add(
            (elapsed_nanos / 1000) as u64,
        ),
        elapsed_nanos / 1000 > u64::MAX ==> shown.1 == old(histogram)@.sum_micros.wrapping_add(
            u64::MAX,
        ),
        shown.2 == old(histogram)@.count.wrapping_add(1),
        final(histogram)@.buckets == shown.0@,
        final(histogram)@.sum_micros == shown.1,
        final(histogram)@.count == shown.2,
{
    lemma_bucket_index(histogram@.bounds_nanos, elapsed_nanos, 0);
    let found = bucket_index(histogram@.bounds_nanos, elapsed_nanos, 0);
    assert(found == first) by {
        if found < first {
            assert(elapsed_nanos > histogram@.bounds_nanos[found]);
        }
        if first < found {
            assert(elapsed_nanos > histogram@.bounds_nanos[first]);
        }
    }
}

/// New counters show nothing, and a snapshot shows each counter.
pub proof fn law_listener_counters_show_what_was_counted(
    bounds_nanos: Vec<u128>,
    fresh: SniListenerCounters,
    counters: &SniListenerCounters,
    port: u16,
    snap: SniListenerStatsSnapshot,
    i: int,
)
    requires
        call_ensures(SniListenerCounters::new, (bounds_nanos,), fresh),
        call_ensures(SniListenerCounters::snapshot, (counters, port), snap),
        0 <= i < bounds_nanos@.len(),
    ensures
        fresh.miss == 0,
        fresh.parse_failures == 0,
        fresh.peek_capacity_rejections == 0,
        fresh.peek_histogram@.bounds_nanos == bounds_nanos@,
        fresh.peek_histogram@.buckets.len() == bounds_nanos@.len(),
        fresh.peek_histogram@.buckets[i] == 0,
        fresh.peek_histogram@.sum_micros == 0,
        fresh.peek_histogram@.count == 0,
        snap.listen_port == port,
        snap.sni_route_miss_total == counters.miss,
        snap.client_hello_parse_failures_total == counters.parse_failures,
        snap.client_hello_peek_bucket_counts@ == counters.peek_histogram@.buckets,
        snap.client_hello_peek_sum_micros == counters.peek_histogram@.sum_micros,
        snap.client_hello_peek_count == counters.peek_histogram@.count,
{
    assert(fresh@.peek_histogram.bounds_nanos == bounds_nanos@);
    assert(fresh@.peek_histogram.buckets.len() == bounds_nanos@.len());
}

/// A connection is read ahead while fewer are than may be; else it is refused and
/// counted. Nothing else is counted.
pub proof fn law_no_more_are_read_ahead_than_may_be(
    port: u16,
    bounds_nanos: Vec<u128>,
    most: usize,
    fresh: SniListener,
    listener: &mut SniListener,
    peek: bool,
)
    requires
        listener.wf(),
        call_ensures(SniListener::new, (port, bounds_nanos, most), fresh),
        call_ensures(SniListener::accept, (listener,), peek),
    ensures
        fresh.listen_port == port,
        fresh.max_inflight_peeks == most,
        fresh.inflight_peeks == 0,
        fresh.counters.miss == 0,
        fresh.counters.parse_failures == 0,
        fresh.counters.peek_capacity_rejections == 0,
        peek <==> old(listener).inflight_peeks < old(listener).max_inflight_peeks,
        peek ==> final(listener).inflight_peeks == old(listener).inflight_peeks + 1,
        !peek ==> final(listener).inflight_peeks == old(listener).inflight_peeks,
        peek ==> final(listener).counters@ == old(listener).counters@,
        !peek ==> final(listener).counters@ == (CountersView {
            peek_capacity_rejections: old(listener).counters@.peek_capacity_rejections.wrapping_add(1),
            ..old(listener).counters@
        }),
        final(listener).max_inflight_peeks == old(listener).max_inflight_peeks,
        final(listener).listen_port == old(listener).listen_port,
{
    assert(fresh.counters@.miss == 0);
    assert(fresh.counters@.parse_failures == 0);
    assert(fresh.counters@.peek_capacity_rejections == 0);
}

/// A connection that said hello goes to the slot of the rule that the table names,
/// and is counted there by the kind of the match; no other slot and no miss is. A name
/// that leads nowhere, and a rule without a slot, are misses. One connection fewer is
/// being read ahead, and its time is observed once.
pub proof fn law_a_hello_goes_to_the_rule_of_its_name(
    listener: &mut SniListener,
    state: &mut SniDispatchState,
    sni: Option<String>,
    name: Option<&str>,
    elapsed_nanos: u128,
    action: SniAction,
    found: SniMatch,
    at: Option<usize>,
    histogram: &mut PeekDurationHistogram,
    other: int,
)
    requires
        listener.wf(),
        state.wf(),
        sni is Some <==> name is Some,
        sni is Some ==> sni->0@ == name->0@,
        call_ensures(SniRoutingTable::lookup, (&state.table, name), found),
        found matches SniMatch::Hit { rule_id, .. } ==> call_ensures(
            SniRouteResolver::position,
            (&state.resolver, rule_id),
            at,
        ),
        call_ensures(
            SniListener::handle_accept,
            (listener, state, PeekOutcome::Hello { sni }, elapsed_nanos),
            action,
        ),
        histogram@ == listener.counters.peek_histogram@,
        call_ensures(PeekDurationHistogram::observe, (histogram, elapsed_nanos), ()),
        0 <= other < state.resolver.slots@.len(),
    ensures
        ({
            let slots = old(state).resolver.slots@;
            let after = final(state).resolver.slots@;
            let before = old(listener).counters;
            let now = final(listener).counters;
            &&& after.len() == slots.len()
            &&& final(state).table == old(state).table
            &&& now.peek_histogram@ == final(histogram)@
            &&& now.parse_failures == before.parse_failures
            &&& now.peek_capacity_rejections == before.peek_capacity_rejections
            &&& old(listener).inflight_peeks > 0 ==> final(listener).inflight_peeks + 1 == old(listener).inflight_peeks
            &&& final(listener).max_inflight_peeks == old(listener).max_inflight_peeks
            &&& match found {
                SniMatch::Miss => {
                    &&& action == (SniAction::Drop {
                        event: if sni is Some {
                            SniEvent::NoMatch
                        } else {
                            SniEvent::NoSni { fallback_used: false }
                        },
                    })
                    &&& now.miss == before.miss.wrapping_add(1)
                    &&& after[other]@ == slots[other]@
                },
                SniMatch::Hit { rule_id, kind } => match at {
                    None => {
                        &&& action == (SniAction::Drop { event: SniEvent::UnknownRule })
                        &&& now.miss == before.miss.wrapping_add(1)
                        &&& after[other]@ == slots[other]@
                    },
                    Some(slot) => {
                        let (s, t) = (slots[slot as int].stats@, after[slot as int].stats@);
                        &&& action == (SniAction::Dispatch {
                            slot,
                            kind,
                            event: if kind == SniMatchKind::Fallback && sni is None {
                                SniEvent::NoSni { fallback_used: true }
                            } else {
                                SniEvent::Routed
                            },
                        })
                        &&& slots[slot as int].rule_id == rule_id
                        &&& now.miss == before.miss
                        &&& other != slot ==> after[other]@ == slots[other]@
                        &&& after[slot as int]@ == (SlotView { stats: t, ..slots[slot as int]@ })
                        &&& t == (RuleStatsView {
                            sni_route_exact_total: if kind == SniMatchKind::Exact {
                                s.sni_route_exact_total.wrapping_add(1)
                            } else {
                                s.sni_route_exact_total
                            },
                            sni_route_wildcard_total: if kind == SniMatchKind::Wildcard {
                                s.sni_route_wildcard_total.wrapping_add(1)
                            } else {
                                s.sni_route_wildcard_total
                            },
                            sni_route_fallback_total: if kind == SniMatchKind::Fallback {
                                s.sni_route_fallback_total.wrapping_add(1)
                            } else {
                                s.sni_route_fallback_total
                            },
                            ..s
                        })
                    },
                },
            }
        }),
{
    let slots = state.resolver.slot_views();
    let after = final(state).resolver.slot_views();
    assert(final(listener).counters@.peek_histogram == final(listener).counters.peek_histogram@);
    assert(after.len() == slots.len());
    assert(slots[other] == state.resolver.slots@[other]@);
    assert(after[other] == final(state).resolver.slots@[other]@);
    if found is Hit && at is Some {
        lemma_slot_of(slots, found->rule_id, 0);
        let slot = at->0 as int;
        assert(slots[slot] == state.resolver.slots@[slot]@);
        assert(after[slot] == final(state).resolver.slots@[slot]@);
    }
}

/// A client that said nothing in time, or nothing that can be read, is dropped; only
/// the latter counts as a failure, and neither is a miss. No slot changes.
pub proof fn law_silence_and_noise_are_dropped(
    listener: &mut SniListener,
    state: &mut SniDispatchState,
    outcome: PeekOutcome,
    elapsed_nanos: u128,
    action: SniAction,
    histogram: &mut PeekDurationHistogram,
    i: int,
)
    requires
        listener.wf(),
        state.wf(),
        !(outcome is Hello),
        call_ensures(
            SniListener::handle_accept,
            (listener, state, outcome, elapsed_nanos),
            action,
        ),
        histogram@ == listener.counters.peek_histogram@,
        call_ensures(PeekDurationHistogram::observe, (histogram, elapsed_nanos), ()),
        0 <= i < state.resolver.slots@.len(),
    ensures
        outcome is Timeout ==> action == (SniAction::Drop { event: SniEvent::ClientHelloTimeout }),
        outcome is Failed ==> action == (SniAction::Drop { event: SniEvent::ParseFailed }),
        outcome is Timeout ==> final(listener).counters.parse_failures == old(listener).counters.parse_failures,
        outcome is Failed ==> final(listener).counters.parse_failures == old(listener).counters.parse_failures.wrapping_add(1),
        final(listener).counters.miss == old(listener).counters.miss,
        final(listener).counters.peek_capacity_rejections == old(listener).counters.peek_capacity_rejections,
        final(listener).counters.peek_histogram@ == final(histogram)@,
        old(listener).inflight_peeks > 0 ==> final(listener).inflight_peeks + 1 == old(listener).inflight_peeks,
        final(state).resolver.slots@.len() == old(state).resolver.slots@.len(),
        final(state).resolver.slots@[i]@ == old(state).resolver.slots@[i]@,
        final(state).table == old(state).table,
{
    assert(final(listener).counters@.miss == final(listener).counters.miss);
    assert(final(listener).counters@.peek_histogram == final(listener).counters.peek_histogram@);
    assert(final(state).resolver.slot_views().len() == state.resolver.slot_views().len());
    assert(state.resolver.slot_views()[i] == state.resolver.slots@[i]@);
    assert(final(state).resolver.slot_views()[i] == final(state).resolver.slots@[i]@);
}

/// A slot that was put in is found under its rule, and is the only one of the rule.
/// All other rules keep their slots and places.
pub proof fn law_a_slot_is_found_under_its_rule(
    fresh: SniRouteResolver,
    resolver: &mut SniRouteResolver,
    slot: SniRuleSlot,
    had: Option<usize>,
    at: Option<usize>,
    other: RuleId,
    other_had: Option<usize>,
    other_at: Option<usize>,
)
    requires
        resolver.wf(),
        resolver.slots@.len() < usize::MAX,
        other != slot.rule_id,
        call_ensures(SniRouteResolver::new, (), fresh),
        call_ensures(SniRouteResolver::position, (&*resolver, slot.rule_id), had),
        call_ensures(SniRouteResolver::position, (&*resolver, other), other_had),
        call_ensures(SniRouteResolver::insert, (resolver, slot), ()),
        call_ensures(SniRouteResolver::position, (&*final(resolver), slot.rule_id), at),
        call_ensures(SniRouteResolver::position, (&*final(resolver), other), other_at),
    ensures
        fresh.slots@.len() == 0,
        at is Some,
        final(resolver).slots@[at->0 as int]@ == slot@,
        had is Some ==> at == had && final(resolver).slots@.len() == old(resolver).slots@.len(),
        had is None ==> final(resolver).slots@.len() == old(resolver).slots@.len() + 1,
        other_at == other_had,
        other_had matches Some(i) ==> final(resolver).slots@[i as int]@ == old(resolver).slots@[i as int]@ && old(resolver).slots@[i as int].rule_id == other,
        other_had is None ==> forall|i: int|
            0 <= i < old(resolver).slots@.len() ==> (#[trigger] old(resolver).slots@[i]).rule_id
                != other,
{
    let before = resolver.slot_views();
    let after = final(resolver).slot_views();
    lemma_slot_of(before, slot.rule_id, 0);
    lemma_slot_of(after, slot.rule_id, 0);
    lemma_slot_of(before, other, 0);
    lemma_slot_of(after, other, 0);
    assert(fresh.slot_views().len() == 0);
    assert(after.len() == final(resolver).slots@.len());
    assert(before.len() == resolver.slots@.len());
    let put = slot_of(before, slot.rule_id, 0);
    assert(after[put] == slot@);
    law_a_rule_has_one_slot(after, put);
    assert(after[put] == final(resolver).slots@[put]@);
    let o = slot_of(before, other, 0);
    if o < before.len() {
        assert(after[o] == before[o]);
        law_a_rule_has_one_slot(after, o);
        assert(after[o] == final(resolver).slots@[o]@);
        assert(before[o] == resolver.slots@[o]@);
    } else {
        let p = slot_of(after, other, 0);
        if p < after.len() {
            if p < before.len() {
                assert(before[p].rule_id != other);
            }
        }
        assert forall|i: int| 0 <= i < resolver.slots@.len() implies (
        #[trigger] resolver.slots@[i]).rule_id != other by {
            assert(before[i] == resolver.slots@[i]@);
        }
    }
}

/// A routed connection is served by its slot exactly if both limits grant it, and a
/// refusal is counted as for any connection. One that was not routed asks nobody.
pub proof fn law_a_routed_connection_passes_the_limits(
    action: SniAction,
    outcome: LayeredAcquire,
    owner_stats: &mut Option<RateLimitStatsAccumulator>,
    rule_stats: &mut Option<RateLimitStatsAccumulator>,
    serve: Option<usize>,
    owner_alone: &mut Option<RateLimitStatsAccumulator>,
    rule_alone: &mut Option<RateLimitStatsAccumulator>,
    settled: bool,
)
    requires
        *owner_alone == *owner_stats,
        *rule_alone == *rule_stats,
        call_ensures(LayeredAcquire::settle, (outcome, owner_alone, rule_alone), settled),
        call_ensures(admit_routed, (action, outcome, owner_stats, rule_stats), serve),
    ensures
        action matches SniAction::Dispatch { slot, .. } ==> {
            &&& outcome == LayeredAcquire::Granted ==> serve == Some(slot)
            &&& outcome != LayeredAcquire::Granted ==> serve is None
            &&& crate::rate_limit::copy::stats_view(*final(owner_stats))
                == crate::rate_limit::copy::stats_view(*final(owner_alone))
            &&& crate::rate_limit::copy::stats_view(*final(rule_stats))
                == crate::rate_limit::copy::stats_view(*final(rule_alone))
        },
        action is Drop ==> {
            &&& serve is None
            &&& crate::rate_limit::copy::stats_view(*final(owner_stats))
                == crate::rate_limit::copy::stats_view(*old(owner_stats))
            &&& crate::rate_limit::copy::stats_view(*final(rule_stats))
                == crate::rate_limit::copy::stats_view(*old(rule_stats))
        },
{
}

/// A header names the client as its source and the address where the connection came
/// in as its destination. Where none is wanted there is none; where the address is not
/// known there can be none.
pub proof fn law_a_header_names_both_ends(
    version: Option<ProxyProtocolVersion>,
    source: SocketAddr,
    local: Option<SocketAddr>,
    prelude: Result<Option<ProxyProtocolPrelude>, ()>,
)
    requires
        call_ensures(prelude_for, (version, source, local), prelude),
    ensures
        version is None <==> prelude == Ok::<Option<ProxyProtocolPrelude>, ()>(None),
        prelude is Err <==> version is Some && local is None,
        prelude matches Ok(Some(p)) ==> version == Some(p.version) && p.source == source && local
            == Some(p.destination),
{
}

} // verus!

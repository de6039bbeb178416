//! The counters of one rule. They only ever grow, and wrap around at the end
//! of their range.

use std::collections::BTreeMap;

use vstd::prelude::*;

use crate::types::{PortRange, RuleId};

verus! {

/// Why a rate limit turned something away, as it is reported.
#[derive(Clone, Copy, Debug, PartialEq, Eq, Hash, Structural)]
pub enum RateLimitRejectReason {
    Unspecified,
    ConnConcurrent,
    ConnRate,
    UdpFlowRate,
    OwnerConcurrent,
    OwnerConnRate,
    OwnerUdpFlowRate,
}

impl RateLimitRejectReason {
    /// The number under which the reason is reported.
    pub open spec fn spec_index(self) -> usize {
        match self {
            RateLimitRejectReason::Unspecified => 0,
            RateLimitRejectReason::ConnConcurrent => 1,
            RateLimitRejectReason::ConnRate => 2,
            RateLimitRejectReason::UdpFlowRate => 3,
            RateLimitRejectReason::OwnerConcurrent => 4,
            RateLimitRejectReason::OwnerConnRate => 5,
            RateLimitRejectReason::OwnerUdpFlowRate => 6,
        }
    }

    pub fn as_index(self) -> (index: usize)
        ensures
            index == self.spec_index(),
    {
        match self {
            RateLimitRejectReason::Unspecified => 0,
            RateLimitRejectReason::ConnConcurrent => 1,
            RateLimitRejectReason::ConnRate => 2,
            RateLimitRejectReason::UdpFlowRate => 3,
            RateLimitRejectReason::OwnerConcurrent => 4,
            RateLimitRejectReason::OwnerConnRate => 5,
            RateLimitRejectReason::OwnerUdpFlowRate => 6,
        }
    }
}

/// The counters of one port of a rule.
#[derive(Clone, Copy, Debug, PartialEq, Eq, Structural)]
pub struct PerPortCounters {
    pub bytes_in: u64,
    pub bytes_out: u64,
    pub active_connections: u32,
    pub datagrams_in: u64,
    pub datagrams_out: u64,
}

impl PerPortCounters {
    pub open spec fn zero() -> PerPortCounters {
        PerPortCounters {
            bytes_in: 0,
            bytes_out: 0,
            active_connections: 0,
            datagrams_in: 0,
            datagrams_out: 0,
        }
    }
}

impl Default for PerPortCounters {
    fn default() -> (counters: PerPortCounters)
        ensures
            counters == PerPortCounters::zero(),
    {
        PerPortCounters {
            bytes_in: 0,
            bytes_out: 0,
            active_connections: 0,
            datagrams_in: 0,
            datagrams_out: 0,
        }
    }
}

/// Counts of the events that went wrong.
#[derive(Clone, Copy, Debug, PartialEq, Eq, Structural)]
pub struct ErrorCounters {
    /// A listen port could not be bound.
    pub port_in_use: u64,
    /// The socket of a new flow could not be connected.
    pub upstream_connect_failed: u64,
    /// A flow was dropped because its target is unreachable.
    pub icmp_evict: u64,
    /// A datagram was too large for the path.
    pub emsgsize: u64,
    /// A reply was dropped because the socket was not ready.
    pub wouldblock: u64,
    /// A new flow was dropped before it was handed over.
    pub addflow_dropped: u64,
    /// A datagram was dropped because its flow was still being set up.
    pub flows_pending_drops: u64,
}

/// All counts of [`ErrorCounters`] at one moment.
#[derive(Clone, Copy, Debug, PartialEq, Eq, Structural)]
pub struct ErrorSnapshot {
    pub port_in_use: u64,
    pub upstream_connect_failed: u64,
    pub icmp_evict: u64,
    pub emsgsize: u64,
    pub wouldblock: u64,
    pub addflow_dropped: u64,
    pub flows_pending_drops: u64,
}

impl ErrorCounters {
    pub open spec fn zero() -> ErrorCounters {
        ErrorCounters {
            port_in_use: 0,
            upstream_connect_failed: 0,
            icmp_evict: 0,
            emsgsize: 0,
            wouldblock: 0,
            addflow_dropped: 0,
            flows_pending_drops: 0,
        }
    }

    pub fn inc_port_in_use(&mut self)
        ensures
            *final(self) == (ErrorCounters {
                port_in_use: old(self).port_in_use.wrapping_add(1),
                ..*old(self)
            }),
    {
        self.port_in_use = self.port_in_use.wrapping_add(1);
    }

    pub fn inc_upstream_connect_failed(&mut self)
        ensures
            *final(self) == (ErrorCounters {
                upstream_connect_failed: old(self).upstream_connect_failed.wrapping_add(1),
                ..*old(self)
            }),
    {
        self.upstream_connect_failed = self.upstream_connect_failed.wrapping_add(1);
    }

    pub fn inc_icmp_evict(&mut self)
        ensures
            *final(self) == (ErrorCounters {
                icmp_evict: old(self).icmp_evict.wrapping_add(1),
                ..*old(self)
            }),
    {
        self.icmp_evict = self.icmp_evict.wrapping_add(1);
    }

    pub fn inc_emsgsize(&mut self)
        ensures
            *final(self) == (ErrorCounters {
                emsgsize: old(self).emsgsize.wrapping_add(1),
                ..*old(self)
            }),
    {
        self.emsgsize = self.emsgsize.wrapping_add(1);
    }

    pub fn inc_wouldblock(&mut self)
        ensures
            *final(self) == (ErrorCounters {
                wouldblock: old(self).wouldblock.wrapping_add(1),
                ..*old(self)
            }),
    {
        self.wouldblock = self.wouldblock.wrapping_add(1);
    }

    pub fn inc_addflow_dropped(&mut self)
        ensures
            *final(self) == (ErrorCounters {
                addflow_dropped: old(self).addflow_dropped.wrapping_add(1),
                ..*old(self)
            }),
    {
        self.addflow_dropped = self.addflow_dropped.wrapping_add(1);
    }

    pub fn inc_flows_pending_drops(&mut self)
        ensures
            *final(self) == (ErrorCounters {
                flows_pending_drops: old(self).flows_pending_drops.wrapping_add(1),
                ..*old(self)
            }),
    {
        self.flows_pending_drops = self.flows_pending_drops.wrapping_add(1);
    }

    pub fn snapshot(&self) -> (counts: ErrorSnapshot)
        ensures
            counts.port_in_use == self.port_in_use,
            counts.upstream_connect_failed == self.upstream_connect_failed,
            counts.icmp_evict == self.icmp_evict,
            counts.emsgsize == self.emsgsize,
            counts.wouldblock == self.wouldblock,
            counts.addflow_dropped == self.addflow_dropped,
            counts.flows_pending_drops == self.flows_pending_drops,
    {
        ErrorSnapshot {
            port_in_use: self.port_in_use,
            upstream_connect_failed: self.upstream_connect_failed,
            icmp_evict: self.icmp_evict,
            emsgsize: self.emsgsize,
            wouldblock: self.wouldblock,
            addflow_dropped: self.addflow_dropped,
            flows_pending_drops: self.flows_pending_drops,
        }
    }
}

impl Default for ErrorCounters {
    fn default() -> (counters: ErrorCounters)
        ensures
            counters == ErrorCounters::zero(),
    {
        ErrorCounters {
            port_in_use: 0,
            upstream_connect_failed: 0,
            icmp_evict: 0,
            emsgsize: 0,
            wouldblock: 0,
            addflow_dropped: 0,
            flows_pending_drops: 0,
        }
    }
}

/// The counters of one rule.
#[derive(Debug)]
pub struct RuleStats {
    /// Bytes from clients.
    pub bytes_in: u64,
    /// Bytes to clients.
    pub bytes_out: u64,
    /// Connections that are open.
    pub active_connections: u32,
    /// Connections that were admitted.
    pub connections_total: u64,
    /// What went wrong.
    pub errors: ErrorCounters,
    /// Connections and flows that failed for want of an address.
    pub dns_failures: u64,
    /// Datagrams from clients.
    pub datagrams_in: u64,
    /// Datagrams to clients.
    pub datagrams_out: u64,
    /// Flows that are open.
    pub active_flows: u32,
    /// New flows that found no room.
    pub flows_dropped_overflow: u64,
    /// The counters of each port of the rule.
    pub per_port: BTreeMap<u16, PerPortCounters>,
    /// Connections routed by an exact server name.
    pub sni_route_exact_total: u64,
    /// Connections routed by a wildcard.
    pub sni_route_wildcard_total: u64,
    /// Connections routed by the fallback.
    pub sni_route_fallback_total: u64,
    /// Changes of a target between healthy and failed.
    pub target_failovers_total: u64,
}

/// The counters of one rule, as a mathematical value.
#[verifier::ext_equal]
pub struct RuleStatsView {
    pub bytes_in: u64,
    pub bytes_out: u64,
    pub active_connections: u32,
    pub connections_total: u64,
    pub errors: ErrorCounters,
    pub dns_failures: u64,
    pub datagrams_in: u64,
    pub datagrams_out: u64,
    pub active_flows: u32,
    pub flows_dropped_overflow: u64,
    pub per_port: Map<u16, PerPortCounters>,
    pub sni_route_exact_total: u64,
    pub sni_route_wildcard_total: u64,
    pub sni_route_fallback_total: u64,
    pub target_failovers_total: u64,
}

impl View for RuleStats {
    type V = RuleStatsView;

    open spec fn view(&self) -> RuleStatsView {
        RuleStatsView {
            bytes_in: self.bytes_in,
            bytes_out: self.bytes_out,
            active_connections: self.active_connections,
            connections_total: self.connections_total,
            errors: self.errors,
            dns_failures: self.dns_failures,
            datagrams_in: self.datagrams_in,
            datagrams_out: self.datagrams_out,
            active_flows: self.active_flows,
            flows_dropped_overflow: self.flows_dropped_overflow,
            per_port: self.per_port@,
            sni_route_exact_total: self.sni_route_exact_total,
            sni_route_wildcard_total: self.sni_route_wildcard_total,
            sni_route_fallback_total: self.sni_route_fallback_total,
            target_failovers_total: self.target_failovers_total,
        }
    }
}

impl RuleStatsView {
    /// All zero, with a set of counters for each port for which `counted`
    /// holds.
    pub open spec fn zero(counted: spec_fn(u16) -> bool) -> RuleStatsView {
        RuleStatsView {
            bytes_in: 0,
            bytes_out: 0,
            active_connections: 0,
            connections_total: 0,
            errors: ErrorCounters::zero(),
            dns_failures: 0,
            datagrams_in: 0,
            datagrams_out: 0,
            active_flows: 0,
            flows_dropped_overflow: 0,
            per_port: Map::new(counted, |port: u16| PerPortCounters::zero()),
            sni_route_exact_total: 0,
            sni_route_wildcard_total: 0,
            sni_route_fallback_total: 0,
            target_failovers_total: 0,
        }
    }

    /// The counters of the ports, with those of `port` replaced if it has any.
    pub open spec fn with_port(self, port: u16, counters: PerPortCounters) -> Map<
        u16,
        PerPortCounters,
    > {
        if self.per_port.contains_key(port) {
            self.per_port.insert(port, counters)
        } else {
            self.per_port
        }
    }

    /// After `n` bytes from a client on `port`. Only the totals count a port
    /// that has no counters of its own.
    pub open spec fn after_in(self, port: u16, n: u64) -> RuleStatsView {
        let c = self.per_port[port];
        RuleStatsView {
            bytes_in: self.bytes_in.wrapping_add(n),
            per_port: self.with_port(
                port,
                PerPortCounters { bytes_in: c.bytes_in.wrapping_add(n), ..c },
            ),
            ..self
        }
    }

    /// After `n` bytes to a client on `port`.
    pub open spec fn after_out(self, port: u16, n: u64) -> RuleStatsView {
        let c = self.per_port[port];
        RuleStatsView {
            bytes_out: self.bytes_out.wrapping_add(n),
            per_port: self.with_port(
                port,
                PerPortCounters { bytes_out: c.bytes_out.wrapping_add(n), ..c },
            ),
            ..self
        }
    }

    /// After a datagram of `n` bytes from a client on `port`.
    pub open spec fn after_datagram_in(self, port: u16, n: u64) -> RuleStatsView {
        let c = self.per_port[port];
        RuleStatsView {
            bytes_in: self.bytes_in.wrapping_add(n),
            datagrams_in: self.datagrams_in.wrapping_add(1),
            per_port: self.with_port(
                port,
                PerPortCounters {
                    bytes_in: c.bytes_in.wrapping_add(n),
                    datagrams_in: c.datagrams_in.wrapping_add(1),
                    ..c
                },
            ),
            ..self
        }
    }

    /// After a datagram of `n` bytes to a client on `port`.
    pub open spec fn after_datagram_out(self, port: u16, n: u64) -> RuleStatsView {
        let c = self.per_port[port];
        RuleStatsView {
            bytes_out: self.bytes_out.wrapping_add(n),
            datagrams_out: self.datagrams_out.wrapping_add(1),
            per_port: self.with_port(
                port,
                PerPortCounters {
                    bytes_out: c.bytes_out.wrapping_add(n),
                    datagrams_out: c.datagrams_out.wrapping_add(1),
                    ..c
                },
            ),
            ..self
        }
    }

    /// After a connection on `port` was opened.
    pub open spec fn after_open(self, port: u16) -> RuleStatsView {
        let c = self.per_port[port];
        RuleStatsView {
            active_connections: self.active_connections.wrapping_add(1),
            per_port: self.with_port(
                port,
                PerPortCounters {
                    active_connections: c.active_connections.wrapping_add(1),
                    ..c
                },
            ),
            ..self
        }
    }

    /// After a connection on `port` was closed.
    pub open spec fn after_close(self, port: u16) -> RuleStatsView {
        let c = self.per_port[port];
        RuleStatsView {
            active_connections: self.active_connections.wrapping_sub(1),
            per_port: self.with_port(
                port,
                PerPortCounters {
                    active_connections: c.active_connections.wrapping_sub(1),
                    ..c
                },
            ),
            ..self
        }
    }
}

/// One port of a rule at one moment.
#[derive(Clone, Copy, Debug, PartialEq, Eq, Structural)]
pub struct PerPortStatsSnapshot {
    pub listen_port: u16,
    pub bytes_in: u64,
    pub bytes_out: u64,
    pub active_connections: u32,
    pub datagrams_in: u64,
    pub datagrams_out: u64,
}

/// Whether connections go to a target.
#[derive(Clone, Copy, Debug, PartialEq, Eq, Structural)]
pub enum TargetHealth {
    Healthy,
    Failed,
}

impl TargetHealth {
    pub open spec fn spec_wire(self) -> u32 {
        match self {
            TargetHealth::Healthy => 0,
            TargetHealth::Failed => 1,
        }
    }

    /// The number under which the health is reported.
    pub fn as_wire(self) -> (number: u32)
        ensures
            number == self.spec_wire(),
    {
        match self {
            TargetHealth::Healthy => 0,
            TargetHealth::Failed => 1,
        }
    }
}

impl Default for TargetHealth {
    fn default() -> (health: TargetHealth)
        ensures
            health == TargetHealth::Healthy,
    {
        TargetHealth::Healthy
    }
}

/// One target of a rule at one moment.
#[derive(Clone, Debug)]
pub struct PerTargetStatsSnapshot {
    pub index: u32,
    pub host: String,
    pub port: u16,
    pub priority: u32,
    pub health: TargetHealth,
    pub consecutive_failures: u32,
    pub last_failure_at_unix_ms: u64,
    pub last_success_at_unix_ms: u64,
    pub bytes_in: u64,
    pub bytes_out: u64,
    pub connections_accepted: u64,
}

/// A rate limit at one moment.
#[derive(Clone, Debug)]
pub struct RateLimitStatsSnapshot {
    pub reject_total: Vec<(RateLimitRejectReason, u64)>,
    pub throttle_micros_in: u64,
    pub throttle_micros_out: u64,
    pub active_connections: u32,
}

/// The rate limit of an owner at one moment.
#[derive(Clone, Debug)]
pub struct OwnerRateLimitStatsSnapshot {
    pub owner_id: String,
    pub stats: RateLimitStatsSnapshot,
}

/// A listener that routes by server name at one moment.
#[derive(Clone, Debug)]
pub struct SniListenerStatsSnapshot {
    pub listen_port: u16,
    pub sni_route_miss_total: u64,
    pub client_hello_parse_failures_total: u64,
    /// How many peeks took no longer than each bound.
    pub client_hello_peek_bucket_counts: Vec<u64>,
    pub client_hello_peek_sum_micros: u64,
    pub client_hello_peek_count: u64,
}

/// The counters that [`RuleStats`] holds, at one moment.
#[derive(Clone, Debug)]
pub struct RuleStatsSnapshotBasic {
    pub bytes_in: u64,
    pub bytes_out: u64,
    pub active_connections: u32,
    pub per_port: Vec<PerPortStatsSnapshot>,
    pub dns_failures: u64,
    pub datagrams_in: u64,
    pub datagrams_out: u64,
    pub active_flows: u32,
    pub flows_dropped_overflow: u64,
    pub sni_route_exact_total: u64,
    pub sni_route_wildcard_total: u64,
    pub sni_route_fallback_total: u64,
}

/// Everything that is reported of a rule, at one moment.
#[derive(Clone, Debug)]
pub struct RuleStatsSnapshot {
    pub rule_id: RuleId,
    pub bytes_in: u64,
    pub bytes_out: u64,
    pub active_connections: u32,
    pub per_port: Vec<PerPortStatsSnapshot>,
    pub dns_failures: u64,
    pub datagrams_in: u64,
    pub datagrams_out: u64,
    pub active_flows: u32,
    pub flows_dropped_overflow: u64,
    pub target_failovers_total: u64,
    pub per_target: Vec<PerTargetStatsSnapshot>,
    pub sni_route_exact_total: u64,
    pub sni_route_wildcard_total: u64,
    pub sni_route_fallback_total: u64,
    pub rate_limit: Option<RateLimitStatsSnapshot>,
}

/// `row` shows the counters `c` of `port`.
pub open spec fn shows_port(row: PerPortStatsSnapshot, port: u16, c: PerPortCounters) -> bool {
    &&& row.listen_port == port
    &&& row.bytes_in == c.bytes_in
    &&& row.bytes_out == c.bytes_out
    &&& row.active_connections == c.active_connections
    &&& row.datagrams_in == c.datagrams_in
    &&& row.datagrams_out == c.datagrams_out
}

/// `rows` shows every port once, in the order of the ports.
pub open spec fn shows_ports(
    rows: Seq<PerPortStatsSnapshot>,
    ports: Map<u16, PerPortCounters>,
) -> bool {
    &&& forall|i: int, j: int|
        0 <= i < j < rows.len() ==> (#[trigger] rows[i]).listen_port < (
        #[trigger] rows[j]).listen_port
    &&& forall|i: int|
        0 <= i < rows.len() ==> ports.contains_key((#[trigger] rows[i]).listen_port) && shows_port(
            rows[i],
            rows[i].listen_port,
            ports[rows[i].listen_port],
        )
    &&& forall|port: u16| #[trigger]
        ports.contains_key(port) ==> exists|i: int|
            0 <= i < rows.len() && (#[trigger] rows[i]).listen_port == port
}

impl RuleStats {
    /// No counters but the totals.
    pub fn new() -> (stats: RuleStats)
        ensures
            stats@ =~= RuleStatsView::zero(|port: u16| false),
    {
        RuleStats {
            bytes_in: 0,
            bytes_out: 0,
            active_connections: 0,
            connections_total: 0,
            errors: ErrorCounters::default(),
            dns_failures: 0,
            datagrams_in: 0,
            datagrams_out: 0,
            active_flows: 0,
            flows_dropped_overflow: 0,
            per_port: BTreeMap::new(),
            sni_route_exact_total: 0,
            sni_route_wildcard_total: 0,
            sni_route_fallback_total: 0,
            target_failovers_total: 0,
        }
    }

    /// Counters for each port of the range, and the totals.
    pub fn for_range(range: PortRange) -> (stats: RuleStats)
        ensures
            stats@ =~= RuleStatsView::zero(|port: u16| range.spec_contains(port as int)),
    {
        let mut stats = RuleStats::new();
        let start: u16 = range.start();
        let end: u16 = range.end();
        let mut port: u16 = start;
        loop
            invariant_except_break
                start <= port <= end,
                start == range.first(),
                end == range.last(),
                stats@ =~= RuleStatsView::zero(|p: u16| start <= p && p < port),
            ensures
                stats@ =~= RuleStatsView::zero(|p: u16| start <= p && p <= end),
            decreases end - port,
        {
            stats.per_port.insert(port, PerPortCounters::default());
            if port == end {
                break;
            }
            port = port + 1;
        }
        stats
    }

    /// Counts a datagram of `n` bytes from a client on `port`.
    pub fn inc_datagram_in(&mut self, port: u16, n: u64)
        ensures
            final(self)@ =~= old(self)@.after_datagram_in(port, n),
    {
        self.datagrams_in = self.datagrams_in.wrapping_add(1);
        self.bytes_in = self.bytes_in.wrapping_add(n);
        let slot = match self.per_port.get(&port) {
            Some(slot) => Some(*slot),
            None => None,
        };
        if let Some(mut slot) = slot {
            slot.datagrams_in = slot.datagrams_in.wrapping_add(1);
            slot.bytes_in = slot.bytes_in.wrapping_add(n);
            self.per_port.insert(port, slot);
        }
    }

    /// Counts a datagram of `n` bytes to a client on `port`.
    pub fn inc_datagram_out(&mut self, port: u16, n: u64)
        ensures
            final(self)@ =~= old(self)@.after_datagram_out(port, n),
    {
        self.datagrams_out = self.datagrams_out.wrapping_add(1);
        self.bytes_out = self.bytes_out.wrapping_add(n);
        let slot = match self.per_port.get(&port) {
            Some(slot) => Some(*slot),
            None => None,
        };
        if let Some(mut slot) = slot {
            slot.datagrams_out = slot.datagrams_out.wrapping_add(1);
            slot.bytes_out = slot.bytes_out.wrapping_add(n);
            self.per_port.insert(port, slot);
        }
    }

    /// Counts `n` bytes from a client on `port`.
    pub fn record_in(&mut self, port: u16, n: u64)
        ensures
            final(self)@ =~= old(self)@.after_in(port, n),
    {
        self.bytes_in = self.bytes_in.wrapping_add(n);
        let slot = match self.per_port.get(&port) {
            Some(slot) => Some(*slot),
            None => None,
        };
        if let Some(mut slot) = slot {
            slot.bytes_in = slot.bytes_in.wrapping_add(n);
            self.per_port.insert(port, slot);
        }
    }

    /// Counts `n` bytes to a client on `port`.
    pub fn record_out(&mut self, port: u16, n: u64)
        ensures
            final(self)@ =~= old(self)@.after_out(port, n),
    {
        self.bytes_out = self.bytes_out.wrapping_add(n);
        let slot = match self.per_port.get(&port) {
            Some(slot) => Some(*slot),
            None => None,
        };
        if let Some(mut slot) = slot {
            slot.bytes_out = slot.bytes_out.wrapping_add(n);
            self.per_port.insert(port, slot);
        }
    }

    /// Counts a connection on `port` that was opened.
    pub fn inc_active(&mut self, port: u16)
        ensures
            final(self)@ =~= old(self)@.after_open(port),
    {
        self.active_connections = self.active_connections.wrapping_add(1);
        let slot = match self.per_port.get(&port) {
            Some(slot) => Some(*slot),
            None => None,
        };
        if let Some(mut slot) = slot {
            slot.active_connections = slot.active_connections.wrapping_add(1);
            self.per_port.insert(port, slot);
        }
    }

    /// Counts a connection on `port` that was closed.
    pub fn dec_active(&mut self, port: u16)
        ensures
            final(self)@ =~= old(self)@.after_close(port),
    {
        self.active_connections = self.active_connections.wrapping_sub(1);
        let slot = match self.per_port.get(&port) {
            Some(slot) => Some(*slot),
            None => None,
        };
        if let Some(mut slot) = slot {
            slot.active_connections = slot.active_connections.wrapping_sub(1);
            self.per_port.insert(port, slot);
        }
    }

    /// Replaces the number of open flows.
    pub fn set_active_flows(&mut self, n: u32)
        ensures
            final(self)@ =~= (RuleStatsView { active_flows: n, ..old(self)@ }),
    {
        self.active_flows = n;
    }

    /// Counts a new flow that found no room.
    pub fn inc_flow_dropped_overflow(&mut self)
        ensures
            final(self)@ =~= (RuleStatsView {
                flows_dropped_overflow: old(self)@.flows_dropped_overflow.wrapping_add(1),
                ..old(self)@
            }),
    {
        self.flows_dropped_overflow = self.flows_dropped_overflow.wrapping_add(1);
    }

    /// Counts a connection that was admitted.
    pub fn inc_connection(&mut self)
        ensures
            final(self)@ =~= (RuleStatsView {
                connections_total: old(self)@.connections_total.wrapping_add(1),
                ..old(self)@
            }),
    {
        self.connections_total = self.connections_total.wrapping_add(1);
    }

    /// Counts a connection or a flow that failed for want of an address.
    pub fn inc_dns_failure(&mut self)
        ensures
            final(self)@ =~= (RuleStatsView {
                dns_failures: old(self)@.dns_failures.wrapping_add(1),
                ..old(self)@
            }),
    {
        self.dns_failures = self.dns_failures.wrapping_add(1);
    }

    /// Datagrams from clients.
    pub fn snapshot_datagrams_in(&self) -> (count: u64)
        ensures
            count == self@.datagrams_in,
    {
        self.datagrams_in
    }

    /// Datagrams to clients.
    pub fn snapshot_datagrams_out(&self) -> (count: u64)
        ensures
            count == self@.datagrams_out,
    {
        self.datagrams_out
    }

    /// Flows that are open.
    pub fn snapshot_active_flows(&self) -> (count: u32)
        ensures
            count == self@.active_flows,
    {
        self.active_flows
    }

    /// New flows that found no room.
    pub fn snapshot_flows_dropped_overflow(&self) -> (count: u64)
        ensures
            count == self@.flows_dropped_overflow,
    {
        self.flows_dropped_overflow
    }

    /// Failures for want of an address.
    pub fn snapshot_dns_failures(&self) -> (count: u64)
        ensures
            count == self@.dns_failures,
    {
        self.dns_failures
    }

    /// Bytes from clients, bytes to clients, open connections.
    pub fn snapshot(&self) -> (totals: (u64, u64, u32))
        ensures
            totals == (self@.bytes_in, self@.bytes_out, self@.active_connections),
    {
        (self.bytes_in, self.bytes_out, self.active_connections)
    }

    /// The counters of every port, in the order of the ports.
    fn port_rows(&self) -> (rows: Vec<PerPortStatsSnapshot>)
        ensures
            shows_ports(rows@, self@.per_port),
    {
        let mut rows: Vec<PerPortStatsSnapshot> = Vec::new();
        let entries = self.per_port.iter();
        let ghost all = vstd::std_specs::iter::IteratorSpec::remaining(&entries);
        let ghost keys = all.map_values(|kv: (&u16, &PerPortCounters)| *kv.0);
        proof {
            assert(vstd::laws_cmp::obeys_cmp::<u16>());
            assert(vstd::std_specs::btree::key_obeys_cmp_spec::<u16>());
            assert(vstd::std_specs::btree::increasing_seq(keys));
            assert forall|i: int, j: int| 0 <= i < j < all.len() implies *all[i].0 < *all[j].0 by {
                assert(vstd::std_specs::cmp::OrdSpec::cmp_spec(&keys[i], &keys[j]) is Less);
            }
        }
        for (port, c) in it: entries
            invariant
                it.seq() == all,
                rows@.len() == it.index(),
                forall|i: int|
                    0 <= i < rows@.len() ==> shows_port(
                        #[trigger] rows@[i],
                        *it.seq()[i].0,
                        *it.seq()[i].1,
                    ),
        {
            rows.push(
                PerPortStatsSnapshot {
                    listen_port: *port,
                    bytes_in: c.bytes_in,
                    bytes_out: c.bytes_out,
                    active_connections: c.active_connections,
                    datagrams_in: c.datagrams_in,
                    datagrams_out: c.datagrams_out,
                },
            );
        }
        proof {
            assert forall|port: u16| #[trigger] self@.per_port.contains_key(port) implies exists|
                i: int,
            | 0 <= i < rows@.len() && (#[trigger] rows@[i]).listen_port == port by {
                let pair = (&port, &self.per_port@[port]);
                assert(all.contains(pair));
                let i = choose|i: int| 0 <= i < all.len() && all[i] == pair;
                assert(rows@[i].listen_port == port);
            }
        }
        rows
    }

    /// Of every port, in the order of the ports: the port, bytes from and to
    /// clients, open connections, datagrams from and to clients.
    pub fn snapshot_per_port_with_udp(&self) -> (table: Vec<(u16, u64, u64, u32, u64, u64)>)
        ensures
            exists|rows: Seq<PerPortStatsSnapshot>| #[trigger]
                shows_ports(rows, self@.per_port) && table@ =~= rows.map_values(
                    |row: PerPortStatsSnapshot|
                        (
                            row.listen_port,
                            row.bytes_in,
                            row.bytes_out,
                            row.active_connections,
                            row.datagrams_in,
                            row.datagrams_out,
                        ),
                ),
    {
        let rows = self.port_rows();
        let mut table: Vec<(u16, u64, u64, u32, u64, u64)> = Vec::new();
        let mut i: usize = 0;
        while i < rows.len()
            invariant
                i <= rows@.len(),
                table@ =~= rows@.take(i as int).map_values(
                    |row: PerPortStatsSnapshot|
                        (
                            row.listen_port,
                            row.bytes_in,
                            row.bytes_out,
                            row.active_connections,
                            row.datagrams_in,
                            row.datagrams_out,
                        ),
                ),
            decreases rows@.len() - i,
        {
            let row = rows[i];
            table.push(
                (
                    row.listen_port,
                    row.bytes_in,
                    row.bytes_out,
                    row.active_connections,
                    row.datagrams_in,
                    row.datagrams_out,
                ),
            );
            i = i + 1;
        }
        assert(rows@.take(i as int) =~= rows@);
        table
    }

    /// Of every port, in the order of the ports: the port, bytes from and to
    /// clients, open connections.
    pub fn snapshot_per_port(&self) -> (table: Vec<(u16, u64, u64, u32)>)
        ensures
            exists|rows: Seq<PerPortStatsSnapshot>| #[trigger]
                shows_ports(rows, self@.per_port) && table@ =~= rows.map_values(
                    |row: PerPortStatsSnapshot|
                        (row.listen_port, row.bytes_in, row.bytes_out, row.active_connections),
                ),
    {
        let rows = self.port_rows();
        let mut table: Vec<(u16, u64, u64, u32)> = Vec::new();
        let mut i: usize = 0;
        while i < rows.len()
            invariant
                i <= rows@.len(),
                table@ =~= rows@.take(i as int).map_values(
                    |row: PerPortStatsSnapshot|
                        (row.listen_port, row.bytes_in, row.bytes_out, row.active_connections),
                ),
            decreases rows@.len() - i,
        {
            let row = rows[i];
            table.push((row.listen_port, row.bytes_in, row.bytes_out, row.active_connections));
            i = i + 1;
        }
        assert(rows@.take(i as int) =~= rows@);
        table
    }

    /// All counters that are kept here.
    pub fn snapshot_basic(&self) -> (snap: RuleStatsSnapshotBasic)
        ensures
            snap.bytes_in == self@.bytes_in,
            snap.bytes_out == self@.bytes_out,
            snap.active_connections == self@.active_connections,
            shows_ports(snap.per_port@, self@.per_port),
            snap.dns_failures == self@.dns_failures,
            snap.datagrams_in == self@.datagrams_in,
            snap.datagrams_out == self@.datagrams_out,
            snap.active_flows == self@.active_flows,
            snap.flows_dropped_overflow == self@.flows_dropped_overflow,
            snap.sni_route_exact_total == self@.sni_route_exact_total,
            snap.sni_route_wildcard_total == self@.sni_route_wildcard_total,
            snap.sni_route_fallback_total == self@.sni_route_fallback_total,
    {
        let (bytes_in, bytes_out, active_connections) = self.snapshot();
        RuleStatsSnapshotBasic {
            bytes_in,
            bytes_out,
            active_connections,
            per_port: self.port_rows(),
            dns_failures: self.snapshot_dns_failures(),
            datagrams_in: self.snapshot_datagrams_in(),
            datagrams_out: self.snapshot_datagrams_out(),
            active_flows: self.snapshot_active_flows(),
            flows_dropped_overflow: self.snapshot_flows_dropped_overflow(),
            sni_route_exact_total: self.sni_route_exact_total,
            sni_route_wildcard_total: self.sni_route_wildcard_total,
            sni_route_fallback_total: self.sni_route_fallback_total,
        }
    }
}

/// The sum of `f` over the counters of the ports below `upto`.
pub open spec fn port_total(
    ports: Map<u16, PerPortCounters>,
    f: spec_fn(PerPortCounters) -> int,
    upto: nat,
) -> int
    decreases upto,
{
    if upto == 0 {
        0
    } else {
        let port = (upto - 1) as u16;
        port_total(ports, f, (upto - 1) as nat) + (if ports.contains_key(port) {
            f(ports[port])
        } else {
            0
        })
    }
}

/// The number of ports there are.
pub const PORT_COUNT: u32 = 65536;

/// The totals of the rule are the sums over its ports.
pub open spec fn totals_are_port_sums(stats: RuleStatsView) -> bool {
    let all = PORT_COUNT as nat;
    &&& stats.bytes_in == port_total(stats.per_port, |c: PerPortCounters| c.bytes_in as int, all)
    &&& stats.bytes_out == port_total(stats.per_port, |c: PerPortCounters| c.bytes_out as int, all)
    &&& stats.active_connections == port_total(
        stats.per_port,
        |c: PerPortCounters| c.active_connections as int,
        all,
    )
    &&& stats.datagrams_in == port_total(
        stats.per_port,
        |c: PerPortCounters| c.datagrams_in as int,
        all,
    )
    &&& stats.datagrams_out == port_total(
        stats.per_port,
        |c: PerPortCounters| c.datagrams_out as int,
        all,
    )
}

proof fn lemma_port_total_insert(
    ports: Map<u16, PerPortCounters>,
    f: spec_fn(PerPortCounters) -> int,
    port: u16,
    c: PerPortCounters,
    upto: nat,
)
    requires
        ports.contains_key(port),
        upto <= PORT_COUNT,
    ensures
        port_total(ports.insert(port, c), f, upto) == port_total(ports, f, upto) + (if port < upto {
            f(c) - f(ports[port])
        } else {
            0
        }),
    decreases upto,
{
    if upto > 0 {
        lemma_port_total_insert(ports, f, port, c, (upto - 1) as nat);
    }
}

proof fn lemma_port_total_bounds(
    ports: Map<u16, PerPortCounters>,
    f: spec_fn(PerPortCounters) -> int,
    port: u16,
    upto: nat,
)
    requires
        forall|c: PerPortCounters| #[trigger] f(c) >= 0,
        upto <= PORT_COUNT,
    ensures
        port_total(ports, f, upto) >= 0,
        ports.contains_key(port) && port < upto ==> f(ports[port]) <= port_total(ports, f, upto),
    decreases upto,
{
    if upto > 0 {
        lemma_port_total_bounds(ports, f, port, (upto - 1) as nat);
    }
}

proof fn lemma_port_total_zero(counted: spec_fn(u16) -> bool, f: spec_fn(PerPortCounters) -> int, upto: nat)
    requires
        f(PerPortCounters::zero()) == 0,
        upto <= PORT_COUNT,
    ensures
        port_total(RuleStatsView::zero(counted).per_port, f, upto) == 0,
    decreases upto,
{
    if upto > 0 {
        lemma_port_total_zero(counted, f, (upto - 1) as nat);
    }
}

/// At first all totals are the sums over the ports.
pub proof fn law_totals_start_as_port_sums(counted: spec_fn(u16) -> bool)
    ensures
        totals_are_port_sums(RuleStatsView::zero(counted)),
{
    let all = PORT_COUNT as nat;
    lemma_port_total_zero(counted, |c: PerPortCounters| c.bytes_in as int, all);
    lemma_port_total_zero(counted, |c: PerPortCounters| c.bytes_out as int, all);
    lemma_port_total_zero(counted, |c: PerPortCounters| c.active_connections as int, all);
    lemma_port_total_zero(counted, |c: PerPortCounters| c.datagrams_in as int, all);
    lemma_port_total_zero(counted, |c: PerPortCounters| c.datagrams_out as int, all);
}

/// Whatever is counted on a port of the rule, the totals stay the sums over the
/// ports, as long as no total wraps around and no connection is closed that was
/// not open.
pub proof fn law_totals_stay_port_sums(stats: RuleStatsView, port: u16, n: u64)
    requires
        totals_are_port_sums(stats),
        stats.per_port.contains_key(port),
    ensures
        stats.bytes_in + n <= u64::MAX ==> totals_are_port_sums(stats.after_in(port, n)),
        stats.bytes_out + n <= u64::MAX ==> totals_are_port_sums(stats.after_out(port, n)),
        stats.bytes_in + n <= u64::MAX && stats.datagrams_in < u64::MAX ==> totals_are_port_sums(
            stats.after_datagram_in(port, n),
        ),
        stats.bytes_out + n <= u64::MAX && stats.datagrams_out < u64::MAX ==> totals_are_port_sums(
            stats.after_datagram_out(port, n),
        ),
        stats.active_connections < u32::MAX ==> totals_are_port_sums(stats.after_open(port)),
        stats.per_port[port].active_connections > 0 ==> totals_are_port_sums(
            stats.after_close(port),
        ),
{
    let f_in = |c: PerPortCounters| c.bytes_in as int;
    let f_out = |c: PerPortCounters| c.bytes_out as int;
    let f_active = |c: PerPortCounters| c.active_connections as int;
    let f_dg_in = |c: PerPortCounters| c.datagrams_in as int;
    let f_dg_out = |c: PerPortCounters| c.datagrams_out as int;
    let all = PORT_COUNT as nat;
    lemma_port_total_bounds(stats.per_port, f_in, port, all);
    lemma_port_total_bounds(stats.per_port, f_out, port, all);
    lemma_port_total_bounds(stats.per_port, f_active, port, all);
    lemma_port_total_bounds(stats.per_port, f_dg_in, port, all);
    lemma_port_total_bounds(stats.per_port, f_dg_out, port, all);
    assert forall|c: PerPortCounters| #![trigger stats.per_port.insert(port, c)] true implies ({
        &&& port_total(stats.per_port.insert(port, c), f_in, all) == port_total(
            stats.per_port,
            f_in,
            all,
        ) + c.bytes_in - stats.per_port[port].bytes_in
        &&& port_total(stats.per_port.insert(port, c), f_out, all) == port_total(
            stats.per_port,
            f_out,
            all,
        ) + c.bytes_out - stats.per_port[port].bytes_out
        &&& port_total(stats.per_port.insert(port, c), f_active, all) == port_total(
            stats.per_port,
            f_active,
            all,
        ) + c.active_connections - stats.per_port[port].active_connections
        &&& port_total(stats.per_port.insert(port, c), f_dg_in, all) == port_total(
            stats.per_port,
            f_dg_in,
            all,
        ) + c.datagrams_in - stats.per_port[port].datagrams_in
        &&& port_total(stats.per_port.insert(port, c), f_dg_out, all) == port_total(
            stats.per_port,
            f_dg_out,
            all,
        ) + c.datagrams_out - stats.per_port[port].datagrams_out
    }) by {
        lemma_port_total_insert(stats.per_port, f_in, port, c, all);
        lemma_port_total_insert(stats.per_port, f_out, port, c, all);
        lemma_port_total_insert(stats.per_port, f_active, port, c, all);
        lemma_port_total_insert(stats.per_port, f_dg_in, port, c, all);
        lemma_port_total_insert(stats.per_port, f_dg_out, port, c, all);
    }
}

/// Something that is counted on a port.
pub enum PortEvent {
    In { port: u16, n: u64 },
    Out { port: u16, n: u64 },
    DatagramIn { port: u16, n: u64 },
    DatagramOut { port: u16, n: u64 },
    Open { port: u16 },
    Close { port: u16 },
}

impl PortEvent {
    pub open spec fn port(self) -> u16 {
        match self {
            PortEvent::In { port, .. } => port,
            PortEvent::Out { port, .. } => port,
            PortEvent::DatagramIn { port, .. } => port,
            PortEvent::DatagramOut { port, .. } => port,
            PortEvent::Open { port } => port,
            PortEvent::Close { port } => port,
        }
    }
}

impl RuleStatsView {
    pub open spec fn after_event(self, event: PortEvent) -> RuleStatsView {
        match event {
            PortEvent::In { port, n } => self.after_in(port, n),
            PortEvent::Out { port, n } => self.after_out(port, n),
            PortEvent::DatagramIn { port, n } => self.after_datagram_in(port, n),
            PortEvent::DatagramOut { port, n } => self.after_datagram_out(port, n),
            PortEvent::Open { port } => self.after_open(port),
            PortEvent::Close { port } => self.after_close(port),
        }
    }

    pub open spec fn after_events(self, events: Seq<PortEvent>) -> RuleStatsView
        decreases events.len(),
    {
        if events.len() == 0 {
            self
        } else {
            self.after_events(events.drop_last()).after_event(events.last())
        }
    }

    /// The event is on a port of the rule, no total wraps around, and no
    /// connection is closed that was not open.
    pub open spec fn takes(self, event: PortEvent) -> bool {
        &&& self.per_port.contains_key(event.port())
        &&& match event {
            PortEvent::In { n, .. } => self.bytes_in + n <= u64::MAX,
            PortEvent::Out { n, .. } => self.bytes_out + n <= u64::MAX,
            PortEvent::DatagramIn { n, .. } => self.bytes_in + n <= u64::MAX && self.datagrams_in
                < u64::MAX,
            PortEvent::DatagramOut { n, .. } => self.bytes_out + n <= u64::MAX && self.datagrams_out
                < u64::MAX,
            PortEvent::Open { .. } => self.active_connections < u32::MAX,
            PortEvent::Close { port } => self.per_port[port].active_connections > 0,
        }
    }

    pub open spec fn takes_all(self, events: Seq<PortEvent>) -> bool {
        forall|k: int|
            0 <= k < events.len() ==> self.after_events(#[trigger] events.take(k)).takes(events[k])
    }
}

/// The sum of `g` over the rows.
pub open spec fn row_total(
    rows: Seq<PerPortStatsSnapshot>,
    g: spec_fn(PerPortStatsSnapshot) -> int,
) -> int
    decreases rows.len(),
{
    if rows.len() == 0 {
        0
    } else {
        row_total(rows.drop_last(), g) + g(rows.last())
    }
}

/// The first `k` rows are those of the ports below `upto`.
proof fn lemma_row_total(
    rows: Seq<PerPortStatsSnapshot>,
    ports: Map<u16, PerPortCounters>,
    f: spec_fn(PerPortCounters) -> int,
    g: spec_fn(PerPortStatsSnapshot) -> int,
    upto: nat,
    k: int,
)
    requires
        shows_ports(rows, ports),
        forall|i: int|
            0 <= i < rows.len() ==> g(#[trigger] rows[i]) == f(ports[rows[i].listen_port]),
        upto <= PORT_COUNT,
        0 <= k <= rows.len(),
        forall|i: int| 0 <= i < k ==> (#[trigger] rows[i]).listen_port < upto,
        forall|i: int| k <= i < rows.len() ==> (#[trigger] rows[i]).listen_port >= upto,
    ensures
        port_total(ports, f, upto) == row_total(rows.take(k), g),
    decreases upto,
{
    if upto == 0 {
        if k > 0 {
            assert(rows[0].listen_port < upto);
        }
    } else {
        let port = (upto - 1) as u16;
        if ports.contains_key(port) {
            let i = choose|i: int| 0 <= i < rows.len() && (#[trigger] rows[i]).listen_port == port;
            if i < k - 1 {
                assert(rows[i].listen_port < rows[k - 1].listen_port);
            }
            assert(i == k - 1);
            assert forall|j: int| 0 <= j < k - 1 implies (#[trigger] rows[j]).listen_port < upto
                - 1 by {
                assert(rows[j].listen_port < rows[i].listen_port);
            }
            lemma_row_total(rows, ports, f, g, (upto - 1) as nat, k - 1);
            assert(rows.take(k).drop_last() =~= rows.take(k - 1));
            assert(rows.take(k).last() == rows[k - 1]);
        } else {
            assert forall|j: int| 0 <= j < k implies (#[trigger] rows[j]).listen_port < upto - 1 by {
                assert(ports.contains_key(rows[j].listen_port));
            }
            lemma_row_total(rows, ports, f, g, (upto - 1) as nat, k);
        }
    }
}

/// The totals are the sums over the rows that are reported of the ports.
pub open spec fn totals_are_row_sums(
    stats: RuleStatsView,
    rows: Seq<PerPortStatsSnapshot>,
) -> bool {
    &&& stats.bytes_in == row_total(rows, |r: PerPortStatsSnapshot| r.bytes_in as int)
    &&& stats.bytes_out == row_total(rows, |r: PerPortStatsSnapshot| r.bytes_out as int)
    &&& stats.active_connections == row_total(
        rows,
        |r: PerPortStatsSnapshot| r.active_connections as int,
    )
    &&& stats.datagrams_in == row_total(rows, |r: PerPortStatsSnapshot| r.datagrams_in as int)
    &&& stats.datagrams_out == row_total(rows, |r: PerPortStatsSnapshot| r.datagrams_out as int)
}

/// Where the totals are the sums over the ports, they are the sums over the rows
/// that [`RuleStats::snapshot_per_port`] and its like report.
pub proof fn law_totals_are_row_sums(stats: RuleStatsView, rows: Seq<PerPortStatsSnapshot>)
    requires
        totals_are_port_sums(stats),
        shows_ports(rows, stats.per_port),
    ensures
        totals_are_row_sums(stats, rows),
{
    let all = PORT_COUNT as nat;
    let k = rows.len() as int;
    let ports = stats.per_port;
    assert(rows.take(k) =~= rows);
    lemma_row_total(
        rows,
        ports,
        |c: PerPortCounters| c.bytes_in as int,
        |r: PerPortStatsSnapshot| r.bytes_in as int,
        all,
        k,
    );
    lemma_row_total(
        rows,
        ports,
        |c: PerPortCounters| c.bytes_out as int,
        |r: PerPortStatsSnapshot| r.bytes_out as int,
        all,
        k,
    );
    lemma_row_total(
        rows,
        ports,
        |c: PerPortCounters| c.active_connections as int,
        |r: PerPortStatsSnapshot| r.active_connections as int,
        all,
        k,
    );
    lemma_row_total(
        rows,
        ports,
        |c: PerPortCounters| c.datagrams_in as int,
        |r: PerPortStatsSnapshot| r.datagrams_in as int,
        all,
        k,
    );
    lemma_row_total(
        rows,
        ports,
        |c: PerPortCounters| c.datagrams_out as int,
        |r: PerPortStatsSnapshot| r.datagrams_out as int,
        all,
        k,
    );
}

proof fn lemma_events_keep_port_sums(counted: spec_fn(u16) -> bool, events: Seq<PortEvent>)
    requires
        RuleStatsView::zero(counted).takes_all(events),
    ensures
        totals_are_port_sums(RuleStatsView::zero(counted).after_events(events)),
    decreases events.len(),
{
    let zero = RuleStatsView::zero(counted);
    if events.len() == 0 {
        law_totals_start_as_port_sums(counted);
    } else {
        let earlier = events.drop_last();
        assert forall|k: int| 0 <= k < earlier.len() implies zero.after_events(
            #[trigger] earlier.take(k),
        ).takes(earlier[k]) by {
            assert(earlier.take(k) =~= events.take(k));
        }
        lemma_events_keep_port_sums(counted, earlier);
        assert(events.take(events.len() - 1) =~= earlier);
        let n = match events.last() {
            PortEvent::In { n, .. } => n,
            PortEvent::Out { n, .. } => n,
            PortEvent::DatagramIn { n, .. } => n,
            PortEvent::DatagramOut { n, .. } => n,
            _ => 0,
        };
        law_totals_stay_port_sums(zero.after_events(earlier), events.last().port(), n);
    }
}

/// Whatever is counted on the ports of a new rule, in whatever order, the totals
/// are the sums over the rows that are reported.
pub proof fn law_totals_are_row_sums_after_any_run(
    counted: spec_fn(u16) -> bool,
    events: Seq<PortEvent>,
    rows: Seq<PerPortStatsSnapshot>,
)
    requires
        RuleStatsView::zero(counted).takes_all(events),
        shows_ports(rows, RuleStatsView::zero(counted).after_events(events).per_port),
    ensures
        totals_are_row_sums(RuleStatsView::zero(counted).after_events(events), rows),
{
    lemma_events_keep_port_sums(counted, events);
    law_totals_are_row_sums(RuleStatsView::zero(counted).after_events(events), rows);
}

/// What one event adds to the counters of a port.
pub enum Added {
    BytesIn(u64),
    BytesOut(u64),
    DatagramIn(u64),
    DatagramOut(u64),
    Opened,
    Closed,
}

/// One of the calls that count something on a port was made with these numbers.
pub open spec fn counts(stats: &mut RuleStats, port: u16, added: Added) -> bool {
    match added {
        Added::BytesIn(n) => call_ensures(RuleStats::record_in, (stats, port, n), ()),
        Added::BytesOut(n) => call_ensures(RuleStats::record_out, (stats, port, n), ()),
        Added::DatagramIn(n) => call_ensures(RuleStats::inc_datagram_in, (stats, port, n), ()),
        Added::DatagramOut(n) => call_ensures(RuleStats::inc_datagram_out, (stats, port, n), ()),
        Added::Opened => call_ensures(RuleStats::inc_active, (stats, port), ()),
        Added::Closed => call_ensures(RuleStats::dec_active, (stats, port), ()),
    }
}

/// Whatever is counted on a port is added to its counter and to the total, each of
/// its kind, and to nothing else. A port that is not counted changes the total only.
pub proof fn law_what_is_counted_shows_in_total_and_on_its_port(
    stats: &mut RuleStats,
    port: u16,
    added: Added,
    other: u16,
)
    requires
        counts(stats, port, added),
        other != port,
    ensures
        ({
            let before = old(stats)@;
            let after = final(stats)@;
            let (bytes_in, bytes_out, datagrams_in, datagrams_out) = match added {
                Added::BytesIn(n) => (n, 0u64, 0u64, 0u64),
                Added::BytesOut(n) => (0u64, n, 0u64, 0u64),
                Added::DatagramIn(n) => (n, 0u64, 1u64, 0u64),
                Added::DatagramOut(n) => (0u64, n, 0u64, 1u64),
                _ => (0u64, 0u64, 0u64, 0u64),
            };
            let (b, a) = (before.per_port[port], after.per_port[port]);
            &&& after.bytes_in == before.bytes_in.wrapping_add(bytes_in)
            &&& after.bytes_out == before.bytes_out.wrapping_add(bytes_out)
            &&& after.datagrams_in == before.datagrams_in.wrapping_add(datagrams_in)
            &&& after.datagrams_out == before.datagrams_out.wrapping_add(datagrams_out)
            &&& after.active_connections == (match added {
                Added::Opened => before.active_connections.wrapping_add(1),
                Added::Closed => before.active_connections.wrapping_sub(1),
                _ => before.active_connections,
            })
            &&& after.per_port.dom() == before.per_port.dom()
            &&& after.per_port[other] == before.per_port[other]
            &&& before.per_port.contains_key(port) ==> {
                &&& a.bytes_in == b.bytes_in.wrapping_add(bytes_in)
                &&& a.bytes_out == b.bytes_out.wrapping_add(bytes_out)
                &&& a.datagrams_in == b.datagrams_in.wrapping_add(datagrams_in)
                &&& a.datagrams_out == b.datagrams_out.wrapping_add(datagrams_out)
                &&& a.active_connections == (match added {
                    Added::Opened => b.active_connections.wrapping_add(1),
                    Added::Closed => b.active_connections.wrapping_sub(1),
                    _ => b.active_connections,
                })
            }
            &&& after.connections_total == before.connections_total
            &&& after.errors == before.errors
            &&& after.dns_failures == before.dns_failures
            &&& after.active_flows == before.active_flows
            &&& after.flows_dropped_overflow == before.flows_dropped_overflow
            &&& after.sni_route_exact_total == before.sni_route_exact_total
            &&& after.sni_route_wildcard_total == before.sni_route_wildcard_total
            &&& after.sni_route_fallback_total == before.sni_route_fallback_total
            &&& after.target_failovers_total == before.target_failovers_total
        }),
{
    assert(final(stats)@.per_port.dom() =~= old(stats)@.per_port.dom());
}

/// New counters are all zero. Those of a range have a row for each of its ports and
/// for no other, and those of a rule without a range have none.
pub proof fn law_counters_start_at_zero(
    range: PortRange,
    stats: RuleStats,
    plain: RuleStats,
    port: u16,
)
    requires
        call_ensures(RuleStats::for_range, (range,), stats),
        call_ensures(RuleStats::new, (), plain),
    ensures
        stats@.per_port.contains_key(port) <==> range.first() <= port <= range.last(),
        !plain@.per_port.contains_key(port),
        stats@.per_port.contains_key(port) ==> stats@.per_port[port] == (PerPortCounters {
            bytes_in: 0,
            bytes_out: 0,
            active_connections: 0,
            datagrams_in: 0,
            datagrams_out: 0,
        }),
        plain@ == (RuleStatsView { per_port: plain@.per_port, ..stats@ }),
        stats@.bytes_in == 0,
        stats@.bytes_out == 0,
        stats@.active_connections == 0,
        stats@.connections_total == 0,
        stats@.dns_failures == 0,
        stats@.datagrams_in == 0,
        stats@.datagrams_out == 0,
        stats@.active_flows == 0,
        stats@.flows_dropped_overflow == 0,
        stats@.sni_route_exact_total == 0,
        stats@.sni_route_wildcard_total == 0,
        stats@.sni_route_fallback_total == 0,
        stats@.target_failovers_total == 0,
        stats@.errors == (ErrorCounters {
            port_in_use: 0,
            upstream_connect_failed: 0,
            icmp_evict: 0,
            emsgsize: 0,
            wouldblock: 0,
            addflow_dropped: 0,
            flows_pending_drops: 0,
        }),
{
}

/// Each of the other counters is set or grows by one, and no other changes with it.
pub proof fn law_every_counter_is_its_own(
    flows: &mut RuleStats,
    n: u32,
    dropped: &mut RuleStats,
    connected: &mut RuleStats,
    failed: &mut RuleStats,
)
    requires
        call_ensures(RuleStats::set_active_flows, (flows, n), ()),
        call_ensures(RuleStats::inc_flow_dropped_overflow, (dropped,), ()),
        call_ensures(RuleStats::inc_connection, (connected,), ()),
        call_ensures(RuleStats::inc_dns_failure, (failed,), ()),
    ensures
        final(flows)@ == (RuleStatsView { active_flows: n, ..old(flows)@ }),
        final(dropped)@ == (RuleStatsView {
            flows_dropped_overflow: old(dropped)@.flows_dropped_overflow.wrapping_add(1),
            ..old(dropped)@
        }),
        final(connected)@ == (RuleStatsView {
            connections_total: old(connected)@.connections_total.wrapping_add(1),
            ..old(connected)@
        }),
        final(failed)@ == (RuleStatsView {
            dns_failures: old(failed)@.dns_failures.wrapping_add(1),
            ..old(failed)@
        }),
{
}

/// Every snapshot shows the counters as they are.
pub proof fn law_snapshots_show_the_counters(
    stats: &RuleStats,
    totals: (u64, u64, u32),
    datagrams_in: u64,
    datagrams_out: u64,
    flows: u32,
    dropped: u64,
    failures: u64,
    basic: RuleStatsSnapshotBasic,
    port: u16,
)
    requires
        call_ensures(RuleStats::snapshot, (stats,), totals),
        call_ensures(RuleStats::snapshot_datagrams_in, (stats,), datagrams_in),
        call_ensures(RuleStats::snapshot_datagrams_out, (stats,), datagrams_out),
        call_ensures(RuleStats::snapshot_active_flows, (stats,), flows),
        call_ensures(RuleStats::snapshot_flows_dropped_overflow, (stats,), dropped),
        call_ensures(RuleStats::snapshot_dns_failures, (stats,), failures),
        call_ensures(RuleStats::snapshot_basic, (stats,), basic),
    ensures
        totals == (stats.bytes_in, stats.bytes_out, stats.active_connections),
        datagrams_in == stats.datagrams_in,
        datagrams_out == stats.datagrams_out,
        flows == stats.active_flows,
        dropped == stats.flows_dropped_overflow,
        failures == stats.dns_failures,
        basic.bytes_in == stats.bytes_in,
        basic.bytes_out == stats.bytes_out,
        basic.active_connections == stats.active_connections,
        basic.dns_failures == stats.dns_failures,
        basic.datagrams_in == stats.datagrams_in,
        basic.datagrams_out == stats.datagrams_out,
        basic.active_flows == stats.active_flows,
        basic.flows_dropped_overflow == stats.flows_dropped_overflow,
        basic.sni_route_exact_total == stats.sni_route_exact_total,
        basic.sni_route_wildcard_total == stats.sni_route_wildcard_total,
        basic.sni_route_fallback_total == stats.sni_route_fallback_total,
        forall|i: int, j: int|
            0 <= i < j < basic.per_port@.len() ==> (#[trigger] basic.per_port@[i]).listen_port < (
            #[trigger] basic.per_port@[j]).listen_port,
        stats.per_port@.contains_key(port) ==> exists|i: int|
            {
                &&& 0 <= i < basic.per_port@.len()
                &&& (#[trigger] basic.per_port@[i]) == (PerPortStatsSnapshot {
                    listen_port: port,
                    bytes_in: stats.per_port@[port].bytes_in,
                    bytes_out: stats.per_port@[port].bytes_out,
                    active_connections: stats.per_port@[port].active_connections,
                    datagrams_in: stats.per_port@[port].datagrams_in,
                    datagrams_out: stats.per_port@[port].datagrams_out,
                })
            },
        !stats.per_port@.contains_key(port) ==> forall|i: int|
            0 <= i < basic.per_port@.len() ==> (#[trigger] basic.per_port@[i]).listen_port != port,
{
    if stats.per_port@.contains_key(port) {
        assert(stats@.per_port.contains_key(port));
        let i = choose|i: int|
            0 <= i < basic.per_port@.len() && (#[trigger] basic.per_port@[i]).listen_port == port;
        assert(shows_port(basic.per_port@[i], port, stats@.per_port[port]));
    }
}

/// The tables by port hold one row for each port that is counted, in order, with
/// its counters.
pub proof fn law_port_tables_show_the_counters(
    stats: &RuleStats,
    table: Vec<(u16, u64, u64, u32)>,
    with_udp: Vec<(u16, u64, u64, u32, u64, u64)>,
    port: u16,
)
    requires
        call_ensures(RuleStats::snapshot_per_port, (stats,), table),
        call_ensures(RuleStats::snapshot_per_port_with_udp, (stats,), with_udp),
    ensures
        forall|i: int, j: int|
            0 <= i < j < table@.len() ==> (#[trigger] table@[i]).0 < (#[trigger] table@[j]).0,
        forall|i: int, j: int|
            0 <= i < j < with_udp@.len() ==> (#[trigger] with_udp@[i]).0 < (
            #[trigger] with_udp@[j]).0,
        ({
            let c = stats.per_port@[port];
            let row = (port, c.bytes_in, c.bytes_out, c.active_connections);
            let long = (
                port,
                c.bytes_in,
                c.bytes_out,
                c.active_connections,
                c.datagrams_in,
                c.datagrams_out,
            );
            &&& stats.per_port@.contains_key(port) ==> table@.contains(row) && with_udp@.contains(
                long,
            )
            &&& !stats.per_port@.contains_key(port) ==> {
                &&& forall|i: int| 0 <= i < table@.len() ==> (#[trigger] table@[i]).0 != port
                &&& forall|i: int| 0 <= i < with_udp@.len() ==> (#[trigger] with_udp@[i]).0 != port
            }
        }),
{
    let rows = choose|rows: Seq<PerPortStatsSnapshot>| #[trigger]
        shows_ports(rows, stats@.per_port) && table@ =~= rows.map_values(
            |row: PerPortStatsSnapshot|
                (row.listen_port, row.bytes_in, row.bytes_out, row.active_connections),
        );
    let long = choose|rows: Seq<PerPortStatsSnapshot>| #[trigger]
        shows_ports(rows, stats@.per_port) && with_udp@ =~= rows.map_values(
            |row: PerPortStatsSnapshot|
                (
                    row.listen_port,
                    row.bytes_in,
                    row.bytes_out,
                    row.active_connections,
                    row.datagrams_in,
                    row.datagrams_out,
                ),
        );
    assert forall|i: int| 0 <= i < table@.len() implies (#[trigger] table@[i]).0
        == rows[i].listen_port by {}
    assert forall|i: int| 0 <= i < with_udp@.len() implies (#[trigger] with_udp@[i]).0
        == long[i].listen_port by {}
    if stats.per_port@.contains_key(port) {
        assert(stats@.per_port.contains_key(port));
        let i = choose|i: int| 0 <= i < rows.len() && (#[trigger] rows[i]).listen_port == port;
        let k = choose|k: int| 0 <= k < long.len() && (#[trigger] long[k]).listen_port == port;
        assert(shows_port(rows[i], port, stats@.per_port[port]));
        assert(shows_port(long[k], port, stats@.per_port[port]));
        assert(table@[i].0 == port);
        assert(with_udp@[k].0 == port);
    }
}

/// A snapshot of the errors shows each of them, and each grows by itself.
pub proof fn law_errors_are_counted_one_by_one(
    errors: &ErrorCounters,
    shown: ErrorSnapshot,
    health: TargetHealth,
    number: u32,
    reason: RateLimitRejectReason,
    index: usize,
)
    requires
        call_ensures(ErrorCounters::snapshot, (errors,), shown),
        call_ensures(TargetHealth::as_wire, (health,), number),
        call_ensures(RateLimitRejectReason::as_index, (reason,), index),
    ensures
        shown == (ErrorSnapshot {
            port_in_use: errors.port_in_use,
            upstream_connect_failed: errors.upstream_connect_failed,
            icmp_evict: errors.icmp_evict,
            emsgsize: errors.emsgsize,
            wouldblock: errors.wouldblock,
            addflow_dropped: errors.addflow_dropped,
            flows_pending_drops: errors.flows_pending_drops,
        }),
        number == 0 <==> health == TargetHealth::Healthy,
        number == 1 <==> health == TargetHealth::Failed,
        index == 0 <==> reason == RateLimitRejectReason::Unspecified,
        index == 1 <==> reason == RateLimitRejectReason::ConnConcurrent,
        index == 2 <==> reason == RateLimitRejectReason::ConnRate,
        index == 3 <==> reason == RateLimitRejectReason::UdpFlowRate,
        index == 4 <==> reason == RateLimitRejectReason::OwnerConcurrent,
        index == 5 <==> reason == RateLimitRejectReason::OwnerConnRate,
        index == 6 <==> reason == RateLimitRejectReason::OwnerUdpFlowRate,
{
}

/// Each of the error counters grows by one, and no other changes with it.
pub proof fn law_every_error_has_its_own_counter(
    a: &mut ErrorCounters,
    b: &mut ErrorCounters,
    c: &mut ErrorCounters,
    d: &mut ErrorCounters,
    e: &mut ErrorCounters,
    f: &mut ErrorCounters,
    g: &mut ErrorCounters,
)
    requires
        call_ensures(ErrorCounters::inc_port_in_use, (a,), ()),
        call_ensures(ErrorCounters::inc_upstream_connect_failed, (b,), ()),
        call_ensures(ErrorCounters::inc_icmp_evict, (c,), ()),
        call_ensures(ErrorCounters::inc_emsgsize, (d,), ()),
        call_ensures(ErrorCounters::inc_wouldblock, (e,), ()),
        call_ensures(ErrorCounters::inc_addflow_dropped, (f,), ()),
        call_ensures(ErrorCounters::inc_flows_pending_drops, (g,), ()),
    ensures
        *final(a) == (ErrorCounters {
            port_in_use: old(a).port_in_use.wrapping_add(1),
            ..*old(a)
        }),
        *final(b) == (ErrorCounters {
            upstream_connect_failed: old(b).upstream_connect_failed.wrapping_add(1),
            ..*old(b)
        }),
        *final(c) == (ErrorCounters { icmp_evict: old(c).icmp_evict.wrapping_add(1), ..*old(c) }),
        *final(d) == (ErrorCounters { emsgsize: old(d).emsgsize.wrapping_add(1), ..*old(d) }),
        *final(e) == (ErrorCounters { wouldblock: old(e).wouldblock.wrapping_add(1), ..*old(e) }),
        *final(f) == (ErrorCounters {
            addflow_dropped: old(f).addflow_dropped.wrapping_add(1),
            ..*old(f)
        }),
        *final(g) == (ErrorCounters {
            flows_pending_drops: old(g).flows_pending_drops.wrapping_add(1),
            ..*old(g)
        }),
{
}

} // verus!

use portunus::stats::{ErrorCounters, RateLimitRejectReason, RuleStats, TargetHealth};
use portunus::types::PortRange;

#[test]
fn aggregate_counters_accumulate_and_snapshot() {
    let mut s = RuleStats::new();
    s.record_in(0, 100);
    s.record_in(0, 50);
    s.record_out(0, 200);
    s.inc_active(0);
    s.inc_active(0);
    s.dec_active(0);
    assert_eq!(s.snapshot(), (150, 200, 1));
    assert!(s.snapshot_per_port().is_empty());
}

#[test]
fn per_port_counters_track_independently() {
    let range = PortRange::new(30000, 30002).unwrap();
    let mut s = RuleStats::for_range(range);
    s.record_in(30000, 100);
    s.record_in(30001, 50);
    s.record_in(30002, 25);
    s.record_out(30000, 1);
    s.inc_active(30001);

    let agg = s.snapshot();
    assert_eq!(agg.0, 175, "aggregate bytes_in = sum of per-port");
    assert_eq!(agg.1, 1, "aggregate bytes_out includes 30000");
    assert_eq!(agg.2, 1);

    let per_port = s.snapshot_per_port();
    assert_eq!(per_port.len(), 3);
    assert_eq!(per_port[0], (30000, 100, 1, 0));
    assert_eq!(per_port[1], (30001, 50, 0, 1));
    assert_eq!(per_port[2], (30002, 25, 0, 0));
}

#[test]
fn record_on_unknown_port_updates_aggregate_only() {
    let range = PortRange::new(30000, 30001).unwrap();
    let mut s = RuleStats::for_range(range);
    s.record_in(99, 7);
    let agg = s.snapshot();
    assert_eq!(agg.0, 7);
    let per_port = s.snapshot_per_port();
    assert_eq!(per_port.len(), 2);
    assert_eq!(per_port[0].1, 0);
    assert_eq!(per_port[1].1, 0);
}

#[test]
fn connections_total_starts_at_zero_and_increments() {
    let mut s = RuleStats::new();
    assert_eq!(s.connections_total, 0);
    s.inc_connection();
    s.inc_connection();
    assert_eq!(s.connections_total, 2);
}

#[test]
fn snapshot_basic_zeroed_for_fresh_stats() {
    let stats = RuleStats::for_range(PortRange::single(8080));
    let snap = stats.snapshot_basic();
    assert_eq!(snap.bytes_in, 0);
    assert_eq!(snap.bytes_out, 0);
    assert_eq!(snap.active_connections, 0);
    assert_eq!(snap.dns_failures, 0);
    assert_eq!(snap.datagrams_in, 0);
    assert_eq!(snap.per_port.len(), 1, "single-port rule still allocates one per-port slot");
    assert_eq!(snap.per_port[0].listen_port, 8080);
}

#[test]
fn error_counters_default_zero_and_bump() {
    let mut s = RuleStats::new();
    assert_eq!(s.errors.port_in_use, 0);
    assert_eq!(s.errors.upstream_connect_failed, 0);
    s.errors.inc_port_in_use();
    s.errors.inc_upstream_connect_failed();
    s.errors.inc_upstream_connect_failed();
    assert_eq!(s.errors.port_in_use, 1);
    assert_eq!(s.errors.upstream_connect_failed, 2);
}

#[test]
fn every_error_has_its_own_counter() {
    let mut e = ErrorCounters::default();
    e.inc_port_in_use();
    for _ in 0..2 {
        e.inc_upstream_connect_failed();
    }
    for _ in 0..3 {
        e.inc_icmp_evict();
    }
    for _ in 0..4 {
        e.inc_emsgsize();
    }
    for _ in 0..5 {
        e.inc_wouldblock();
    }
    for _ in 0..6 {
        e.inc_addflow_dropped();
    }
    for _ in 0..7 {
        e.inc_flows_pending_drops();
    }
    assert_eq!(
        (
            e.port_in_use,
            e.upstream_connect_failed,
            e.icmp_evict,
            e.emsgsize,
            e.wouldblock,
            e.addflow_dropped,
            e.flows_pending_drops
        ),
        (1, 2, 3, 4, 5, 6, 7)
    );
    assert_eq!(e.snapshot().emsgsize, 4);
}

#[test]
fn datagrams_count_in_totals_and_ports() {
    let mut s = RuleStats::for_range(PortRange::new(7000, 7001).unwrap());
    s.inc_datagram_in(7000, 10);
    s.inc_datagram_in(7001, 20);
    s.inc_datagram_out(7001, 5);
    s.inc_datagram_out(1, 1);
    assert_eq!(s.snapshot_datagrams_in(), 2);
    assert_eq!(s.snapshot_datagrams_out(), 2);
    assert_eq!(
        s.snapshot_per_port_with_udp(),
        vec![(7000, 10, 0, 0, 1, 0), (7001, 20, 5, 0, 1, 1)]
    );
    let snap = s.snapshot_basic();
    assert_eq!((snap.bytes_in, snap.bytes_out), (30, 6));
}

#[test]
fn gauges_and_other_totals() {
    let mut s = RuleStats::new();
    s.set_active_flows(3);
    s.inc_flow_dropped_overflow();
    s.inc_dns_failure();
    s.inc_dns_failure();
    assert_eq!(s.snapshot_active_flows(), 3);
    assert_eq!(s.snapshot_flows_dropped_overflow(), 1);
    assert_eq!(s.snapshot_dns_failures(), 2);
}

#[test]
fn numbers_on_the_wire() {
    assert_eq!(TargetHealth::Healthy.as_wire(), 0);
    assert_eq!(TargetHealth::Failed.as_wire(), 1);
    assert_eq!(TargetHealth::default(), TargetHealth::Healthy);
    assert_eq!(RateLimitRejectReason::Unspecified.as_index(), 0);
    assert_eq!(RateLimitRejectReason::OwnerUdpFlowRate.as_index(), 6);
}

#[test]
fn port_ranges() {
    assert!(PortRange::new(2, 1).is_none());
    let r = PortRange::new(0, u16::MAX).unwrap();
    assert_eq!(r.len(), 65536);
    assert!(r.contains(0) && r.contains(u16::MAX));
    let one = PortRange::single(80);
    assert_eq!((one.start(), one.end(), one.len()), (80, 80, 1));
    assert!(!one.contains(81));
}

#[test]
fn the_totals_are_the_sums_of_the_rows() {
    let mut s = RuleStats::for_range(PortRange::new(7000, 7002).unwrap());
    s.record_in(7000, 5);
    s.inc_datagram_in(7002, 7);
    s.record_out(7001, 11);
    s.inc_datagram_out(7001, 13);
    s.inc_active(7000);
    s.inc_active(7001);
    s.dec_active(7000);
    let rows = s.snapshot_per_port_with_udp();
    assert_eq!(rows.len(), 3);
    assert_eq!(
        s.snapshot(),
        (
            rows.iter().map(|row| row.1).sum(),
            rows.iter().map(|row| row.2).sum(),
            rows.iter().map(|row| row.3).sum()
        )
    );
    assert_eq!(s.snapshot(), (12, 24, 1));
    assert_eq!(s.snapshot_datagrams_in(), rows.iter().map(|row| row.4).sum::<u64>());
    assert_eq!(s.snapshot_datagrams_out(), rows.iter().map(|row| row.5).sum::<u64>());
}

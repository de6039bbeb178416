use std::io;

use portunus::addr::{IpAddr, SocketAddr};
use portunus::failover::{Health, HealthReport, TargetWalk};
use portunus::quota::scope::QuotaScopeManager;
use portunus::quota::QuotaState;
use portunus::rate_limit::gate::LayeredAcquire;
use portunus::rate_limit::stats::RateLimitStatsAccumulator;
use portunus::resolver::{ConnectError, ResolverError};
use portunus::sni::listener::Target;
use portunus::stats::RuleStats;
use portunus::types::{PortRange, RejectReason, RuleId};
use portunus::udp::batch::BATCH_SIZE;
use portunus::udp::demux::{DrainNext, FlowTurn, RecvOutcome, DEMUX_FAIRNESS_BUDGET};
use portunus::udp::error::UdpAction;
use portunus::udp::flow::{build_flow_dns, UdpFlow};
use portunus::udp::listener::{
    bind_addr_for, BatchState, ColdFlow, ColdNext, ConnectOutcome, DatagramAction, FlushNext, RunOutcome,
};
use portunus::udp::reaper::sweep_period;
use portunus::udp::registry::{FlowId, FlowKey};
use portunus::udp::relay::{BuiltFlow, InboundStep, RelayStep, TargetStep};
use portunus::udp::rule::UdpRule;
use portunus::udp::runtime::{
    port_map, ListenerPlan, Role, ShutdownOutcome, State, Supervisor, SupervisorAction, TaskExit,
    UdpRuleRuntime, UdpRuntimeConfig, UdpRuntimeStartError,
};

const SEC: u64 = 1_000_000_000;

fn addr(last: u32, port: u16) -> SocketAddr {
    SocketAddr::new(IpAddr::V4(0x7f00_0000 + last), port)
}

fn key(port: u16, last: u32) -> FlowKey {
    FlowKey::new(port, addr(last, 50000))
}

fn rule(cap: usize) -> UdpRule {
    UdpRule::new(cap, RuleStats::new())
}

/// Takes a new source through all the steps up to an open flow.
fn open_flow(rule: &mut UdpRule, quotas: &QuotaScopeManager, key: FlowKey, now: u64) -> FlowId {
    open_flow_with(rule, quotas, key, vec![], now)
}

/// As `open_flow`, for a flow for which something was reserved.
fn open_flow_with(
    rule: &mut UdpRule,
    quotas: &QuotaScopeManager,
    key: FlowKey,
    guards: Vec<u64>,
    now: u64,
) -> FlowId {
    let DatagramAction::Open(cold) = rule.handle_datagram(quotas, None, key, 1) else {
        panic!("a new source opens a flow")
    };
    let (mut o, mut r) = (None, None);
    let cold = rule
        .acquire_first_packet(quotas, cold, LayeredAcquire::Granted, guards, &mut o, &mut r)
        .expect("admitted");
    connect_flow(rule, quotas, key, cold, now)
}

fn connect_flow(
    rule: &mut UdpRule,
    quotas: &QuotaScopeManager,
    key: FlowKey,
    cold: ColdFlow,
    now: u64,
) -> FlowId {
    let ColdNext::Connect(cold, _) = rule.cold_resolved(quotas, cold, Some(vec![addr(9, 9)]))
    else {
        panic!("an address to connect to")
    };
    match rule.cold_connected(quotas, None, cold, ConnectOutcome::Connected, now) {
        ColdNext::HandOver { flow } => {
            assert!(rule.cold_handed_over(quotas, key, flow, true));
            flow
        }
        _ => panic!("connected"),
    }
}

/// Sends a datagram of a new source upstream and its echo back. Whether the echo
/// reached the client.
fn round_trip(rule: &mut UdpRule, quotas: &mut QuotaScopeManager, key: FlowKey, n: u64) -> bool {
    let DatagramAction::Open(cold) = rule.handle_datagram(quotas, None, key, n) else {
        return false;
    };
    let id = connect_flow(rule, quotas, key, cold, 0);
    rule.cold_sent(quotas, key, id, n, None, 1);
    let next = rule.drain_one_flow_batched(quotas, key, id, RecvOutcome::Received(1));
    assert!(matches!(next, DrainNext::Forward));
    rule.forward_reply_batch(quotas, key, id, &vec![n], RunOutcome::Sent(1), 2);
    true
}

#[test]
fn current_upstream_returns_head_initially() {
    let flow = UdpFlow::new(addr(1, 1), vec![addr(2, 2), addr(3, 3)], 0);
    assert_eq!(flow.current_upstream(), addr(2, 2));
}

#[test]
fn advance_upstream_walks_then_returns_none() {
    let mut flow = UdpFlow::new(addr(1, 1), vec![addr(2, 2), addr(3, 3)], 0);
    assert_eq!(flow.advance_upstream(), Some(addr(3, 3)));
    assert_eq!(flow.current_upstream(), addr(3, 3));
    assert_eq!(flow.advance_upstream(), None);
    assert_eq!(flow.current_upstream(), addr(3, 3));
}

#[test]
fn build_flow_dns_resolves_and_binds_for_single_a() {
    let mut stats = RuleStats::new();
    let flow = build_flow_dns(Ok(vec![addr(2, 2)]), Ok(()), addr(1, 50100), &mut stats, 0)
        .expect("resolve must succeed");
    assert_eq!(flow.current_upstream(), addr(2, 2));
    assert_eq!(flow.source_addr(), addr(1, 50100));
    assert_eq!(stats.snapshot_dns_failures(), 0);
}

#[test]
fn build_flow_dns_preserves_multi_a_order_and_falls_back() {
    let mut stats = RuleStats::new();
    let mut flow =
        build_flow_dns(Ok(vec![addr(2, 2), addr(3, 3)]), Ok(()), addr(1, 1), &mut stats, 0)
            .expect("resolve must succeed");
    assert_eq!(flow.current_upstream(), addr(2, 2));
    assert_eq!(flow.advance_upstream(), Some(addr(3, 3)));
    assert!(flow.advance_upstream().is_none());
}

#[test]
fn build_flow_dns_bumps_dns_failures_on_resolver_error() {
    let mut stats = RuleStats::new();
    let failed = Err(ConnectError::Resolution(ResolverError::Lookup("nope".to_string())));
    let err = build_flow_dns(failed, Ok(()), addr(1, 50102), &mut stats, 0)
        .expect_err("resolver failure must surface");
    assert!(matches!(err, ConnectError::Resolution(_)));
    assert_eq!(stats.snapshot_dns_failures(), 1, "exactly one dns_failures bump per failed resolve");
}

#[test]
fn build_flow_dns_other_failures() {
    let mut stats = RuleStats::new();
    let err = build_flow_dns(Ok(vec![]), Ok(()), addr(1, 1), &mut stats, 0).expect_err("empty");
    assert!(matches!(err, ConnectError::Resolution(ResolverError::EmptyAnswer)));
    assert_eq!(stats.snapshot_dns_failures(), 1);
    let broken = Err(io::Error::from(io::ErrorKind::AddrInUse));
    let err = build_flow_dns(Ok(vec![addr(2, 2)]), broken, addr(1, 1), &mut stats, 0)
        .expect_err("no socket");
    assert!(matches!(err, ConnectError::Dial(_)));
    assert_eq!(stats.snapshot_dns_failures(), 1);
}

#[test]
fn bump_inbound_updates_counters_and_last_seen() {
    let mut flow = UdpFlow::new(addr(1, 50000), vec![addr(1, 9999)], 0);
    let before = flow.last_seen_at();
    assert_eq!(flow.bump_inbound(128, SEC / 100), None);
    assert_eq!(flow.bytes_in(), 128);
    assert_eq!(flow.datagrams_in(), 1);
    assert!(flow.last_seen_at() > before);
    assert_eq!(flow.bytes_out(), 0);
    assert_eq!(flow.datagrams_out(), 0);
}

#[test]
fn bumps_name_the_target_of_the_flow() {
    let mut flow = UdpFlow::new_multi_target(addr(1, 50000), vec![addr(2, 2)], 4, 0);
    assert_eq!(flow.bump_inbound(100, 5), Some(4));
    assert_eq!(flow.last_seen_at(), 5);
    assert_eq!(flow.bump_outbound(10, 7), Some(4));
    assert_eq!(flow.last_seen_at(), 7);
    assert_eq!((flow.bytes_in(), flow.datagrams_in()), (100, 1));
    assert_eq!((flow.bytes_out(), flow.datagrams_out()), (10, 1));
    flow.force_last_seen(1);
    assert_eq!(flow.last_seen_at(), 1);
    assert_eq!(flow.target_idx(), Some(4));
    assert!(!flow.is_cancelled());
    flow.cancel();
    assert!(flow.is_cancelled());
}

#[test]
fn known_sources_go_straight_to_their_flow() {
    let mut quotas = QuotaScopeManager::new();
    let mut rule = rule(4);
    let k = key(7000, 1);
    let id = open_flow(&mut rule, &quotas, k, 0);
    rule.cold_sent(&mut quotas, k, id, 10, None, 1);
    match rule.handle_datagram(&quotas, None, k, 20) {
        DatagramAction::Send { flow } => assert_eq!(flow, id),
        _ => panic!("known"),
    }
    assert_eq!(rule.fast_sent(&mut quotas, k, id, 20, None, 2), None);
    assert_eq!(rule.stats.snapshot(), (30, 0, 0));
    assert_eq!(rule.stats.snapshot_datagrams_in(), 2);
}

#[test]
fn udp_overflow_on_cap() {
    let mut quotas = QuotaScopeManager::new();
    let mut rule = rule(2);
    let mut echoed: usize = 0;
    for source in 1..=3 {
        if round_trip(&mut rule, &mut quotas, key(7000, source), 1) {
            echoed += 1;
        }
    }
    assert_eq!(echoed, 2, "exactly 2 of 3 sources round-trip");
    assert!(rule.registry.dropped_overflow() >= 1);
    assert_eq!(rule.stats.snapshot_flows_dropped_overflow(), rule.registry.dropped_overflow());
    assert_eq!(rule.stats.snapshot(), (2, 2, 0));
}

#[test]
fn udp_cross_listener_same_src_distinct_flows() {
    let mut quotas = QuotaScopeManager::new();
    let mut rule = rule(16);
    assert!(round_trip(&mut rule, &mut quotas, key(7000, 1), 1), "first listen port echo");
    assert!(round_trip(&mut rule, &mut quotas, key(7001, 1), 1), "second listen port echo");
    assert_eq!(rule.registry.len(), 2);
    assert_eq!(rule.registry.dropped_overflow(), 0);
    let (DatagramAction::Send { flow: a }, DatagramAction::Send { flow: b }) = (
        rule.handle_datagram(&quotas, None, key(7000, 1), 1),
        rule.handle_datagram(&quotas, None, key(7001, 1), 1),
    ) else {
        panic!("both sources are known")
    };
    assert!(a != b);
}

#[test]
fn what_was_reserved_for_a_flow_comes_back_when_it_ends() {
    let mut quotas = QuotaScopeManager::new();
    let mut rule = rule(4);
    let kept = open_flow(&mut rule, &quotas, key(7000, 2), 0);
    let k = key(7000, 1);
    let id = open_flow_with(&mut rule, &quotas, k, vec![7, 8], 0);
    assert_eq!(rule.take_ended(&quotas, id), None, "it is not over");
    rule.cold_sent(&mut quotas, k, id, 10, Some(UdpAction::Evict), 1);
    assert_eq!(rule.take_ended(&quotas, id), Some(vec![7, 8]));
    assert!(rule.flows.get(id).is_none());
    assert_eq!(rule.take_ended(&quotas, id), None, "only once");
    assert!(rule.flows.get(kept).is_some());
    assert_eq!(rule.registry.len(), 1);
    assert!(!rule.flows.is_full());
}

#[test]
fn a_second_datagram_of_a_pending_flow_is_dropped() {
    let quotas = QuotaScopeManager::new();
    let mut rule = rule(4);
    assert!(matches!(
        rule.handle_datagram(&quotas, None, key(7000, 1), 1),
        DatagramAction::Open(_)
    ));
    assert!(matches!(
        rule.handle_datagram(&quotas, None, key(7000, 1), 1),
        DatagramAction::Drop
    ));
    assert_eq!(rule.stats.errors.flows_pending_drops, 1);
}

#[test]
fn a_refused_flow_leaves_no_slot() {
    let quotas = QuotaScopeManager::new();
    let mut rule = rule(4);
    let DatagramAction::Open(cold) = rule.handle_datagram(&quotas, None, key(7000, 1), 1) else {
        panic!("a new source opens a flow")
    };
    let mut owner = Some(RateLimitStatsAccumulator::new());
    let mut rule_stats = None;
    let refused = LayeredAcquire::OwnerRejected(RejectReason::OwnerUdpFlowRate);
    assert!(rule
        .acquire_first_packet(&quotas, cold, refused, vec![], &mut owner, &mut rule_stats)
        .is_none());
    assert!(rule.registry.is_empty());
    assert_eq!(owner.unwrap().reject_total(RejectReason::OwnerUdpFlowRate), 1);
}

#[test]
fn addresses_are_tried_in_turn() {
    let quotas = QuotaScopeManager::new();
    let mut rule = rule(4);
    let DatagramAction::Open(cold) = rule.handle_datagram(&quotas, None, key(7000, 1), 1) else {
        panic!("a new source opens a flow")
    };
    let next = rule.cold_resolved(&quotas, cold, Some(vec![addr(8, 8), addr(9, 9)]));
    let ColdNext::Connect(cold, first) = next else { panic!("an address") };
    assert_eq!(first, addr(8, 8));
    let next = rule.cold_connected(&quotas, None, cold, ConnectOutcome::ConnectFailed, 0);
    let ColdNext::Connect(cold, second) = next else { panic!("another address") };
    assert_eq!(second, addr(9, 9));
    assert_eq!(rule.stats.errors.upstream_connect_failed, 1);
    let next = rule.cold_connected(&quotas, None, cold, ConnectOutcome::BindFailed, 0);
    assert!(matches!(next, ColdNext::Done));
    assert_eq!(rule.stats.errors.upstream_connect_failed, 1);
    assert_eq!(rule.stats.snapshot_dns_failures(), 1);
    assert!(rule.registry.is_empty());
}

#[test]
fn no_address_is_a_dns_failure() {
    let quotas = QuotaScopeManager::new();
    let mut rule = rule(4);
    for addrs in [None, Some(vec![])] {
        let DatagramAction::Open(cold) = rule.handle_datagram(&quotas, None, key(7000, 1), 1)
        else {
            panic!("a new source opens a flow")
        };
        assert!(matches!(rule.cold_resolved(&quotas, cold, addrs), ColdNext::Done));
    }
    assert_eq!(rule.stats.snapshot_dns_failures(), 2);
    assert!(rule.registry.is_empty());
}

#[test]
fn cold_path_addflow_channel_full_rolls_back() {
    let quotas = QuotaScopeManager::new();
    let mut rule = rule(4);
    let k = key(7000, 1);
    let id = open_flow(&mut rule, &quotas, k, 0);
    assert!(!rule.cold_handed_over(&quotas, k, id, false));
    assert_eq!(rule.stats.errors.addflow_dropped, 1);
    assert!(rule.registry.is_empty());
    assert!(!rule.rearm(id));
}

#[test]
fn send_failures_are_told_apart() {
    let mut quotas = QuotaScopeManager::new();
    let mut rule = rule(4);
    let k = key(7000, 1);
    let id = open_flow(&mut rule, &quotas, k, 0);
    let _ = rule.fast_sent(&mut quotas, k, id, 10, Some(UdpAction::MessageTooLarge), 0);
    assert_eq!(rule.stats.errors.emsgsize, 1);
    let _ = rule.fast_sent(&mut quotas, k, id, 10, Some(UdpAction::Transient), 0);
    assert!(rule.rearm(id));
    let _ = rule.fast_sent(&mut quotas, k, id, 10, Some(UdpAction::Evict), 0);
    assert_eq!(rule.stats.errors.icmp_evict, 1);
    assert!(rule.registry.is_empty());
    assert!(!rule.rearm(id));
    assert_eq!(rule.stats.snapshot(), (0, 0, 0));
}

fn quota(quotas: &mut QuotaScopeManager, bytes: i64) -> portunus::quota::scope::QuotaHandle {
    quotas.install(
        "alice",
        "edge-01",
        QuotaState { monthly_bytes: 1_000_000, budget_remaining_bytes: bytes, exhausted: false },
    )
}

#[test]
fn a_used_up_quota_drops_new_sources() {
    let mut quotas = QuotaScopeManager::new();
    let q = quota(&mut quotas, 5);
    let _ = quotas.consume(q, 6);
    let mut rule = rule(4);
    assert!(matches!(
        rule.handle_datagram(&quotas, Some(q), key(7000, 1), 1),
        DatagramAction::Drop
    ));
    assert_eq!(rule.handle_inbound(&quotas, Some(q), key(7000, 1)), InboundStep::Drop);
    assert!(rule.registry.is_empty());
}

#[test]
fn a_run_costs_what_was_accepted() {
    let mut quotas = QuotaScopeManager::new();
    let q = quota(&mut quotas, 1_000);
    let mut rule = rule(4);
    let k = key(7000, 1);
    let built =
        rule.build_or_lookup_flow(&quotas, Some(q), k, vec![addr(9, 9)], None, vec![], true, 0);
    assert!(matches!(built, BuiltFlow::Opened(_)));
    let mut batch = BatchState::new();
    for n in [100, 200, 300] {
        let step = batch.process(&rule, &mut quotas, k, n);
        assert!(step.flush.is_none() && !step.cold);
    }
    assert_eq!(quotas.remaining(q), 400);
    let run = batch.finish().expect("a run");
    assert_eq!(run.sizes, vec![100, 200, 300]);
    let next = rule.flush_run(&mut quotas, &run, RunOutcome::Sent(1), 5);
    assert_eq!(next, FlushNext::Probe { at: 1 });
    assert_eq!(quotas.remaining(q), 900);
    assert_eq!(rule.stats.snapshot_datagrams_in(), 1);
    assert_eq!(rule.stats.snapshot(), (100, 0, 0));
}

#[test]
fn a_run_that_fails_costs_nothing() {
    let mut quotas = QuotaScopeManager::new();
    let q = quota(&mut quotas, 1_000);
    let mut rule = rule(4);
    let k = key(7000, 1);
    let _ =
        rule.build_or_lookup_flow(&quotas, Some(q), k, vec![addr(9, 9)], None, vec![], true, 0);
    for (outcome, next) in [
        (RunOutcome::WouldBlock, FlushNext::SendSingly),
        (RunOutcome::Failed(UdpAction::Evict), FlushNext::Done),
    ] {
        let mut batch = BatchState::new();
        let _ = batch.process(&rule, &mut quotas, k, 100);
        let run = batch.finish().expect("a run");
        assert_eq!(rule.flush_run(&mut quotas, &run, outcome, 5), next);
        assert_eq!(quotas.remaining(q), 1_000);
    }
    assert_eq!(rule.stats.errors.icmp_evict, 1);
    assert!(rule.registry.is_empty());
}

#[test]
fn a_new_source_interrupts_a_run() {
    let mut quotas = QuotaScopeManager::new();
    let mut rule = rule(4);
    let k = key(7000, 1);
    let _ = open_flow(&mut rule, &quotas, k, 0);
    let mut batch = BatchState::new();
    let _ = batch.process(&rule, &mut quotas, k, 100);
    let step = batch.process(&rule, &mut quotas, key(7000, 2), 100);
    assert!(step.cold);
    assert_eq!(step.flush.expect("the run so far").sizes, vec![100]);
    assert!(batch.finish().is_none());
}

#[test]
fn sockets_are_bound_in_the_family_of_the_upstream() {
    assert_eq!(bind_addr_for(addr(1, 5)), SocketAddr::new(IpAddr::V4(0), 0));
    assert_eq!(
        bind_addr_for(SocketAddr::new(IpAddr::V6(1), 5)),
        SocketAddr::new(IpAddr::V6(0), 0)
    );
}

#[test]
fn replies_are_booked_as_far_as_they_were_sent() {
    let mut quotas = QuotaScopeManager::new();
    let q = quota(&mut quotas, 1_000);
    let mut rule = rule(4);
    let k = key(7000, 1);
    let _ =
        rule.build_or_lookup_flow(&quotas, Some(q), k, vec![addr(9, 9)], None, vec![], true, 0);
    let id = FlowId(0);
    assert_eq!(
        rule.drain_one_flow_batched(&quotas, k, id, RecvOutcome::Received(3)),
        DrainNext::Forward
    );
    let sizes = vec![10, 20, 30];
    rule.forward_reply_batch(&mut quotas, k, id, &sizes, RunOutcome::Sent(2), 3);
    assert_eq!(rule.stats.snapshot(), (0, 30, 0));
    assert_eq!(rule.stats.snapshot_datagrams_out(), 2);
    assert_eq!(rule.stats.errors.wouldblock, 1);
    assert_eq!(quotas.remaining(q), 970);
    rule.forward_reply_batch(&mut quotas, k, id, &sizes, RunOutcome::WouldBlock, 3);
    assert_eq!(rule.stats.errors.wouldblock, 2);
    rule.forward_reply_batch(
        &mut quotas,
        k,
        id,
        &sizes,
        RunOutcome::Failed(UdpAction::Transient),
        3,
    );
    assert_eq!(rule.stats.errors.wouldblock, 2);
    assert_eq!(rule.stats.snapshot(), (0, 30, 0));
}

#[test]
fn failures_on_the_reply_path_are_told_apart() {
    let quotas = QuotaScopeManager::new();
    let mut rule = rule(4);
    let k = key(7000, 1);
    let id = open_flow(&mut rule, &quotas, k, 0);
    let mut drain = |outcome| rule.drain_one_flow_batched(&quotas, k, id, outcome);
    assert_eq!(drain(RecvOutcome::Received(0)), DrainNext::Done);
    assert_eq!(drain(RecvOutcome::Failed(UdpAction::WouldBlock)), DrainNext::Singly);
    assert_eq!(drain(RecvOutcome::Failed(UdpAction::MessageTooLarge)), DrainNext::Done);
    assert_eq!(drain(RecvOutcome::Failed(UdpAction::Transient)), DrainNext::Done);
    assert_eq!(drain(RecvOutcome::Failed(UdpAction::Evict)), DrainNext::Done);
    assert_eq!(rule.stats.errors.emsgsize, 1);
    assert_eq!(rule.stats.errors.icmp_evict, 1);
    assert!(!rule.rearm(id));
}

#[test]
fn drain_budget_caps_at_32_datagrams_per_ready() {
    let mut turn = FlowTurn::new();
    let taken = (0..100).filter(|_| turn.take()).count();
    assert_eq!(taken, DEMUX_FAIRNESS_BUDGET);
    assert_eq!(taken, 32);
    assert!(BATCH_SIZE <= DEMUX_FAIRNESS_BUDGET);
}

#[test]
fn sweep_once_evicts_idle_flow_and_cancels() {
    let quotas = QuotaScopeManager::new();
    let mut rule = rule(4);
    let k = key(7000, 1);
    let id = open_flow(&mut rule, &quotas, k, 0);
    assert_eq!(rule.sweep_once(&quotas, 100 * SEC, 60 * SEC), vec![k]);
    assert!(rule.registry.is_empty());
    assert!(!rule.rearm(id));
}

#[test]
fn sweep_once_keeps_fresh_flow() {
    let quotas = QuotaScopeManager::new();
    let mut rule = rule(4);
    let id = open_flow(&mut rule, &quotas, key(7000, 1), 90 * SEC);
    assert!(rule.sweep_once(&quotas, 100 * SEC, 60 * SEC).is_empty());
    assert!(rule.rearm(id));
}

#[test]
fn sweep_once_on_empty_registry_is_noop() {
    let quotas = QuotaScopeManager::new();
    let mut rule = rule(4);
    assert!(rule.sweep_once(&quotas, SEC, SEC).is_empty());
}

#[test]
fn zero_idle_window_disables_reaper_without_panic() {
    assert_eq!(sweep_period(0), None);
    assert_eq!(sweep_period(60 * SEC), Some(15 * SEC));
    assert_eq!(sweep_period(4), Some(25_000_000));
}

#[test]
fn relay_goes_on_to_the_next_address() {
    let mut quotas = QuotaScopeManager::new();
    let mut rule = rule(4);
    let k = key(7000, 1);
    assert_eq!(rule.handle_inbound(&quotas, None, k), InboundStep::Open);
    let addrs = vec![addr(8, 8), addr(9, 9)];
    let built = rule.build_or_lookup_flow(&quotas, None, k, addrs, Some(1), vec![], true, 0);
    let BuiltFlow::Opened(id) = built else { panic!("opened") };
    assert_eq!(rule.handle_inbound(&quotas, None, k), InboundStep::Relay(id));
    assert_eq!(rule.relay_start(&quotas, id), RelayStep::Send(addr(8, 8)));
    assert_eq!(
        rule.relay_sent(&mut quotas, k, id, 10, false, 1),
        RelayStep::Send(addr(9, 9))
    );
    assert_eq!(rule.relay_sent(&mut quotas, k, id, 10, true, 1), RelayStep::Done);
    assert_eq!(rule.stats.snapshot_active_flows(), 1);
    assert_eq!(rule.stats.snapshot(), (10, 0, 0));
    // The flow stays with the address that works.
    assert_eq!(rule.relay_start(&quotas, id), RelayStep::Send(addr(9, 9)));
    assert_eq!(rule.relay_sent(&mut quotas, k, id, 10, false, 2), RelayStep::Done);
    assert_eq!(rule.stats.snapshot_dns_failures(), 1);
}

#[test]
fn a_lost_race_gets_the_flow_that_won() {
    let quotas = QuotaScopeManager::new();
    let mut rule = rule(1);
    let k = key(7000, 1);
    let open = |rule: &mut UdpRule, k, bound| {
        rule.build_or_lookup_flow(&quotas, None, k, vec![addr(9, 9)], None, vec![], bound, 0)
    };
    assert_eq!(open(&mut rule, k, false), BuiltFlow::Nowhere);
    let BuiltFlow::Opened(id) = open(&mut rule, k, true) else { panic!("opened") };
    assert_eq!(open(&mut rule, k, true), BuiltFlow::Existing(id));
    assert_eq!(open(&mut rule, key(7000, 2), true), BuiltFlow::Nowhere);
    assert_eq!(rule.stats.snapshot_flows_dropped_overflow(), 1);
}

#[test]
fn targets_are_resolved_in_turn() {
    let quotas = QuotaScopeManager::new();
    let mut rule = rule(4);
    let mut walk = TargetWalk::new(&vec![Health::Failed, Health::Healthy]);
    let turn = rule.target_resolved(&quotas, &mut walk, None);
    assert_eq!(turn.report, HealthReport { target: 1, success: false });
    assert!(matches!(turn.step, TargetStep::Resolve(0)));
    assert_eq!(rule.stats.snapshot_dns_failures(), 1);
    let turn = rule.target_resolved(&quotas, &mut walk, Some(vec![addr(9, 9)]));
    assert_eq!(turn.report, HealthReport { target: 0, success: true });
    match turn.step {
        TargetStep::Build { target_idx, addrs } => {
            assert_eq!((target_idx, addrs), (0, vec![addr(9, 9)]));
        }
        other => panic!("{other:?}"),
    }
    let turn = rule.target_resolved(&quotas, &mut walk, Some(vec![]));
    assert!(matches!(turn.step, TargetStep::GiveUp));
    assert_eq!(rule.stats.snapshot_dns_failures(), 3);
}

#[test]
fn a_single_target_without_addresses_is_counted() {
    let quotas = QuotaScopeManager::new();
    let mut rule = rule(4);
    assert!(rule.target_addrs(&quotas, Ok(vec![])).is_none());
    let failed = Err(ConnectError::Resolution(ResolverError::EmptyAnswer));
    assert!(rule.target_addrs(&quotas, failed).is_none());
    let other = Err(ConnectError::Dial(io::Error::from(io::ErrorKind::Other)));
    assert!(rule.target_addrs(&quotas, other).is_none());
    assert_eq!(rule.stats.snapshot_dns_failures(), 2);
    assert_eq!(rule.target_addrs(&quotas, Ok(vec![addr(1, 1)])), Some(vec![addr(1, 1)]));
}

#[test]
fn replies_stop_when_the_quota_is_used_up() {
    let mut quotas = QuotaScopeManager::new();
    let q = quota(&mut quotas, 100);
    let mut rule = rule(4);
    let k = key(7000, 1);
    let _ =
        rule.build_or_lookup_flow(&quotas, Some(q), k, vec![addr(9, 9)], None, vec![], true, 0);
    let id = FlowId(0);
    assert!(rule.reply_received(&quotas, id));
    rule.reply_sent(&mut quotas, k, id, 60, true, 1);
    rule.reply_sent(&mut quotas, k, id, 60, false, 1);
    assert_eq!(quotas.remaining(q), 40);
    rule.reply_sent(&mut quotas, k, id, 60, true, 1);
    assert!(!rule.reply_received(&quotas, id));
    assert_eq!(rule.relay_start(&quotas, id), RelayStep::Done);
    assert_eq!(rule.stats.snapshot(), (0, 120, 0));
    // The flow stays open.
    assert!(rule.rearm(id));
}

#[test]
fn a_listener_that_stops_shows_what_was_left() {
    let quotas = QuotaScopeManager::new();
    let mut rule = rule(4);
    let id = open_flow(&mut rule, &quotas, key(7000, 1), 0);
    rule.finish_listener(&quotas);
    assert_eq!(rule.stats.snapshot_active_flows(), 1);
    assert!(rule.registry.is_empty());
    assert!(!rule.rearm(id));
}

#[test]
fn draining_a_rule_ends_its_flows() {
    let quotas = QuotaScopeManager::new();
    let mut rule = rule(4);
    let id = open_flow(&mut rule, &quotas, key(7000, 1), 0);
    rule.pump_stats(&quotas);
    assert_eq!(rule.stats.snapshot_active_flows(), 1);
    rule.drain(&quotas);
    assert_eq!(rule.stats.snapshot_active_flows(), 0);
    assert!(rule.registry.is_empty());
    assert!(!rule.rearm(id));
}

#[test]
fn port_map_maps_within_range_returns_none_outside() {
    let listen = PortRange::new(7000, 7002).unwrap();
    let target = PortRange::new(8000, 8002).unwrap();
    assert_eq!(port_map(7000, &listen, &target), Some(8000));
    assert_eq!(port_map(7001, &listen, &target), Some(8001));
    assert_eq!(port_map(7002, &listen, &target), Some(8002));
    let short_target = PortRange::new(8000, 8001).unwrap();
    assert_eq!(port_map(7000, &listen, &short_target), Some(8000));
    assert_eq!(port_map(7001, &listen, &short_target), Some(8001));
    assert_eq!(port_map(7002, &listen, &short_target), None);
    assert_eq!(port_map(6999, &listen, &target), None);
}

fn runtime_config(listen: PortRange, target: PortRange) -> UdpRuntimeConfig {
    UdpRuntimeConfig {
        rule_id: RuleId(1),
        listen_ports: listen,
        target: Target::Ip(IpAddr::V4(1)),
        target_ports: target,
        prefer_ipv6: false,
        rule_cap: 16,
        idle_window_nanos: SEC,
        stats: RuleStats::new(),
    }
}

#[test]
fn a_rule_starts_with_its_listeners() {
    let listen = PortRange::new(7000, 7002).unwrap();
    assert_eq!(UdpRuleRuntime::next_bind(&listen, 0), Some(7000));
    assert_eq!(UdpRuleRuntime::next_bind(&listen, 2), Some(7002));
    assert_eq!(UdpRuleRuntime::next_bind(&listen, 3), None);
    let cfg = runtime_config(listen, PortRange::new(8000, 8001).unwrap());
    let Ok(runtime) = UdpRuleRuntime::start(cfg, None) else { panic!("started") };
    assert_eq!(
        runtime.listeners,
        vec![
            ListenerPlan { listen_port: 7000, target_port: 8000 },
            ListenerPlan { listen_port: 7001, target_port: 8001 },
        ]
    );
    assert_eq!(runtime.rule.registry.cap(), 16);
    assert_eq!(runtime.supervisor.state(), State::Running);
}

#[test]
fn a_rule_whose_port_is_taken_does_not_start() {
    let cfg = runtime_config(PortRange::single(7000), PortRange::single(8000));
    let taken = Some((7000, io::Error::from(io::ErrorKind::AddrInUse)));
    match UdpRuleRuntime::start(cfg, taken) {
        Err(UdpRuntimeStartError::BindFailed { port, error }) => {
            assert_eq!(port, 7000);
            assert_eq!(error.kind(), io::ErrorKind::AddrInUse);
        }
        Ok(_) => panic!("the port is taken"),
    }
}

/// Takes a rule down. Each task ends when it is told to.
fn take_down(sup: &mut Supervisor, listeners: Vec<u16>) -> Vec<SupervisorAction> {
    let mut running: Vec<TaskExit> = Vec::new();
    let mut actions = Vec::new();
    loop {
        let action = sup.next();
        match action {
            SupervisorAction::AwaitTask => match running.pop() {
                Some(exit) => assert_eq!(sup.task_exited(&exit), None),
                None => sup.tasks_gone(),
            },
            SupervisorAction::CancelStatsPump => running.push(TaskExit::Finished(Role::StatsPump)),
            SupervisorAction::CancelListeners => {
                running.extend(listeners.iter().map(|p| TaskExit::Finished(Role::Listener(*p))));
            }
            SupervisorAction::CancelReaper => running.push(TaskExit::Finished(Role::Reaper)),
            SupervisorAction::ShutdownDemux => running.push(TaskExit::Finished(Role::Demux)),
            SupervisorAction::DrainFlows => {}
            SupervisorAction::AwaitEvent => panic!("the rule is going down"),
            SupervisorAction::Publish => break,
        }
        if action != SupervisorAction::AwaitTask {
            actions.push(action);
        }
    }
    actions
}

#[test]
fn intentional_shutdown_emits_ok_no_failed_callback() {
    let mut sup = Supervisor::new(2);
    assert_eq!(sup.next(), SupervisorAction::AwaitEvent);
    sup.shutdown_requested();
    assert_eq!(sup.state(), State::ShuttingDownIntentional);
    let actions = take_down(&mut sup, vec![7001, 7002]);
    assert_eq!(
        actions,
        vec![
            SupervisorAction::CancelStatsPump,
            SupervisorAction::CancelListeners,
            SupervisorAction::CancelReaper,
            SupervisorAction::DrainFlows,
            SupervisorAction::ShutdownDemux,
        ]
    );
    assert_eq!(sup.outcome(), ShutdownOutcome::Clean);
}

#[test]
fn unexpected_listener_exit_during_running_emits_failed_once() {
    let mut sup = Supervisor::new(2);
    let failure = sup.task_exited(&TaskExit::Finished(Role::Listener(7001)));
    assert_eq!(failure.as_deref(), Some("unexpected_task_exit:Listener(7001)"));
    assert_eq!(sup.state(), State::ShuttingDownAfterFailure);
    sup.shutdown_requested();
    assert_eq!(sup.state(), State::ShuttingDownAfterFailure);
    let _ = take_down(&mut sup, vec![7002]);
    assert_eq!(sup.outcome(), ShutdownOutcome::Clean);
}

#[test]
fn second_shutdown_call_is_idempotent() {
    let mut sup = Supervisor::new(1);
    sup.shutdown_requested();
    let _ = take_down(&mut sup, vec![7001]);
    let first = sup.outcome();
    sup.shutdown_requested();
    assert_eq!(sup.next(), SupervisorAction::Publish);
    assert_eq!(sup.outcome(), first);
}

#[test]
fn tasks_that_end_before_their_turn_are_named() {
    let mut sup = Supervisor::new(1);
    let died = TaskExit::Died("panic".to_string());
    assert_eq!(sup.task_exited(&died).as_deref(), Some("unexpected_task_exit:JoinError:panic"));
    assert_eq!(sup.next(), SupervisorAction::CancelStatsPump);
    assert_eq!(sup.task_exited(&TaskExit::Finished(Role::Demux)), None);
    assert_eq!(sup.task_exited(&TaskExit::Finished(Role::Reaper)), None);
    assert_eq!(sup.task_exited(&died), None);
    assert_eq!(sup.task_exited(&TaskExit::Finished(Role::StatsPump)), None);
    assert_eq!(sup.next(), SupervisorAction::CancelListeners);
    sup.tasks_gone();
    let _ = take_down(&mut sup, vec![]);
    assert_eq!(
        sup.outcome(),
        ShutdownOutcome::UnexpectedExitsDuringDrain {
            roles: vec!["Demux".to_string(), "Reaper".to_string(), "Unknown".to_string()],
            count: 3
        }
    );
    assert_eq!(Role::StatsPump.label(), "StatsPump");
}

#[test]
fn cold_path_reserves_before_spawn_under_flood() {
    const N: u16 = 6;
    let quotas = QuotaScopeManager::new();
    let mut rule = rule(1);
    let keys: Vec<FlowKey> =
        (0..N).map(|i| FlowKey::new(8000, addr(1, 61000 + i))).collect();
    for key in &keys {
        let _ = rule.handle_datagram(&quotas, None, *key, 1);
    }
    assert_eq!(rule.registry.len(), 1, "exactly one flow may be reserved at rule_cap=1");
    assert_eq!(
        rule.stats.snapshot_flows_dropped_overflow(),
        u64::from(N - 1),
        "the over-cap sources must count as cap overflow, not pending"
    );
    assert_eq!(rule.registry.dropped_overflow(), u64::from(N - 1));
    assert_eq!(rule.stats.errors.flows_pending_drops, 0);
    for key in keys.iter().skip(1) {
        assert!(rule.registry.get(*key).is_none(), "over-cap source must not have a flow");
    }
}

#[test]
fn idle_flows_are_evicted_after_window() {
    let quotas = QuotaScopeManager::new();
    let mut rule = rule(4);
    let key = key(8000, 1);
    let id = open_flow(&mut rule, &quotas, key, 0);
    let ended = rule.sweep_once(&quotas, 60 * SEC, SEC / 10);
    assert_eq!(ended, vec![key]);
    assert!(rule.registry.is_empty(), "reaper must evict the idle flow");
    assert!(rule.flows.get(id).unwrap().is_cancelled(), "flow.cancel must fire");
}

#[test]
fn drain_empties_registry_and_cancels_flows() {
    let quotas = QuotaScopeManager::new();
    let mut rule = rule(4);
    let id = open_flow(&mut rule, &quotas, key(8000, 1), 0);
    assert!(!rule.flows.get(id).unwrap().is_cancelled());
    rule.drain(&quotas);
    assert_eq!(rule.registry.len(), 0);
    assert!(rule.flows.get(id).unwrap().is_cancelled());
}

use portunus::addr::{IpAddr, SocketAddr};
use portunus::failover::{dial_order, Health, HealthReport, TargetWalk};
use portunus::failover_path::{
    accept, needs_pacing, Dial, DialStep, LifecycleEvent, Phase, RuleLifecycle, RuleStatusEvent,
    TcpConnection,
};
use portunus::probe::{probe_one, probe_period_secs, ProbeOutcome, Prober};
use portunus::proxy_protocol::{encode, ProxyProtocolVersion};
use portunus::rate_limit::bucket::TokenBucket;
use portunus::rate_limit::gate::LayeredAcquire;
use portunus::rate_limit::limiter::BandwidthLimiter;
use portunus::rate_limit::stats::RateLimitStatsAccumulator;
use portunus::stats::RuleStats;
use portunus::types::{PortRange, RejectReason, RuleId};

fn v4(last: u32, port: u16) -> SocketAddr {
    SocketAddr::new(IpAddr::V4(0x7f00_0000 + last), port)
}

#[test]
fn the_first_healthy_target_comes_first() {
    let h = |s: &str| -> Vec<Health> {
        s.chars().map(|c| if c == 'H' { Health::Healthy } else { Health::Failed }).collect()
    };
    assert_eq!(dial_order(&h("HHH")), vec![0, 1, 2]);
    assert_eq!(dial_order(&h("FHH")), vec![1, 0, 2]);
    assert_eq!(dial_order(&h("FFH")), vec![2, 0, 1]);
    assert_eq!(dial_order(&h("FFF")), vec![0, 1, 2]);
    assert_eq!(dial_order(&h("F")), vec![0]);
}

#[test]
fn a_walk_visits_every_target_once() {
    let mut walk = TargetWalk::new(&vec![Health::Failed, Health::Healthy, Health::Healthy]);
    assert_eq!(walk.current(), 1);
    assert_eq!(walk.advance(), Some(0));
    assert_eq!(walk.advance(), Some(2));
    assert_eq!(walk.advance(), None);
    assert_eq!(walk.current(), 2);
}

#[test]
fn failed_targets_are_reported_and_the_next_is_tried() {
    let health = vec![Health::Healthy, Health::Healthy];
    let (mut dial, first) = Dial::start(&health, v4(1, 10), v4(2, 20));
    assert_eq!(first, 0);
    let turn = dial.connected(false, None);
    assert_eq!(turn.report, Some(HealthReport { target: 0, success: false }));
    assert!(matches!(turn.step, DialStep::Connect(1)));
    let turn = dial.connected(true, None);
    assert_eq!(turn.report, Some(HealthReport { target: 1, success: true }));
    assert!(matches!(turn.step, DialStep::Serve(1)));
}

#[test]
fn all_targets_failed_gives_up() {
    let (mut dial, _) = Dial::start(&vec![Health::Failed], v4(1, 10), v4(2, 20));
    let turn = dial.connected(false, None);
    assert_eq!(turn.report, Some(HealthReport { target: 0, success: false }));
    assert!(matches!(turn.step, DialStep::GiveUp));
}

#[test]
fn a_target_is_healthy_only_after_its_header() {
    let (peer, local) = (v4(1, 10), v4(2, 20));
    let (mut dial, _) = Dial::start(&vec![Health::Healthy, Health::Healthy], peer, local);
    let turn = dial.connected(true, Some(ProxyProtocolVersion::V1));
    assert_eq!(turn.report, None);
    let expected = encode(ProxyProtocolVersion::V1, peer, local).unwrap();
    match turn.step {
        DialStep::WritePrelude(bytes) => assert_eq!(bytes, expected),
        other => panic!("{other:?}"),
    }
    let turn = dial.prelude_written(false);
    assert_eq!(turn.report, Some(HealthReport { target: 0, success: false }));
    assert!(matches!(turn.step, DialStep::Connect(1)));
    let _ = dial.connected(true, Some(ProxyProtocolVersion::V2));
    let turn = dial.prelude_written(true);
    assert_eq!(turn.report, Some(HealthReport { target: 1, success: true }));
    assert!(matches!(turn.step, DialStep::Serve(1)));
}

#[test]
fn a_header_that_cannot_be_made_is_a_failure() {
    let local6 = SocketAddr::new(IpAddr::V6(1), 20);
    let (mut dial, _) = Dial::start(&vec![Health::Healthy], v4(1, 10), local6);
    let turn = dial.connected(true, Some(ProxyProtocolVersion::V1));
    assert_eq!(turn.report, Some(HealthReport { target: 0, success: false }));
    assert!(matches!(turn.step, DialStep::GiveUp));
}

#[test]
fn a_rule_is_reported_once() {
    let mut stats = RuleStats::new();
    let mut life = RuleLifecycle::new(RuleId(7), PortRange::single(80));
    assert_eq!(life.step(LifecycleEvent::Stopped, &mut stats), None);
    assert_eq!(
        life.step(LifecycleEvent::Bound, &mut stats),
        Some(RuleStatusEvent::Activated { rule_id: RuleId(7) })
    );
    assert_eq!(life.step(LifecycleEvent::Bound, &mut stats), None);
    assert_eq!(
        life.step(LifecycleEvent::Stopped, &mut stats),
        Some(RuleStatusEvent::Removed { rule_id: RuleId(7) })
    );
    assert_eq!(life.step(LifecycleEvent::Stopped, &mut stats), None);
    assert_eq!(life.phase, Phase::Over);
    assert_eq!(stats.errors.port_in_use, 0);
}

#[test]
fn a_bind_failure_names_the_port_of_a_range() {
    let failed = |range: PortRange| {
        let mut stats = RuleStats::new();
        let mut life = RuleLifecycle::new(RuleId(1), range);
        let told = life.step(
            LifecycleEvent::BindFailed { port: 30001, reason: "port_in_use".to_string() },
            &mut stats,
        );
        assert_eq!(stats.errors.port_in_use, 1);
        assert_eq!(life.phase, Phase::Over);
        match told {
            Some(RuleStatusEvent::Failed { reason, .. }) => reason,
            other => panic!("{other:?}"),
        }
    };
    assert_eq!(failed(PortRange::single(30001)), "port_in_use");
    assert_eq!(failed(PortRange::new(30000, 30002).unwrap()), "port_in_use:30001");
}

#[test]
fn an_activation_that_nobody_hears_ends_the_rule() {
    let mut stats = RuleStats::new();
    let mut life = RuleLifecycle::new(RuleId(1), PortRange::single(80));
    let _ = life.step(LifecycleEvent::Bound, &mut stats);
    assert_eq!(life.step(LifecycleEvent::Unheard, &mut stats), None);
    assert_eq!(life.step(LifecycleEvent::Stopped, &mut stats), None);
}

#[test]
fn only_admitted_connections_count() {
    let mut stats = RuleStats::new();
    let mut owner = Some(RateLimitStatsAccumulator::new());
    let mut rule = None;
    assert!(accept(LayeredAcquire::Granted, &mut stats, &mut owner, &mut rule));
    let refused = LayeredAcquire::OwnerRejected(RejectReason::OwnerConnRate);
    assert!(!accept(refused, &mut stats, &mut owner, &mut rule));
    assert!(!accept(
        LayeredAcquire::RuleRejected(RejectReason::ConnRate),
        &mut stats,
        &mut owner,
        &mut rule
    ));
    assert_eq!(stats.connections_total, 1);
    assert_eq!(owner.unwrap().reject_total(RejectReason::OwnerConnRate), 1);
}

#[test]
fn pacing_is_needed_where_anyone_has_a_cap() {
    let capped = Some(BandwidthLimiter::new(None, Some(TokenBucket::new(1, 1))));
    let free = Some(BandwidthLimiter::new(None, None));
    assert!(needs_pacing(&capped, &None));
    assert!(needs_pacing(&free, &capped));
    assert!(!needs_pacing(&free, &free));
    assert!(!needs_pacing(&None, &None));
}

#[test]
fn a_connection_that_ends_well_counts_the_rest() {
    let mut stats = RuleStats::for_range(PortRange::single(80));
    let mut conn = TcpConnection::open(&mut stats, 80, 3);
    assert_eq!(stats.snapshot(), (0, 0, 1));
    conn.passed_in(&mut stats, 100);
    conn.passed_out(&mut stats, 10);
    let credit = conn.close(&mut stats, Some((150, 10)));
    assert_eq!((credit.target, credit.bytes_in, credit.bytes_out), (3, 150, 10));
    assert_eq!(stats.snapshot(), (150, 10, 0));
    assert_eq!(stats.snapshot_per_port(), vec![(80, 150, 10, 0)]);
}

#[test]
fn a_connection_that_breaks_counts_what_passed() {
    let mut stats = RuleStats::new();
    let mut conn = TcpConnection::open(&mut stats, 80, 1);
    conn.passed_in(&mut stats, 100);
    let credit = conn.close(&mut stats, None);
    assert_eq!((credit.target, credit.bytes_in, credit.bytes_out), (1, 100, 0));
    assert_eq!(stats.snapshot(), (100, 0, 0));
}

#[test]
fn probes_go_round() {
    let mut prober = Prober::new();
    assert_eq!(prober.tick(0), None);
    let turns: Vec<Option<usize>> = (0..7).map(|_| prober.tick(3)).collect();
    assert_eq!(
        turns,
        vec![Some(0), Some(1), Some(2), Some(0), Some(1), Some(2), Some(0)]
    );
    assert_eq!(probe_period_secs(0), 1);
    assert_eq!(probe_period_secs(30), 30);
}

#[test]
fn a_probe_succeeds_only_if_it_connects() {
    assert_eq!(
        probe_one(2, ProbeOutcome::Connected),
        HealthReport { target: 2, success: true }
    );
    assert_eq!(probe_one(2, ProbeOutcome::Failed), HealthReport { target: 2, success: false });
    assert_eq!(probe_one(2, ProbeOutcome::TimedOut), HealthReport { target: 2, success: false });
}

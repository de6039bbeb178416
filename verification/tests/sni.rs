use portunus::addr::{IpAddr, SocketAddr};
use portunus::proxy_protocol::ProxyProtocolVersion;
use portunus::rate_limit::gate::LayeredAcquire;
use portunus::rate_limit::stats::RateLimitStatsAccumulator;
use portunus::sni::listener::{
    admit_routed, prelude_for, PeekDurationHistogram, PeekOutcome, SniAction, SniDispatchState,
    SniEvent, SniListener, SniListenerCounters, SniRouteResolver, SniRuleSlot, Target,
};
use portunus::sni::route_table::{
    wildcard_matches, BuildError, SniMatch, SniMatchKind, SniRoutingTable,
};
use portunus::stats::RuleStats;
use portunus::types::{RejectReason, RuleId};

fn rid(n: u64) -> RuleId {
    RuleId(n)
}

fn hit(n: u64, kind: SniMatchKind) -> SniMatch {
    SniMatch::Hit { rule_id: rid(n), kind }
}

#[test]
fn exact_beats_fallback() {
    let table = SniRoutingTable::from_members(&[(Some("api.example.com"), rid(1)), (None, rid(2))])
        .expect("build");
    assert_eq!(table.lookup(Some("api.example.com")), hit(1, SniMatchKind::Exact));
}

#[test]
fn unmatched_falls_back() {
    let table = SniRoutingTable::from_members(&[(Some("api.example.com"), rid(1)), (None, rid(2))])
        .expect("build");
    assert_eq!(table.lookup(Some("admin.example.com")), hit(2, SniMatchKind::Fallback));
}

#[test]
fn no_sni_lands_on_fallback() {
    let table = SniRoutingTable::from_members(&[(Some("api.example.com"), rid(1)), (None, rid(2))])
        .expect("build");
    assert_eq!(table.lookup(None), hit(2, SniMatchKind::Fallback));
}

#[test]
fn no_sni_no_fallback_misses() {
    let table = SniRoutingTable::from_members(&[(Some("api.example.com"), rid(1))]).expect("build");
    assert_eq!(table.lookup(None), SniMatch::Miss);
}

#[test]
fn duplicate_fallback_panics_or_errors() {
    let err = SniRoutingTable::from_members(&[(None, rid(1)), (None, rid(2))])
        .err()
        .expect("two fallbacks must error");
    assert_eq!(err, BuildError::DuplicateFallback);
}

#[test]
fn duplicate_exact_errors() {
    let err = SniRoutingTable::from_members(&[
        (Some("api.example.com"), rid(1)),
        (Some("API.example.com"), rid(2)),
    ])
    .err()
    .expect("duplicate exact must error");
    match err {
        BuildError::DuplicateExact(h) => assert_eq!(h, "api.example.com"),
        other => panic!("got {other:?}"),
    }
}

#[test]
fn duplicate_wildcard_errors() {
    let err = SniRoutingTable::from_members(&[
        (Some("*.example.com"), rid(1)),
        (Some("*.EXAMPLE.com"), rid(2)),
    ])
    .err()
    .expect("duplicate wildcard must error");
    assert_eq!(err, BuildError::DuplicateWildcard("example.com".to_string()));
}

#[test]
fn wildcard_single_label_only() {
    let table = SniRoutingTable::from_members(&[(Some("*.example.com"), rid(7))]).expect("build");
    assert_eq!(table.lookup(Some("foo.example.com")), hit(7, SniMatchKind::Wildcard));
    assert_eq!(table.lookup(Some("example.com")), SniMatch::Miss);
    assert_eq!(table.lookup(Some("a.b.example.com")), SniMatch::Miss);
}

#[test]
fn longest_wildcard_wins() {
    let table = SniRoutingTable::from_members(&[
        (Some("*.example.com"), rid(1)),
        (Some("*.team.example.com"), rid(2)),
    ])
    .expect("build");
    assert_eq!(table.lookup(Some("x.team.example.com")), hit(2, SniMatchKind::Wildcard));
}

#[test]
fn exact_beats_wildcard() {
    let table = SniRoutingTable::from_members(&[
        (Some("api.example.com"), rid(1)),
        (Some("*.example.com"), rid(2)),
    ])
    .expect("build");
    assert_eq!(table.lookup(Some("api.example.com")), hit(1, SniMatchKind::Exact));
    assert_eq!(table.lookup(Some("other.example.com")), hit(2, SniMatchKind::Wildcard));
}

#[test]
fn fallback_only_on_miss() {
    let table = SniRoutingTable::from_members(&[
        (Some("api.example.com"), rid(1)),
        (Some("*.example.com"), rid(2)),
        (None, rid(99)),
    ])
    .expect("build");
    match table.lookup(Some("api.example.com")) {
        SniMatch::Hit { rule_id, .. } => assert_eq!(rule_id, rid(1)),
        other => panic!("{other:?}"),
    }
    match table.lookup(Some("foo.example.com")) {
        SniMatch::Hit { rule_id, .. } => assert_eq!(rule_id, rid(2)),
        other => panic!("{other:?}"),
    }
    match table.lookup(Some("totally.unrelated.host")) {
        SniMatch::Hit { rule_id, kind } => {
            assert_eq!(rule_id, rid(99));
            assert_eq!(kind, SniMatchKind::Fallback);
        }
        other => panic!("{other:?}"),
    }
}

#[test]
fn lookup_lowercases_host() {
    let table = SniRoutingTable::from_members(&[(Some("api.example.com"), rid(1))]).expect("build");
    assert_eq!(table.lookup(Some("API.EXAMPLE.COM")), hit(1, SniMatchKind::Exact));
}

#[test]
fn order_of_members_is_irrelevant() {
    let members = [
        (Some("*.example.com"), rid(1)),
        (None, rid(2)),
        (Some("api.example.com"), rid(3)),
        (Some("*.team.example.com"), rid(4)),
    ];
    let mut backwards = members;
    backwards.reverse();
    let a = SniRoutingTable::from_members(&members).expect("build");
    let b = SniRoutingTable::from_members(&backwards).expect("build");
    for name in ["api.example.com", "x.example.com", "x.team.example.com", "nowhere"] {
        assert_eq!(a.lookup(Some(name)), b.lookup(Some(name)));
    }
}

fn bounds() -> Vec<u128> {
    // 1 ms, 10 ms, 100 ms, 1 s, 3 s.
    vec![1_000_000, 10_000_000, 100_000_000, 1_000_000_000, 3_000_000_000]
}

#[test]
fn snapshot_returns_zeroed_for_fresh_counters() {
    let c = SniListenerCounters::new(bounds());
    let snap = c.snapshot(8443);
    assert_eq!(snap.listen_port, 8443);
    assert_eq!(snap.sni_route_miss_total, 0);
    assert_eq!(snap.client_hello_parse_failures_total, 0);
    assert_eq!(snap.client_hello_peek_count, 0);
    assert_eq!(snap.client_hello_peek_sum_micros, 0);
    assert_eq!(snap.client_hello_peek_bucket_counts.len(), bounds().len());
}

#[test]
fn peek_histogram_snapshots_cumulative_buckets() {
    let mut histogram = PeekDurationHistogram::new(bounds());

    histogram.observe(1_000_000);
    histogram.observe(4_000_000_000);

    let (buckets, sum_micros, count) = histogram.snapshot();
    let one_ms_idx =
        bounds().iter().position(|upper| *upper == 1_000_000).expect("1ms bucket exists");

    assert_eq!(buckets[one_ms_idx], 1);
    assert_eq!(buckets[one_ms_idx + 1], 1);
    assert_eq!(buckets.last().copied(), Some(1));
    assert_eq!(sum_micros, 4_001_000);
    assert_eq!(count, 2);
}

fn slot(id: u64) -> SniRuleSlot {
    SniRuleSlot {
        rule_id: rid(id),
        target: Target::Dns("up.example".to_string()),
        target_port: 443,
        proxy_protocol: None,
        prefer_ipv6: false,
        listen_port: 8443,
        stats: RuleStats::new(),
        quota: None,
    }
}

fn dispatch(members: &[(Option<&str>, RuleId)], slots: Vec<SniRuleSlot>) -> SniDispatchState {
    let mut resolver = SniRouteResolver::new();
    for slot in slots {
        resolver.insert(slot);
    }
    SniDispatchState { table: SniRoutingTable::from_members(members).expect("build"), resolver }
}

#[test]
fn a_rule_has_one_slot() {
    let mut resolver = SniRouteResolver::new();
    assert_eq!(resolver.position(rid(1)), None);
    resolver.insert(slot(1));
    resolver.insert(slot(2));
    resolver.insert(SniRuleSlot { target_port: 8443, ..slot(1) });
    assert_eq!(resolver.slots.len(), 2);
    assert_eq!(resolver.position(rid(1)), Some(0));
    assert_eq!(resolver.position(rid(2)), Some(1));
    assert_eq!(resolver.position(rid(3)), None);
    assert_eq!(resolver.slots[0].target_port, 8443);
}

#[test]
fn peek_cap_refuses_connections_beyond_the_in_flight_limit() {
    let mut listener = SniListener::new(8443, bounds(), 2);
    let mut state = dispatch(&[(Some("a.example"), rid(1))], vec![slot(1)]);
    assert!(listener.accept());
    assert!(listener.accept());
    assert!(!listener.accept());
    assert_eq!(listener.counters.peek_capacity_rejections, 1);
    let _ = listener.handle_accept(&mut state, PeekOutcome::Failed, 5_000);
    assert!(listener.accept());
    assert!(!listener.accept());
}

#[test]
fn a_hello_goes_to_the_rule_of_its_name() {
    let mut listener = SniListener::new(8443, bounds(), 4);
    let mut state =
        dispatch(&[(Some("a.example"), rid(1)), (None, rid(2))], vec![slot(2), slot(1)]);
    assert!(listener.accept());
    let hello = PeekOutcome::Hello { sni: Some("A.example".to_string()) };
    assert_eq!(
        listener.handle_accept(&mut state, hello, 1_000),
        SniAction::Dispatch { slot: 1, kind: SniMatchKind::Exact, event: SniEvent::Routed }
    );
    assert_eq!(state.resolver.slots[1].stats.sni_route_exact_total, 1);
    assert!(listener.accept());
    assert_eq!(
        listener.handle_accept(&mut state, PeekOutcome::Hello { sni: None }, 1_000),
        SniAction::Dispatch {
            slot: 0,
            kind: SniMatchKind::Fallback,
            event: SniEvent::NoSni { fallback_used: true }
        }
    );
    assert_eq!(state.resolver.slots[0].stats.sni_route_fallback_total, 1);
}

#[test]
fn what_cannot_be_routed_is_dropped() {
    let mut listener = SniListener::new(8443, bounds(), 4);
    let mut state = dispatch(&[(Some("a.example"), rid(1))], vec![]);
    let outcomes = vec![
        (PeekOutcome::Timeout, SniEvent::ClientHelloTimeout),
        (PeekOutcome::Failed, SniEvent::ParseFailed),
        (PeekOutcome::Hello { sni: Some("b.example".to_string()) }, SniEvent::NoMatch),
        (PeekOutcome::Hello { sni: None }, SniEvent::NoSni { fallback_used: false }),
        (PeekOutcome::Hello { sni: Some("a.example".to_string()) }, SniEvent::UnknownRule),
    ];
    for (outcome, event) in outcomes {
        assert!(listener.accept());
        assert_eq!(
            listener.handle_accept(&mut state, outcome, 1_000),
            SniAction::Drop { event }
        );
    }
}

#[test]
fn a_header_needs_the_local_address() {
    let peer = SocketAddr::new(IpAddr::V4(1), 2);
    let local = SocketAddr::new(IpAddr::V4(3), 4);
    assert_eq!(prelude_for(None, peer, None), Ok(None));
    assert_eq!(prelude_for(Some(ProxyProtocolVersion::V1), peer, None), Err(()));
    let p = prelude_for(Some(ProxyProtocolVersion::V2), peer, Some(local)).unwrap().unwrap();
    assert_eq!((p.version, p.source, p.destination), (ProxyProtocolVersion::V2, peer, local));
}

#[test]
fn a_timeout_is_no_parse_failure() {
    let mut listener = SniListener::new(8443, bounds(), 4);
    let mut state = dispatch(&[(Some("a.example"), rid(1))], vec![slot(1)]);
    assert!(listener.accept());
    assert_eq!(
        listener.handle_accept(&mut state, PeekOutcome::Timeout, 3_000_000_000),
        SniAction::Drop { event: SniEvent::ClientHelloTimeout }
    );
    assert_eq!(listener.counters.parse_failures, 0);
    assert_eq!(listener.counters.miss, 0);
    assert!(listener.accept());
    let _ = listener.handle_accept(&mut state, PeekOutcome::Failed, 1_000);
    assert_eq!(listener.counters.parse_failures, 1);
}

#[test]
fn a_routed_connection_has_to_pass_the_limits() {
    let routed =
        SniAction::Dispatch { slot: 3, kind: SniMatchKind::Exact, event: SniEvent::Routed };
    let mut owner = Some(RateLimitStatsAccumulator::new());
    let mut rule = Some(RateLimitStatsAccumulator::new());
    assert_eq!(admit_routed(routed, LayeredAcquire::Granted, &mut owner, &mut rule), Some(3));
    assert!(owner.as_ref().unwrap().drain().is_none());
    assert!(rule.as_ref().unwrap().drain().is_none());
    let refused = LayeredAcquire::OwnerRejected(RejectReason::OwnerConnRate);
    assert_eq!(admit_routed(routed, refused, &mut owner, &mut rule), None);
    assert!(owner.as_ref().unwrap().drain().is_some());
    assert!(rule.as_ref().unwrap().drain().is_none());
    let refused = LayeredAcquire::RuleRejected(RejectReason::ConnRate);
    assert_eq!(admit_routed(routed, refused, &mut owner, &mut rule), None);
    assert!(rule.as_ref().unwrap().drain().is_some());
    let dropped = SniAction::Drop { event: SniEvent::NoMatch };
    let (mut owner, mut rule) = (None, None);
    assert_eq!(admit_routed(dropped, LayeredAcquire::Granted, &mut owner, &mut rule), None);
}

#[test]
fn a_wildcard_stands_for_one_label() {
    assert!(wildcard_matches("foo.example.com", "example.com"));
    for host in ["example.com", ".example.com", "xexample.com", "a.b.example.com"] {
        assert!(!wildcard_matches(host, "example.com"), "{host}");
    }
}

#[test]
fn every_order_of_members_gives_the_same_routes() {
    let members =
        [(Some("a.example"), rid(1)), (Some("*.example"), rid(2)), (None, rid(3))];
    let names = [Some("a.example"), Some("b.example"), Some("else"), None];
    let table = SniRoutingTable::from_members(&members).expect("build");
    for order in [[0, 2, 1], [1, 0, 2], [1, 2, 0], [2, 0, 1], [2, 1, 0]] {
        let reordered: Vec<_> = order.iter().map(|&i| members[i]).collect();
        let again = SniRoutingTable::from_members(&reordered).expect("build");
        for name in names {
            assert_eq!(again.lookup(name), table.lookup(name));
        }
    }
}

#[test]
fn the_histogram_shows_a_whole_run() {
    let mut h = PeekDurationHistogram::new(vec![1_000, 5_000]);
    for nanos in [500, 1_000, 4_000, 9_000] {
        h.observe(nanos);
    }
    assert_eq!(h.snapshot(), (vec![2, 3], 14, 4));
}

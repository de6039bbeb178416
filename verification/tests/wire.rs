use portunus::proto::v1::enrollment::{CredentialBundle, EnrollClientRequest};
use portunus::proto::v1::quota::{TrafficQuotaState, TrafficQuotaUpdate};
use portunus::proto::v1::rule::{Rule, Target};
use portunus::proto::v1::stats::{PerPortStats, PerTargetStats, RuleStats};
use portunus::proto::v1::{DecodeError, Protocol, ProxyProtocolVersion, TrafficQuotaAction};
use portunus::proto::wire::{parse_records, Record, Value};

#[test]
fn enroll_client_request_roundtrips() {
    let req = EnrollClientRequest { code: "join-code".into() };

    let bytes = req.encode_to_vec();
    assert!(bytes.contains(&0x0a), "field 1 tag for code must be present: {bytes:?}");

    let decoded = EnrollClientRequest::decode(bytes.as_slice()).expect("decode");
    assert_eq!(decoded, req);
}

#[test]
fn credential_bundle_roundtrips() {
    let bundle = CredentialBundle {
        version: 1,
        client_name: "edge-01".into(),
        server_endpoint: "control.example.com:7443".into(),
        server_cert_sha256: "a".repeat(64),
        server_cert_pem: "-----BEGIN CERTIFICATE-----\nZm9v\n-----END CERTIFICATE-----\n".into(),
        token: "client-token".into(),
        client_id: "01HCLIENTID0000000000000000".into(),
    };

    let bytes = bundle.encode_to_vec();
    for (tag, field) in [
        (0x08_u8, "version"),
        (0x12, "client_name"),
        (0x1a, "server_endpoint"),
        (0x22, "server_cert_sha256"),
        (0x2a, "server_cert_pem"),
        (0x32, "token"),
    ] {
        assert!(bytes.contains(&tag), "field tag for {field} must be present: {bytes:?}");
    }

    let decoded = CredentialBundle::decode(bytes.as_slice()).expect("decode");
    assert_eq!(decoded, bundle);
}

fn rule(rule_id: u64, listen_port: u32, host: &str, target_port: u32) -> Rule {
    Rule {
        rule_id,
        listen_port,
        target_host: host.to_string(),
        target_port,
        protocol: Protocol::Tcp as i32,
        listen_port_end: 0,
        target_port_end: 0,
        prefer_ipv6: None,
        targets: vec![],
        health_check_interval_secs: 0,
        sni_pattern: None,
        rate_limit: None,
        owner_id: None,
    }
}

fn rule_stats(rule_id: u64) -> RuleStats {
    RuleStats {
        rule_id,
        bytes_in: 1234,
        bytes_out: 5678,
        active_connections: 3,
        per_port: vec![],
        dns_failures: 0,
        datagrams_in: 0,
        datagrams_out: 0,
        active_flows: 0,
        flows_dropped_overflow: 0,
        target_failovers_total: 0,
        per_target: vec![],
        sni_route_exact_total: 0,
        sni_route_wildcard_total: 0,
        sni_route_fallback_total: 0,
        rate_limit: None,
    }
}

#[test]
fn legacy_rule_wire_compat() {
    let with_zero_ends = rule(7, 18080, "h", 8080);
    let mut without_ends = with_zero_ends.clone();
    without_ends.listen_port_end = 0;
    without_ends.target_port_end = 0;

    let bytes_a = with_zero_ends.encode_to_vec();
    let bytes_b = without_ends.encode_to_vec();
    assert_eq!(bytes_a, bytes_b, "default-stripping must be deterministic");

    assert!(
        !bytes_a.contains(&0x30),
        "tag for listen_port_end must be absent for single-port rule"
    );
    assert!(
        !bytes_a.contains(&0x38),
        "tag for target_port_end must be absent for single-port rule"
    );

    let decoded = Rule::decode(bytes_a.as_slice()).expect("decode");
    assert_eq!(decoded, with_zero_ends);
}

#[test]
fn range_rule_roundtrips() {
    let r = Rule {
        listen_port_end: 30050,
        target_port_end: 30050,
        ..rule(8, 30000, "10.0.0.5", 30000)
    };
    let bytes = r.encode_to_vec();
    let decoded = Rule::decode(bytes.as_slice()).expect("decode");
    assert_eq!(decoded, r);
    assert_eq!(decoded.listen_port_end, 30050);
    assert_eq!(decoded.target_port_end, 30050);
}

#[test]
fn legacy_rule_stats_encodes_without_per_port_tag() {
    let s = rule_stats(7);
    let bytes = s.encode_to_vec();
    assert!(!bytes.contains(&0x2a), "tag for per_port must be absent when the vec is empty");

    let decoded = RuleStats::decode(bytes.as_slice()).expect("decode");
    assert_eq!(decoded, s);
}

#[test]
fn rule_stats_with_per_port_roundtrips() {
    let port = |listen_port| PerPortStats {
        listen_port,
        bytes_in: 4500,
        bytes_out: 4500,
        active_connections: 1,
        datagrams_in: 0,
        datagrams_out: 0,
    };
    let s = RuleStats {
        bytes_in: 9000,
        bytes_out: 9000,
        active_connections: 2,
        per_port: vec![port(30000), port(30001)],
        ..rule_stats(8)
    };
    let bytes = s.encode_to_vec();
    let decoded = RuleStats::decode(bytes.as_slice()).expect("decode");
    assert_eq!(decoded, s);
    assert_eq!(decoded.per_port.len(), 2);
    assert_eq!(decoded.per_port[0].listen_port, 30000);
}

#[test]
fn v06_single_target_rule_emits_no_new_field_tags() {
    let r = rule(9, 18080, "h", 8080);
    let bytes = r.encode_to_vec();

    assert!(
        !bytes.contains(&0x4A),
        "tag for targets must be absent for v0.6.0-shaped Rule — got {bytes:?}"
    );
    assert!(
        !bytes.contains(&0x50),
        "tag for health_check_interval_secs must be absent when 0 — got {bytes:?}"
    );

    let decoded = Rule::decode(bytes.as_slice()).expect("decode");
    assert_eq!(decoded, r);
    assert!(decoded.targets.is_empty());
    assert_eq!(decoded.health_check_interval_secs, 0);
}

#[test]
fn v06_single_target_rule_stats_emits_no_new_field_tags() {
    let s = rule_stats(9);
    let bytes = s.encode_to_vec();

    assert!(
        !bytes.contains(&0x58),
        "tag for target_failovers_total must be absent when 0 — got {bytes:?}"
    );
    assert!(
        !bytes.contains(&0x62),
        "tag for per_target must be absent when empty — got {bytes:?}"
    );

    let decoded = RuleStats::decode(bytes.as_slice()).expect("decode");
    assert_eq!(decoded, s);
    assert_eq!(decoded.target_failovers_total, 0);
    assert!(decoded.per_target.is_empty());
}

#[test]
fn multi_target_rule_roundtrips() {
    let target = |host: &str, priority| Target {
        host: host.into(),
        port: 80,
        priority,
        proxy_protocol: None,
    };
    let r = Rule {
        targets: vec![target("primary.example.com", 0), target("secondary.example.com", 1)],
        health_check_interval_secs: 30,
        ..rule(42, 8080, "", 0)
    };
    let bytes = r.encode_to_vec();
    let decoded = Rule::decode(bytes.as_slice()).expect("decode");
    assert_eq!(decoded, r);
    assert_eq!(decoded.targets.len(), 2);
    assert_eq!(decoded.targets[0].host, "primary.example.com");
    assert_eq!(decoded.targets[1].priority, 1);
    assert_eq!(decoded.health_check_interval_secs, 30);
}

#[test]
fn multi_target_rule_with_legacy_fields_clear_keeps_back_compat_shape() {
    let r = Rule {
        targets: vec![Target {
            host: "a.test".into(),
            port: 80,
            priority: 0,
            proxy_protocol: None,
        }],
        ..rule(100, 9000, "", 0)
    };
    let bytes = r.encode_to_vec();

    assert!(
        !bytes.contains(&0x1A),
        "legacy target_host tag must be absent on multi-target rule — got {bytes:?}"
    );
    assert!(
        !bytes.contains(&0x20),
        "legacy target_port tag must be absent on multi-target rule — got {bytes:?}"
    );

    let decoded = Rule::decode(bytes.as_slice()).expect("decode");
    assert_eq!(decoded.targets.len(), 1);
    assert!(decoded.target_host.is_empty());
    assert_eq!(decoded.target_port, 0);
}

#[test]
fn rule_stats_per_target_roundtrips() {
    let s = RuleStats {
        bytes_in: 1_000_000,
        bytes_out: 800_000,
        active_connections: 10,
        target_failovers_total: 3,
        per_target: vec![
            PerTargetStats {
                index: 0,
                host: "primary.example.com".into(),
                port: 80,
                priority: 0,
                health: 0,
                consecutive_failures: 0,
                last_failure_at_unix_ms: 1_700_000_000_000,
                last_success_at_unix_ms: 1_700_000_010_000,
                bytes_in: 800_000,
                bytes_out: 600_000,
                connections_accepted: 8,
            },
            PerTargetStats {
                index: 1,
                host: "secondary.example.com".into(),
                port: 80,
                priority: 1,
                health: 1,
                consecutive_failures: 5,
                last_failure_at_unix_ms: 1_700_000_005_000,
                last_success_at_unix_ms: 0,
                bytes_in: 200_000,
                bytes_out: 200_000,
                connections_accepted: 2,
            },
        ],
        ..rule_stats(42)
    };
    let bytes = s.encode_to_vec();
    let decoded = RuleStats::decode(bytes.as_slice()).expect("decode");
    assert_eq!(decoded, s);
    assert_eq!(decoded.target_failovers_total, 3);
    assert_eq!(decoded.per_target.len(), 2);
    assert_eq!(decoded.per_target[0].host, "primary.example.com");
    assert_eq!(decoded.per_target[1].health, 1);
}

#[test]
fn target_message_roundtrips_with_priority_zero() {
    let t = Target {
        host: "primary.example.com".into(),
        port: 80,
        priority: 0,
        proxy_protocol: None,
    };
    let bytes = t.encode_to_vec();
    let decoded = Target::decode(bytes.as_slice()).expect("decode");
    assert_eq!(decoded, t);
    assert_eq!(decoded.priority, 0);
}

#[test]
fn target_message_roundtrips_with_proxy_protocol() {
    let t = Target {
        host: "proxy.example.com".into(),
        port: 443,
        priority: 0,
        proxy_protocol: Some(ProxyProtocolVersion::V2 as i32),
    };
    let bytes = t.encode_to_vec();
    let decoded = Target::decode(bytes.as_slice()).expect("decode");
    assert_eq!(decoded, t);
    assert_eq!(
        ProxyProtocolVersion::from_number(decoded.proxy_protocol.expect("field present")),
        Some(ProxyProtocolVersion::V2)
    );
    assert_eq!(ProxyProtocolVersion::from_number(3), None);
}

#[test]
fn traffic_quota_update_set_roundtrips() {
    let state = TrafficQuotaState {
        monthly_bytes: 1_000_000_000,
        budget_remaining_bytes: 999_000_000,
        period_started_at_unix_sec: 1_704_067_200,
        period_ends_at_unix_sec: 1_706_745_600,
        exhausted: false,
    };
    let update = TrafficQuotaUpdate {
        request_id: "01HXXX".into(),
        user_id: "alice".into(),
        client_name: "edge-01".into(),
        action: TrafficQuotaAction::SetState as i32,
        state: Some(state.clone()),
    };
    let encoded = update.encode_to_vec();
    let got = TrafficQuotaUpdate::decode(&encoded[..]).unwrap();
    assert_eq!(got.user_id, "alice");
    assert_eq!(got.client_name, "edge-01");
    assert_eq!(got.action, TrafficQuotaAction::SetState as i32);
    assert_eq!(got.state.unwrap(), state);
}

#[test]
fn traffic_quota_update_remove_has_no_state() {
    let update = TrafficQuotaUpdate {
        request_id: "01HXXY".into(),
        user_id: "alice".into(),
        client_name: "edge-01".into(),
        action: TrafficQuotaAction::Remove as i32,
        state: None,
    };
    let encoded = update.encode_to_vec();
    let got = TrafficQuotaUpdate::decode(&encoded[..]).unwrap();
    assert_eq!(got.action, TrafficQuotaAction::Remove as i32);
    assert!(got.state.is_none());
}

#[test]
fn budget_remaining_can_be_negative() {
    let state = TrafficQuotaState {
        monthly_bytes: 100,
        budget_remaining_bytes: -42,
        period_started_at_unix_sec: 1_704_067_200,
        period_ends_at_unix_sec: 1_706_745_600,
        exhausted: true,
    };
    let encoded = state.encode_to_vec();
    let got = TrafficQuotaState::decode(&encoded[..]).unwrap();
    assert_eq!(got.budget_remaining_bytes, -42);
    assert!(got.exhausted);
}

#[test]
fn exact_bytes_of_a_target() {
    let t = Target { host: "h".into(), port: 300, priority: 0, proxy_protocol: Some(-1) };
    assert_eq!(
        t.encode_to_vec(),
        vec![
            0x0a, 0x01, 0x68, 0x10, 0xac, 0x02, 0x20, 0xff, 0xff, 0xff, 0xff, 0xff, 0xff, 0xff,
            0xff, 0xff, 0x01
        ]
    );
    assert_eq!(Target::decode(&t.encode_to_vec()), Ok(t));
    assert_eq!(Target::decode(&[]), Ok(Target::default()));
}

#[test]
fn the_last_value_counts_and_unknown_fields_are_passed_over() {
    // A port twice, then fields 15, 16 and 17 of other kinds, and a group.
    let bytes = [
        0x10, 0x01, 0x10, 0x02, 0x78, 0x05, 0x81, 0x01, 1, 2, 3, 4, 5, 6, 7, 8, 0x8d, 0x01, 1, 2,
        3, 4, 0x93, 0x01, 0x08, 0x01, 0x94, 0x01,
    ];
    assert_eq!(Target::decode(&bytes), Ok(Target { port: 2, ..Target::default() }));
}

#[test]
fn what_is_no_message_is_refused() {
    let broken: Vec<Vec<u8>> = vec![
        vec![0x10],                   // a number is missing
        vec![0x0a, 0x05, 0x61],       // a text is cut short
        vec![0x0a, 0x01, 0xff],       // a text is no text
        vec![0x0d, 1, 2, 3, 4],       // a text of the wrong kind
        vec![0x12, 0x00],             // a number of the wrong kind
        vec![0x02, 0x00],             // no field has the number zero
        vec![0x0e, 0x00],             // no value is of such a kind
        vec![0x0c],                   // a group ends that did not begin
        vec![0x7b, 0x08, 0x01],       // a group does not end
        vec![0x7b, 0x84, 0x01],       // another group ends
        vec![0xff; 11],               // a key that is too long
    ];
    for bytes in broken {
        assert_eq!(Target::decode(&bytes), Err(DecodeError), "{bytes:?}");
    }
    let mut long = vec![0x10];
    long.extend([0xff; 9]);
    long.push(0x02);
    assert_eq!(Target::decode(&long), Err(DecodeError));
    assert_eq!(parse_records(&long, 100), None);
}

#[test]
fn parts_of_a_message_are_merged() {
    let one = TrafficQuotaUpdate {
        state: Some(TrafficQuotaState { monthly_bytes: 5, ..TrafficQuotaState::default() }),
        ..TrafficQuotaUpdate::default()
    };
    let two = TrafficQuotaUpdate {
        state: Some(TrafficQuotaState { exhausted: true, ..TrafficQuotaState::default() }),
        ..TrafficQuotaUpdate::default()
    };
    let mut bytes = one.encode_to_vec();
    bytes.extend(two.encode_to_vec());
    let state = TrafficQuotaUpdate::decode(&bytes).unwrap().state.unwrap();
    assert_eq!((state.monthly_bytes, state.exhausted), (5, true));
}

#[test]
fn limits_are_kept_as_they_came() {
    let r = Rule {
        rate_limit: Some(vec![0x08, 0x01]),
        sni_pattern: Some(String::new()),
        owner_id: Some("alice".into()),
        prefer_ipv6: Some(false),
        ..rule(1, 2, "h", 3)
    };
    assert_eq!(Rule::decode(&r.encode_to_vec()), Ok(r.clone()));
    let broken = Rule { rate_limit: Some(vec![0x08]), ..r };
    assert_eq!(Rule::decode(&broken.encode_to_vec()), Err(DecodeError));
}

#[test]
fn records_are_read_one_by_one() {
    let records = parse_records(&[0x08, 0x96, 0x01, 0x12, 0x02, 0x68, 0x69], 100).unwrap();
    assert_eq!(
        records,
        vec![
            Record { tag: 1, value: Value::Varint(150) },
            Record { tag: 2, value: Value::Bytes(vec![0x68, 0x69]) },
        ]
    );
}

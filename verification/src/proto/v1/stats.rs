//! Reports of what rules have done.

use vstd::prelude::*;

use super::{merge_nested, merge_raw, DecodeError};
use crate::proto::message::{
    merge_bytes, push_bytes, push_number, push_text, set_text, set_u32, set_u64, Message,
    MessageView,
};
use crate::proto::wire::{write_records, Record, RecordView, RECURSION_LIMIT};
use crate::proto::{message, wire};

verus! {

/// The counters of one port of a rule.
#[derive(Clone, Debug, PartialEq, Eq)]
pub struct PerPortStats {
    pub listen_port: u32,
    pub bytes_in: u64,
    pub bytes_out: u64,
    pub active_connections: u32,
    pub datagrams_in: u64,
    pub datagrams_out: u64,
}

/// [`PerPortStats`] as a mathematical value.
#[verifier::ext_equal]
pub struct PerPortStatsView {
    pub listen_port: u32,
    pub bytes_in: u64,
    pub bytes_out: u64,
    pub active_connections: u32,
    pub datagrams_in: u64,
    pub datagrams_out: u64,
}

impl View for PerPortStats {
    type V = PerPortStatsView;

    open spec fn view(&self) -> PerPortStatsView {
        PerPortStatsView {
            listen_port: self.listen_port,
            bytes_in: self.bytes_in,
            bytes_out: self.bytes_out,
            active_connections: self.active_connections,
            datagrams_in: self.datagrams_in,
            datagrams_out: self.datagrams_out,
        }
    }
}

impl PerPortStatsView {
    /// Nothing is set.
    pub open spec fn empty() -> PerPortStatsView {
        PerPortStatsView {
            listen_port: 0,
            bytes_in: 0,
            bytes_out: 0,
            active_connections: 0,
            datagrams_in: 0,
            datagrams_out: 0,
        }
    }

    /// The records of the fields that are set, in the order of their numbers.
    pub open spec fn records(self) -> Seq<RecordView> {
        message::opt_number(1, self.listen_port as u64)
            + message::opt_number(2, self.bytes_in)
            + message::opt_number(3, self.bytes_out)
            + message::opt_number(4, self.active_connections as u64)
            + message::opt_number(5, self.datagrams_in)
            + message::opt_number(6, self.datagrams_out)
    }

    /// The bytes that the message is written as.
    pub open spec fn bytes(self) -> Seq<u8> {
        wire::records_bytes(self.records())
    }

    /// Nothing is too long to be written.
    pub open spec fn fits(self, depth: nat) -> bool {
        &&& wire::all_writable(self.records())
        &&& depth >= 1
    }
}

impl MessageView for PerPortStatsView {
    open spec fn merged(self, record: RecordView, depth: nat) -> Option<PerPortStatsView> {
        if record.tag == 1 {
            message::with(
                message::number_in(record.value),
                |n: u64| PerPortStatsView { listen_port: message::low_u32(n), ..self },
            )
        } else if record.tag == 2 {
            message::with(
                message::number_in(record.value),
                |n: u64| PerPortStatsView { bytes_in: n, ..self },
            )
        } else if record.tag == 3 {
            message::with(
                message::number_in(record.value),
                |n: u64| PerPortStatsView { bytes_out: n, ..self },
            )
        } else if record.tag == 4 {
            message::with(
                message::number_in(record.value),
                |n: u64| PerPortStatsView { active_connections: message::low_u32(n), ..self },
            )
        } else if record.tag == 5 {
            message::with(
                message::number_in(record.value),
                |n: u64| PerPortStatsView { datagrams_in: n, ..self },
            )
        } else if record.tag == 6 {
            message::with(
                message::number_in(record.value),
                |n: u64| PerPortStatsView { datagrams_out: n, ..self },
            )
        } else {
            Some(self)
        }
    }
}

impl Default for PerPortStats {
    fn default() -> (m: PerPortStats)
        ensures
            m@ =~= PerPortStatsView::empty(),
    {
        PerPortStats {
            listen_port: 0,
            bytes_in: 0,
            bytes_out: 0,
            active_connections: 0,
            datagrams_in: 0,
            datagrams_out: 0,
        }
    }
}

impl Message for PerPortStats {
    fn merge_field(&mut self, record: &Record, depth: u32) -> (ok: bool) {
        if record.tag == 1 {
            set_u32(&mut self.listen_port, &record.value)
        } else if record.tag == 2 {
            set_u64(&mut self.bytes_in, &record.value)
        } else if record.tag == 3 {
            set_u64(&mut self.bytes_out, &record.value)
        } else if record.tag == 4 {
            set_u32(&mut self.active_connections, &record.value)
        } else if record.tag == 5 {
            set_u64(&mut self.datagrams_in, &record.value)
        } else if record.tag == 6 {
            set_u64(&mut self.datagrams_out, &record.value)
        } else {
            true
        }
    }
}

impl PerPortStats {
    fn to_records(&self) -> (records: Vec<Record>)
        ensures
            wire::record_views(records@) =~= self@.records(),
            wire::all_writable(wire::record_views(records@)),
    {
        let mut records: Vec<Record> = Vec::new();
        push_number(&mut records, 1, self.listen_port as u64);
        push_number(&mut records, 2, self.bytes_in);
        push_number(&mut records, 3, self.bytes_out);
        push_number(&mut records, 4, self.active_connections as u64);
        push_number(&mut records, 5, self.datagrams_in);
        push_number(&mut records, 6, self.datagrams_out);
        records
    }

    /// The bytes that the message is written as.
    pub fn encode_to_vec(&self) -> (bytes: Vec<u8>)
        ensures
            bytes@ == self@.bytes(),
            wire::all_writable(self@.records()),
    {
        write_records(&self.to_records())
    }

    /// The message that bytes stand for, if they do.
    pub fn decode(bytes: &[u8]) -> (message: Result<PerPortStats, DecodeError>)
        ensures
            match message::decoded(PerPortStatsView::empty(), bytes@, RECURSION_LIMIT as nat) {
                Some(view) => message matches Ok(m) && m@ == view,
                None => message is Err,
            },
    {
        let mut m = PerPortStats::default();
        if merge_bytes(&mut m, bytes, RECURSION_LIMIT) {
            Ok(m)
        } else {
            Err(DecodeError)
        }
    }
}

/// [`PerPortStats`] is read back as it was written.
pub proof fn law_per_port_stats_reads_back(m: PerPortStatsView, depth: nat)
    requires
        m.fits(depth),
    ensures
        message::decoded(PerPortStatsView::empty(), m.bytes(), depth) == Some(m),
{
    wire::law_records_read_back(m.records(), depth);
    let s0 = PerPortStatsView::empty();
    let d0 = Seq::<RecordView>::empty();
    let s1 = PerPortStatsView { listen_port: m.listen_port, ..s0 };
    let d1 = d0 + message::opt_number(1, m.listen_port as u64);
    assert(message::merge_all(s0, d1, depth) == Some(s1)) by {
        message::lemma_then_number(s0, d0, s0, 1, m.listen_port as u64, s1, depth);
    }
    let s2 = PerPortStatsView { bytes_in: m.bytes_in, ..s1 };
    let d2 = d1 + message::opt_number(2, m.bytes_in);
    assert(message::merge_all(s0, d2, depth) == Some(s2)) by {
        message::lemma_then_number(s0, d1, s1, 2, m.bytes_in, s2, depth);
    }
    let s3 = PerPortStatsView { bytes_out: m.bytes_out, ..s2 };
    let d3 = d2 + message::opt_number(3, m.bytes_out);
    assert(message::merge_all(s0, d3, depth) == Some(s3)) by {
        message::lemma_then_number(s0, d2, s2, 3, m.bytes_out, s3, depth);
    }
    let s4 = PerPortStatsView { active_connections: m.active_connections, ..s3 };
    let d4 = d3 + message::opt_number(4, m.active_connections as u64);
    assert(message::merge_all(s0, d4, depth) == Some(s4)) by {
        message::lemma_then_number(s0, d3, s3, 4, m.active_connections as u64, s4, depth);
    }
    let s5 = PerPortStatsView { datagrams_in: m.datagrams_in, ..s4 };
    let d5 = d4 + message::opt_number(5, m.datagrams_in);
    assert(message::merge_all(s0, d5, depth) == Some(s5)) by {
        message::lemma_then_number(s0, d4, s4, 5, m.datagrams_in, s5, depth);
    }
    let s6 = PerPortStatsView { datagrams_out: m.datagrams_out, ..s5 };
    let d6 = d5 + message::opt_number(6, m.datagrams_out);
    assert(message::merge_all(s0, d6, depth) == Some(s6)) by {
        message::lemma_then_number(s0, d5, s5, 6, m.datagrams_out, s6, depth);
    }
    assert(d6 =~= m.records());
    assert(s6 =~= m);
}

/// The counters of one target of a rule.
#[derive(Clone, Debug, PartialEq, Eq)]
pub struct PerTargetStats {
    pub index: u32,
    pub host: String,
    pub port: u32,
    pub priority: u32,
    pub health: u32,
    pub consecutive_failures: u32,
    pub last_failure_at_unix_ms: u64,
    pub last_success_at_unix_ms: u64,
    pub bytes_in: u64,
    pub bytes_out: u64,
    pub connections_accepted: u64,
}

/// [`PerTargetStats`] as a mathematical value.
#[verifier::ext_equal]
pub struct PerTargetStatsView {
    pub index: u32,
    pub host: Seq<char>,
    pub port: u32,
    pub priority: u32,
    pub health: u32,
    pub consecutive_failures: u32,
    pub last_failure_at_unix_ms: u64,
    pub last_success_at_unix_ms: u64,
    pub bytes_in: u64,
    pub bytes_out: u64,
    pub connections_accepted: u64,
}

impl View for PerTargetStats {
    type V = PerTargetStatsView;

    open spec fn view(&self) -> PerTargetStatsView {
        PerTargetStatsView {
            index: self.index,
            host: self.host@,
            port: self.port,
            priority: self.priority,
            health: self.health,
            consecutive_failures: self.consecutive_failures,
            last_failure_at_unix_ms: self.last_failure_at_unix_ms,
            last_success_at_unix_ms: self.last_success_at_unix_ms,
            bytes_in: self.bytes_in,
            bytes_out: self.bytes_out,
            connections_accepted: self.connections_accepted,
        }
    }
}

impl PerTargetStatsView {
    /// Nothing is set.
    pub open spec fn empty() -> PerTargetStatsView {
        PerTargetStatsView {
            index: 0,
            host: Seq::empty(),
            port: 0,
            priority: 0,
            health: 0,
            consecutive_failures: 0,
            last_failure_at_unix_ms: 0,
            last_success_at_unix_ms: 0,
            bytes_in: 0,
            bytes_out: 0,
            connections_accepted: 0,
        }
    }

    /// The records of the fields that are set, in the order of their numbers.
    pub open spec fn records(self) -> Seq<RecordView> {
        message::opt_number(1, self.index as u64)
            + message::opt_text(2, self.host)
            + message::opt_number(3, self.port as u64)
            + message::opt_number(4, self.priority as u64)
            + message::opt_number(5, self.health as u64)
            + message::opt_number(6, self.consecutive_failures as u64)
            + message::opt_number(7, self.last_failure_at_unix_ms)
            + message::opt_number(8, self.last_success_at_unix_ms)
            + message::opt_number(9, self.bytes_in)
            + message::opt_number(10, self.bytes_out)
            + message::opt_number(11, self.connections_accepted)
    }

    /// The bytes that the message is written as.
    pub open spec fn bytes(self) -> Seq<u8> {
        wire::records_bytes(self.records())
    }

    /// Nothing is too long to be written.
    pub open spec fn fits(self, depth: nat) -> bool {
        &&& wire::all_writable(self.records())
        &&& depth >= 1
    }
}

impl MessageView for PerTargetStatsView {
    open spec fn merged(self, record: RecordView, depth: nat) -> Option<PerTargetStatsView> {
        if record.tag == 1 {
            message::with(
                message::number_in(record.value),
                |n: u64| PerTargetStatsView { index: message::low_u32(n), ..self },
            )
        } else if record.tag == 2 {
            message::with(
                message::text_in(record.value),
                |t: Seq<char>| PerTargetStatsView { host: t, ..self },
            )
        } else if record.tag == 3 {
            message::with(
                message::number_in(record.value),
                |n: u64| PerTargetStatsView { port: message::low_u32(n), ..self },
            )
        } else if record.tag == 4 {
            message::with(
                message::number_in(record.value),
                |n: u64| PerTargetStatsView { priority: message::low_u32(n), ..self },
            )
        } else if record.tag == 5 {
            message::with(
                message::number_in(record.value),
                |n: u64| PerTargetStatsView { health: message::low_u32(n), ..self },
            )
        } else if record.tag == 6 {
            message::with(
                message::number_in(record.value),
                |n: u64| PerTargetStatsView { consecutive_failures: message::low_u32(n), ..self },
            )
        } else if record.tag == 7 {
            message::with(
                message::number_in(record.value),
                |n: u64| PerTargetStatsView { last_failure_at_unix_ms: n, ..self },
            )
        } else if record.tag == 8 {
            message::with(
                message::number_in(record.value),
                |n: u64| PerTargetStatsView { last_success_at_unix_ms: n, ..self },
            )
        } else if record.tag == 9 {
            message::with(
                message::number_in(record.value),
                |n: u64| PerTargetStatsView { bytes_in: n, ..self },
            )
        } else if record.tag == 10 {
            message::with(
                message::number_in(record.value),
                |n: u64| PerTargetStatsView { bytes_out: n, ..self },
            )
        } else if record.tag == 11 {
            message::with(
                message::number_in(record.value),
                |n: u64| PerTargetStatsView { connections_accepted: n, ..self },
            )
        } else {
            Some(self)
        }
    }
}

impl Default for PerTargetStats {
    fn default() -> (m: PerTargetStats)
        ensures
            m@ =~= PerTargetStatsView::empty(),
    {
        PerTargetStats {
            index: 0,
            host: String::new(),
            port: 0,
            priority: 0,
            health: 0,
            consecutive_failures: 0,
            last_failure_at_unix_ms: 0,
            last_success_at_unix_ms: 0,
            bytes_in: 0,
            bytes_out: 0,
            connections_accepted: 0,
        }
    }
}

impl Message for PerTargetStats {
    fn merge_field(&mut self, record: &Record, depth: u32) -> (ok: bool) {
        if record.tag == 1 {
            set_u32(&mut self.index, &record.value)
        } else if record.tag == 2 {
            set_text(&mut self.host, &record.value)
        } else if record.tag == 3 {
            set_u32(&mut self.port, &record.value)
        } else if record.tag == 4 {
            set_u32(&mut self.priority, &record.value)
        } else if record.tag == 5 {
            set_u32(&mut self.health, &record.value)
        } else if record.tag == 6 {
            set_u32(&mut self.consecutive_failures, &record.value)
        } else if record.tag == 7 {
            set_u64(&mut self.last_failure_at_unix_ms, &record.value)
        } else if record.tag == 8 {
            set_u64(&mut self.last_success_at_unix_ms, &record.value)
        } else if record.tag == 9 {
            set_u64(&mut self.bytes_in, &record.value)
        } else if record.tag == 10 {
            set_u64(&mut self.bytes_out, &record.value)
        } else if record.tag == 11 {
            set_u64(&mut self.connections_accepted, &record.value)
        } else {
            true
        }
    }
}

impl PerTargetStats {
    fn to_records(&self) -> (records: Vec<Record>)
        ensures
            wire::record_views(records@) =~= self@.records(),
            wire::all_writable(wire::record_views(records@)),
    {
        let mut records: Vec<Record> = Vec::new();
        push_number(&mut records, 1, self.index as u64);
        push_text(&mut records, 2, &self.host);
        push_number(&mut records, 3, self.port as u64);
        push_number(&mut records, 4, self.priority as u64);
        push_number(&mut records, 5, self.health as u64);
        push_number(&mut records, 6, self.consecutive_failures as u64);
        push_number(&mut records, 7, self.last_failure_at_unix_ms);
        push_number(&mut records, 8, self.last_success_at_unix_ms);
        push_number(&mut records, 9, self.bytes_in);
        push_number(&mut records, 10, self.bytes_out);
        push_number(&mut records, 11, self.connections_accepted);
        records
    }

    /// The bytes that the message is written as.
    pub fn encode_to_vec(&self) -> (bytes: Vec<u8>)
        ensures
            bytes@ == self@.bytes(),
            wire::all_writable(self@.records()),
    {
        write_records(&self.to_records())
    }

    /// The message that bytes stand for, if they do.
    pub fn decode(bytes: &[u8]) -> (message: Result<PerTargetStats, DecodeError>)
        ensures
            match message::decoded(PerTargetStatsView::empty(), bytes@, RECURSION_LIMIT as nat) {
                Some(view) => message matches Ok(m) && m@ == view,
                None => message is Err,
            },
    {
        let mut m = PerTargetStats::default();
        if merge_bytes(&mut m, bytes, RECURSION_LIMIT) {
            Ok(m)
        } else {
            Err(DecodeError)
        }
    }
}

/// [`PerTargetStats`] is read back as it was written.
pub proof fn law_per_target_stats_reads_back(m: PerTargetStatsView, depth: nat)
    requires
        m.fits(depth),
    ensures
        message::decoded(PerTargetStatsView::empty(), m.bytes(), depth) == Some(m),
{
    wire::law_records_read_back(m.records(), depth);
    let s0 = PerTargetStatsView::empty();
    let d0 = Seq::<RecordView>::empty();
    let s1 = PerTargetStatsView { index: m.index, ..s0 };
    let d1 = d0 + message::opt_number(1, m.index as u64);
    assert(message::merge_all(s0, d1, depth) == Some(s1)) by {
        message::lemma_then_number(s0, d0, s0, 1, m.index as u64, s1, depth);
    }
    let s2 = PerTargetStatsView { host: m.host, ..s1 };
    let d2 = d1 + message::opt_text(2, m.host);
    assert(message::merge_all(s0, d2, depth) == Some(s2)) by {
        assert(m.host.len() == 0 ==> s2 =~= s1);
        message::lemma_then_text(s0, d1, s1, 2, m.host, s2, depth);
    }
    let s3 = PerTargetStatsView { port: m.port, ..s2 };
    let d3 = d2 + message::opt_number(3, m.port as u64);
    assert(message::merge_all(s0, d3, depth) == Some(s3)) by {
        message::lemma_then_number(s0, d2, s2, 3, m.port as u64, s3, depth);
    }
    let s4 = PerTargetStatsView { priority: m.priority, ..s3 };
    let d4 = d3 + message::opt_number(4, m.priority as u64);
    assert(message::merge_all(s0, d4, depth) == Some(s4)) by {
        message::lemma_then_number(s0, d3, s3, 4, m.priority as u64, s4, depth);
    }
    let s5 = PerTargetStatsView { health: m.health, ..s4 };
    let d5 = d4 + message::opt_number(5, m.health as u64);
    assert(message::merge_all(s0, d5, depth) == Some(s5)) by {
        message::lemma_then_number(s0, d4, s4, 5, m.health as u64, s5, depth);
    }
    let s6 = PerTargetStatsView { consecutive_failures: m.consecutive_failures, ..s5 };
    let d6 = d5 + message::opt_number(6, m.consecutive_failures as u64);
    assert(message::merge_all(s0, d6, depth) == Some(s6)) by {
        message::lemma_then_number(s0, d5, s5, 6, m.consecutive_failures as u64, s6, depth);
    }
    let s7 = PerTargetStatsView { last_failure_at_unix_ms: m.last_failure_at_unix_ms, ..s6 };
    let d7 = d6 + message::opt_number(7, m.last_failure_at_unix_ms);
    assert(message::merge_all(s0, d7, depth) == Some(s7)) by {
        message::lemma_then_number(s0, d6, s6, 7, m.last_failure_at_unix_ms, s7, depth);
    }
    let s8 = PerTargetStatsView { last_success_at_unix_ms: m.last_success_at_unix_ms, ..s7 };
    let d8 = d7 + message::opt_number(8, m.last_success_at_unix_ms);
    assert(message::merge_all(s0, d8, depth) == Some(s8)) by {
        message::lemma_then_number(s0, d7, s7, 8, m.last_success_at_unix_ms, s8, depth);
    }
    let s9 = PerTargetStatsView { bytes_in: m.bytes_in, ..s8 };
    let d9 = d8 + message::opt_number(9, m.bytes_in);
    assert(message::merge_all(s0, d9, depth) == Some(s9)) by {
        message::lemma_then_number(s0, d8, s8, 9, m.bytes_in, s9, depth);
    }
    let s10 = PerTargetStatsView { bytes_out: m.bytes_out, ..s9 };
    let d10 = d9 + message::opt_number(10, m.bytes_out);
    assert(message::merge_all(s0, d10, depth) == Some(s10)) by {
        message::lemma_then_number(s0, d9, s9, 10, m.bytes_out, s10, depth);
    }
    let s11 = PerTargetStatsView { connections_accepted: m.connections_accepted, ..s10 };
    let d11 = d10 + message::opt_number(11, m.connections_accepted);
    assert(message::merge_all(s0, d11, depth) == Some(s11)) by {
        message::lemma_then_number(s0, d10, s10, 11, m.connections_accepted, s11, depth);
    }
    assert(d11 =~= m.records());
    assert(s11 =~= m);
}

/// The counters of one rule.
#[derive(Clone, Debug, PartialEq, Eq)]
pub struct RuleStats {
    pub rule_id: u64,
    pub bytes_in: u64,
    pub bytes_out: u64,
    pub active_connections: u32,
    pub per_port: Vec<PerPortStats>,
    pub dns_failures: u64,
    pub datagrams_in: u64,
    pub datagrams_out: u64,
    pub active_flows: u32,
    pub flows_dropped_overflow: u64,
    pub target_failovers_total: u64,
    pub per_target: Vec<PerTargetStats>,
    pub sni_route_exact_total: u64,
    pub sni_route_wildcard_total: u64,
    pub sni_route_fallback_total: u64,
    /// What the limits came to, as it came.
    pub rate_limit: Option<Vec<u8>>,
}

/// [`RuleStats`] as a mathematical value.
#[verifier::ext_equal]
pub struct RuleStatsView {
    pub rule_id: u64,
    pub bytes_in: u64,
    pub bytes_out: u64,
    pub active_connections: u32,
    pub per_port: Seq<PerPortStatsView>,
    pub dns_failures: u64,
    pub datagrams_in: u64,
    pub datagrams_out: u64,
    pub active_flows: u32,
    pub flows_dropped_overflow: u64,
    pub target_failovers_total: u64,
    pub per_target: Seq<PerTargetStatsView>,
    pub sni_route_exact_total: u64,
    pub sni_route_wildcard_total: u64,
    pub sni_route_fallback_total: u64,
    pub rate_limit: Option<Seq<u8>>,
}

impl View for RuleStats {
    type V = RuleStatsView;

    open spec fn view(&self) -> RuleStatsView {
        RuleStatsView {
            rule_id: self.rule_id,
            bytes_in: self.bytes_in,
            bytes_out: self.bytes_out,
            active_connections: self.active_connections,
            per_port: self.per_port@.map_values(|m: PerPortStats| m@),
            dns_failures: self.dns_failures,
            datagrams_in: self.datagrams_in,
            datagrams_out: self.datagrams_out,
            active_flows: self.active_flows,
            flows_dropped_overflow: self.flows_dropped_overflow,
            target_failovers_total: self.target_failovers_total,
            per_target: self.per_target@.map_values(|m: PerTargetStats| m@),
            sni_route_exact_total: self.sni_route_exact_total,
            sni_route_wildcard_total: self.sni_route_wildcard_total,
            sni_route_fallback_total: self.sni_route_fallback_total,
            rate_limit: super::raw_view(self.rate_limit),
        }
    }
}

impl RuleStatsView {
    /// Nothing is set.
    pub open spec fn empty() -> RuleStatsView {
        RuleStatsView {
            rule_id: 0,
            bytes_in: 0,
            bytes_out: 0,
            active_connections: 0,
            per_port: Seq::empty(),
            dns_failures: 0,
            datagrams_in: 0,
            datagrams_out: 0,
            active_flows: 0,
            flows_dropped_overflow: 0,
            target_failovers_total: 0,
            per_target: Seq::empty(),
            sni_route_exact_total: 0,
            sni_route_wildcard_total: 0,
            sni_route_fallback_total: 0,
            rate_limit: None,
        }
    }

    /// The records of the fields that are set, in the order of their numbers.
    pub open spec fn records(self) -> Seq<RecordView> {
        message::opt_number(1, self.rule_id)
            + message::opt_number(2, self.bytes_in)
            + message::opt_number(3, self.bytes_out)
            + message::opt_number(4, self.active_connections as u64)
            + super::repeated(5, self.per_port.map_values(|m: PerPortStatsView| m.bytes()))
            + message::opt_number(6, self.dns_failures)
            + message::opt_number(7, self.datagrams_in)
            + message::opt_number(8, self.datagrams_out)
            + message::opt_number(9, self.active_flows as u64)
            + message::opt_number(10, self.flows_dropped_overflow)
            + message::opt_number(11, self.target_failovers_total)
            + super::repeated(12, self.per_target.map_values(|m: PerTargetStatsView| m.bytes()))
            + message::opt_number(13, self.sni_route_exact_total)
            + message::opt_number(14, self.sni_route_wildcard_total)
            + message::opt_number(15, self.sni_route_fallback_total)
            + message::some_bytes(16, self.rate_limit)
    }

    /// The bytes that the message is written as.
    pub open spec fn bytes(self) -> Seq<u8> {
        wire::records_bytes(self.records())
    }

    /// Nothing is too long to be written, and what is kept as it came can be
    /// read.
    pub open spec fn fits(self, depth: nat) -> bool {
        &&& wire::all_writable(self.records())
        &&& forall|i: int|
            0 <= i < self.per_port.len() ==> (#[trigger] self.per_port[i]).fits((depth - 1) as nat)
        &&& forall|i: int|
            0 <= i < self.per_target.len() ==> (#[trigger] self.per_target[i]).fits(
                (depth - 1) as nat,
            )
        &&& self.rate_limit matches Some(raw) ==> wire::read_records(
            raw,
            (depth - 1) as nat,
        ) is Some
        &&& depth >= 2
    }
}

impl MessageView for RuleStatsView {
    open spec fn merged(self, record: RecordView, depth: nat) -> Option<RuleStatsView> {
        if record.tag == 1 {
            message::with(
                message::number_in(record.value),
                |n: u64| RuleStatsView { rule_id: n, ..self },
            )
        } else if record.tag == 2 {
            message::with(
                message::number_in(record.value),
                |n: u64| RuleStatsView { bytes_in: n, ..self },
            )
        } else if record.tag == 3 {
            message::with(
                message::number_in(record.value),
                |n: u64| RuleStatsView { bytes_out: n, ..self },
            )
        } else if record.tag == 4 {
            message::with(
                message::number_in(record.value),
                |n: u64| RuleStatsView { active_connections: message::low_u32(n), ..self },
            )
        } else if record.tag == 5 {
            message::with(
                super::nested(PerPortStatsView::empty(), record.value, depth),
                |m: PerPortStatsView| RuleStatsView { per_port: self.per_port.push(m), ..self },
            )
        } else if record.tag == 6 {
            message::with(
                message::number_in(record.value),
                |n: u64| RuleStatsView { dns_failures: n, ..self },
            )
        } else if record.tag == 7 {
            message::with(
                message::number_in(record.value),
                |n: u64| RuleStatsView { datagrams_in: n, ..self },
            )
        } else if record.tag == 8 {
            message::with(
                message::number_in(record.value),
                |n: u64| RuleStatsView { datagrams_out: n, ..self },
            )
        } else if record.tag == 9 {
            message::with(
                message::number_in(record.value),
                |n: u64| RuleStatsView { active_flows: message::low_u32(n), ..self },
            )
        } else if record.tag == 10 {
            message::with(
                message::number_in(record.value),
                |n: u64| RuleStatsView { flows_dropped_overflow: n, ..self },
            )
        } else if record.tag == 11 {
            message::with(
                message::number_in(record.value),
                |n: u64| RuleStatsView { target_failovers_total: n, ..self },
            )
        } else if record.tag == 12 {
            message::with(
                super::nested(PerTargetStatsView::empty(), record.value, depth),
                |m: PerTargetStatsView| RuleStatsView { per_target: self.per_target.push(
                    m,
                ), ..self },
            )
        } else if record.tag == 13 {
            message::with(
                message::number_in(record.value),
                |n: u64| RuleStatsView { sni_route_exact_total: n, ..self },
            )
        } else if record.tag == 14 {
            message::with(
                message::number_in(record.value),
                |n: u64| RuleStatsView { sni_route_wildcard_total: n, ..self },
            )
        } else if record.tag == 15 {
            message::with(
                message::number_in(record.value),
                |n: u64| RuleStatsView { sni_route_fallback_total: n, ..self },
            )
        } else if record.tag == 16 {
            message::with(
                super::merged_raw(self.rate_limit, record.value, depth),
                |raw: Seq<u8>| RuleStatsView { rate_limit: Some(raw), ..self },
            )
        } else {
            Some(self)
        }
    }
}

impl Default for RuleStats {
    fn default() -> (m: RuleStats)
        ensures
            m@ =~= RuleStatsView::empty(),
    {
        RuleStats {
            rule_id: 0,
            bytes_in: 0,
            bytes_out: 0,
            active_connections: 0,
            per_port: Vec::new(),
            dns_failures: 0,
            datagrams_in: 0,
            datagrams_out: 0,
            active_flows: 0,
            flows_dropped_overflow: 0,
            target_failovers_total: 0,
            per_target: Vec::new(),
            sni_route_exact_total: 0,
            sni_route_wildcard_total: 0,
            sni_route_fallback_total: 0,
            rate_limit: None,
        }
    }
}

impl Message for RuleStats {
    fn merge_field(&mut self, record: &Record, depth: u32) -> (ok: bool) {
        if record.tag == 1 {
            set_u64(&mut self.rule_id, &record.value)
        } else if record.tag == 2 {
            set_u64(&mut self.bytes_in, &record.value)
        } else if record.tag == 3 {
            set_u64(&mut self.bytes_out, &record.value)
        } else if record.tag == 4 {
            set_u32(&mut self.active_connections, &record.value)
        } else if record.tag == 5 {
            let ghost before = self@;
            let mut m = PerPortStats::default();
            let ok = merge_nested(&mut m, &record.value, depth);
            if ok {
                self.per_port.push(m);
                assert(self@.per_port =~= before.per_port.push(m@));
            }
            ok
        } else if record.tag == 6 {
            set_u64(&mut self.dns_failures, &record.value)
        } else if record.tag == 7 {
            set_u64(&mut self.datagrams_in, &record.value)
        } else if record.tag == 8 {
            set_u64(&mut self.datagrams_out, &record.value)
        } else if record.tag == 9 {
            set_u32(&mut self.active_flows, &record.value)
        } else if record.tag == 10 {
            set_u64(&mut self.flows_dropped_overflow, &record.value)
        } else if record.tag == 11 {
            set_u64(&mut self.target_failovers_total, &record.value)
        } else if record.tag == 12 {
            let ghost before = self@;
            let mut m = PerTargetStats::default();
            let ok = merge_nested(&mut m, &record.value, depth);
            if ok {
                self.per_target.push(m);
                assert(self@.per_target =~= before.per_target.push(m@));
            }
            ok
        } else if record.tag == 13 {
            set_u64(&mut self.sni_route_exact_total, &record.value)
        } else if record.tag == 14 {
            set_u64(&mut self.sni_route_wildcard_total, &record.value)
        } else if record.tag == 15 {
            set_u64(&mut self.sni_route_fallback_total, &record.value)
        } else if record.tag == 16 {
            merge_raw(&mut self.rate_limit, &record.value, depth)
        } else {
            true
        }
    }
}

impl RuleStats {
    fn push_per_port(&self, records: &mut Vec<Record>)
        requires
            wire::all_writable(wire::record_views(old(records)@)),
        ensures
            wire::record_views(final(records)@) =~= wire::record_views(old(records)@)
                + super::repeated(5, self@.per_port.map_values(|m: PerPortStatsView| m.bytes())),
            wire::all_writable(wire::record_views(final(records)@)),
    {
        let ghost before = wire::record_views(records@);
        let ghost all = super::repeated(
            5,
            self@.per_port.map_values(|m: PerPortStatsView| m.bytes()),
        );
        let mut i: usize = 0;
        while i < self.per_port.len()
            invariant
                i <= self.per_port@.len(),
                all == super::repeated(
                    5,
                    self@.per_port.map_values(|m: PerPortStatsView| m.bytes()),
                ),
                wire::record_views(records@) =~= before + all.take(i as int),
                wire::all_writable(wire::record_views(records@)),
            decreases self.per_port@.len() - i,
        {
            push_bytes(records, 5, self.per_port[i].encode_to_vec());
            i = i + 1;
            assert(all.take(i as int) =~= all.take(i - 1).push(all[i - 1]));
        }
        assert(all.take(i as int) =~= all);
    }

    fn push_per_target(&self, records: &mut Vec<Record>)
        requires
            wire::all_writable(wire::record_views(old(records)@)),
        ensures
            wire::record_views(final(records)@) =~= wire::record_views(old(records)@)
                + super::repeated(
                    12,
                    self@.per_target.map_values(|m: PerTargetStatsView| m.bytes()),
                ),
            wire::all_writable(wire::record_views(final(records)@)),
    {
        let ghost before = wire::record_views(records@);
        let ghost all = super::repeated(
            12,
            self@.per_target.map_values(|m: PerTargetStatsView| m.bytes()),
        );
        let mut i: usize = 0;
        while i < self.per_target.len()
            invariant
                i <= self.per_target@.len(),
                all == super::repeated(
                    12,
                    self@.per_target.map_values(|m: PerTargetStatsView| m.bytes()),
                ),
                wire::record_views(records@) =~= before + all.take(i as int),
                wire::all_writable(wire::record_views(records@)),
            decreases self.per_target@.len() - i,
        {
            push_bytes(records, 12, self.per_target[i].encode_to_vec());
            i = i + 1;
            assert(all.take(i as int) =~= all.take(i - 1).push(all[i - 1]));
        }
        assert(all.take(i as int) =~= all);
    }

    fn to_records(&self) -> (records: Vec<Record>)
        ensures
            wire::record_views(records@) =~= self@.records(),
            wire::all_writable(wire::record_views(records@)),
    {
        let mut records: Vec<Record> = Vec::new();
        push_number(&mut records, 1, self.rule_id);
        push_number(&mut records, 2, self.bytes_in);
        push_number(&mut records, 3, self.bytes_out);
        push_number(&mut records, 4, self.active_connections as u64);
        self.push_per_port(&mut records);
        push_number(&mut records, 6, self.dns_failures);
        push_number(&mut records, 7, self.datagrams_in);
        push_number(&mut records, 8, self.datagrams_out);
        push_number(&mut records, 9, self.active_flows as u64);
        push_number(&mut records, 10, self.flows_dropped_overflow);
        push_number(&mut records, 11, self.target_failovers_total);
        self.push_per_target(&mut records);
        push_number(&mut records, 13, self.sni_route_exact_total);
        push_number(&mut records, 14, self.sni_route_wildcard_total);
        push_number(&mut records, 15, self.sni_route_fallback_total);
        if let Some(raw) = &self.rate_limit {
            push_bytes(&mut records, 16, raw.clone());
        }
        records
    }

    /// The bytes that the message is written as.
    pub fn encode_to_vec(&self) -> (bytes: Vec<u8>)
        ensures
            bytes@ == self@.bytes(),
            wire::all_writable(self@.records()),
    {
        write_records(&self.to_records())
    }

    /// The message that bytes stand for, if they do.
    pub fn decode(bytes: &[u8]) -> (message: Result<RuleStats, DecodeError>)
        ensures
            match message::decoded(RuleStatsView::empty(), bytes@, RECURSION_LIMIT as nat) {
                Some(view) => message matches Ok(m) && m@ == view,
                None => message is Err,
            },
    {
        let mut m = RuleStats::default();
        if merge_bytes(&mut m, bytes, RECURSION_LIMIT) {
            Ok(m)
        } else {
            Err(DecodeError)
        }
    }
}

proof fn lemma_rule_stats_per_port(base: RuleStatsView, items: Seq<PerPortStatsView>, depth: nat)
    requires
        depth >= 2,
        forall|i: int| 0 <= i < items.len() ==> (#[trigger] items[i]).fits((depth - 1) as nat),
    ensures
        message::merge_all(
            base,
            super::repeated(5, items.map_values(|m: PerPortStatsView| m.bytes())),
            depth,
        ) == Some(RuleStatsView { per_port: base.per_port + items, ..base }),
    decreases items.len(),
{
    let records = super::repeated(5, items.map_values(|m: PerPortStatsView| m.bytes()));
    if items.len() == 0 {
        assert(base.per_port + items =~= base.per_port);
    } else {
        law_per_port_stats_reads_back(items[0], (depth - 1) as nat);
        let next = RuleStatsView { per_port: base.per_port.push(items[0]), ..base };
        assert(base.merged(records[0], depth) == Some(next));
        assert(records.skip(1) =~= super::repeated(
            5,
            items.skip(1).map_values(|m: PerPortStatsView| m.bytes()),
        ));
        assert forall|i: int| 0 <= i < items.skip(1).len() implies (
        #[trigger] items.skip(1)[i]).fits((depth - 1) as nat) by {
            assert(items.skip(1)[i] == items[i + 1]);
        }
        lemma_rule_stats_per_port(next, items.skip(1), depth);
        assert(next.per_port + items.skip(1) =~= base.per_port + items);
    }
}

proof fn lemma_rule_stats_per_target(
    base: RuleStatsView,
    items: Seq<PerTargetStatsView>,
    depth: nat,
)
    requires
        depth >= 2,
        forall|i: int| 0 <= i < items.len() ==> (#[trigger] items[i]).fits((depth - 1) as nat),
    ensures
        message::merge_all(
            base,
            super::repeated(12, items.map_values(|m: PerTargetStatsView| m.bytes())),
            depth,
        ) == Some(RuleStatsView { per_target: base.per_target + items, ..base }),
    decreases items.len(),
{
    let records = super::repeated(12, items.map_values(|m: PerTargetStatsView| m.bytes()));
    if items.len() == 0 {
        assert(base.per_target + items =~= base.per_target);
    } else {
        law_per_target_stats_reads_back(items[0], (depth - 1) as nat);
        let next = RuleStatsView { per_target: base.per_target.push(items[0]), ..base };
        assert(base.merged(records[0], depth) == Some(next));
        assert(records.skip(1) =~= super::repeated(
            12,
            items.skip(1).map_values(|m: PerTargetStatsView| m.bytes()),
        ));
        assert forall|i: int| 0 <= i < items.skip(1).len() implies (
        #[trigger] items.skip(1)[i]).fits((depth - 1) as nat) by {
            assert(items.skip(1)[i] == items[i + 1]);
        }
        lemma_rule_stats_per_target(next, items.skip(1), depth);
        assert(next.per_target + items.skip(1) =~= base.per_target + items);
    }
}

/// [`RuleStats`] is read back as it was written.
pub proof fn law_rule_stats_reads_back(m: RuleStatsView, depth: nat)
    requires
        m.fits(depth),
    ensures
        message::decoded(RuleStatsView::empty(), m.bytes(), depth) == Some(m),
{
    wire::law_records_read_back(m.records(), depth);
    let s0 = RuleStatsView::empty();
    let d0 = Seq::<RecordView>::empty();
    let s1 = RuleStatsView { rule_id: m.rule_id, ..s0 };
    let d1 = d0 + message::opt_number(1, m.rule_id);
    assert(message::merge_all(s0, d1, depth) == Some(s1)) by {
        message::lemma_then_number(s0, d0, s0, 1, m.rule_id, s1, depth);
    }
    let s2 = RuleStatsView { bytes_in: m.bytes_in, ..s1 };
    let d2 = d1 + message::opt_number(2, m.bytes_in);
    assert(message::merge_all(s0, d2, depth) == Some(s2)) by {
        message::lemma_then_number(s0, d1, s1, 2, m.bytes_in, s2, depth);
    }
    let s3 = RuleStatsView { bytes_out: m.bytes_out, ..s2 };
    let d3 = d2 + message::opt_number(3, m.bytes_out);
    assert(message::merge_all(s0, d3, depth) == Some(s3)) by {
        message::lemma_then_number(s0, d2, s2, 3, m.bytes_out, s3, depth);
    }
    let s4 = RuleStatsView { active_connections: m.active_connections, ..s3 };
    let d4 = d3 + message::opt_number(4, m.active_connections as u64);
    assert(message::merge_all(s0, d4, depth) == Some(s4)) by {
        message::lemma_then_number(s0, d3, s3, 4, m.active_connections as u64, s4, depth);
    }
    let s5 = RuleStatsView { per_port: m.per_port, ..s4 };
    let d5 = d4 + super::repeated(5, m.per_port.map_values(|m: PerPortStatsView| m.bytes()));
    assert(message::merge_all(s0, d5, depth) == Some(s5)) by {
        lemma_rule_stats_per_port(s4, m.per_port, depth);
        message::lemma_merge_concat(
            s0,
            d4,
            super::repeated(5, m.per_port.map_values(|m: PerPortStatsView| m.bytes())),
            depth,
        );
        assert(s4.per_port + m.per_port =~= m.per_port);
    }
    let s6 = RuleStatsView { dns_failures: m.dns_failures, ..s5 };
    let d6 = d5 + message::opt_number(6, m.dns_failures);
    assert(message::merge_all(s0, d6, depth) == Some(s6)) by {
        message::lemma_then_number(s0, d5, s5, 6, m.dns_failures, s6, depth);
    }
    let s7 = RuleStatsView { datagrams_in: m.datagrams_in, ..s6 };
    let d7 = d6 + message::opt_number(7, m.datagrams_in);
    assert(message::merge_all(s0, d7, depth) == Some(s7)) by {
        message::lemma_then_number(s0, d6, s6, 7, m.datagrams_in, s7, depth);
    }
    let s8 = RuleStatsView { datagrams_out: m.datagrams_out, ..s7 };
    let d8 = d7 + message::opt_number(8, m.datagrams_out);
    assert(message::merge_all(s0, d8, depth) == Some(s8)) by {
        message::lemma_then_number(s0, d7, s7, 8, m.datagrams_out, s8, depth);
    }
    let s9 = RuleStatsView { active_flows: m.active_flows, ..s8 };
    let d9 = d8 + message::opt_number(9, m.active_flows as u64);
    assert(message::merge_all(s0, d9, depth) == Some(s9)) by {
        message::lemma_then_number(s0, d8, s8, 9, m.active_flows as u64, s9, depth);
    }
    let s10 = RuleStatsView { flows_dropped_overflow: m.flows_dropped_overflow, ..s9 };
    let d10 = d9 + message::opt_number(10, m.flows_dropped_overflow);
    assert(message::merge_all(s0, d10, depth) == Some(s10)) by {
        message::lemma_then_number(s0, d9, s9, 10, m.flows_dropped_overflow, s10, depth);
    }
    let s11 = RuleStatsView { target_failovers_total: m.target_failovers_total, ..s10 };
    let d11 = d10 + message::opt_number(11, m.target_failovers_total);
    assert(message::merge_all(s0, d11, depth) == Some(s11)) by {
        message::lemma_then_number(s0, d10, s10, 11, m.target_failovers_total, s11, depth);
    }
    let s12 = RuleStatsView { per_target: m.per_target, ..s11 };
    let d12 = d11 + super::repeated(12, m.per_target.map_values(|m: PerTargetStatsView| m.bytes()));
    assert(message::merge_all(s0, d12, depth) == Some(s12)) by {
        lemma_rule_stats_per_target(s11, m.per_target, depth);
        message::lemma_merge_concat(
            s0,
            d11,
            super::repeated(12, m.per_target.map_values(|m: PerTargetStatsView| m.bytes())),
            depth,
        );
        assert(s11.per_target + m.per_target =~= m.per_target);
    }
    let s13 = RuleStatsView { sni_route_exact_total: m.sni_route_exact_total, ..s12 };
    let d13 = d12 + message::opt_number(13, m.sni_route_exact_total);
    assert(message::merge_all(s0, d13, depth) == Some(s13)) by {
        message::lemma_then_number(s0, d12, s12, 13, m.sni_route_exact_total, s13, depth);
    }
    let s14 = RuleStatsView { sni_route_wildcard_total: m.sni_route_wildcard_total, ..s13 };
    let d14 = d13 + message::opt_number(14, m.sni_route_wildcard_total);
    assert(message::merge_all(s0, d14, depth) == Some(s14)) by {
        message::lemma_then_number(s0, d13, s13, 14, m.sni_route_wildcard_total, s14, depth);
    }
    let s15 = RuleStatsView { sni_route_fallback_total: m.sni_route_fallback_total, ..s14 };
    let d15 = d14 + message::opt_number(15, m.sni_route_fallback_total);
    assert(message::merge_all(s0, d15, depth) == Some(s15)) by {
        message::lemma_then_number(s0, d14, s14, 15, m.sni_route_fallback_total, s15, depth);
    }
    let s16 = RuleStatsView { rate_limit: m.rate_limit, ..s15 };
    let d16 = d15 + message::some_bytes(16, m.rate_limit);
    assert(message::merge_all(s0, d16, depth) == Some(s16)) by {
        message::lemma_then_some_bytes(s0, d15, s15, 16, m.rate_limit, s16, depth);
    }
    assert(d16 =~= m.records());
    assert(s16 =~= m);
}

/// What was added to the counters later leaves no trace in a report that does
/// not use it.
#[verifier::rlimit(80)]
pub proof fn law_unset_stats_fields_are_not_written(m: RuleStatsView, i: int)
    requires
        0 <= i < m.records().len(),
    ensures
        ({
            let tag = m.records()[i].tag;
            &&& 1 <= tag <= 16
            &&& tag == 5 ==> m.per_port.len() > 0
            &&& tag == 6 ==> m.dns_failures != 0
            &&& tag == 7 ==> m.datagrams_in != 0
            &&& tag == 8 ==> m.datagrams_out != 0
            &&& tag == 9 ==> m.active_flows != 0
            &&& tag == 10 ==> m.flows_dropped_overflow != 0
            &&& tag == 11 ==> m.target_failovers_total != 0
            &&& tag == 12 ==> m.per_target.len() > 0
            &&& tag == 13 ==> m.sni_route_exact_total != 0
            &&& tag == 14 ==> m.sni_route_wildcard_total != 0
            &&& tag == 15 ==> m.sni_route_fallback_total != 0
            &&& tag == 16 ==> m.rate_limit is Some
        }),
{
}

/// [`PerPortStats`] is written field by field, in the order of their numbers, each one
/// under its own, and nothing is written of one that is not set.
pub proof fn law_per_port_stats_is_written_field_by_field(m: PerPortStats, bytes: Vec<u8>)
    requires
        call_ensures(PerPortStats::encode_to_vec, (&m,), bytes),
    ensures
        bytes@ == crate::proto::laws::unless_zero(1, m.listen_port as u64)
            + crate::proto::laws::unless_zero(2, m.bytes_in)
            + crate::proto::laws::unless_zero(3, m.bytes_out)
            + crate::proto::laws::unless_zero(4, m.active_connections as u64)
            + crate::proto::laws::unless_zero(5, m.datagrams_in)
            + crate::proto::laws::unless_zero(6, m.datagrams_out),
{
    crate::proto::laws::lemma_bytes_number(1, m@.listen_port as u64);
    crate::proto::laws::lemma_bytes_number(2, m@.bytes_in);
    let r1 = message::opt_number(1, m@.listen_port as u64);
    crate::proto::laws::lemma_bytes_concat(r1, message::opt_number(2, m@.bytes_in));
    crate::proto::laws::lemma_bytes_number(3, m@.bytes_out);
    let r2 = r1 + message::opt_number(2, m@.bytes_in);
    crate::proto::laws::lemma_bytes_concat(r2, message::opt_number(3, m@.bytes_out));
    crate::proto::laws::lemma_bytes_number(4, m@.active_connections as u64);
    let r3 = r2 + message::opt_number(3, m@.bytes_out);
    crate::proto::laws::lemma_bytes_concat(
        r3,
        message::opt_number(4, m@.active_connections as u64),
    );
    crate::proto::laws::lemma_bytes_number(5, m@.datagrams_in);
    let r4 = r3 + message::opt_number(4, m@.active_connections as u64);
    crate::proto::laws::lemma_bytes_concat(r4, message::opt_number(5, m@.datagrams_in));
    crate::proto::laws::lemma_bytes_number(6, m@.datagrams_out);
    let r5 = r4 + message::opt_number(5, m@.datagrams_in);
    crate::proto::laws::lemma_bytes_concat(r5, message::opt_number(6, m@.datagrams_out));
    assert(m@.records() =~= r5 + message::opt_number(6, m@.datagrams_out));
}

/// [`PerPortStats`] is read as it was written, field by field, and with nothing set
/// where nothing was written.
pub proof fn law_a_written_per_port_stats_is_read(
    m: PerPortStats,
    bytes: Vec<u8>,
    sent: &[u8],
    read: Result<PerPortStats, DecodeError>,
    nothing: &[u8],
    fresh: Result<PerPortStats, DecodeError>,
)
    requires
        call_ensures(PerPortStats::encode_to_vec, (&m,), bytes),
        sent@ == bytes@,
        call_ensures(PerPortStats::decode, (sent,), read),
        nothing@.len() == 0,
        call_ensures(PerPortStats::decode, (nothing,), fresh),
    ensures
        read is Ok,
        read->Ok_0.listen_port == m.listen_port,
        read->Ok_0.bytes_in == m.bytes_in,
        read->Ok_0.bytes_out == m.bytes_out,
        read->Ok_0.active_connections == m.active_connections,
        read->Ok_0.datagrams_in == m.datagrams_in,
        read->Ok_0.datagrams_out == m.datagrams_out,
        fresh is Ok,
        fresh->Ok_0.listen_port == 0,
        fresh->Ok_0.bytes_in == 0,
        fresh->Ok_0.bytes_out == 0,
        fresh->Ok_0.active_connections == 0,
        fresh->Ok_0.datagrams_in == 0,
        fresh->Ok_0.datagrams_out == 0,
{
    law_per_port_stats_reads_back(m@, 100);
    let got = read->Ok_0;
    assert(got@ == m@);
    assert(wire::read_records(nothing@, 100) == Some(Seq::<RecordView>::empty()));
    assert(fresh->Ok_0@ == PerPortStatsView::empty());
}

/// One more number at the end of a [`PerPortStats`] sets the field with its number and
/// no other. A field that takes no such value makes the bytes unreadable; a number that
/// no field has changes nothing.
pub proof fn law_per_port_stats_takes_one_more_number(
    a: &[u8],
    before: PerPortStats,
    tag: u32,
    n: u64,
    b: &[u8],
    after: Result<PerPortStats, DecodeError>,
)
    requires
        call_ensures(PerPortStats::decode, (a,), Ok(before)),
        1 <= tag <= 0x1fff_ffff,
        b@ == a@ + crate::proto::laws::number_field(tag, n),
        call_ensures(PerPortStats::decode, (b,), after),
    ensures
        tag == 1 ==> (
            after matches Ok(m)
            && m@ =~= (PerPortStatsView { listen_port: (n % 0x1_0000_0000) as u32, ..before@ })
        ),
        tag == 2 ==> (after matches Ok(m) && m@ =~= (PerPortStatsView { bytes_in: n, ..before@ })),
        tag == 3 ==> (after matches Ok(m) && m@ =~= (PerPortStatsView { bytes_out: n, ..before@ })),
        tag == 4 ==> (
            after matches Ok(m)
            && m@
                =~= (PerPortStatsView { active_connections: (n % 0x1_0000_0000) as u32, ..before@ })
        ),
        tag == 5 ==> (
            after matches Ok(m)
            && m@ =~= (PerPortStatsView { datagrams_in: n, ..before@ })
        ),
        tag == 6 ==> (
            after matches Ok(m)
            && m@ =~= (PerPortStatsView { datagrams_out: n, ..before@ })
        ),
        tag > 6 ==> (after matches Ok(m) && m@ == before@),
{
    crate::proto::laws::lemma_one_more(
        PerPortStatsView::empty(),
        a@,
        before@,
        RecordView { tag, value: wire::ValueView::Varint(n) },
        100,
    );
}

/// One more run of bytes at the end of a [`PerPortStats`] sets the field with its
/// number and no other. A field that takes no such value makes the bytes unreadable; a
/// number that no field has changes nothing.
pub proof fn law_per_port_stats_takes_one_more_text(
    a: &[u8],
    before: PerPortStats,
    tag: u32,
    payload: Seq<u8>,
    b: &[u8],
    after: Result<PerPortStats, DecodeError>,
)
    requires
        call_ensures(PerPortStats::decode, (a,), Ok(before)),
        1 <= tag <= 0x1fff_ffff,
        payload.len() <= u64::MAX,
        b@ == a@ + crate::proto::laws::bytes_field(tag, payload),
        call_ensures(PerPortStats::decode, (b,), after),
    ensures
        tag == 1 || tag == 2 || tag == 3 || tag == 4 || tag == 5 || tag == 6 ==> after is Err,
        tag > 6 ==> (after matches Ok(m) && m@ == before@),
{
    crate::proto::laws::lemma_one_more(
        PerPortStatsView::empty(),
        a@,
        before@,
        RecordView { tag, value: wire::ValueView::Bytes(payload) },
        100,
    );
}

/// [`PerTargetStats`] is written field by field, in the order of their numbers, each
/// one under its own, and nothing is written of one that is not set.
pub proof fn law_per_target_stats_is_written_field_by_field(m: PerTargetStats, bytes: Vec<u8>)
    requires
        call_ensures(PerTargetStats::encode_to_vec, (&m,), bytes),
    ensures
        bytes@ == crate::proto::laws::unless_zero(1, m.index as u64)
            + crate::proto::laws::unless_empty(2, m.host@)
            + crate::proto::laws::unless_zero(3, m.port as u64)
            + crate::proto::laws::unless_zero(4, m.priority as u64)
            + crate::proto::laws::unless_zero(5, m.health as u64)
            + crate::proto::laws::unless_zero(6, m.consecutive_failures as u64)
            + crate::proto::laws::unless_zero(7, m.last_failure_at_unix_ms)
            + crate::proto::laws::unless_zero(8, m.last_success_at_unix_ms)
            + crate::proto::laws::unless_zero(9, m.bytes_in)
            + crate::proto::laws::unless_zero(10, m.bytes_out)
            + crate::proto::laws::unless_zero(11, m.connections_accepted),
{
    crate::proto::laws::lemma_bytes_number(1, m@.index as u64);
    crate::proto::laws::lemma_bytes_text(2, m@.host);
    let r1 = message::opt_number(1, m@.index as u64);
    crate::proto::laws::lemma_bytes_concat(r1, message::opt_text(2, m@.host));
    crate::proto::laws::lemma_bytes_number(3, m@.port as u64);
    let r2 = r1 + message::opt_text(2, m@.host);
    crate::proto::laws::lemma_bytes_concat(r2, message::opt_number(3, m@.port as u64));
    crate::proto::laws::lemma_bytes_number(4, m@.priority as u64);
    let r3 = r2 + message::opt_number(3, m@.port as u64);
    crate::proto::laws::lemma_bytes_concat(r3, message::opt_number(4, m@.priority as u64));
    crate::proto::laws::lemma_bytes_number(5, m@.health as u64);
    let r4 = r3 + message::opt_number(4, m@.priority as u64);
    crate::proto::laws::lemma_bytes_concat(r4, message::opt_number(5, m@.health as u64));
    crate::proto::laws::lemma_bytes_number(6, m@.consecutive_failures as u64);
    let r5 = r4 + message::opt_number(5, m@.health as u64);
    crate::proto::laws::lemma_bytes_concat(
        r5,
        message::opt_number(6, m@.consecutive_failures as u64),
    );
    crate::proto::laws::lemma_bytes_number(7, m@.last_failure_at_unix_ms);
    let r6 = r5 + message::opt_number(6, m@.consecutive_failures as u64);
    crate::proto::laws::lemma_bytes_concat(r6, message::opt_number(7, m@.last_failure_at_unix_ms));
    crate::proto::laws::lemma_bytes_number(8, m@.last_success_at_unix_ms);
    let r7 = r6 + message::opt_number(7, m@.last_failure_at_unix_ms);
    crate::proto::laws::lemma_bytes_concat(r7, message::opt_number(8, m@.last_success_at_unix_ms));
    crate::proto::laws::lemma_bytes_number(9, m@.bytes_in);
    let r8 = r7 + message::opt_number(8, m@.last_success_at_unix_ms);
    crate::proto::laws::lemma_bytes_concat(r8, message::opt_number(9, m@.bytes_in));
    crate::proto::laws::lemma_bytes_number(10, m@.bytes_out);
    let r9 = r8 + message::opt_number(9, m@.bytes_in);
    crate::proto::laws::lemma_bytes_concat(r9, message::opt_number(10, m@.bytes_out));
    crate::proto::laws::lemma_bytes_number(11, m@.connections_accepted);
    let r10 = r9 + message::opt_number(10, m@.bytes_out);
    crate::proto::laws::lemma_bytes_concat(r10, message::opt_number(11, m@.connections_accepted));
    assert(m@.records() =~= r10 + message::opt_number(11, m@.connections_accepted));
}

/// [`PerTargetStats`] is read as it was written, field by field, and with nothing set
/// where nothing was written.
pub proof fn law_a_written_per_target_stats_is_read(
    m: PerTargetStats,
    bytes: Vec<u8>,
    sent: &[u8],
    read: Result<PerTargetStats, DecodeError>,
    nothing: &[u8],
    fresh: Result<PerTargetStats, DecodeError>,
)
    requires
        call_ensures(PerTargetStats::encode_to_vec, (&m,), bytes),
        sent@ == bytes@,
        call_ensures(PerTargetStats::decode, (sent,), read),
        nothing@.len() == 0,
        call_ensures(PerTargetStats::decode, (nothing,), fresh),
    ensures
        read is Ok,
        read->Ok_0.index == m.index,
        read->Ok_0.host@ == m.host@,
        read->Ok_0.port == m.port,
        read->Ok_0.priority == m.priority,
        read->Ok_0.health == m.health,
        read->Ok_0.consecutive_failures == m.consecutive_failures,
        read->Ok_0.last_failure_at_unix_ms == m.last_failure_at_unix_ms,
        read->Ok_0.last_success_at_unix_ms == m.last_success_at_unix_ms,
        read->Ok_0.bytes_in == m.bytes_in,
        read->Ok_0.bytes_out == m.bytes_out,
        read->Ok_0.connections_accepted == m.connections_accepted,
        fresh is Ok,
        fresh->Ok_0.index == 0,
        fresh->Ok_0.host@.len() == 0,
        fresh->Ok_0.port == 0,
        fresh->Ok_0.priority == 0,
        fresh->Ok_0.health == 0,
        fresh->Ok_0.consecutive_failures == 0,
        fresh->Ok_0.last_failure_at_unix_ms == 0,
        fresh->Ok_0.last_success_at_unix_ms == 0,
        fresh->Ok_0.bytes_in == 0,
        fresh->Ok_0.bytes_out == 0,
        fresh->Ok_0.connections_accepted == 0,
{
    law_per_target_stats_reads_back(m@, 100);
    let got = read->Ok_0;
    assert(got@ == m@);
    assert(wire::read_records(nothing@, 100) == Some(Seq::<RecordView>::empty()));
    assert(fresh->Ok_0@ == PerTargetStatsView::empty());
}

/// One more number at the end of a [`PerTargetStats`] sets the field with its number
/// and no other. A field that takes no such value makes the bytes unreadable; a number
/// that no field has changes nothing.
pub proof fn law_per_target_stats_takes_one_more_number(
    a: &[u8],
    before: PerTargetStats,
    tag: u32,
    n: u64,
    b: &[u8],
    after: Result<PerTargetStats, DecodeError>,
)
    requires
        call_ensures(PerTargetStats::decode, (a,), Ok(before)),
        1 <= tag <= 0x1fff_ffff,
        b@ == a@ + crate::proto::laws::number_field(tag, n),
        call_ensures(PerTargetStats::decode, (b,), after),
    ensures
        tag == 1 ==> (
            after matches Ok(m)
            && m@ =~= (PerTargetStatsView { index: (n % 0x1_0000_0000) as u32, ..before@ })
        ),
        tag == 3 ==> (
            after matches Ok(m)
            && m@ =~= (PerTargetStatsView { port: (n % 0x1_0000_0000) as u32, ..before@ })
        ),
        tag == 4 ==> (
            after matches Ok(m)
            && m@ =~= (PerTargetStatsView { priority: (n % 0x1_0000_0000) as u32, ..before@ })
        ),
        tag == 5 ==> (
            after matches Ok(m)
            && m@ =~= (PerTargetStatsView { health: (n % 0x1_0000_0000) as u32, ..before@ })
        ),
        tag == 6 ==> (
            after matches Ok(m)
            && m@
                =~= (PerTargetStatsView {
                    consecutive_failures: (n % 0x1_0000_0000) as u32,
                    ..before@
                })
        ),
        tag == 7 ==> (
            after matches Ok(m)
            && m@ =~= (PerTargetStatsView { last_failure_at_unix_ms: n, ..before@ })
        ),
        tag == 8 ==> (
            after matches Ok(m)
            && m@ =~= (PerTargetStatsView { last_success_at_unix_ms: n, ..before@ })
        ),
        tag == 9 ==> (
            after matches Ok(m)
            && m@ =~= (PerTargetStatsView { bytes_in: n, ..before@ })
        ),
        tag == 10 ==> (
            after matches Ok(m)
            && m@ =~= (PerTargetStatsView { bytes_out: n, ..before@ })
        ),
        tag == 11 ==> (
            after matches Ok(m)
            && m@ =~= (PerTargetStatsView { connections_accepted: n, ..before@ })
        ),
        tag == 2 ==> after is Err,
        tag > 11 ==> (after matches Ok(m) && m@ == before@),
{
    crate::proto::laws::lemma_one_more(
        PerTargetStatsView::empty(),
        a@,
        before@,
        RecordView { tag, value: wire::ValueView::Varint(n) },
        100,
    );
}

/// One more run of bytes at the end of a [`PerTargetStats`] sets the field with its
/// number and no other. A field that takes no such value makes the bytes unreadable; a
/// number that no field has changes nothing.
pub proof fn law_per_target_stats_takes_one_more_text(
    a: &[u8],
    before: PerTargetStats,
    tag: u32,
    payload: Seq<u8>,
    b: &[u8],
    after: Result<PerTargetStats, DecodeError>,
)
    requires
        call_ensures(PerTargetStats::decode, (a,), Ok(before)),
        1 <= tag <= 0x1fff_ffff,
        payload.len() <= u64::MAX,
        b@ == a@ + crate::proto::laws::bytes_field(tag, payload),
        call_ensures(PerTargetStats::decode, (b,), after),
    ensures
        tag == 2 && vstd::utf8::valid_utf8(payload) ==> (
            after matches Ok(m)
            && m@ =~= (PerTargetStatsView { host: vstd::utf8::decode_utf8(payload), ..before@ })
        ),
        tag == 2 && !vstd::utf8::valid_utf8(payload) ==> after is Err,
        tag == 1 || 3 <= tag <= 11 ==> after is Err,
        tag > 11 ==> (after matches Ok(m) && m@ == before@),
{
    crate::proto::laws::lemma_one_more(
        PerTargetStatsView::empty(),
        a@,
        before@,
        RecordView { tag, value: wire::ValueView::Bytes(payload) },
        100,
    );
}

/// [`RuleStats`] is written field by field, in the order of their numbers, each one
/// under its own, and nothing is written of one that is not set.
pub proof fn law_rule_stats_is_written_field_by_field(m: RuleStats, bytes: Vec<u8>)
    requires
        call_ensures(RuleStats::encode_to_vec, (&m,), bytes),
    ensures
        bytes@ == crate::proto::laws::unless_zero(1, m.rule_id)
            + crate::proto::laws::unless_zero(2, m.bytes_in)
            + crate::proto::laws::unless_zero(3, m.bytes_out)
            + crate::proto::laws::unless_zero(4, m.active_connections as u64)
            + crate::proto::laws::each_of(
                5,
                m.per_port@.map_values(|inner: PerPortStats| inner@.bytes()),
            )
            + crate::proto::laws::unless_zero(6, m.dns_failures)
            + crate::proto::laws::unless_zero(7, m.datagrams_in)
            + crate::proto::laws::unless_zero(8, m.datagrams_out)
            + crate::proto::laws::unless_zero(9, m.active_flows as u64)
            + crate::proto::laws::unless_zero(10, m.flows_dropped_overflow)
            + crate::proto::laws::unless_zero(11, m.target_failovers_total)
            + crate::proto::laws::each_of(
                12,
                m.per_target@.map_values(|inner: PerTargetStats| inner@.bytes()),
            )
            + crate::proto::laws::unless_zero(13, m.sni_route_exact_total)
            + crate::proto::laws::unless_zero(14, m.sni_route_wildcard_total)
            + crate::proto::laws::unless_zero(15, m.sni_route_fallback_total)
            + crate::proto::laws::if_bytes(16, match m.rate_limit {
                Some(raw) => Some(raw@),
                None => None,
            }),
{
    crate::proto::laws::lemma_bytes_number(1, m@.rule_id);
    crate::proto::laws::lemma_bytes_number(2, m@.bytes_in);
    let r1 = message::opt_number(1, m@.rule_id);
    crate::proto::laws::lemma_bytes_concat(r1, message::opt_number(2, m@.bytes_in));
    crate::proto::laws::lemma_bytes_number(3, m@.bytes_out);
    let r2 = r1 + message::opt_number(2, m@.bytes_in);
    crate::proto::laws::lemma_bytes_concat(r2, message::opt_number(3, m@.bytes_out));
    crate::proto::laws::lemma_bytes_number(4, m@.active_connections as u64);
    let r3 = r2 + message::opt_number(3, m@.bytes_out);
    crate::proto::laws::lemma_bytes_concat(
        r3,
        message::opt_number(4, m@.active_connections as u64),
    );
    assert(m@.per_port.map_values(|m: PerPortStatsView| m.bytes())
        =~= m.per_port@.map_values(|inner: PerPortStats| inner@.bytes()));
    crate::proto::laws::lemma_bytes_repeated(
        5,
        m@.per_port.map_values(|m: PerPortStatsView| m.bytes()),
    );
    let r4 = r3 + message::opt_number(4, m@.active_connections as u64);
    crate::proto::laws::lemma_bytes_concat(
        r4,
        super::repeated(5, m@.per_port.map_values(|m: PerPortStatsView| m.bytes())),
    );
    crate::proto::laws::lemma_bytes_number(6, m@.dns_failures);
    let r5 = r4 + super::repeated(5, m@.per_port.map_values(|m: PerPortStatsView| m.bytes()));
    crate::proto::laws::lemma_bytes_concat(r5, message::opt_number(6, m@.dns_failures));
    crate::proto::laws::lemma_bytes_number(7, m@.datagrams_in);
    let r6 = r5 + message::opt_number(6, m@.dns_failures);
    crate::proto::laws::lemma_bytes_concat(r6, message::opt_number(7, m@.datagrams_in));
    crate::proto::laws::lemma_bytes_number(8, m@.datagrams_out);
    let r7 = r6 + message::opt_number(7, m@.datagrams_in);
    crate::proto::laws::lemma_bytes_concat(r7, message::opt_number(8, m@.datagrams_out));
    crate::proto::laws::lemma_bytes_number(9, m@.active_flows as u64);
    let r8 = r7 + message::opt_number(8, m@.datagrams_out);
    crate::proto::laws::lemma_bytes_concat(r8, message::opt_number(9, m@.active_flows as u64));
    crate::proto::laws::lemma_bytes_number(10, m@.flows_dropped_overflow);
    let r9 = r8 + message::opt_number(9, m@.active_flows as u64);
    crate::proto::laws::lemma_bytes_concat(r9, message::opt_number(10, m@.flows_dropped_overflow));
    crate::proto::laws::lemma_bytes_number(11, m@.target_failovers_total);
    let r10 = r9 + message::opt_number(10, m@.flows_dropped_overflow);
    crate::proto::laws::lemma_bytes_concat(r10, message::opt_number(11, m@.target_failovers_total));
    assert(m@.per_target.map_values(|m: PerTargetStatsView| m.bytes())
        =~= m.per_target@.map_values(|inner: PerTargetStats| inner@.bytes()));
    crate::proto::laws::lemma_bytes_repeated(
        12,
        m@.per_target.map_values(|m: PerTargetStatsView| m.bytes()),
    );
    let r11 = r10 + message::opt_number(11, m@.target_failovers_total);
    crate::proto::laws::lemma_bytes_concat(
        r11,
        super::repeated(12, m@.per_target.map_values(|m: PerTargetStatsView| m.bytes())),
    );
    crate::proto::laws::lemma_bytes_number(13, m@.sni_route_exact_total);
    let r12 = r11 + super::repeated(
        12,
        m@.per_target.map_values(|m: PerTargetStatsView| m.bytes()),
    );
    crate::proto::laws::lemma_bytes_concat(r12, message::opt_number(13, m@.sni_route_exact_total));
    crate::proto::laws::lemma_bytes_number(14, m@.sni_route_wildcard_total);
    let r13 = r12 + message::opt_number(13, m@.sni_route_exact_total);
    crate::proto::laws::lemma_bytes_concat(
        r13,
        message::opt_number(14, m@.sni_route_wildcard_total),
    );
    crate::proto::laws::lemma_bytes_number(15, m@.sni_route_fallback_total);
    let r14 = r13 + message::opt_number(14, m@.sni_route_wildcard_total);
    crate::proto::laws::lemma_bytes_concat(
        r14,
        message::opt_number(15, m@.sni_route_fallback_total),
    );
    crate::proto::laws::lemma_bytes_some_bytes(16, m@.rate_limit);
    let r15 = r14 + message::opt_number(15, m@.sni_route_fallback_total);
    crate::proto::laws::lemma_bytes_concat(r15, message::some_bytes(16, m@.rate_limit));
    assert(m@.records() =~= r15 + message::some_bytes(16, m@.rate_limit));
}

/// [`RuleStats`] is read as it was written, field by field, and with nothing set where
/// nothing was written.
pub proof fn law_a_written_rule_stats_is_read(
    m: RuleStats,
    bytes: Vec<u8>,
    sent: &[u8],
    parts_of_per_port: Seq<Vec<u8>>,
    parts_of_per_target: Seq<Vec<u8>>,
    read: Result<RuleStats, DecodeError>,
    nothing: &[u8],
    fresh: Result<RuleStats, DecodeError>,
)
    requires
        call_ensures(RuleStats::encode_to_vec, (&m,), bytes),
        sent@ == bytes@,
        parts_of_per_port.len() == m.per_port@.len(),
        forall|i: int| 0 <= i < m.per_port@.len() ==>
            call_ensures(
                PerPortStats::encode_to_vec,
                (&m.per_port@[i],),
                #[trigger] parts_of_per_port[i],
            ),
        parts_of_per_target.len() == m.per_target@.len(),
        forall|i: int| 0 <= i < m.per_target@.len() ==>
            call_ensures(
                PerTargetStats::encode_to_vec,
                (&m.per_target@[i],),
                #[trigger] parts_of_per_target[i],
            ),
        m.rate_limit matches Some(raw) ==> wire::read_records(raw@, 99) is Some,
        call_ensures(RuleStats::decode, (sent,), read),
        nothing@.len() == 0,
        call_ensures(RuleStats::decode, (nothing,), fresh),
    ensures
        read is Ok,
        read->Ok_0.rule_id == m.rule_id,
        read->Ok_0.bytes_in == m.bytes_in,
        read->Ok_0.bytes_out == m.bytes_out,
        read->Ok_0.active_connections == m.active_connections,
        read->Ok_0.per_port@.map_values(|inner: PerPortStats| inner@)
            == m.per_port@.map_values(|inner: PerPortStats| inner@),
        read->Ok_0.dns_failures == m.dns_failures,
        read->Ok_0.datagrams_in == m.datagrams_in,
        read->Ok_0.datagrams_out == m.datagrams_out,
        read->Ok_0.active_flows == m.active_flows,
        read->Ok_0.flows_dropped_overflow == m.flows_dropped_overflow,
        read->Ok_0.target_failovers_total == m.target_failovers_total,
        read->Ok_0.per_target@.map_values(|inner: PerTargetStats| inner@)
            == m.per_target@.map_values(|inner: PerTargetStats| inner@),
        read->Ok_0.sni_route_exact_total == m.sni_route_exact_total,
        read->Ok_0.sni_route_wildcard_total == m.sni_route_wildcard_total,
        read->Ok_0.sni_route_fallback_total == m.sni_route_fallback_total,
        super::raw_view(read->Ok_0.rate_limit) == super::raw_view(m.rate_limit),
        fresh is Ok,
        fresh->Ok_0.rule_id == 0,
        fresh->Ok_0.bytes_in == 0,
        fresh->Ok_0.bytes_out == 0,
        fresh->Ok_0.active_connections == 0,
        fresh->Ok_0.per_port@.len() == 0,
        fresh->Ok_0.dns_failures == 0,
        fresh->Ok_0.datagrams_in == 0,
        fresh->Ok_0.datagrams_out == 0,
        fresh->Ok_0.active_flows == 0,
        fresh->Ok_0.flows_dropped_overflow == 0,
        fresh->Ok_0.target_failovers_total == 0,
        fresh->Ok_0.per_target@.len() == 0,
        fresh->Ok_0.sni_route_exact_total == 0,
        fresh->Ok_0.sni_route_wildcard_total == 0,
        fresh->Ok_0.sni_route_fallback_total == 0,
        fresh->Ok_0.rate_limit is None,
{
    assert forall|i: int| 0 <= i < m@.per_port.len() implies (
    #[trigger] m@.per_port[i]).fits(99) by {
        let part = parts_of_per_port[i];
        assert(call_ensures(PerPortStats::encode_to_vec, (&m.per_port@[i],), part));
    }
    assert forall|i: int| 0 <= i < m@.per_target.len() implies (
    #[trigger] m@.per_target[i]).fits(99) by {
        let part = parts_of_per_target[i];
        assert(call_ensures(PerTargetStats::encode_to_vec, (&m.per_target@[i],), part));
    }
    law_rule_stats_reads_back(m@, 100);
    let got = read->Ok_0;
    assert(got@ == m@);
    assert(got@.per_port =~= got.per_port@.map_values(|inner: PerPortStats| inner@));
    assert(m@.per_port =~= m.per_port@.map_values(|inner: PerPortStats| inner@));
    assert(got@.per_target =~= got.per_target@.map_values(|inner: PerTargetStats| inner@));
    assert(m@.per_target =~= m.per_target@.map_values(|inner: PerTargetStats| inner@));
    assert(wire::read_records(nothing@, 100) == Some(Seq::<RecordView>::empty()));
    assert(fresh->Ok_0@ == RuleStatsView::empty());
    assert(fresh->Ok_0@.per_port.len() == fresh->Ok_0.per_port@.len());
    assert(fresh->Ok_0@.per_target.len() == fresh->Ok_0.per_target@.len());
}

/// One more number at the end of a [`RuleStats`] sets the field with its number and no
/// other. A field that takes no such value makes the bytes unreadable; a number that no
/// field has changes nothing.
pub proof fn law_rule_stats_takes_one_more_number(
    a: &[u8],
    before: RuleStats,
    tag: u32,
    n: u64,
    b: &[u8],
    after: Result<RuleStats, DecodeError>,
)
    requires
        call_ensures(RuleStats::decode, (a,), Ok(before)),
        1 <= tag <= 0x1fff_ffff,
        b@ == a@ + crate::proto::laws::number_field(tag, n),
        call_ensures(RuleStats::decode, (b,), after),
    ensures
        tag == 1 ==> (after matches Ok(m) && m@ =~= (RuleStatsView { rule_id: n, ..before@ })),
        tag == 2 ==> (after matches Ok(m) && m@ =~= (RuleStatsView { bytes_in: n, ..before@ })),
        tag == 3 ==> (after matches Ok(m) && m@ =~= (RuleStatsView { bytes_out: n, ..before@ })),
        tag == 4 ==> (
            after matches Ok(m)
            && m@ =~= (RuleStatsView { active_connections: (n % 0x1_0000_0000) as u32, ..before@ })
        ),
        tag == 6 ==> (after matches Ok(m) && m@ =~= (RuleStatsView { dns_failures: n, ..before@ })),
        tag == 7 ==> (after matches Ok(m) && m@ =~= (RuleStatsView { datagrams_in: n, ..before@ })),
        tag == 8 ==> (
            after matches Ok(m)
            && m@ =~= (RuleStatsView { datagrams_out: n, ..before@ })
        ),
        tag == 9 ==> (
            after matches Ok(m)
            && m@ =~= (RuleStatsView { active_flows: (n % 0x1_0000_0000) as u32, ..before@ })
        ),
        tag == 10 ==> (
            after matches Ok(m)
            && m@ =~= (RuleStatsView { flows_dropped_overflow: n, ..before@ })
        ),
        tag == 11 ==> (
            after matches Ok(m)
            && m@ =~= (RuleStatsView { target_failovers_total: n, ..before@ })
        ),
        tag == 13 ==> (
            after matches Ok(m)
            && m@ =~= (RuleStatsView { sni_route_exact_total: n, ..before@ })
        ),
        tag == 14 ==> (
            after matches Ok(m)
            && m@ =~= (RuleStatsView { sni_route_wildcard_total: n, ..before@ })
        ),
        tag == 15 ==> (
            after matches Ok(m)
            && m@ =~= (RuleStatsView { sni_route_fallback_total: n, ..before@ })
        ),
        tag == 5 || tag == 12 || tag == 16 ==> after is Err,
        tag > 16 ==> (after matches Ok(m) && m@ == before@),
{
    crate::proto::laws::lemma_one_more(
        RuleStatsView::empty(),
        a@,
        before@,
        RecordView { tag, value: wire::ValueView::Varint(n) },
        100,
    );
}

/// One more run of bytes at the end of a [`RuleStats`] sets the field with its number
/// and no other. A field that takes no such value makes the bytes unreadable; a number
/// that no field has changes nothing.
pub proof fn law_rule_stats_takes_one_more_text(
    a: &[u8],
    before: RuleStats,
    tag: u32,
    payload: Seq<u8>,
    b: &[u8],
    after: Result<RuleStats, DecodeError>,
)
    requires
        call_ensures(RuleStats::decode, (a,), Ok(before)),
        1 <= tag <= 0x1fff_ffff,
        payload.len() <= u64::MAX,
        b@ == a@ + crate::proto::laws::bytes_field(tag, payload),
        call_ensures(RuleStats::decode, (b,), after),
    ensures
        tag == 5 && message::decoded(PerPortStatsView::empty(), payload, 99) is Some ==> (
            after matches Ok(m)
            && m@
                =~= (RuleStatsView {
                    per_port: before@.per_port.push(
                        message::decoded(PerPortStatsView::empty(), payload, 99)->0,
                    ),
                    ..before@
                })
        ),
        tag == 5 && message::decoded(PerPortStatsView::empty(), payload, 99) is None ==>
            after is Err,
        tag == 12 && message::decoded(PerTargetStatsView::empty(), payload, 99) is Some ==> (
            after matches Ok(m)
            && m@
                =~= (RuleStatsView {
                    per_target: before@.per_target.push(
                        message::decoded(PerTargetStatsView::empty(), payload, 99)->0,
                    ),
                    ..before@
                })
        ),
        tag == 12 && message::decoded(PerTargetStatsView::empty(), payload, 99) is None ==>
            after is Err,
        tag == 16 && wire::read_records(payload, 99) is Some ==> (
            after matches Ok(m)
            && m@ =~= (RuleStatsView { rate_limit: Some(match before@.rate_limit {
                Some(had) => had + payload,
                None => payload,
            }), ..before@ })
        ),
        tag == 16 && wire::read_records(payload, 99) is None ==> after is Err,
        1 <= tag <= 4 || 6 <= tag <= 11 || 13 <= tag <= 15 ==> after is Err,
        tag > 16 ==> (after matches Ok(m) && m@ == before@),
{
    crate::proto::laws::lemma_one_more(
        RuleStatsView::empty(),
        a@,
        before@,
        RecordView { tag, value: wire::ValueView::Bytes(payload) },
        100,
    );
}

} // verus!

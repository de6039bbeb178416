//! Rules.

use vstd::prelude::*;

use super::{merge_nested, merge_raw, to_choice_number, to_flag_number, DecodeError};
use crate::proto::message::{
    merge_bytes, push_bytes, push_number, push_some_number, push_some_text, push_text, set_choice,
    set_flag, set_i32, set_some_text, set_text, set_u32, set_u64, to_bits, Message, MessageView,
};
use crate::proto::wire::{write_records, Record, RecordView, RECURSION_LIMIT};
use crate::proto::{message, wire};

verus! {

/// One target of a rule.
#[derive(Clone, Debug, PartialEq, Eq)]
pub struct Target {
    pub host: String,
    pub port: u32,
    /// The least number is tried first.
    pub priority: u32,
    /// The number of a [`super::ProxyProtocolVersion`].
    pub proxy_protocol: Option<i32>,
}

/// [`Target`] as a mathematical value.
#[verifier::ext_equal]
pub struct TargetView {
    pub host: Seq<char>,
    pub port: u32,
    pub priority: u32,
    pub proxy_protocol: Option<i32>,
}

impl View for Target {
    type V = TargetView;

    open spec fn view(&self) -> TargetView {
        TargetView {
            host: self.host@,
            port: self.port,
            priority: self.priority,
            proxy_protocol: self.proxy_protocol,
        }
    }
}

impl TargetView {
    /// Nothing is set.
    pub open spec fn empty() -> TargetView {
        TargetView {
            host: Seq::empty(),
            port: 0,
            priority: 0,
            proxy_protocol: None,
        }
    }

    /// The records of the fields that are set, in the order of their numbers.
    pub open spec fn records(self) -> Seq<RecordView> {
        message::opt_text(1, self.host)
            + message::opt_number(2, self.port as u64)
            + message::opt_number(3, self.priority as u64)
            + message::some_number(4, super::choice_number(self.proxy_protocol))
    }

    /// The bytes that the message is written as.
    pub open spec fn bytes(self) -> Seq<u8> {
        wire::records_bytes(self.records())
    }

    /// Nothing is too long to be written.
    pub open spec fn fits(self, depth: nat) -> bool {
        &&& wire::all_writable(self.records())
        &&& depth >= 1
    }
}

impl MessageView for TargetView {
    open spec fn merged(self, record: RecordView, depth: nat) -> Option<TargetView> {
        if record.tag == 1 {
            message::with(
                message::text_in(record.value),
                |t: Seq<char>| TargetView { host: t, ..self },
            )
        } else if record.tag == 2 {
            message::with(
                message::number_in(record.value),
                |n: u64| TargetView { port: message::low_u32(n), ..self },
            )
        } else if record.tag == 3 {
            message::with(
                message::number_in(record.value),
                |n: u64| TargetView { priority: message::low_u32(n), ..self },
            )
        } else if record.tag == 4 {
            message::with(
                message::number_in(record.value),
                |n: u64| TargetView { proxy_protocol: Some(message::low_i32(n)), ..self },
            )
        } else {
            Some(self)
        }
    }
}

impl Default for Target {
    fn default() -> (m: Target)
        ensures
            m@ =~= TargetView::empty(),
    {
        Target {
            host: String::new(),
            port: 0,
            priority: 0,
            proxy_protocol: None,
        }
    }
}

impl Message for Target {
    fn merge_field(&mut self, record: &Record, depth: u32) -> (ok: bool) {
        if record.tag == 1 {
            set_text(&mut self.host, &record.value)
        } else if record.tag == 2 {
            set_u32(&mut self.port, &record.value)
        } else if record.tag == 3 {
            set_u32(&mut self.priority, &record.value)
        } else if record.tag == 4 {
            set_choice(&mut self.proxy_protocol, &record.value)
        } else {
            true
        }
    }
}

impl Target {
    fn to_records(&self) -> (records: Vec<Record>)
        ensures
            wire::record_views(records@) =~= self@.records(),
            wire::all_writable(wire::record_views(records@)),
    {
        let mut records: Vec<Record> = Vec::new();
        push_text(&mut records, 1, &self.host);
        push_number(&mut records, 2, self.port as u64);
        push_number(&mut records, 3, self.priority as u64);
        push_some_number(&mut records, 4, to_choice_number(self.proxy_protocol));
        records
    }

    /// The bytes that the message is written as.
    pub fn encode_to_vec(&self) -> (bytes: Vec<u8>)
        ensures
            bytes@ == self@.bytes(),
            wire::all_writable(self@.records()),
    {
        write_records(&self.to_records())
    }

    /// The message that bytes stand for, if they do.
    pub fn decode(bytes: &[u8]) -> (message: Result<Target, DecodeError>)
        ensures
            match message::decoded(TargetView::empty(), bytes@, RECURSION_LIMIT as nat) {
                Some(view) => message matches Ok(m) && m@ == view,
                None => message is Err,
            },
    {
        let mut m = Target::default();
        if merge_bytes(&mut m, bytes, RECURSION_LIMIT) {
            Ok(m)
        } else {
            Err(DecodeError)
        }
    }
}

/// [`Target`] is read back as it was written.
pub proof fn law_target_reads_back(m: TargetView, depth: nat)
    requires
        m.fits(depth),
    ensures
        message::decoded(TargetView::empty(), m.bytes(), depth) == Some(m),
{
    wire::law_records_read_back(m.records(), depth);
    let s0 = TargetView::empty();
    let d0 = Seq::<RecordView>::empty();
    let s1 = TargetView { host: m.host, ..s0 };
    let d1 = d0 + message::opt_text(1, m.host);
    assert(message::merge_all(s0, d1, depth) == Some(s1)) by {
        assert(m.host.len() == 0 ==> s1 =~= s0);
        message::lemma_then_text(s0, d0, s0, 1, m.host, s1, depth);
    }
    let s2 = TargetView { port: m.port, ..s1 };
    let d2 = d1 + message::opt_number(2, m.port as u64);
    assert(message::merge_all(s0, d2, depth) == Some(s2)) by {
        message::lemma_then_number(s0, d1, s1, 2, m.port as u64, s2, depth);
    }
    let s3 = TargetView { priority: m.priority, ..s2 };
    let d3 = d2 + message::opt_number(3, m.priority as u64);
    assert(message::merge_all(s0, d3, depth) == Some(s3)) by {
        message::lemma_then_number(s0, d2, s2, 3, m.priority as u64, s3, depth);
    }
    let s4 = TargetView { proxy_protocol: m.proxy_protocol, ..s3 };
    let d4 = d3 + message::some_number(4, super::choice_number(m.proxy_protocol));
    assert(message::merge_all(s0, d4, depth) == Some(s4)) by {
        message::law_signed_numbers_read_back(0, m.proxy_protocol->0, 0);
        message::lemma_then_some_number(
            s0,
            d3,
            s3,
            4,
            super::choice_number(m.proxy_protocol),
            s4,
            depth,
        );
    }
    assert(d4 =~= m.records());
    assert(s4 =~= m);
}

/// A rule that a client is to serve.
#[derive(Clone, Debug, PartialEq, Eq)]
pub struct Rule {
    pub rule_id: u64,
    pub listen_port: u32,
    pub target_host: String,
    pub target_port: u32,
    /// The number of a [`super::Protocol`].
    pub protocol: i32,
    /// The last port; zero for a single one.
    pub listen_port_end: u32,
    pub target_port_end: u32,
    pub prefer_ipv6: Option<bool>,
    /// The targets, where there are several.
    pub targets: Vec<Target>,
    pub health_check_interval_secs: u32,
    pub sni_pattern: Option<String>,
    /// The limits, as they came.
    pub rate_limit: Option<Vec<u8>>,
    pub owner_id: Option<String>,
}

/// [`Rule`] as a mathematical value.
#[verifier::ext_equal]
pub struct RuleView {
    pub rule_id: u64,
    pub listen_port: u32,
    pub target_host: Seq<char>,
    pub target_port: u32,
    pub protocol: i32,
    pub listen_port_end: u32,
    pub target_port_end: u32,
    pub prefer_ipv6: Option<bool>,
    pub targets: Seq<TargetView>,
    pub health_check_interval_secs: u32,
    pub sni_pattern: Option<Seq<char>>,
    pub rate_limit: Option<Seq<u8>>,
    pub owner_id: Option<Seq<char>>,
}

impl View for Rule {
    type V = RuleView;

    open spec fn view(&self) -> RuleView {
        RuleView {
            rule_id: self.rule_id,
            listen_port: self.listen_port,
            target_host: self.target_host@,
            target_port: self.target_port,
            protocol: self.protocol,
            listen_port_end: self.listen_port_end,
            target_port_end: self.target_port_end,
            prefer_ipv6: self.prefer_ipv6,
            targets: self.targets@.map_values(|m: Target| m@),
            health_check_interval_secs: self.health_check_interval_secs,
            sni_pattern: message::text_view(self.sni_pattern),
            rate_limit: super::raw_view(self.rate_limit),
            owner_id: message::text_view(self.owner_id),
        }
    }
}

impl RuleView {
    /// Nothing is set.
    pub open spec fn empty() -> RuleView {
        RuleView {
            rule_id: 0,
            listen_port: 0,
            target_host: Seq::empty(),
            target_port: 0,
            protocol: 0,
            listen_port_end: 0,
            target_port_end: 0,
            prefer_ipv6: None,
            targets: Seq::empty(),
            health_check_interval_secs: 0,
            sni_pattern: None,
            rate_limit: None,
            owner_id: None,
        }
    }

    /// The records of the fields that are set, in the order of their numbers.
    pub open spec fn records(self) -> Seq<RecordView> {
        message::opt_number(1, self.rule_id)
            + message::opt_number(2, self.listen_port as u64)
            + message::opt_text(3, self.target_host)
            + message::opt_number(4, self.target_port as u64)
            + message::opt_number(5, message::bits_of(self.protocol as i64))
            + message::opt_number(6, self.listen_port_end as u64)
            + message::opt_number(7, self.target_port_end as u64)
            + message::some_number(8, super::flag_number(self.prefer_ipv6))
            + super::repeated(9, self.targets.map_values(|m: TargetView| m.bytes()))
            + message::opt_number(10, self.health_check_interval_secs as u64)
            + message::some_text(11, self.sni_pattern)
            + message::some_bytes(12, self.rate_limit)
            + message::some_text(13, self.owner_id)
    }

    /// The bytes that the message is written as.
    pub open spec fn bytes(self) -> Seq<u8> {
        wire::records_bytes(self.records())
    }

    /// Nothing is too long to be written, and what is kept as it came can be
    /// read.
    pub open spec fn fits(self, depth: nat) -> bool {
        &&& wire::all_writable(self.records())
        &&& forall|i: int|
            0 <= i < self.targets.len() ==> (#[trigger] self.targets[i]).fits((depth - 1) as nat)
        &&& self.rate_limit matches Some(raw) ==> wire::read_records(
            raw,
            (depth - 1) as nat,
        ) is Some
        &&& depth >= 2
    }
}

impl MessageView for RuleView {
    open spec fn merged(self, record: RecordView, depth: nat) -> Option<RuleView> {
        if record.tag == 1 {
            message::with(
                message::number_in(record.value),
                |n: u64| RuleView { rule_id: n, ..self },
            )
        } else if record.tag == 2 {
            message::with(
                message::number_in(record.value),
                |n: u64| RuleView { listen_port: message::low_u32(n), ..self },
            )
        } else if record.tag == 3 {
            message::with(
                message::text_in(record.value),
                |t: Seq<char>| RuleView { target_host: t, ..self },
            )
        } else if record.tag == 4 {
            message::with(
                message::number_in(record.value),
                |n: u64| RuleView { target_port: message::low_u32(n), ..self },
            )
        } else if record.tag == 5 {
            message::with(
                message::number_in(record.value),
                |n: u64| RuleView { protocol: message::low_i32(n), ..self },
            )
        } else if record.tag == 6 {
            message::with(
                message::number_in(record.value),
                |n: u64| RuleView { listen_port_end: message::low_u32(n), ..self },
            )
        } else if record.tag == 7 {
            message::with(
                message::number_in(record.value),
                |n: u64| RuleView { target_port_end: message::low_u32(n), ..self },
            )
        } else if record.tag == 8 {
            message::with(
                message::number_in(record.value),
                |n: u64| RuleView { prefer_ipv6: Some(n != 0), ..self },
            )
        } else if record.tag == 9 {
            message::with(
                super::nested(TargetView::empty(), record.value, depth),
                |m: TargetView| RuleView { targets: self.targets.push(m), ..self },
            )
        } else if record.tag == 10 {
            message::with(
                message::number_in(record.value),
                |n: u64| RuleView { health_check_interval_secs: message::low_u32(n), ..self },
            )
        } else if record.tag == 11 {
            message::with(
                message::text_in(record.value),
                |t: Seq<char>| RuleView { sni_pattern: Some(t), ..self },
            )
        } else if record.tag == 12 {
            message::with(
                super::merged_raw(self.rate_limit, record.value, depth),
                |raw: Seq<u8>| RuleView { rate_limit: Some(raw), ..self },
            )
        } else if record.tag == 13 {
            message::with(
                message::text_in(record.value),
                |t: Seq<char>| RuleView { owner_id: Some(t), ..self },
            )
        } else {
            Some(self)
        }
    }
}

impl Default for Rule {
    fn default() -> (m: Rule)
        ensures
            m@ =~= RuleView::empty(),
    {
        Rule {
            rule_id: 0,
            listen_port: 0,
            target_host: String::new(),
            target_port: 0,
            protocol: 0,
            listen_port_end: 0,
            target_port_end: 0,
            prefer_ipv6: None,
            targets: Vec::new(),
            health_check_interval_secs: 0,
            sni_pattern: None,
            rate_limit: None,
            owner_id: None,
        }
    }
}

impl Message for Rule {
    fn merge_field(&mut self, record: &Record, depth: u32) -> (ok: bool) {
        if record.tag == 1 {
            set_u64(&mut self.rule_id, &record.value)
        } else if record.tag == 2 {
            set_u32(&mut self.listen_port, &record.value)
        } else if record.tag == 3 {
            set_text(&mut self.target_host, &record.value)
        } else if record.tag == 4 {
            set_u32(&mut self.target_port, &record.value)
        } else if record.tag == 5 {
            set_i32(&mut self.protocol, &record.value)
        } else if record.tag == 6 {
            set_u32(&mut self.listen_port_end, &record.value)
        } else if record.tag == 7 {
            set_u32(&mut self.target_port_end, &record.value)
        } else if record.tag == 8 {
            set_flag(&mut self.prefer_ipv6, &record.value)
        } else if record.tag == 9 {
            let ghost before = self@;
            let mut m = Target::default();
            let ok = merge_nested(&mut m, &record.value, depth);
            if ok {
                self.targets.push(m);
                assert(self@.targets =~= before.targets.push(m@));
            }
            ok
        } else if record.tag == 10 {
            set_u32(&mut self.health_check_interval_secs, &record.value)
        } else if record.tag == 11 {
            set_some_text(&mut self.sni_pattern, &record.value)
        } else if record.tag == 12 {
            merge_raw(&mut self.rate_limit, &record.value, depth)
        } else if record.tag == 13 {
            set_some_text(&mut self.owner_id, &record.value)
        } else {
            true
        }
    }
}

impl Rule {
    fn push_targets(&self, records: &mut Vec<Record>)
        requires
            wire::all_writable(wire::record_views(old(records)@)),
        ensures
            wire::record_views(final(records)@) =~= wire::record_views(old(records)@)
                + super::repeated(9, self@.targets.map_values(|m: TargetView| m.bytes())),
            wire::all_writable(wire::record_views(final(records)@)),
    {
        let ghost before = wire::record_views(records@);
        let ghost all = super::repeated(9, self@.targets.map_values(|m: TargetView| m.bytes()));
        let mut i: usize = 0;
        while i < self.targets.len()
            invariant
                i <= self.targets@.len(),
                all == super::repeated(9, self@.targets.map_values(|m: TargetView| m.bytes())),
                wire::record_views(records@) =~= before + all.take(i as int),
                wire::all_writable(wire::record_views(records@)),
            decreases self.targets@.len() - i,
        {
            push_bytes(records, 9, self.targets[i].encode_to_vec());
            i = i + 1;
            assert(all.take(i as int) =~= all.take(i - 1).push(all[i - 1]));
        }
        assert(all.take(i as int) =~= all);
    }

    fn to_records(&self) -> (records: Vec<Record>)
        ensures
            wire::record_views(records@) =~= self@.records(),
            wire::all_writable(wire::record_views(records@)),
    {
        let mut records: Vec<Record> = Vec::new();
        push_number(&mut records, 1, self.rule_id);
        push_number(&mut records, 2, self.listen_port as u64);
        push_text(&mut records, 3, &self.target_host);
        push_number(&mut records, 4, self.target_port as u64);
        push_number(&mut records, 5, to_bits(self.protocol as i64));
        push_number(&mut records, 6, self.listen_port_end as u64);
        push_number(&mut records, 7, self.target_port_end as u64);
        push_some_number(&mut records, 8, to_flag_number(self.prefer_ipv6));
        self.push_targets(&mut records);
        push_number(&mut records, 10, self.health_check_interval_secs as u64);
        push_some_text(&mut records, 11, &self.sni_pattern);
        if let Some(raw) = &self.rate_limit {
            push_bytes(&mut records, 12, raw.clone());
        }
        push_some_text(&mut records, 13, &self.owner_id);
        records
    }

    /// The bytes that the message is written as.
    pub fn encode_to_vec(&self) -> (bytes: Vec<u8>)
        ensures
            bytes@ == self@.bytes(),
            wire::all_writable(self@.records()),
    {
        write_records(&self.to_records())
    }

    /// The message that bytes stand for, if they do.
    pub fn decode(bytes: &[u8]) -> (message: Result<Rule, DecodeError>)
        ensures
            match message::decoded(RuleView::empty(), bytes@, RECURSION_LIMIT as nat) {
                Some(view) => message matches Ok(m) && m@ == view,
                None => message is Err,
            },
    {
        let mut m = Rule::default();
        if merge_bytes(&mut m, bytes, RECURSION_LIMIT) {
            Ok(m)
        } else {
            Err(DecodeError)
        }
    }
}

proof fn lemma_rule_targets(base: RuleView, items: Seq<TargetView>, depth: nat)
    requires
        depth >= 2,
        forall|i: int| 0 <= i < items.len() ==> (#[trigger] items[i]).fits((depth - 1) as nat),
    ensures
        message::merge_all(
            base,
            super::repeated(9, items.map_values(|m: TargetView| m.bytes())),
            depth,
        ) == Some(RuleView { targets: base.targets + items, ..base }),
    decreases items.len(),
{
    let records = super::repeated(9, items.map_values(|m: TargetView| m.bytes()));
    if items.len() == 0 {
        assert(base.targets + items =~= base.targets);
    } else {
        law_target_reads_back(items[0], (depth - 1) as nat);
        let next = RuleView { targets: base.targets.push(items[0]), ..base };
        assert(base.merged(records[0], depth) == Some(next));
        assert(records.skip(1) =~= super::repeated(
            9,
            items.skip(1).map_values(|m: TargetView| m.bytes()),
        ));
        assert forall|i: int| 0 <= i < items.skip(1).len() implies (
        #[trigger] items.skip(1)[i]).fits((depth - 1) as nat) by {
            assert(items.skip(1)[i] == items[i + 1]);
        }
        lemma_rule_targets(next, items.skip(1), depth);
        assert(next.targets + items.skip(1) =~= base.targets + items);
    }
}

/// [`Rule`] is read back as it was written.
pub proof fn law_rule_reads_back(m: RuleView, depth: nat)
    requires
        m.fits(depth),
    ensures
        message::decoded(RuleView::empty(), m.bytes(), depth) == Some(m),
{
    wire::law_records_read_back(m.records(), depth);
    let s0 = RuleView::empty();
    let d0 = Seq::<RecordView>::empty();
    let s1 = RuleView { rule_id: m.rule_id, ..s0 };
    let d1 = d0 + message::opt_number(1, m.rule_id);
    assert(message::merge_all(s0, d1, depth) == Some(s1)) by {
        message::lemma_then_number(s0, d0, s0, 1, m.rule_id, s1, depth);
    }
    let s2 = RuleView { listen_port: m.listen_port, ..s1 };
    let d2 = d1 + message::opt_number(2, m.listen_port as u64);
    assert(message::merge_all(s0, d2, depth) == Some(s2)) by {
        message::lemma_then_number(s0, d1, s1, 2, m.listen_port as u64, s2, depth);
    }
    let s3 = RuleView { target_host: m.target_host, ..s2 };
    let d3 = d2 + message::opt_text(3, m.target_host);
    assert(message::merge_all(s0, d3, depth) == Some(s3)) by {
        assert(m.target_host.len() == 0 ==> s3 =~= s2);
        message::lemma_then_text(s0, d2, s2, 3, m.target_host, s3, depth);
    }
    let s4 = RuleView { target_port: m.target_port, ..s3 };
    let d4 = d3 + message::opt_number(4, m.target_port as u64);
    assert(message::merge_all(s0, d4, depth) == Some(s4)) by {
        message::lemma_then_number(s0, d3, s3, 4, m.target_port as u64, s4, depth);
    }
    let s5 = RuleView { protocol: m.protocol, ..s4 };
    let d5 = d4 + message::opt_number(5, message::bits_of(m.protocol as i64));
    assert(message::merge_all(s0, d5, depth) == Some(s5)) by {
        message::law_signed_numbers_read_back(0, m.protocol, 0);
        message::lemma_then_number(s0, d4, s4, 5, message::bits_of(m.protocol as i64), s5, depth);
    }
    let s6 = RuleView { listen_port_end: m.listen_port_end, ..s5 };
    let d6 = d5 + message::opt_number(6, m.listen_port_end as u64);
    assert(message::merge_all(s0, d6, depth) == Some(s6)) by {
        message::lemma_then_number(s0, d5, s5, 6, m.listen_port_end as u64, s6, depth);
    }
    let s7 = RuleView { target_port_end: m.target_port_end, ..s6 };
    let d7 = d6 + message::opt_number(7, m.target_port_end as u64);
    assert(message::merge_all(s0, d7, depth) == Some(s7)) by {
        message::lemma_then_number(s0, d6, s6, 7, m.target_port_end as u64, s7, depth);
    }
    let s8 = RuleView { prefer_ipv6: m.prefer_ipv6, ..s7 };
    let d8 = d7 + message::some_number(8, super::flag_number(m.prefer_ipv6));
    assert(message::merge_all(s0, d8, depth) == Some(s8)) by {
        message::lemma_then_some_number(
            s0,
            d7,
            s7,
            8,
            super::flag_number(m.prefer_ipv6),
            s8,
            depth,
        );
    }
    let s9 = RuleView { targets: m.targets, ..s8 };
    let d9 = d8 + super::repeated(9, m.targets.map_values(|m: TargetView| m.bytes()));
    assert(message::merge_all(s0, d9, depth) == Some(s9)) by {
        lemma_rule_targets(s8, m.targets, depth);
        message::lemma_merge_concat(
            s0,
            d8,
            super::repeated(9, m.targets.map_values(|m: TargetView| m.bytes())),
            depth,
        );
        assert(s8.targets + m.targets =~= m.targets);
    }
    let s10 = RuleView { health_check_interval_secs: m.health_check_interval_secs, ..s9 };
    let d10 = d9 + message::opt_number(10, m.health_check_interval_secs as u64);
    assert(message::merge_all(s0, d10, depth) == Some(s10)) by {
        message::lemma_then_number(s0, d9, s9, 10, m.health_check_interval_secs as u64, s10, depth);
    }
    let s11 = RuleView { sni_pattern: m.sni_pattern, ..s10 };
    let d11 = d10 + message::some_text(11, m.sni_pattern);
    assert(message::merge_all(s0, d11, depth) == Some(s11)) by {
        message::lemma_then_some_text(s0, d10, s10, 11, m.sni_pattern, s11, depth);
    }
    let s12 = RuleView { rate_limit: m.rate_limit, ..s11 };
    let d12 = d11 + message::some_bytes(12, m.rate_limit);
    assert(message::merge_all(s0, d12, depth) == Some(s12)) by {
        message::lemma_then_some_bytes(s0, d11, s11, 12, m.rate_limit, s12, depth);
    }
    let s13 = RuleView { owner_id: m.owner_id, ..s12 };
    let d13 = d12 + message::some_text(13, m.owner_id);
    assert(message::merge_all(s0, d13, depth) == Some(s13)) by {
        message::lemma_then_some_text(s0, d12, s12, 13, m.owner_id, s13, depth);
    }
    assert(d13 =~= m.records());
    assert(s13 =~= m);
}

/// What was added to rules later leaves no trace in a rule that does not use it:
/// a record with the number of such a field is there only if the field is set.
pub proof fn law_unset_rule_fields_are_not_written(m: RuleView, i: int)
    requires
        0 <= i < m.records().len(),
    ensures
        ({
            let tag = m.records()[i].tag;
            &&& 1 <= tag <= 13
            &&& tag == 3 ==> m.target_host.len() > 0
            &&& tag == 4 ==> m.target_port != 0
            &&& tag == 6 ==> m.listen_port_end != 0
            &&& tag == 7 ==> m.target_port_end != 0
            &&& tag == 8 ==> m.prefer_ipv6 is Some
            &&& tag == 9 ==> m.targets.len() > 0
            &&& tag == 10 ==> m.health_check_interval_secs != 0
            &&& tag == 11 ==> m.sni_pattern is Some
            &&& tag == 12 ==> m.rate_limit is Some
            &&& tag == 13 ==> m.owner_id is Some
        }),
{
}

/// What will be added to rules later does no harm: a record with a number that
/// no field has yet changes nothing.
pub proof fn law_rules_pass_over_new_fields(m: RuleView, record: RecordView, depth: nat)
    requires
        record.tag > 13,
    ensures
        m.merged(record, depth) == Some(m),
{
}

/// [`Target`] is written field by field, in the order of their numbers, each one under
/// its own, and nothing is written of one that is not set.
pub proof fn law_target_is_written_field_by_field(m: Target, bytes: Vec<u8>)
    requires
        call_ensures(Target::encode_to_vec, (&m,), bytes),
    ensures
        bytes@ == crate::proto::laws::unless_empty(1, m.host@)
            + crate::proto::laws::unless_zero(2, m.port as u64)
            + crate::proto::laws::unless_zero(3, m.priority as u64)
            + crate::proto::laws::if_number(4, match m.proxy_protocol {
                Some(n) => Some(crate::proto::laws::in_64_bits(n as int)),
                None => None,
            }),
{
    crate::proto::laws::lemma_bytes_text(1, m@.host);
    crate::proto::laws::lemma_bytes_number(2, m@.port as u64);
    let r1 = message::opt_text(1, m@.host);
    crate::proto::laws::lemma_bytes_concat(r1, message::opt_number(2, m@.port as u64));
    crate::proto::laws::lemma_bytes_number(3, m@.priority as u64);
    let r2 = r1 + message::opt_number(2, m@.port as u64);
    crate::proto::laws::lemma_bytes_concat(r2, message::opt_number(3, m@.priority as u64));
    crate::proto::laws::lemma_bytes_some_number(4, super::choice_number(m@.proxy_protocol));
    let r3 = r2 + message::opt_number(3, m@.priority as u64);
    crate::proto::laws::lemma_bytes_concat(
        r3,
        message::some_number(4, super::choice_number(m@.proxy_protocol)),
    );
    assert(m@.records() =~= r3 + message::some_number(4, super::choice_number(m@.proxy_protocol)));
}

/// [`Target`] is read as it was written, field by field, and with nothing set where
/// nothing was written.
pub proof fn law_a_written_target_is_read(
    m: Target,
    bytes: Vec<u8>,
    sent: &[u8],
    read: Result<Target, DecodeError>,
    nothing: &[u8],
    fresh: Result<Target, DecodeError>,
)
    requires
        call_ensures(Target::encode_to_vec, (&m,), bytes),
        sent@ == bytes@,
        call_ensures(Target::decode, (sent,), read),
        nothing@.len() == 0,
        call_ensures(Target::decode, (nothing,), fresh),
    ensures
        read is Ok,
        read->Ok_0.host@ == m.host@,
        read->Ok_0.port == m.port,
        read->Ok_0.priority == m.priority,
        read->Ok_0.proxy_protocol == m.proxy_protocol,
        fresh is Ok,
        fresh->Ok_0.host@.len() == 0,
        fresh->Ok_0.port == 0,
        fresh->Ok_0.priority == 0,
        fresh->Ok_0.proxy_protocol is None,
{
    law_target_reads_back(m@, 100);
    let got = read->Ok_0;
    assert(got@ == m@);
    assert(wire::read_records(nothing@, 100) == Some(Seq::<RecordView>::empty()));
    assert(fresh->Ok_0@ == TargetView::empty());
}

/// One more number at the end of a [`Target`] sets the field with its number and no
/// other. A field that takes no such value makes the bytes unreadable; a number that no
/// field has changes nothing.
pub proof fn law_target_takes_one_more_number(
    a: &[u8],
    before: Target,
    tag: u32,
    n: u64,
    b: &[u8],
    after: Result<Target, DecodeError>,
)
    requires
        call_ensures(Target::decode, (a,), Ok(before)),
        1 <= tag <= 0x1fff_ffff,
        b@ == a@ + crate::proto::laws::number_field(tag, n),
        call_ensures(Target::decode, (b,), after),
    ensures
        tag == 2 ==> (
            after matches Ok(m)
            && m@ =~= (TargetView { port: (n % 0x1_0000_0000) as u32, ..before@ })
        ),
        tag == 3 ==> (
            after matches Ok(m)
            && m@ =~= (TargetView { priority: (n % 0x1_0000_0000) as u32, ..before@ })
        ),
        tag == 4 ==> (
            after matches Ok(m)
            && m@ =~= (TargetView { proxy_protocol: m@.proxy_protocol, ..before@ })
            && m.proxy_protocol is Some
            && (m.proxy_protocol->0 - n) % 0x1_0000_0000 == 0
        ),
        tag == 1 ==> after is Err,
        tag > 4 ==> (after matches Ok(m) && m@ == before@),
{
    crate::proto::laws::lemma_one_more(
        TargetView::empty(),
        a@,
        before@,
        RecordView { tag, value: wire::ValueView::Varint(n) },
        100,
    );
}

/// One more run of bytes at the end of a [`Target`] sets the field with its number and
/// no other. A field that takes no such value makes the bytes unreadable; a number that
/// no field has changes nothing.
pub proof fn law_target_takes_one_more_text(
    a: &[u8],
    before: Target,
    tag: u32,
    payload: Seq<u8>,
    b: &[u8],
    after: Result<Target, DecodeError>,
)
    requires
        call_ensures(Target::decode, (a,), Ok(before)),
        1 <= tag <= 0x1fff_ffff,
        payload.len() <= u64::MAX,
        b@ == a@ + crate::proto::laws::bytes_field(tag, payload),
        call_ensures(Target::decode, (b,), after),
    ensures
        tag == 1 && vstd::utf8::valid_utf8(payload) ==> (
            after matches Ok(m)
            && m@ =~= (TargetView { host: vstd::utf8::decode_utf8(payload), ..before@ })
        ),
        tag == 1 && !vstd::utf8::valid_utf8(payload) ==> after is Err,
        tag == 2 || tag == 3 || tag == 4 ==> after is Err,
        tag > 4 ==> (after matches Ok(m) && m@ == before@),
{
    crate::proto::laws::lemma_one_more(
        TargetView::empty(),
        a@,
        before@,
        RecordView { tag, value: wire::ValueView::Bytes(payload) },
        100,
    );
}

/// [`Rule`] is written field by field, in the order of their numbers, each one under its
/// own, and nothing is written of one that is not set.
pub proof fn law_rule_is_written_field_by_field(m: Rule, bytes: Vec<u8>)
    requires
        call_ensures(Rule::encode_to_vec, (&m,), bytes),
    ensures
        bytes@ == crate::proto::laws::unless_zero(1, m.rule_id)
            + crate::proto::laws::unless_zero(2, m.listen_port as u64)
            + crate::proto::laws::unless_empty(3, m.target_host@)
            + crate::proto::laws::unless_zero(4, m.target_port as u64)
            + crate::proto::laws::unless_zero(5, crate::proto::laws::in_64_bits(m.protocol as int))
            + crate::proto::laws::unless_zero(6, m.listen_port_end as u64)
            + crate::proto::laws::unless_zero(7, m.target_port_end as u64)
            + crate::proto::laws::if_number(8, match m.prefer_ipv6 {
                Some(true) => Some(1),
                Some(false) => Some(0),
                None => None,
            })
            + crate::proto::laws::each_of(9, m.targets@.map_values(|inner: Target| inner@.bytes()))
            + crate::proto::laws::unless_zero(10, m.health_check_interval_secs as u64)
            + crate::proto::laws::if_text(11, m.sni_pattern)
            + crate::proto::laws::if_bytes(12, match m.rate_limit {
                Some(raw) => Some(raw@),
                None => None,
            })
            + crate::proto::laws::if_text(13, m.owner_id),
{
    crate::proto::laws::lemma_bytes_number(1, m@.rule_id);
    crate::proto::laws::lemma_bytes_number(2, m@.listen_port as u64);
    let r1 = message::opt_number(1, m@.rule_id);
    crate::proto::laws::lemma_bytes_concat(r1, message::opt_number(2, m@.listen_port as u64));
    crate::proto::laws::lemma_bytes_text(3, m@.target_host);
    let r2 = r1 + message::opt_number(2, m@.listen_port as u64);
    crate::proto::laws::lemma_bytes_concat(r2, message::opt_text(3, m@.target_host));
    crate::proto::laws::lemma_bytes_number(4, m@.target_port as u64);
    let r3 = r2 + message::opt_text(3, m@.target_host);
    crate::proto::laws::lemma_bytes_concat(r3, message::opt_number(4, m@.target_port as u64));
    crate::proto::laws::lemma_bytes_number(5, message::bits_of(m@.protocol as i64));
    let r4 = r3 + message::opt_number(4, m@.target_port as u64);
    crate::proto::laws::lemma_bytes_concat(
        r4,
        message::opt_number(5, message::bits_of(m@.protocol as i64)),
    );
    crate::proto::laws::lemma_bytes_number(6, m@.listen_port_end as u64);
    let r5 = r4 + message::opt_number(5, message::bits_of(m@.protocol as i64));
    crate::proto::laws::lemma_bytes_concat(r5, message::opt_number(6, m@.listen_port_end as u64));
    crate::proto::laws::lemma_bytes_number(7, m@.target_port_end as u64);
    let r6 = r5 + message::opt_number(6, m@.listen_port_end as u64);
    crate::proto::laws::lemma_bytes_concat(r6, message::opt_number(7, m@.target_port_end as u64));
    crate::proto::laws::lemma_bytes_some_number(8, super::flag_number(m@.prefer_ipv6));
    let r7 = r6 + message::opt_number(7, m@.target_port_end as u64);
    crate::proto::laws::lemma_bytes_concat(
        r7,
        message::some_number(8, super::flag_number(m@.prefer_ipv6)),
    );
    assert(m@.targets.map_values(|m: TargetView| m.bytes())
        =~= m.targets@.map_values(|inner: Target| inner@.bytes()));
    crate::proto::laws::lemma_bytes_repeated(9, m@.targets.map_values(|m: TargetView| m.bytes()));
    let r8 = r7 + message::some_number(8, super::flag_number(m@.prefer_ipv6));
    crate::proto::laws::lemma_bytes_concat(
        r8,
        super::repeated(9, m@.targets.map_values(|m: TargetView| m.bytes())),
    );
    crate::proto::laws::lemma_bytes_number(10, m@.health_check_interval_secs as u64);
    let r9 = r8 + super::repeated(9, m@.targets.map_values(|m: TargetView| m.bytes()));
    crate::proto::laws::lemma_bytes_concat(
        r9,
        message::opt_number(10, m@.health_check_interval_secs as u64),
    );
    crate::proto::laws::lemma_bytes_some_text(11, m.sni_pattern);
    let r10 = r9 + message::opt_number(10, m@.health_check_interval_secs as u64);
    crate::proto::laws::lemma_bytes_concat(r10, message::some_text(11, m@.sni_pattern));
    crate::proto::laws::lemma_bytes_some_bytes(12, m@.rate_limit);
    let r11 = r10 + message::some_text(11, m@.sni_pattern);
    crate::proto::laws::lemma_bytes_concat(r11, message::some_bytes(12, m@.rate_limit));
    crate::proto::laws::lemma_bytes_some_text(13, m.owner_id);
    let r12 = r11 + message::some_bytes(12, m@.rate_limit);
    crate::proto::laws::lemma_bytes_concat(r12, message::some_text(13, m@.owner_id));
    assert(m@.records() =~= r12 + message::some_text(13, m@.owner_id));
}

/// [`Rule`] is read as it was written, field by field, and with nothing set where nothing
/// was written.
pub proof fn law_a_written_rule_is_read(
    m: Rule,
    bytes: Vec<u8>,
    sent: &[u8],
    parts_of_targets: Seq<Vec<u8>>,
    read: Result<Rule, DecodeError>,
    nothing: &[u8],
    fresh: Result<Rule, DecodeError>,
)
    requires
        call_ensures(Rule::encode_to_vec, (&m,), bytes),
        sent@ == bytes@,
        parts_of_targets.len() == m.targets@.len(),
        forall|i: int| 0 <= i < m.targets@.len() ==>
            call_ensures(Target::encode_to_vec, (&m.targets@[i],), #[trigger] parts_of_targets[i]),
        m.rate_limit matches Some(raw) ==> wire::read_records(raw@, 99) is Some,
        call_ensures(Rule::decode, (sent,), read),
        nothing@.len() == 0,
        call_ensures(Rule::decode, (nothing,), fresh),
    ensures
        read is Ok,
        read->Ok_0.rule_id == m.rule_id,
        read->Ok_0.listen_port == m.listen_port,
        read->Ok_0.target_host@ == m.target_host@,
        read->Ok_0.target_port == m.target_port,
        read->Ok_0.protocol == m.protocol,
        read->Ok_0.listen_port_end == m.listen_port_end,
        read->Ok_0.target_port_end == m.target_port_end,
        read->Ok_0.prefer_ipv6 == m.prefer_ipv6,
        read->Ok_0.targets@.map_values(|inner: Target| inner@)
            == m.targets@.map_values(|inner: Target| inner@),
        read->Ok_0.health_check_interval_secs == m.health_check_interval_secs,
        message::text_view(read->Ok_0.sni_pattern) == message::text_view(m.sni_pattern),
        super::raw_view(read->Ok_0.rate_limit) == super::raw_view(m.rate_limit),
        message::text_view(read->Ok_0.owner_id) == message::text_view(m.owner_id),
        fresh is Ok,
        fresh->Ok_0.rule_id == 0,
        fresh->Ok_0.listen_port == 0,
        fresh->Ok_0.target_host@.len() == 0,
        fresh->Ok_0.target_port == 0,
        fresh->Ok_0.protocol == 0,
        fresh->Ok_0.listen_port_end == 0,
        fresh->Ok_0.target_port_end == 0,
        fresh->Ok_0.prefer_ipv6 is None,
        fresh->Ok_0.targets@.len() == 0,
        fresh->Ok_0.health_check_interval_secs == 0,
        fresh->Ok_0.sni_pattern is None,
        fresh->Ok_0.rate_limit is None,
        fresh->Ok_0.owner_id is None,
{
    assert forall|i: int| 0 <= i < m@.targets.len() implies (#[trigger] m@.targets[i]).fits(99) by {
        let part = parts_of_targets[i];
        assert(call_ensures(Target::encode_to_vec, (&m.targets@[i],), part));
    }
    law_rule_reads_back(m@, 100);
    let got = read->Ok_0;
    assert(got@ == m@);
    assert(got@.targets =~= got.targets@.map_values(|inner: Target| inner@));
    assert(m@.targets =~= m.targets@.map_values(|inner: Target| inner@));
    assert(wire::read_records(nothing@, 100) == Some(Seq::<RecordView>::empty()));
    assert(fresh->Ok_0@ == RuleView::empty());
    assert(fresh->Ok_0@.targets.len() == fresh->Ok_0.targets@.len());
}

/// One more number at the end of a [`Rule`] sets the field with its number and no
/// other. A field that takes no such value makes the bytes unreadable; a number that no
/// field has changes nothing.
pub proof fn law_rule_takes_one_more_number(
    a: &[u8],
    before: Rule,
    tag: u32,
    n: u64,
    b: &[u8],
    after: Result<Rule, DecodeError>,
)
    requires
        call_ensures(Rule::decode, (a,), Ok(before)),
        1 <= tag <= 0x1fff_ffff,
        b@ == a@ + crate::proto::laws::number_field(tag, n),
        call_ensures(Rule::decode, (b,), after),
    ensures
        tag == 1 ==> (after matches Ok(m) && m@ =~= (RuleView { rule_id: n, ..before@ })),
        tag == 2 ==> (
            after matches Ok(m)
            && m@ =~= (RuleView { listen_port: (n % 0x1_0000_0000) as u32, ..before@ })
        ),
        tag == 4 ==> (
            after matches Ok(m)
            && m@ =~= (RuleView { target_port: (n % 0x1_0000_0000) as u32, ..before@ })
        ),
        tag == 5 ==> (
            after matches Ok(m)
            && m@ =~= (RuleView { protocol: m@.protocol, ..before@ })
            && (m.protocol - n) % 0x1_0000_0000 == 0
        ),
        tag == 6 ==> (
            after matches Ok(m)
            && m@ =~= (RuleView { listen_port_end: (n % 0x1_0000_0000) as u32, ..before@ })
        ),
        tag == 7 ==> (
            after matches Ok(m)
            && m@ =~= (RuleView { target_port_end: (n % 0x1_0000_0000) as u32, ..before@ })
        ),
        tag == 8 ==> (
            after matches Ok(m)
            && m@ =~= (RuleView { prefer_ipv6: Some(n > 0), ..before@ })
        ),
        tag == 10 ==> (
            after matches Ok(m)
            && m@
                =~= (RuleView { health_check_interval_secs: (n % 0x1_0000_0000) as u32, ..before@ })
        ),
        tag == 3 || tag == 9 || tag == 11 || tag == 12 || tag == 13 ==> after is Err,
        tag > 13 ==> (after matches Ok(m) && m@ == before@),
{
    crate::proto::laws::lemma_one_more(
        RuleView::empty(),
        a@,
        before@,
        RecordView { tag, value: wire::ValueView::Varint(n) },
        100,
    );
}

/// One more run of bytes at the end of a [`Rule`] sets the field with its number and no
/// other. A field that takes no such value makes the bytes unreadable; a number that no
/// field has changes nothing.
pub proof fn law_rule_takes_one_more_text(
    a: &[u8],
    before: Rule,
    tag: u32,
    payload: Seq<u8>,
    b: &[u8],
    after: Result<Rule, DecodeError>,
)
    requires
        call_ensures(Rule::decode, (a,), Ok(before)),
        1 <= tag <= 0x1fff_ffff,
        payload.len() <= u64::MAX,
        b@ == a@ + crate::proto::laws::bytes_field(tag, payload),
        call_ensures(Rule::decode, (b,), after),
    ensures
        tag == 3 && vstd::utf8::valid_utf8(payload) ==> (
            after matches Ok(m)
            && m@ =~= (RuleView { target_host: vstd::utf8::decode_utf8(payload), ..before@ })
        ),
        tag == 3 && !vstd::utf8::valid_utf8(payload) ==> after is Err,
        tag == 9 && message::decoded(TargetView::empty(), payload, 99) is Some ==> (
            after matches Ok(m)
            && m@
                =~= (RuleView {
                    targets: before@.targets.push(
                        message::decoded(TargetView::empty(), payload, 99)->0,
                    ),
                    ..before@
                })
        ),
        tag == 9 && message::decoded(TargetView::empty(), payload, 99) is None ==> after is Err,
        tag == 11 && vstd::utf8::valid_utf8(payload) ==> (
            after matches Ok(m)
            && m@ =~= (RuleView { sni_pattern: Some(vstd::utf8::decode_utf8(payload)), ..before@ })
        ),
        tag == 11 && !vstd::utf8::valid_utf8(payload) ==> after is Err,
        tag == 12 && wire::read_records(payload, 99) is Some ==> (
            after matches Ok(m)
            && m@ =~= (RuleView { rate_limit: Some(match before@.rate_limit {
                Some(had) => had + payload,
                None => payload,
            }), ..before@ })
        ),
        tag == 12 && wire::read_records(payload, 99) is None ==> after is Err,
        tag == 13 && vstd::utf8::valid_utf8(payload) ==> (
            after matches Ok(m)
            && m@ =~= (RuleView { owner_id: Some(vstd::utf8::decode_utf8(payload)), ..before@ })
        ),
        tag == 13 && !vstd::utf8::valid_utf8(payload) ==> after is Err,
        1 <= tag <= 2 || 4 <= tag <= 8 || tag == 10 ==> after is Err,
        tag > 13 ==> (after matches Ok(m) && m@ == before@),
{
    crate::proto::laws::lemma_one_more(
        RuleView::empty(),
        a@,
        before@,
        RecordView { tag, value: wire::ValueView::Bytes(payload) },
        100,
    );
}

} // verus!

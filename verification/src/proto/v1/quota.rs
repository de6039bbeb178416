//! Traffic quotas.

use vstd::prelude::*;

use super::{merge_nested, to_bool_number, DecodeError};
use crate::proto::message::{
    merge_bytes, push_bytes, push_number, push_text, set_bool, set_i32, set_i64, set_text,
    to_bits, Message, MessageView,
};
use crate::proto::wire::{write_records, Record, RecordView, RECURSION_LIMIT};
use crate::proto::{message, wire};

verus! {

/// What is left of a quota.
#[derive(Clone, Debug, PartialEq, Eq)]
pub struct TrafficQuotaState {
    pub monthly_bytes: i64,
    pub budget_remaining_bytes: i64,
    pub period_started_at_unix_sec: i64,
    pub period_ends_at_unix_sec: i64,
    pub exhausted: bool,
}

/// [`TrafficQuotaState`] as a mathematical value.
#[verifier::ext_equal]
pub struct TrafficQuotaStateView {
    pub monthly_bytes: i64,
    pub budget_remaining_bytes: i64,
    pub period_started_at_unix_sec: i64,
    pub period_ends_at_unix_sec: i64,
    pub exhausted: bool,
}

impl View for TrafficQuotaState {
    type V = TrafficQuotaStateView;

    open spec fn view(&self) -> TrafficQuotaStateView {
        TrafficQuotaStateView {
            monthly_bytes: self.monthly_bytes,
            budget_remaining_bytes: self.budget_remaining_bytes,
            period_started_at_unix_sec: self.period_started_at_unix_sec,
            period_ends_at_unix_sec: self.period_ends_at_unix_sec,
            exhausted: self.exhausted,
        }
    }
}

impl TrafficQuotaStateView {
    /// Nothing is set.
    pub open spec fn empty() -> TrafficQuotaStateView {
        TrafficQuotaStateView {
            monthly_bytes: 0,
            budget_remaining_bytes: 0,
            period_started_at_unix_sec: 0,
            period_ends_at_unix_sec: 0,
            exhausted: false,
        }
    }

    /// The records of the fields that are set, in the order of their numbers.
    pub open spec fn records(self) -> Seq<RecordView> {
        message::opt_number(1, message::bits_of(self.monthly_bytes))
            + message::opt_number(2, message::bits_of(self.budget_remaining_bytes))
            + message::opt_number(3, message::bits_of(self.period_started_at_unix_sec))
            + message::opt_number(4, message::bits_of(self.period_ends_at_unix_sec))
            + message::opt_number(5, super::bool_number(self.exhausted))
    }

    /// The bytes that the message is written as.
    pub open spec fn bytes(self) -> Seq<u8> {
        wire::records_bytes(self.records())
    }

    /// Nothing is too long to be written.
    pub open spec fn fits(self, depth: nat) -> bool {
        &&& wire::all_writable(self.records())
        &&& depth >= 1
    }
}

impl MessageView for TrafficQuotaStateView {
    open spec fn merged(self, record: RecordView, depth: nat) -> Option<TrafficQuotaStateView> {
        if record.tag == 1 {
            message::with(
                message::number_in(record.value),
                |n: u64| TrafficQuotaStateView { monthly_bytes: message::signed(n), ..self },
            )
        } else if record.tag == 2 {
            message::with(
                message::number_in(record.value),
                |n: u64| TrafficQuotaStateView { budget_remaining_bytes: message::signed(
                    n,
                ), ..self },
            )
        } else if record.tag == 3 {
            message::with(
                message::number_in(record.value),
                |n: u64| TrafficQuotaStateView { period_started_at_unix_sec: message::signed(
                    n,
                ), ..self },
            )
        } else if record.tag == 4 {
            message::with(
                message::number_in(record.value),
                |n: u64| TrafficQuotaStateView { period_ends_at_unix_sec: message::signed(
                    n,
                ), ..self },
            )
        } else if record.tag == 5 {
            message::with(
                message::number_in(record.value),
                |n: u64| TrafficQuotaStateView { exhausted: n != 0, ..self },
            )
        } else {
            Some(self)
        }
    }
}

impl Default for TrafficQuotaState {
    fn default() -> (m: TrafficQuotaState)
        ensures
            m@ =~= TrafficQuotaStateView::empty(),
    {
        TrafficQuotaState {
            monthly_bytes: 0,
            budget_remaining_bytes: 0,
            period_started_at_unix_sec: 0,
            period_ends_at_unix_sec: 0,
            exhausted: false,
        }
    }
}

impl Message for TrafficQuotaState {
    fn merge_field(&mut self, record: &Record, depth: u32) -> (ok: bool) {
        if record.tag == 1 {
            set_i64(&mut self.monthly_bytes, &record.value)
        } else if record.tag == 2 {
            set_i64(&mut self.budget_remaining_bytes, &record.value)
        } else if record.tag == 3 {
            set_i64(&mut self.period_started_at_unix_sec, &record.value)
        } else if record.tag == 4 {
            set_i64(&mut self.period_ends_at_unix_sec, &record.value)
        } else if record.tag == 5 {
            set_bool(&mut self.exhausted, &record.value)
        } else {
            true
        }
    }
}

impl TrafficQuotaState {
    fn to_records(&self) -> (records: Vec<Record>)
        ensures
            wire::record_views(records@) =~= self@.records(),
            wire::all_writable(wire::record_views(records@)),
    {
        let mut records: Vec<Record> = Vec::new();
        push_number(&mut records, 1, to_bits(self.monthly_bytes));
        push_number(&mut records, 2, to_bits(self.budget_remaining_bytes));
        push_number(&mut records, 3, to_bits(self.period_started_at_unix_sec));
        push_number(&mut records, 4, to_bits(self.period_ends_at_unix_sec));
        push_number(&mut records, 5, to_bool_number(self.exhausted));
        records
    }

    /// The bytes that the message is written as.
    pub fn encode_to_vec(&self) -> (bytes: Vec<u8>)
        ensures
            bytes@ == self@.bytes(),
            wire::all_writable(self@.records()),
    {
        write_records(&self.to_records())
    }

    /// The message that bytes stand for, if they do.
    pub fn decode(bytes: &[u8]) -> (message: Result<TrafficQuotaState, DecodeError>)
        ensures
            match message::decoded(TrafficQuotaStateView::empty(), bytes@, RECURSION_LIMIT as nat) {
                Some(view) => message matches Ok(m) && m@ == view,
                None => message is Err,
            },
    {
        let mut m = TrafficQuotaState::default();
        if merge_bytes(&mut m, bytes, RECURSION_LIMIT) {
            Ok(m)
        } else {
            Err(DecodeError)
        }
    }
}

/// [`TrafficQuotaState`] is read back as it was written.
pub proof fn law_traffic_quota_state_reads_back(m: TrafficQuotaStateView, depth: nat)
    requires
        m.fits(depth),
    ensures
        message::decoded(TrafficQuotaStateView::empty(), m.bytes(), depth) == Some(m),
{
    wire::law_records_read_back(m.records(), depth);
    let s0 = TrafficQuotaStateView::empty();
    let d0 = Seq::<RecordView>::empty();
    let s1 = TrafficQuotaStateView { monthly_bytes: m.monthly_bytes, ..s0 };
    let d1 = d0 + message::opt_number(1, message::bits_of(m.monthly_bytes));
    assert(message::merge_all(s0, d1, depth) == Some(s1)) by {
        message::law_signed_numbers_read_back(m.monthly_bytes, 0, 0);
        message::lemma_then_number(s0, d0, s0, 1, message::bits_of(m.monthly_bytes), s1, depth);
    }
    let s2 = TrafficQuotaStateView { budget_remaining_bytes: m.budget_remaining_bytes, ..s1 };
    let d2 = d1 + message::opt_number(2, message::bits_of(m.budget_remaining_bytes));
    assert(message::merge_all(s0, d2, depth) == Some(s2)) by {
        message::law_signed_numbers_read_back(m.budget_remaining_bytes, 0, 0);
        message::lemma_then_number(
            s0,
            d1,
            s1,
            2,
            message::bits_of(m.budget_remaining_bytes),
            s2,
            depth,
        );
    }
    let s3 = TrafficQuotaStateView { period_started_at_unix_sec: m.period_started_at_unix_sec, ..s2 };
    let d3 = d2 + message::opt_number(3, message::bits_of(m.period_started_at_unix_sec));
    assert(message::merge_all(s0, d3, depth) == Some(s3)) by {
        message::law_signed_numbers_read_back(m.period_started_at_unix_sec, 0, 0);
        message::lemma_then_number(
            s0,
            d2,
            s2,
            3,
            message::bits_of(m.period_started_at_unix_sec),
            s3,
            depth,
        );
    }
    let s4 = TrafficQuotaStateView { period_ends_at_unix_sec: m.period_ends_at_unix_sec, ..s3 };
    let d4 = d3 + message::opt_number(4, message::bits_of(m.period_ends_at_unix_sec));
    assert(message::merge_all(s0, d4, depth) == Some(s4)) by {
        message::law_signed_numbers_read_back(m.period_ends_at_unix_sec, 0, 0);
        message::lemma_then_number(
            s0,
            d3,
            s3,
            4,
            message::bits_of(m.period_ends_at_unix_sec),
            s4,
            depth,
        );
    }
    let s5 = TrafficQuotaStateView { exhausted: m.exhausted, ..s4 };
    let d5 = d4 + message::opt_number(5, super::bool_number(m.exhausted));
    assert(message::merge_all(s0, d5, depth) == Some(s5)) by {
        message::lemma_then_number(s0, d4, s4, 5, super::bool_number(m.exhausted), s5, depth);
    }
    assert(d5 =~= m.records());
    assert(s5 =~= m);
}

/// A quota was set or taken away.
#[derive(Clone, Debug, PartialEq, Eq)]
pub struct TrafficQuotaUpdate {
    pub request_id: String,
    pub user_id: String,
    pub client_name: String,
    /// The number of a [`super::TrafficQuotaAction`].
    pub action: i32,
    pub state: Option<TrafficQuotaState>,
}

/// [`TrafficQuotaUpdate`] as a mathematical value.
#[verifier::ext_equal]
pub struct TrafficQuotaUpdateView {
    pub request_id: Seq<char>,
    pub user_id: Seq<char>,
    pub client_name: Seq<char>,
    pub action: i32,
    pub state: Option<TrafficQuotaStateView>,
}

impl View for TrafficQuotaUpdate {
    type V = TrafficQuotaUpdateView;

    open spec fn view(&self) -> TrafficQuotaUpdateView {
        TrafficQuotaUpdateView {
            request_id: self.request_id@,
            user_id: self.user_id@,
            client_name: self.client_name@,
            action: self.action,
            state: match self.state {
                Some(m) => Some(m@),
                None => None,
            },
        }
    }
}

impl TrafficQuotaUpdateView {
    /// Nothing is set.
    pub open spec fn empty() -> TrafficQuotaUpdateView {
        TrafficQuotaUpdateView {
            request_id: Seq::empty(),
            user_id: Seq::empty(),
            client_name: Seq::empty(),
            action: 0,
            state: None,
        }
    }

    pub open spec fn state_bytes(self) -> Option<Seq<u8>> {
        match self.state {
            Some(m) => Some(m.bytes()),
            None => None,
        }
    }

    /// The records of the fields that are set, in the order of their numbers.
    pub open spec fn records(self) -> Seq<RecordView> {
        message::opt_text(1, self.request_id)
            + message::opt_text(2, self.user_id)
            + message::opt_text(3, self.client_name)
            + message::opt_number(4, message::bits_of(self.action as i64))
            + message::some_bytes(5, self.state_bytes())
    }

    /// The bytes that the message is written as.
    pub open spec fn bytes(self) -> Seq<u8> {
        wire::records_bytes(self.records())
    }

    /// Nothing is too long to be written.
    pub open spec fn fits(self, depth: nat) -> bool {
        &&& wire::all_writable(self.records())
        &&& self.state matches Some(m) ==> m.fits((depth - 1) as nat)
        &&& depth >= 2
    }
}

impl MessageView for TrafficQuotaUpdateView {
    open spec fn merged(self, record: RecordView, depth: nat) -> Option<TrafficQuotaUpdateView> {
        if record.tag == 1 {
            message::with(
                message::text_in(record.value),
                |t: Seq<char>| TrafficQuotaUpdateView { request_id: t, ..self },
            )
        } else if record.tag == 2 {
            message::with(
                message::text_in(record.value),
                |t: Seq<char>| TrafficQuotaUpdateView { user_id: t, ..self },
            )
        } else if record.tag == 3 {
            message::with(
                message::text_in(record.value),
                |t: Seq<char>| TrafficQuotaUpdateView { client_name: t, ..self },
            )
        } else if record.tag == 4 {
            message::with(
                message::number_in(record.value),
                |n: u64| TrafficQuotaUpdateView { action: message::low_i32(n), ..self },
            )
        } else if record.tag == 5 {
            let base = match self.state {
                Some(m) => m,
                None => TrafficQuotaStateView::empty(),
            };
            message::with(
                super::nested(base, record.value, depth),
                |m: TrafficQuotaStateView| TrafficQuotaUpdateView { state: Some(m), ..self },
            )
        } else {
            Some(self)
        }
    }
}

impl Default for TrafficQuotaUpdate {
    fn default() -> (m: TrafficQuotaUpdate)
        ensures
            m@ =~= TrafficQuotaUpdateView::empty(),
    {
        TrafficQuotaUpdate {
            request_id: String::new(),
            user_id: String::new(),
            client_name: String::new(),
            action: 0,
            state: None,
        }
    }
}

impl Message for TrafficQuotaUpdate {
    fn merge_field(&mut self, record: &Record, depth: u32) -> (ok: bool) {
        if record.tag == 1 {
            set_text(&mut self.request_id, &record.value)
        } else if record.tag == 2 {
            set_text(&mut self.user_id, &record.value)
        } else if record.tag == 3 {
            set_text(&mut self.client_name, &record.value)
        } else if record.tag == 4 {
            set_i32(&mut self.action, &record.value)
        } else if record.tag == 5 {
            let mut m = match self.state.take() {
                Some(m) => m,
                None => TrafficQuotaState::default(),
            };
            let ok = merge_nested(&mut m, &record.value, depth);
            self.state = Some(m);
            ok
        } else {
            true
        }
    }
}

impl TrafficQuotaUpdate {
    fn to_records(&self) -> (records: Vec<Record>)
        ensures
            wire::record_views(records@) =~= self@.records(),
            wire::all_writable(wire::record_views(records@)),
    {
        let mut records: Vec<Record> = Vec::new();
        push_text(&mut records, 1, &self.request_id);
        push_text(&mut records, 2, &self.user_id);
        push_text(&mut records, 3, &self.client_name);
        push_number(&mut records, 4, to_bits(self.action as i64));
        if let Some(m) = &self.state {
            push_bytes(&mut records, 5, m.encode_to_vec());
        }
        records
    }

    /// The bytes that the message is written as.
    pub fn encode_to_vec(&self) -> (bytes: Vec<u8>)
        ensures
            bytes@ == self@.bytes(),
            wire::all_writable(self@.records()),
    {
        write_records(&self.to_records())
    }

    /// The message that bytes stand for, if they do.
    pub fn decode(bytes: &[u8]) -> (message: Result<TrafficQuotaUpdate, DecodeError>)
        ensures
            match message::decoded(
                TrafficQuotaUpdateView::empty(),
                bytes@,
                RECURSION_LIMIT as nat,
            ) {
                Some(view) => message matches Ok(m) && m@ == view,
                None => message is Err,
            },
    {
        let mut m = TrafficQuotaUpdate::default();
        if merge_bytes(&mut m, bytes, RECURSION_LIMIT) {
            Ok(m)
        } else {
            Err(DecodeError)
        }
    }
}

/// [`TrafficQuotaUpdate`] is read back as it was written.
pub proof fn law_traffic_quota_update_reads_back(m: TrafficQuotaUpdateView, depth: nat)
    requires
        m.fits(depth),
    ensures
        message::decoded(TrafficQuotaUpdateView::empty(), m.bytes(), depth) == Some(m),
{
    wire::law_records_read_back(m.records(), depth);
    let s0 = TrafficQuotaUpdateView::empty();
    let d0 = Seq::<RecordView>::empty();
    let s1 = TrafficQuotaUpdateView { request_id: m.request_id, ..s0 };
    let d1 = d0 + message::opt_text(1, m.request_id);
    assert(message::merge_all(s0, d1, depth) == Some(s1)) by {
        assert(m.request_id.len() == 0 ==> s1 =~= s0);
        message::lemma_then_text(s0, d0, s0, 1, m.request_id, s1, depth);
    }
    let s2 = TrafficQuotaUpdateView { user_id: m.user_id, ..s1 };
    let d2 = d1 + message::opt_text(2, m.user_id);
    assert(message::merge_all(s0, d2, depth) == Some(s2)) by {
        assert(m.user_id.len() == 0 ==> s2 =~= s1);
        message::lemma_then_text(s0, d1, s1, 2, m.user_id, s2, depth);
    }
    let s3 = TrafficQuotaUpdateView { client_name: m.client_name, ..s2 };
    let d3 = d2 + message::opt_text(3, m.client_name);
    assert(message::merge_all(s0, d3, depth) == Some(s3)) by {
        assert(m.client_name.len() == 0 ==> s3 =~= s2);
        message::lemma_then_text(s0, d2, s2, 3, m.client_name, s3, depth);
    }
    let s4 = TrafficQuotaUpdateView { action: m.action, ..s3 };
    let d4 = d3 + message::opt_number(4, message::bits_of(m.action as i64));
    assert(message::merge_all(s0, d4, depth) == Some(s4)) by {
        message::law_signed_numbers_read_back(0, m.action, 0);
        message::lemma_then_number(s0, d3, s3, 4, message::bits_of(m.action as i64), s4, depth);
    }
    let s5 = TrafficQuotaUpdateView { state: m.state, ..s4 };
    let d5 = d4 + message::some_bytes(5, m.state_bytes());
    assert(message::merge_all(s0, d5, depth) == Some(s5)) by {
        if let Some(inner) = m.state {
            law_traffic_quota_state_reads_back(inner, (depth - 1) as nat);
        }
        message::lemma_then_some_bytes(s0, d4, s4, 5, m.state_bytes(), s5, depth);
    }
    assert(d5 =~= m.records());
    assert(s5 =~= m);
}

/// [`TrafficQuotaState`] is written field by field, in the order of their numbers, each
/// one under its own, and nothing is written of one that is not set.
pub proof fn law_traffic_quota_state_is_written_field_by_field(m: TrafficQuotaState, bytes: Vec<u8>)
    requires
        call_ensures(TrafficQuotaState::encode_to_vec, (&m,), bytes),
    ensures
        bytes@ == crate::proto::laws::unless_zero(
            1,
            crate::proto::laws::in_64_bits(m.monthly_bytes as int),
        )
            + crate::proto::laws::unless_zero(
                2,
                crate::proto::laws::in_64_bits(m.budget_remaining_bytes as int),
            )
            + crate::proto::laws::unless_zero(
                3,
                crate::proto::laws::in_64_bits(m.period_started_at_unix_sec as int),
            )
            + crate::proto::laws::unless_zero(
                4,
                crate::proto::laws::in_64_bits(m.period_ends_at_unix_sec as int),
            )
            + crate::proto::laws::unless_zero(5, if m.exhausted { 1 } else { 0 }),
{
    crate::proto::laws::lemma_bytes_number(1, message::bits_of(m@.monthly_bytes));
    crate::proto::laws::lemma_bytes_number(2, message::bits_of(m@.budget_remaining_bytes));
    let r1 = message::opt_number(1, message::bits_of(m@.monthly_bytes));
    crate::proto::laws::lemma_bytes_concat(
        r1,
        message::opt_number(2, message::bits_of(m@.budget_remaining_bytes)),
    );
    crate::proto::laws::lemma_bytes_number(3, message::bits_of(m@.period_started_at_unix_sec));
    let r2 = r1 + message::opt_number(2, message::bits_of(m@.budget_remaining_bytes));
    crate::proto::laws::lemma_bytes_concat(
        r2,
        message::opt_number(3, message::bits_of(m@.period_started_at_unix_sec)),
    );
    crate::proto::laws::lemma_bytes_number(4, message::bits_of(m@.period_ends_at_unix_sec));
    let r3 = r2 + message::opt_number(3, message::bits_of(m@.period_started_at_unix_sec));
    crate::proto::laws::lemma_bytes_concat(
        r3,
        message::opt_number(4, message::bits_of(m@.period_ends_at_unix_sec)),
    );
    crate::proto::laws::lemma_bytes_number(5, super::bool_number(m@.exhausted));
    let r4 = r3 + message::opt_number(4, message::bits_of(m@.period_ends_at_unix_sec));
    crate::proto::laws::lemma_bytes_concat(
        r4,
        message::opt_number(5, super::bool_number(m@.exhausted)),
    );
    assert(m@.records() =~= r4 + message::opt_number(5, super::bool_number(m@.exhausted)));
}

/// [`TrafficQuotaState`] is read as it was written, field by field, and with nothing
/// set where nothing was written.
pub proof fn law_a_written_traffic_quota_state_is_read(
    m: TrafficQuotaState,
    bytes: Vec<u8>,
    sent: &[u8],
    read: Result<TrafficQuotaState, DecodeError>,
    nothing: &[u8],
    fresh: Result<TrafficQuotaState, DecodeError>,
)
    requires
        call_ensures(TrafficQuotaState::encode_to_vec, (&m,), bytes),
        sent@ == bytes@,
        call_ensures(TrafficQuotaState::decode, (sent,), read),
        nothing@.len() == 0,
        call_ensures(TrafficQuotaState::decode, (nothing,), fresh),
    ensures
        read is Ok,
        read->Ok_0.monthly_bytes == m.monthly_bytes,
        read->Ok_0.budget_remaining_bytes == m.budget_remaining_bytes,
        read->Ok_0.period_started_at_unix_sec == m.period_started_at_unix_sec,
        read->Ok_0.period_ends_at_unix_sec == m.period_ends_at_unix_sec,
        read->Ok_0.exhausted == m.exhausted,
        fresh is Ok,
        fresh->Ok_0.monthly_bytes == 0,
        fresh->Ok_0.budget_remaining_bytes == 0,
        fresh->Ok_0.period_started_at_unix_sec == 0,
        fresh->Ok_0.period_ends_at_unix_sec == 0,
        !fresh->Ok_0.exhausted,
{
    law_traffic_quota_state_reads_back(m@, 100);
    let got = read->Ok_0;
    assert(got@ == m@);
    assert(wire::read_records(nothing@, 100) == Some(Seq::<RecordView>::empty()));
    assert(fresh->Ok_0@ == TrafficQuotaStateView::empty());
}

/// One more number at the end of a [`TrafficQuotaState`] sets the field with its number
/// and no other. A field that takes no such value makes the bytes unreadable; a number
/// that no field has changes nothing.
pub proof fn law_traffic_quota_state_takes_one_more_number(
    a: &[u8],
    before: TrafficQuotaState,
    tag: u32,
    n: u64,
    b: &[u8],
    after: Result<TrafficQuotaState, DecodeError>,
)
    requires
        call_ensures(TrafficQuotaState::decode, (a,), Ok(before)),
        1 <= tag <= 0x1fff_ffff,
        b@ == a@ + crate::proto::laws::number_field(tag, n),
        call_ensures(TrafficQuotaState::decode, (b,), after),
    ensures
        tag == 1 ==> (
            after matches Ok(m)
            && m@ =~= (TrafficQuotaStateView { monthly_bytes: m@.monthly_bytes, ..before@ })
            && (m.monthly_bytes - n) % 0x1_0000_0000_0000_0000 == 0
        ),
        tag == 2 ==> (
            after matches Ok(m)
            && m@
                =~= (TrafficQuotaStateView {
                    budget_remaining_bytes: m@.budget_remaining_bytes,
                    ..before@
                })
            && (m.budget_remaining_bytes - n) % 0x1_0000_0000_0000_0000 == 0
        ),
        tag == 3 ==> (
            after matches Ok(m)
            && m@
                =~= (TrafficQuotaStateView {
                    period_started_at_unix_sec: m@.period_started_at_unix_sec,
                    ..before@
                })
            && (m.period_started_at_unix_sec - n) % 0x1_0000_0000_0000_0000 == 0
        ),
        tag == 4 ==> (
            after matches Ok(m)
            && m@
                =~= (TrafficQuotaStateView {
                    period_ends_at_unix_sec: m@.period_ends_at_unix_sec,
                    ..before@
                })
            && (m.period_ends_at_unix_sec - n) % 0x1_0000_0000_0000_0000 == 0
        ),
        tag == 5 ==> (
            after matches Ok(m)
            && m@ =~= (TrafficQuotaStateView { exhausted: n > 0, ..before@ })
        ),
        tag > 5 ==> (after matches Ok(m) && m@ == before@),
{
    crate::proto::laws::lemma_one_more(
        TrafficQuotaStateView::empty(),
        a@,
        before@,
        RecordView { tag, value: wire::ValueView::Varint(n) },
        100,
    );
}

/// One more run of bytes at the end of a [`TrafficQuotaState`] sets the field with its
/// number and no other. A field that takes no such value makes the bytes unreadable; a
/// number that no field has changes nothing.
pub proof fn law_traffic_quota_state_takes_one_more_text(
    a: &[u8],
    before: TrafficQuotaState,
    tag: u32,
    payload: Seq<u8>,
    b: &[u8],
    after: Result<TrafficQuotaState, DecodeError>,
)
    requires
        call_ensures(TrafficQuotaState::decode, (a,), Ok(before)),
        1 <= tag <= 0x1fff_ffff,
        payload.len() <= u64::MAX,
        b@ == a@ + crate::proto::laws::bytes_field(tag, payload),
        call_ensures(TrafficQuotaState::decode, (b,), after),
    ensures
        tag == 1 || tag == 2 || tag == 3 || tag == 4 || tag == 5 ==> after is Err,
        tag > 5 ==> (after matches Ok(m) && m@ == before@),
{
    crate::proto::laws::lemma_one_more(
        TrafficQuotaStateView::empty(),
        a@,
        before@,
        RecordView { tag, value: wire::ValueView::Bytes(payload) },
        100,
    );
}

/// [`TrafficQuotaUpdate`] is written field by field, in the order of their numbers,
/// each one under its own, and nothing is written of one that is not set.
pub proof fn law_traffic_quota_update_is_written_field_by_field(
    m: TrafficQuotaUpdate,
    bytes: Vec<u8>,
)
    requires
        call_ensures(TrafficQuotaUpdate::encode_to_vec, (&m,), bytes),
    ensures
        bytes@ == crate::proto::laws::unless_empty(1, m.request_id@)
            + crate::proto::laws::unless_empty(2, m.user_id@)
            + crate::proto::laws::unless_empty(3, m.client_name@)
            + crate::proto::laws::unless_zero(4, crate::proto::laws::in_64_bits(m.action as int))
            + crate::proto::laws::if_bytes(5, match m.state {
                Some(inner) => Some(inner@.bytes()),
                None => None,
            }),
{
    crate::proto::laws::lemma_bytes_text(1, m@.request_id);
    crate::proto::laws::lemma_bytes_text(2, m@.user_id);
    let r1 = message::opt_text(1, m@.request_id);
    crate::proto::laws::lemma_bytes_concat(r1, message::opt_text(2, m@.user_id));
    crate::proto::laws::lemma_bytes_text(3, m@.client_name);
    let r2 = r1 + message::opt_text(2, m@.user_id);
    crate::proto::laws::lemma_bytes_concat(r2, message::opt_text(3, m@.client_name));
    crate::proto::laws::lemma_bytes_number(4, message::bits_of(m@.action as i64));
    let r3 = r2 + message::opt_text(3, m@.client_name);
    crate::proto::laws::lemma_bytes_concat(
        r3,
        message::opt_number(4, message::bits_of(m@.action as i64)),
    );
    crate::proto::laws::lemma_bytes_some_bytes(5, m@.state_bytes());
    let r4 = r3 + message::opt_number(4, message::bits_of(m@.action as i64));
    crate::proto::laws::lemma_bytes_concat(r4, message::some_bytes(5, m@.state_bytes()));
    assert(m@.records() =~= r4 + message::some_bytes(5, m@.state_bytes()));
}

/// [`TrafficQuotaUpdate`] is read as it was written, field by field, and with nothing
/// set where nothing was written.
pub proof fn law_a_written_traffic_quota_update_is_read(
    m: TrafficQuotaUpdate,
    bytes: Vec<u8>,
    sent: &[u8],
    part: Vec<u8>,
    read: Result<TrafficQuotaUpdate, DecodeError>,
    nothing: &[u8],
    fresh: Result<TrafficQuotaUpdate, DecodeError>,
)
    requires
        call_ensures(TrafficQuotaUpdate::encode_to_vec, (&m,), bytes),
        sent@ == bytes@,
        m.state matches Some(inner) ==>
            call_ensures(TrafficQuotaState::encode_to_vec, (&inner,), part),
        call_ensures(TrafficQuotaUpdate::decode, (sent,), read),
        nothing@.len() == 0,
        call_ensures(TrafficQuotaUpdate::decode, (nothing,), fresh),
    ensures
        read is Ok,
        read->Ok_0.request_id@ == m.request_id@,
        read->Ok_0.user_id@ == m.user_id@,
        read->Ok_0.client_name@ == m.client_name@,
        read->Ok_0.action == m.action,
        (read->Ok_0.state is Some) == (m.state is Some), m.state matches Some(inner) ==>
            (read->Ok_0.state)->0@ == inner@,
        fresh is Ok,
        fresh->Ok_0.request_id@.len() == 0,
        fresh->Ok_0.user_id@.len() == 0,
        fresh->Ok_0.client_name@.len() == 0,
        fresh->Ok_0.action == 0,
        fresh->Ok_0.state is None,
{
    law_traffic_quota_update_reads_back(m@, 100);
    let got = read->Ok_0;
    assert(got@ == m@);
    assert(wire::read_records(nothing@, 100) == Some(Seq::<RecordView>::empty()));
    assert(fresh->Ok_0@ == TrafficQuotaUpdateView::empty());
}

/// One more number at the end of a [`TrafficQuotaUpdate`] sets the field with its
/// number and no other. A field that takes no such value makes the bytes unreadable; a
/// number that no field has changes nothing.
pub proof fn law_traffic_quota_update_takes_one_more_number(
    a: &[u8],
    before: TrafficQuotaUpdate,
    tag: u32,
    n: u64,
    b: &[u8],
    after: Result<TrafficQuotaUpdate, DecodeError>,
)
    requires
        call_ensures(TrafficQuotaUpdate::decode, (a,), Ok(before)),
        1 <= tag <= 0x1fff_ffff,
        b@ == a@ + crate::proto::laws::number_field(tag, n),
        call_ensures(TrafficQuotaUpdate::decode, (b,), after),
    ensures
        tag == 4 ==> (
            after matches Ok(m)
            && m@ =~= (TrafficQuotaUpdateView { action: m@.action, ..before@ })
            && (m.action - n) % 0x1_0000_0000 == 0
        ),
        tag == 1 || tag == 2 || tag == 3 || tag == 5 ==> after is Err,
        tag > 5 ==> (after matches Ok(m) && m@ == before@),
{
    crate::proto::laws::lemma_one_more(
        TrafficQuotaUpdateView::empty(),
        a@,
        before@,
        RecordView { tag, value: wire::ValueView::Varint(n) },
        100,
    );
}

/// One more run of bytes at the end of a [`TrafficQuotaUpdate`] sets the field with its
/// number and no other. A field that takes no such value makes the bytes unreadable; a
/// number that no field has changes nothing.
pub proof fn law_traffic_quota_update_takes_one_more_text(
    a: &[u8],
    before: TrafficQuotaUpdate,
    tag: u32,
    payload: Seq<u8>,
    b: &[u8],
    after: Result<TrafficQuotaUpdate, DecodeError>,
)
    requires
        call_ensures(TrafficQuotaUpdate::decode, (a,), Ok(before)),
        1 <= tag <= 0x1fff_ffff,
        payload.len() <= u64::MAX,
        b@ == a@ + crate::proto::laws::bytes_field(tag, payload),
        call_ensures(TrafficQuotaUpdate::decode, (b,), after),
    ensures
        tag == 1 && vstd::utf8::valid_utf8(payload) ==> (
            after matches Ok(m)
            && m@
                =~= (TrafficQuotaUpdateView {
                    request_id: vstd::utf8::decode_utf8(payload),
                    ..before@
                })
        ),
        tag == 1 && !vstd::utf8::valid_utf8(payload) ==> after is Err,
        tag == 2 && vstd::utf8::valid_utf8(payload) ==> (
            after matches Ok(m)
            && m@
                =~= (TrafficQuotaUpdateView {
                    user_id: vstd::utf8::decode_utf8(payload),
                    ..before@
                })
        ),
        tag == 2 && !vstd::utf8::valid_utf8(payload) ==> after is Err,
        tag == 3 && vstd::utf8::valid_utf8(payload) ==> (
            after matches Ok(m)
            && m@
                =~= (TrafficQuotaUpdateView {
                    client_name: vstd::utf8::decode_utf8(payload),
                    ..before@
                })
        ),
        tag == 3 && !vstd::utf8::valid_utf8(payload) ==> after is Err,
        tag == 5 && message::decoded(match before@.state {
            Some(had) => had,
            None => TrafficQuotaStateView::empty(),
        }, payload, 99) is Some ==> (
            after matches Ok(m)
            && m@ =~= (TrafficQuotaUpdateView { state: Some(message::decoded(match before@.state {
                Some(had) => had,
                None => TrafficQuotaStateView::empty(),
            }, payload, 99)->0), ..before@ })
        ),
        tag == 5 && message::decoded(match before@.state {
            Some(had) => had,
            None => TrafficQuotaStateView::empty(),
        }, payload, 99) is None ==> after is Err,
        tag == 4 ==> after is Err,
        tag > 5 ==> (after matches Ok(m) && m@ == before@),
{
    crate::proto::laws::lemma_one_more(
        TrafficQuotaUpdateView::empty(),
        a@,
        before@,
        RecordView { tag, value: wire::ValueView::Bytes(payload) },
        100,
    );
}

} // verus!

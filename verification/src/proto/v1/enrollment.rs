//! How a client is enrolled.

use vstd::prelude::*;

use super::DecodeError;
use crate::proto::message::{
    merge_bytes, push_number, push_text, set_text, set_u32, Message, MessageView,
};
use crate::proto::wire::{write_records, Record, RecordView, RECURSION_LIMIT};
use crate::proto::{message, wire};

verus! {

/// A client asks to be enrolled.
#[derive(Clone, Debug, PartialEq, Eq)]
pub struct EnrollClientRequest {
    /// The code that it was given.
    pub code: String,
}

/// [`EnrollClientRequest`] as a mathematical value.
#[verifier::ext_equal]
pub struct EnrollClientRequestView {
    pub code: Seq<char>,
}

impl View for EnrollClientRequest {
    type V = EnrollClientRequestView;

    open spec fn view(&self) -> EnrollClientRequestView {
        EnrollClientRequestView {
            code: self.code@,
        }
    }
}

impl EnrollClientRequestView {
    /// Nothing is set.
    pub open spec fn empty() -> EnrollClientRequestView {
        EnrollClientRequestView {
            code: Seq::empty(),
        }
    }

    /// The records of the fields that are set, in the order of their numbers.
    pub open spec fn records(self) -> Seq<RecordView> {
        message::opt_text(1, self.code)
    }

    /// The bytes that the message is written as.
    pub open spec fn bytes(self) -> Seq<u8> {
        wire::records_bytes(self.records())
    }

    /// Nothing is too long to be written.
    pub open spec fn fits(self, depth: nat) -> bool {
        &&& wire::all_writable(self.records())
        &&& depth >= 1
    }
}

impl MessageView for EnrollClientRequestView {
    open spec fn merged(self, record: RecordView, depth: nat) -> Option<EnrollClientRequestView> {
        if record.tag == 1 {
            message::with(
                message::text_in(record.value),
                |t: Seq<char>| EnrollClientRequestView { code: t, ..self },
            )
        } else {
            Some(self)
        }
    }
}

impl Default for EnrollClientRequest {
    fn default() -> (m: EnrollClientRequest)
        ensures
            m@ =~= EnrollClientRequestView::empty(),
    {
        EnrollClientRequest {
            code: String::new(),
        }
    }
}

impl Message for EnrollClientRequest {
    fn merge_field(&mut self, record: &Record, depth: u32) -> (ok: bool) {
        if record.tag == 1 {
            set_text(&mut self.code, &record.value)
        } else {
            true
        }
    }
}

impl EnrollClientRequest {
    fn to_records(&self) -> (records: Vec<Record>)
        ensures
            wire::record_views(records@) =~= self@.records(),
            wire::all_writable(wire::record_views(records@)),
    {
        let mut records: Vec<Record> = Vec::new();
        push_text(&mut records, 1, &self.code);
        records
    }

    /// The bytes that the message is written as.
    pub fn encode_to_vec(&self) -> (bytes: Vec<u8>)
        ensures
            bytes@ == self@.bytes(),
            wire::all_writable(self@.records()),
    {
        write_records(&self.to_records())
    }

    /// The message that bytes stand for, if they do.
    pub fn decode(bytes: &[u8]) -> (message: Result<EnrollClientRequest, DecodeError>)
        ensures
            match message::decoded(
                EnrollClientRequestView::empty(),
                bytes@,
                RECURSION_LIMIT as nat,
            ) {
                Some(view) => message matches Ok(m) && m@ == view,
                None => message is Err,
            },
    {
        let mut m = EnrollClientRequest::default();
        if merge_bytes(&mut m, bytes, RECURSION_LIMIT) {
            Ok(m)
        } else {
            Err(DecodeError)
        }
    }
}

/// [`EnrollClientRequest`] is read back as it was written.
pub proof fn law_enroll_client_request_reads_back(m: EnrollClientRequestView, depth: nat)
    requires
        m.fits(depth),
    ensures
        message::decoded(EnrollClientRequestView::empty(), m.bytes(), depth) == Some(m),
{
    wire::law_records_read_back(m.records(), depth);
    let s0 = EnrollClientRequestView::empty();
    let d0 = Seq::<RecordView>::empty();
    let s1 = EnrollClientRequestView { code: m.code, ..s0 };
    let d1 = d0 + message::opt_text(1, m.code);
    assert(message::merge_all(s0, d1, depth) == Some(s1)) by {
        assert(m.code.len() == 0 ==> s1 =~= s0);
        message::lemma_then_text(s0, d0, s0, 1, m.code, s1, depth);
    }
    assert(d1 =~= m.records());
    assert(s1 =~= m);
}

/// What an enrolled client needs to connect.
#[derive(Clone, Debug, PartialEq, Eq)]
pub struct CredentialBundle {
    pub version: u32,
    pub client_name: String,
    pub server_endpoint: String,
    pub server_cert_sha256: String,
    pub server_cert_pem: String,
    pub token: String,
    pub client_id: String,
}

/// [`CredentialBundle`] as a mathematical value.
#[verifier::ext_equal]
pub struct CredentialBundleView {
    pub version: u32,
    pub client_name: Seq<char>,
    pub server_endpoint: Seq<char>,
    pub server_cert_sha256: Seq<char>,
    pub server_cert_pem: Seq<char>,
    pub token: Seq<char>,
    pub client_id: Seq<char>,
}

impl View for CredentialBundle {
    type V = CredentialBundleView;

    open spec fn view(&self) -> CredentialBundleView {
        CredentialBundleView {
            version: self.version,
            client_name: self.client_name@,
            server_endpoint: self.server_endpoint@,
            server_cert_sha256: self.server_cert_sha256@,
            server_cert_pem: self.server_cert_pem@,
            token: self.token@,
            client_id: self.client_id@,
        }
    }
}

impl CredentialBundleView {
    /// Nothing is set.
    pub open spec fn empty() -> CredentialBundleView {
        CredentialBundleView {
            version: 0,
            client_name: Seq::empty(),
            server_endpoint: Seq::empty(),
            server_cert_sha256: Seq::empty(),
            server_cert_pem: Seq::empty(),
            token: Seq::empty(),
            client_id: Seq::empty(),
        }
    }

    /// The records of the fields that are set, in the order of their numbers.
    pub open spec fn records(self) -> Seq<RecordView> {
        message::opt_number(1, self.version as u64)
            + message::opt_text(2, self.client_name)
            + message::opt_text(3, self.server_endpoint)
            + message::opt_text(4, self.server_cert_sha256)
            + message::opt_text(5, self.server_cert_pem)
            + message::opt_text(6, self.token)
            + message::opt_text(7, self.client_id)
    }

    /// The bytes that the message is written as.
    pub open spec fn bytes(self) -> Seq<u8> {
        wire::records_bytes(self.records())
    }

    /// Nothing is too long to be written.
    pub open spec fn fits(self, depth: nat) -> bool {
        &&& wire::all_writable(self.records())
        &&& depth >= 1
    }
}

impl MessageView for CredentialBundleView {
    open spec fn merged(self, record: RecordView, depth: nat) -> Option<CredentialBundleView> {
        if record.tag == 1 {
            message::with(
                message::number_in(record.value),
                |n: u64| CredentialBundleView { version: message::low_u32(n), ..self },
            )
        } else if record.tag == 2 {
            message::with(
                message::text_in(record.value),
                |t: Seq<char>| CredentialBundleView { client_name: t, ..self },
            )
        } else if record.tag == 3 {
            message::with(
                message::text_in(record.value),
                |t: Seq<char>| CredentialBundleView { server_endpoint: t, ..self },
            )
        } else if record.tag == 4 {
            message::with(
                message::text_in(record.value),
                |t: Seq<char>| CredentialBundleView { server_cert_sha256: t, ..self },
            )
        } else if record.tag == 5 {
            message::with(
                message::text_in(record.value),
                |t: Seq<char>| CredentialBundleView { server_cert_pem: t, ..self },
            )
        } else if record.tag == 6 {
            message::with(
                message::text_in(record.value),
                |t: Seq<char>| CredentialBundleView { token: t, ..self },
            )
        } else if record.tag == 7 {
            message::with(
                message::text_in(record.value),
                |t: Seq<char>| CredentialBundleView { client_id: t, ..self },
            )
        } else {
            Some(self)
        }
    }
}

impl Default for CredentialBundle {
    fn default() -> (m: CredentialBundle)
        ensures
            m@ =~= CredentialBundleView::empty(),
    {
        CredentialBundle {
            version: 0,
            client_name: String::new(),
            server_endpoint: String::new(),
            server_cert_sha256: String::new(),
            server_cert_pem: String::new(),
            token: String::new(),
            client_id: String::new(),
        }
    }
}

impl Message for CredentialBundle {
    fn merge_field(&mut self, record: &Record, depth: u32) -> (ok: bool) {
        if record.tag == 1 {
            set_u32(&mut self.version, &record.value)
        } else if record.tag == 2 {
            set_text(&mut self.client_name, &record.value)
        } else if record.tag == 3 {
            set_text(&mut self.server_endpoint, &record.value)
        } else if record.tag == 4 {
            set_text(&mut self.server_cert_sha256, &record.value)
        } else if record.tag == 5 {
            set_text(&mut self.server_cert_pem, &record.value)
        } else if record.tag == 6 {
            set_text(&mut self.token, &record.value)
        } else if record.tag == 7 {
            set_text(&mut self.client_id, &record.value)
        } else {
            true
        }
    }
}

impl CredentialBundle {
    fn to_records(&self) -> (records: Vec<Record>)
        ensures
            wire::record_views(records@) =~= self@.records(),
            wire::all_writable(wire::record_views(records@)),
    {
        let mut records: Vec<Record> = Vec::new();
        push_number(&mut records, 1, self.version as u64);
        push_text(&mut records, 2, &self.client_name);
        push_text(&mut records, 3, &self.server_endpoint);
        push_text(&mut records, 4, &self.server_cert_sha256);
        push_text(&mut records, 5, &self.server_cert_pem);
        push_text(&mut records, 6, &self.token);
        push_text(&mut records, 7, &self.client_id);
        records
    }

    /// The bytes that the message is written as.
    pub fn encode_to_vec(&self) -> (bytes: Vec<u8>)
        ensures
            bytes@ == self@.bytes(),
            wire::all_writable(self@.records()),
    {
        write_records(&self.to_records())
    }

    /// The message that bytes stand for, if they do.
    pub fn decode(bytes: &[u8]) -> (message: Result<CredentialBundle, DecodeError>)
        ensures
            match message::decoded(CredentialBundleView::empty(), bytes@, RECURSION_LIMIT as nat) {
                Some(view) => message matches Ok(m) && m@ == view,
                None => message is Err,
            },
    {
        let mut m = CredentialBundle::default();
        if merge_bytes(&mut m, bytes, RECURSION_LIMIT) {
            Ok(m)
        } else {
            Err(DecodeError)
        }
    }
}

/// [`CredentialBundle`] is read back as it was written.
pub proof fn law_credential_bundle_reads_back(m: CredentialBundleView, depth: nat)
    requires
        m.fits(depth),
    ensures
        message::decoded(CredentialBundleView::empty(), m.bytes(), depth) == Some(m),
{
    wire::law_records_read_back(m.records(), depth);
    let s0 = CredentialBundleView::empty();
    let d0 = Seq::<RecordView>::empty();
    let s1 = CredentialBundleView { version: m.version, ..s0 };
    let d1 = d0 + message::opt_number(1, m.version as u64);
    assert(message::merge_all(s0, d1, depth) == Some(s1)) by {
        message::lemma_then_number(s0, d0, s0, 1, m.version as u64, s1, depth);
    }
    let s2 = CredentialBundleView { client_name: m.client_name, ..s1 };
    let d2 = d1 + message::opt_text(2, m.client_name);
    assert(message::merge_all(s0, d2, depth) == Some(s2)) by {
        assert(m.client_name.len() == 0 ==> s2 =~= s1);
        message::lemma_then_text(s0, d1, s1, 2, m.client_name, s2, depth);
    }
    let s3 = CredentialBundleView { server_endpoint: m.server_endpoint, ..s2 };
    let d3 = d2 + message::opt_text(3, m.server_endpoint);
    assert(message::merge_all(s0, d3, depth) == Some(s3)) by {
        assert(m.server_endpoint.len() == 0 ==> s3 =~= s2);
        message::lemma_then_text(s0, d2, s2, 3, m.server_endpoint, s3, depth);
    }
    let s4 = CredentialBundleView { server_cert_sha256: m.server_cert_sha256, ..s3 };
    let d4 = d3 + message::opt_text(4, m.server_cert_sha256);
    assert(message::merge_all(s0, d4, depth) == Some(s4)) by {
        assert(m.server_cert_sha256.len() == 0 ==> s4 =~= s3);
        message::lemma_then_text(s0, d3, s3, 4, m.server_cert_sha256, s4, depth);
    }
    let s5 = CredentialBundleView { server_cert_pem: m.server_cert_pem, ..s4 };
    let d5 = d4 + message::opt_text(5, m.server_cert_pem);
    assert(message::merge_all(s0, d5, depth) == Some(s5)) by {
        assert(m.server_cert_pem.len() == 0 ==> s5 =~= s4);
        message::lemma_then_text(s0, d4, s4, 5, m.server_cert_pem, s5, depth);
    }
    let s6 = CredentialBundleView { token: m.token, ..s5 };
    let d6 = d5 + message::opt_text(6, m.token);
    assert(message::merge_all(s0, d6, depth) == Some(s6)) by {
        assert(m.token.len() == 0 ==> s6 =~= s5);
        message::lemma_then_text(s0, d5, s5, 6, m.token, s6, depth);
    }
    let s7 = CredentialBundleView { client_id: m.client_id, ..s6 };
    let d7 = d6 + message::opt_text(7, m.client_id);
    assert(message::merge_all(s0, d7, depth) == Some(s7)) by {
        assert(m.client_id.len() == 0 ==> s7 =~= s6);
        message::lemma_then_text(s0, d6, s6, 7, m.client_id, s7, depth);
    }
    assert(d7 =~= m.records());
    assert(s7 =~= m);
}

/// [`EnrollClientRequest`] is written field by field, in the order of their numbers,
/// each one under its own, and nothing is written of one that is not set.
pub proof fn law_enroll_client_request_is_written_field_by_field(
    m: EnrollClientRequest,
    bytes: Vec<u8>,
)
    requires
        call_ensures(EnrollClientRequest::encode_to_vec, (&m,), bytes),
    ensures
        bytes@ == crate::proto::laws::unless_empty(1, m.code@),
{
    crate::proto::laws::lemma_bytes_text(1, m@.code);
    assert(m@.records() =~= message::opt_text(1, m@.code));
}

/// [`EnrollClientRequest`] is read as it was written, field by field, and with nothing
/// set where nothing was written.
pub proof fn law_a_written_enroll_client_request_is_read(
    m: EnrollClientRequest,
    bytes: Vec<u8>,
    sent: &[u8],
    read: Result<EnrollClientRequest, DecodeError>,
    nothing: &[u8],
    fresh: Result<EnrollClientRequest, DecodeError>,
)
    requires
        call_ensures(EnrollClientRequest::encode_to_vec, (&m,), bytes),
        sent@ == bytes@,
        call_ensures(EnrollClientRequest::decode, (sent,), read),
        nothing@.len() == 0,
        call_ensures(EnrollClientRequest::decode, (nothing,), fresh),
    ensures
        read is Ok,
        read->Ok_0.code@ == m.code@,
        fresh is Ok,
        fresh->Ok_0.code@.len() == 0,
{
    law_enroll_client_request_reads_back(m@, 100);
    let got = read->Ok_0;
    assert(got@ == m@);
    assert(wire::read_records(nothing@, 100) == Some(Seq::<RecordView>::empty()));
    assert(fresh->Ok_0@ == EnrollClientRequestView::empty());
}

/// One more number at the end of a [`EnrollClientRequest`] sets the field with its
/// number and no other. A field that takes no such value makes the bytes unreadable; a
/// number that no field has changes nothing.
pub proof fn law_enroll_client_request_takes_one_more_number(
    a: &[u8],
    before: EnrollClientRequest,
    tag: u32,
    n: u64,
    b: &[u8],
    after: Result<EnrollClientRequest, DecodeError>,
)
    requires
        call_ensures(EnrollClientRequest::decode, (a,), Ok(before)),
        1 <= tag <= 0x1fff_ffff,
        b@ == a@ + crate::proto::laws::number_field(tag, n),
        call_ensures(EnrollClientRequest::decode, (b,), after),
    ensures
        tag == 1 ==> after is Err,
        tag > 1 ==> (after matches Ok(m) && m@ == before@),
{
    crate::proto::laws::lemma_one_more(
        EnrollClientRequestView::empty(),
        a@,
        before@,
        RecordView { tag, value: wire::ValueView::Varint(n) },
        100,
    );
}

/// One more run of bytes at the end of a [`EnrollClientRequest`] sets the field with
/// its number and no other. A field that takes no such value makes the bytes
/// unreadable; a number that no field has changes nothing.
pub proof fn law_enroll_client_request_takes_one_more_text(
    a: &[u8],
    before: EnrollClientRequest,
    tag: u32,
    payload: Seq<u8>,
    b: &[u8],
    after: Result<EnrollClientRequest, DecodeError>,
)
    requires
        call_ensures(EnrollClientRequest::decode, (a,), Ok(before)),
        1 <= tag <= 0x1fff_ffff,
        payload.len() <= u64::MAX,
        b@ == a@ + crate::proto::laws::bytes_field(tag, payload),
        call_ensures(EnrollClientRequest::decode, (b,), after),
    ensures
        tag == 1 && vstd::utf8::valid_utf8(payload) ==> (
            after matches Ok(m)
            && m@
                =~= (EnrollClientRequestView { code: vstd::utf8::decode_utf8(payload), ..before@ })
        ),
        tag == 1 && !vstd::utf8::valid_utf8(payload) ==> after is Err,
        tag > 1 ==> (after matches Ok(m) && m@ == before@),
{
    crate::proto::laws::lemma_one_more(
        EnrollClientRequestView::empty(),
        a@,
        before@,
        RecordView { tag, value: wire::ValueView::Bytes(payload) },
        100,
    );
}

/// [`CredentialBundle`] is written field by field, in the order of their numbers, each
/// one under its own, and nothing is written of one that is not set.
pub proof fn law_credential_bundle_is_written_field_by_field(m: CredentialBundle, bytes: Vec<u8>)
    requires
        call_ensures(CredentialBundle::encode_to_vec, (&m,), bytes),
    ensures
        bytes@ == crate::proto::laws::unless_zero(1, m.version as u64)
            + crate::proto::laws::unless_empty(2, m.client_name@)
            + crate::proto::laws::unless_empty(3, m.server_endpoint@)
            + crate::proto::laws::unless_empty(4, m.server_cert_sha256@)
            + crate::proto::laws::unless_empty(5, m.server_cert_pem@)
            + crate::proto::laws::unless_empty(6, m.token@)
            + crate::proto::laws::unless_empty(7, m.client_id@),
{
    crate::proto::laws::lemma_bytes_number(1, m@.version as u64);
    crate::proto::laws::lemma_bytes_text(2, m@.client_name);
    let r1 = message::opt_number(1, m@.version as u64);
    crate::proto::laws::lemma_bytes_concat(r1, message::opt_text(2, m@.client_name));
    crate::proto::laws::lemma_bytes_text(3, m@.server_endpoint);
    let r2 = r1 + message::opt_text(2, m@.client_name);
    crate::proto::laws::lemma_bytes_concat(r2, message::opt_text(3, m@.server_endpoint));
    crate::proto::laws::lemma_bytes_text(4, m@.server_cert_sha256);
    let r3 = r2 + message::opt_text(3, m@.server_endpoint);
    crate::proto::laws::lemma_bytes_concat(r3, message::opt_text(4, m@.server_cert_sha256));
    crate::proto::laws::lemma_bytes_text(5, m@.server_cert_pem);
    let r4 = r3 + message::opt_text(4, m@.server_cert_sha256);
    crate::proto::laws::lemma_bytes_concat(r4, message::opt_text(5, m@.server_cert_pem));
    crate::proto::laws::lemma_bytes_text(6, m@.token);
    let r5 = r4 + message::opt_text(5, m@.server_cert_pem);
    crate::proto::laws::lemma_bytes_concat(r5, message::opt_text(6, m@.token));
    crate::proto::laws::lemma_bytes_text(7, m@.client_id);
    let r6 = r5 + message::opt_text(6, m@.token);
    crate::proto::laws::lemma_bytes_concat(r6, message::opt_text(7, m@.client_id));
    assert(m@.records() =~= r6 + message::opt_text(7, m@.client_id));
}

/// [`CredentialBundle`] is read as it was written, field by field, and with nothing set
/// where nothing was written.
pub proof fn law_a_written_credential_bundle_is_read(
    m: CredentialBundle,
    bytes: Vec<u8>,
    sent: &[u8],
    read: Result<CredentialBundle, DecodeError>,
    nothing: &[u8],
    fresh: Result<CredentialBundle, DecodeError>,
)
    requires
        call_ensures(CredentialBundle::encode_to_vec, (&m,), bytes),
        sent@ == bytes@,
        call_ensures(CredentialBundle::decode, (sent,), read),
        nothing@.len() == 0,
        call_ensures(CredentialBundle::decode, (nothing,), fresh),
    ensures
        read is Ok,
        read->Ok_0.version == m.version,
        read->Ok_0.client_name@ == m.client_name@,
        read->Ok_0.server_endpoint@ == m.server_endpoint@,
        read->Ok_0.server_cert_sha256@ == m.server_cert_sha256@,
        read->Ok_0.server_cert_pem@ == m.server_cert_pem@,
        read->Ok_0.token@ == m.token@,
        read->Ok_0.client_id@ == m.client_id@,
        fresh is Ok,
        fresh->Ok_0.version == 0,
        fresh->Ok_0.client_name@.len() == 0,
        fresh->Ok_0.server_endpoint@.len() == 0,
        fresh->Ok_0.server_cert_sha256@.len() == 0,
        fresh->Ok_0.server_cert_pem@.len() == 0,
        fresh->Ok_0.token@.len() == 0,
        fresh->Ok_0.client_id@.len() == 0,
{
    law_credential_bundle_reads_back(m@, 100);
    let got = read->Ok_0;
    assert(got@ == m@);
    assert(wire::read_records(nothing@, 100) == Some(Seq::<RecordView>::empty()));
    assert(fresh->Ok_0@ == CredentialBundleView::empty());
}

/// One more number at the end of a [`CredentialBundle`] sets the field with its number
/// and no other. A field that takes no such value makes the bytes unreadable; a number
/// that no field has changes nothing.
pub proof fn law_credential_bundle_takes_one_more_number(
    a: &[u8],
    before: CredentialBundle,
    tag: u32,
    n: u64,
    b: &[u8],
    after: Result<CredentialBundle, DecodeError>,
)
    requires
        call_ensures(CredentialBundle::decode, (a,), Ok(before)),
        1 <= tag <= 0x1fff_ffff,
        b@ == a@ + crate::proto::laws::number_field(tag, n),
        call_ensures(CredentialBundle::decode, (b,), after),
    ensures
        tag == 1 ==> (
            after matches Ok(m)
            && m@ =~= (CredentialBundleView { version: (n % 0x1_0000_0000) as u32, ..before@ })
        ),
        tag == 2 || tag == 3 || tag == 4 || tag == 5 || tag == 6 || tag == 7 ==> after is Err,
        tag > 7 ==> (after matches Ok(m) && m@ == before@),
{
    crate::proto::laws::lemma_one_more(
        CredentialBundleView::empty(),
        a@,
        before@,
        RecordView { tag, value: wire::ValueView::Varint(n) },
        100,
    );
}

/// One more run of bytes at the end of a [`CredentialBundle`] sets the field with its
/// number and no other. A field that takes no such value makes the bytes unreadable; a
/// number that no field has changes nothing.
pub proof fn law_credential_bundle_takes_one_more_text(
    a: &[u8],
    before: CredentialBundle,
    tag: u32,
    payload: Seq<u8>,
    b: &[u8],
    after: Result<CredentialBundle, DecodeError>,
)
    requires
        call_ensures(CredentialBundle::decode, (a,), Ok(before)),
        1 <= tag <= 0x1fff_ffff,
        payload.len() <= u64::MAX,
        b@ == a@ + crate::proto::laws::bytes_field(tag, payload),
        call_ensures(CredentialBundle::decode, (b,), after),
    ensures
        tag == 2 && vstd::utf8::valid_utf8(payload) ==> (
            after matches Ok(m)
            && m@
                =~= (CredentialBundleView {
                    client_name: vstd::utf8::decode_utf8(payload),
                    ..before@
                })
        ),
        tag == 2 && !vstd::utf8::valid_utf8(payload) ==> after is Err,
        tag == 3 && vstd::utf8::valid_utf8(payload) ==> (
            after matches Ok(m)
            && m@
                =~= (CredentialBundleView {
                    server_endpoint: vstd::utf8::decode_utf8(payload),
                    ..before@
                })
        ),
        tag == 3 && !vstd::utf8::valid_utf8(payload) ==> after is Err,
        tag == 4 && vstd::utf8::valid_utf8(payload) ==> (
            after matches Ok(m)
            && m@
                =~= (CredentialBundleView {
                    server_cert_sha256: vstd::utf8::decode_utf8(payload),
                    ..before@
                })
        ),
        tag == 4 && !vstd::utf8::valid_utf8(payload) ==> after is Err,
        tag == 5 && vstd::utf8::valid_utf8(payload) ==> (
            after matches Ok(m)
            && m@
                =~= (CredentialBundleView {
                    server_cert_pem: vstd::utf8::decode_utf8(payload),
                    ..before@
                })
        ),
        tag == 5 && !vstd::utf8::valid_utf8(payload) ==> after is Err,
        tag == 6 && vstd::utf8::valid_utf8(payload) ==> (
            after matches Ok(m)
            && m@ =~= (CredentialBundleView { token: vstd::utf8::decode_utf8(payload), ..before@ })
        ),
        tag == 6 && !vstd::utf8::valid_utf8(payload) ==> after is Err,
        tag == 7 && vstd::utf8::valid_utf8(payload) ==> (
            after matches Ok(m)
            && m@
                =~= (CredentialBundleView {
                    client_id: vstd::utf8::decode_utf8(payload),
                    ..before@
                })
        ),
        tag == 7 && !vstd::utf8::valid_utf8(payload) ==> after is Err,
        tag == 1 ==> after is Err,
        tag > 7 ==> (after matches Ok(m) && m@ == before@),
{
    crate::proto::laws::lemma_one_more(
        CredentialBundleView::empty(),
        a@,
        before@,
        RecordView { tag, value: wire::ValueView::Bytes(payload) },
        100,
    );
}

} // verus!

//! Messages as records: how fields are put into records, and how records are
//! merged into a message.

use vstd::prelude::*;
use vstd::string::*;

use super::wire::{parse_records, text_of, Record, RecordView, Value, ValueView};

verus! {

/// A message as a mathematical value.
pub trait MessageView: Sized {
    /// The message after one more record was read, if the record has a value
    /// that its field can have. Fields that the message does not have are passed
    /// over.
    spec fn merged(self, record: RecordView, depth: nat) -> Option<Self>;
}

/// A message after these records were read.
pub open spec fn merge_all<M: MessageView>(
    message: M,
    records: Seq<RecordView>,
    depth: nat,
) -> Option<M>
    decreases records.len(),
{
    if records.len() == 0 {
        Some(message)
    } else {
        match message.merged(records[0], depth) {
            Some(next) => merge_all(next, records.skip(1), depth),
            None => None,
        }
    }
}

/// What `set` makes of a value that is there.
pub open spec fn with<T, M>(value: Option<T>, set: spec_fn(T) -> M) -> Option<M> {
    match value {
        Some(v) => Some(set(v)),
        None => None,
    }
}

/// A message after these bytes were read.
pub open spec fn decoded<M: MessageView>(base: M, bytes: Seq<u8>, depth: nat) -> Option<M> {
    match super::wire::read_records(bytes, depth) {
        Some(records) => merge_all(base, records, depth),
        None => None,
    }
}

/// Reading records in two parts is reading them all.
pub proof fn lemma_merge_concat<M: MessageView>(
    message: M,
    a: Seq<RecordView>,
    b: Seq<RecordView>,
    depth: nat,
)
    ensures
        merge_all(message, a + b, depth) == (match merge_all(message, a, depth) {
            Some(next) => merge_all(next, b, depth),
            None => None,
        }),
    decreases a.len(),
{
    if a.len() == 0 {
        assert(a + b =~= b);
    } else {
        assert((a + b).skip(1) =~= a.skip(1) + b);
        if let Some(next) = message.merged(a[0], depth) {
            lemma_merge_concat(next, a.skip(1), b, depth);
        }
    }
}

/// Reading one record.
pub proof fn lemma_merge_one<M: MessageView>(message: M, record: RecordView, depth: nat)
    ensures
        merge_all(message, seq![record], depth) == message.merged(record, depth),
{
    let one = seq![record];
    assert(one.skip(1) =~= Seq::empty());
    if let Some(next) = message.merged(record, depth) {
        assert(merge_all(next, one.skip(1), depth) == Some(next));
    }
}

/// A message.
pub trait Message: Sized + View where <Self as View>::V: MessageView {
    /// Reads one record. Whether it has a value that its field can have.
    fn merge_field(&mut self, record: &Record, depth: u32) -> (ok: bool)
        ensures
            match old(self)@.merged(record@, depth as nat) {
                Some(next) => ok && final(self)@ == next,
                None => !ok,
            },
    ;
}

/// Reads bytes into a message. Whether they could be read.
pub fn merge_bytes<M>(message: &mut M, bytes: &[u8], depth: u32) -> (ok: bool) where
    M: Message,
    <M as View>::V: MessageView,

    ensures
        match decoded(old(message)@, bytes@, depth as nat) {
            Some(next) => ok && final(message)@ == next,
            None => !ok,
        },
{
    let records = match parse_records(bytes, depth) {
        Some(records) => records,
        None => {
            return false;
        },
    };
    let ghost views = super::wire::record_views(records@);
    let mut i: usize = 0;
    assert(views.skip(0) =~= views);
    while i < records.len()
        invariant
            i <= records@.len(),
            views == super::wire::record_views(records@),
            merge_all(old(message)@, views, depth as nat) == merge_all(
                message@,
                views.skip(i as int),
                depth as nat,
            ),
            decoded(old(message)@, bytes@, depth as nat) == merge_all(
                old(message)@,
                views,
                depth as nat,
            ),
        decreases records@.len() - i,
    {
        assert(views.skip(i as int)[0] == records@[i as int]@);
        assert(views.skip(i as int).skip(1) =~= views.skip(i + 1));
        if !message.merge_field(&records[i], depth) {
            return false;
        }
        i = i + 1;
    }
    true
}

pub open spec fn number_in(value: ValueView) -> Option<u64> {
    match value {
        ValueView::Varint(n) => Some(n),
        _ => None,
    }
}

pub open spec fn bytes_in(value: ValueView) -> Option<Seq<u8>> {
    match value {
        ValueView::Bytes(bytes) => Some(bytes),
        _ => None,
    }
}

pub open spec fn text_in(value: ValueView) -> Option<Seq<char>> {
    match value {
        ValueView::Bytes(bytes) if vstd::utf8::valid_utf8(bytes) => Some(
            vstd::utf8::decode_utf8(bytes),
        ),
        _ => None,
    }
}

/// The low 32 bits of a number.
pub open spec fn low_u32(n: u64) -> u32 {
    (n % 0x1_0000_0000) as u32
}

/// A number as 64 bits, in two's complement.
pub open spec fn bits_of(n: i64) -> u64 {
    if n >= 0 {
        n as u64
    } else {
        (n + 0x1_0000_0000_0000_0000) as u64
    }
}

/// The number that 64 bits stand for, in two's complement.
pub open spec fn signed(n: u64) -> i64 {
    if n < 0x8000_0000_0000_0000 {
        n as i64
    } else {
        (n - 0x1_0000_0000_0000_0000) as i64
    }
}

/// The number that the low 32 bits stand for, in two's complement.
pub open spec fn low_i32(n: u64) -> i32 {
    let low = n % 0x1_0000_0000;
    if low < 0x8000_0000 {
        low as i32
    } else {
        (low - 0x1_0000_0000) as i32
    }
}

fn to_low_u32(n: u64) -> (low: u32)
    ensures
        low == low_u32(n),
{
    (n % 0x1_0000_0000) as u32
}

pub(crate) fn to_bits(n: i64) -> (bits: u64)
    ensures
        bits == bits_of(n),
{
    if n >= 0 {
        n as u64
    } else {
        (n as i128 + 0x1_0000_0000_0000_0000) as u64
    }
}

fn to_signed(n: u64) -> (number: i64)
    ensures
        number == signed(n),
{
    if n < 0x8000_0000_0000_0000 {
        n as i64
    } else {
        (n as i128 - 0x1_0000_0000_0000_0000) as i64
    }
}

fn to_low_i32(n: u64) -> (number: i32)
    ensures
        number == low_i32(n),
{
    let low: u64 = n % 0x1_0000_0000;
    if low < 0x8000_0000 {
        low as i32
    } else {
        (low as i64 - 0x1_0000_0000) as i32
    }
}

/// Signed numbers survive the way through their bits.
pub proof fn law_signed_numbers_read_back(wide: i64, narrow: i32, small: u32)
    ensures
        signed(bits_of(wide)) == wide,
        low_i32(bits_of(narrow as i64)) == narrow,
        low_u32(small as u64) == small,
        bits_of(wide) == 0 <==> wide == 0,
{
}

fn get_number(value: &Value) -> (number: Option<u64>)
    ensures
        number == number_in(value@),
{
    match value {
        Value::Varint(n) => Some(*n),
        _ => None,
    }
}

fn get_text(value: &Value) -> (text: Option<String>)
    ensures
        match text {
            Some(t) => text_in(value@) == Some(t@),
            None => text_in(value@) is None,
        },
{
    match value {
        Value::Bytes(bytes) => text_of(bytes.clone()),
        _ => None,
    }
}

pub(crate) fn set_u32(field: &mut u32, value: &Value) -> (ok: bool)
    ensures
        match number_in(value@) {
            Some(n) => ok && *final(field) == low_u32(n),
            None => !ok,
        },
{
    match get_number(value) {
        Some(n) => {
            *field = to_low_u32(n);
            true
        },
        None => false,
    }
}

pub(crate) fn set_u64(field: &mut u64, value: &Value) -> (ok: bool)
    ensures
        match number_in(value@) {
            Some(n) => ok && *final(field) == n,
            None => !ok,
        },
{
    match get_number(value) {
        Some(n) => {
            *field = n;
            true
        },
        None => false,
    }
}

pub(crate) fn set_i32(field: &mut i32, value: &Value) -> (ok: bool)
    ensures
        match number_in(value@) {
            Some(n) => ok && *final(field) == low_i32(n),
            None => !ok,
        },
{
    match get_number(value) {
        Some(n) => {
            *field = to_low_i32(n);
            true
        },
        None => false,
    }
}

pub(crate) fn set_i64(field: &mut i64, value: &Value) -> (ok: bool)
    ensures
        match number_in(value@) {
            Some(n) => ok && *final(field) == signed(n),
            None => !ok,
        },
{
    match get_number(value) {
        Some(n) => {
            *field = to_signed(n);
            true
        },
        None => false,
    }
}

pub(crate) fn set_bool(field: &mut bool, value: &Value) -> (ok: bool)
    ensures
        match number_in(value@) {
            Some(n) => ok && *final(field) == (n != 0),
            None => !ok,
        },
{
    match get_number(value) {
        Some(n) => {
            *field = n != 0;
            true
        },
        None => false,
    }
}

pub(crate) fn set_flag(field: &mut Option<bool>, value: &Value) -> (ok: bool)
    ensures
        match number_in(value@) {
            Some(n) => ok && *final(field) == Some(n != 0),
            None => !ok,
        },
{
    match get_number(value) {
        Some(n) => {
            *field = Some(n != 0);
            true
        },
        None => false,
    }
}

pub(crate) fn set_choice(field: &mut Option<i32>, value: &Value) -> (ok: bool)
    ensures
        match number_in(value@) {
            Some(n) => ok && *final(field) == Some(low_i32(n)),
            None => !ok,
        },
{
    match get_number(value) {
        Some(n) => {
            *field = Some(to_low_i32(n));
            true
        },
        None => false,
    }
}

pub(crate) fn set_text(field: &mut String, value: &Value) -> (ok: bool)
    ensures
        match text_in(value@) {
            Some(text) => ok && final(field)@ == text,
            None => !ok,
        },
{
    match get_text(value) {
        Some(text) => {
            *field = text;
            true
        },
        None => false,
    }
}

pub(crate) fn set_some_text(field: &mut Option<String>, value: &Value) -> (ok: bool)
    ensures
        match text_in(value@) {
            Some(text) => ok && text_view(*final(field)) == Some(text),
            None => !ok,
        },
{
    match get_text(value) {
        Some(text) => {
            *field = Some(text);
            true
        },
        None => false,
    }
}

/// The record of a number that is left out when it is zero.
pub open spec fn opt_number(tag: u32, n: u64) -> Seq<RecordView> {
    if n == 0 {
        Seq::empty()
    } else {
        seq![RecordView { tag, value: ValueView::Varint(n) }]
    }
}

/// The record of a number that may be missing.
pub open spec fn some_number(tag: u32, n: Option<u64>) -> Seq<RecordView> {
    match n {
        Some(n) => seq![RecordView { tag, value: ValueView::Varint(n) }],
        None => Seq::empty(),
    }
}

/// The record of a text that is left out when it is empty.
pub open spec fn opt_text(tag: u32, text: Seq<char>) -> Seq<RecordView> {
    if text.len() == 0 {
        Seq::empty()
    } else {
        seq![RecordView { tag, value: ValueView::Bytes(vstd::utf8::encode_utf8(text)) }]
    }
}

/// The record of a text that may be missing.
pub open spec fn some_text(tag: u32, text: Option<Seq<char>>) -> Seq<RecordView> {
    match text {
        Some(t) => seq![RecordView { tag, value: ValueView::Bytes(vstd::utf8::encode_utf8(t)) }],
        None => Seq::empty(),
    }
}

/// The record of a message that may be missing.
pub open spec fn some_bytes(tag: u32, bytes: Option<Seq<u8>>) -> Seq<RecordView> {
    match bytes {
        Some(b) => seq![RecordView { tag, value: ValueView::Bytes(b) }],
        None => Seq::empty(),
    }
}

/// A text that was written is read back.
pub proof fn lemma_text_reads_back(text: Seq<char>)
    ensures
        text_in(ValueView::Bytes(vstd::utf8::encode_utf8(text))) == Some(text),
{
    vstd::utf8::encode_utf8_valid_utf8(text);
    vstd::utf8::encode_utf8_decode_utf8(text);
}

/// After the records in `done` came to `prev`, the record of a number comes to
/// `next`.
pub proof fn lemma_then_number<M: MessageView>(
    start: M,
    done: Seq<RecordView>,
    prev: M,
    tag: u32,
    n: u64,
    next: M,
    depth: nat,
)
    requires
        merge_all(start, done, depth) == Some(prev),
        n == 0 ==> next == prev,
        n != 0 ==> prev.merged(RecordView { tag, value: ValueView::Varint(n) }, depth) == Some(next),
    ensures
        merge_all(start, done + opt_number(tag, n), depth) == Some(next),
{
    lemma_merge_concat(start, done, opt_number(tag, n), depth);
    lemma_merge_one(prev, RecordView { tag, value: ValueView::Varint(n) }, depth);
}

/// As [`lemma_then_number`], for a number that may be missing.
pub proof fn lemma_then_some_number<M: MessageView>(
    start: M,
    done: Seq<RecordView>,
    prev: M,
    tag: u32,
    n: Option<u64>,
    next: M,
    depth: nat,
)
    requires
        merge_all(start, done, depth) == Some(prev),
        n is None ==> next == prev,
        n matches Some(n) ==> prev.merged(
            RecordView { tag, value: ValueView::Varint(n) },
            depth,
        ) == Some(next),
    ensures
        merge_all(start, done + some_number(tag, n), depth) == Some(next),
{
    lemma_merge_concat(start, done, some_number(tag, n), depth);
    if let Some(n) = n {
        lemma_merge_one(prev, RecordView { tag, value: ValueView::Varint(n) }, depth);
    }
}

/// As [`lemma_then_number`], for bytes that may be missing.
pub proof fn lemma_then_some_bytes<M: MessageView>(
    start: M,
    done: Seq<RecordView>,
    prev: M,
    tag: u32,
    bytes: Option<Seq<u8>>,
    next: M,
    depth: nat,
)
    requires
        merge_all(start, done, depth) == Some(prev),
        bytes is None ==> next == prev,
        bytes matches Some(b) ==> prev.merged(
            RecordView { tag, value: ValueView::Bytes(b) },
            depth,
        ) == Some(next),
    ensures
        merge_all(start, done + some_bytes(tag, bytes), depth) == Some(next),
{
    lemma_merge_concat(start, done, some_bytes(tag, bytes), depth);
    if let Some(b) = bytes {
        lemma_merge_one(prev, RecordView { tag, value: ValueView::Bytes(b) }, depth);
    }
}

/// A value that a text was written as.
pub open spec fn text_value(text: Seq<char>) -> ValueView {
    ValueView::Bytes(vstd::utf8::encode_utf8(text))
}

/// As [`lemma_then_number`], for a text.
pub proof fn lemma_then_text<M: MessageView>(
    start: M,
    done: Seq<RecordView>,
    prev: M,
    tag: u32,
    text: Seq<char>,
    next: M,
    depth: nat,
)
    requires
        merge_all(start, done, depth) == Some(prev),
        text.len() == 0 ==> next == prev,
        text_in(text_value(text)) == Some(text) ==> prev.merged(
            RecordView { tag, value: text_value(text) },
            depth,
        ) == Some(next),
    ensures
        merge_all(start, done + opt_text(tag, text), depth) == Some(next),
{
    lemma_text_reads_back(text);
    lemma_merge_concat(start, done, opt_text(tag, text), depth);
    lemma_merge_one(prev, RecordView { tag, value: text_value(text) }, depth);
}

/// As [`lemma_then_number`], for a text that may be missing.
pub proof fn lemma_then_some_text<M: MessageView>(
    start: M,
    done: Seq<RecordView>,
    prev: M,
    tag: u32,
    text: Option<Seq<char>>,
    next: M,
    depth: nat,
)
    requires
        merge_all(start, done, depth) == Some(prev),
        text is None ==> next == prev,
        text matches Some(t) ==> text_in(text_value(t)) == Some(t) ==> prev.merged(
            RecordView { tag, value: text_value(t) },
            depth,
        ) == Some(next),
    ensures
        merge_all(start, done + some_text(tag, text), depth) == Some(next),
{
    lemma_merge_concat(start, done, some_text(tag, text), depth);
    if let Some(t) = text {
        lemma_text_reads_back(t);
        lemma_merge_one(prev, RecordView { tag, value: text_value(t) }, depth);
    }
}

fn push_record(records: &mut Vec<Record>, record: Record)
    requires
        super::wire::all_writable(super::wire::record_views(old(records)@)),
        super::wire::writable(record@),
    ensures
        super::wire::record_views(final(records)@) =~= super::wire::record_views(old(records)@)
            + seq![record@],
        super::wire::all_writable(super::wire::record_views(final(records)@)),
{
    let ghost before = super::wire::record_views(records@);
    records.push(record);
    proof {
        let after = super::wire::record_views(records@);
        assert(after =~= before.push(record@));
        assert forall|i: int| 0 <= i < after.len() implies super::wire::writable(
            #[trigger] after[i],
        ) by {
            if i < before.len() {
                assert(after[i] == before[i]);
            }
        }
    }
}

pub(crate) fn push_number(records: &mut Vec<Record>, tag: u32, n: u64)
    requires
        1 <= tag <= super::wire::MAX_TAG,
        super::wire::all_writable(super::wire::record_views(old(records)@)),
    ensures
        super::wire::record_views(final(records)@) =~= super::wire::record_views(old(records)@)
            + opt_number(tag, n),
        super::wire::all_writable(super::wire::record_views(final(records)@)),
{
    if n != 0 {
        push_record(records, Record { tag, value: Value::Varint(n) });
    }
}

pub(crate) fn push_some_number(records: &mut Vec<Record>, tag: u32, n: Option<u64>)
    requires
        1 <= tag <= super::wire::MAX_TAG,
        super::wire::all_writable(super::wire::record_views(old(records)@)),
    ensures
        super::wire::record_views(final(records)@) =~= super::wire::record_views(old(records)@)
            + some_number(tag, n),
        super::wire::all_writable(super::wire::record_views(final(records)@)),
{
    if let Some(n) = n {
        push_record(records, Record { tag, value: Value::Varint(n) });
    }
}

pub(crate) fn push_bytes(records: &mut Vec<Record>, tag: u32, bytes: Vec<u8>)
    requires
        1 <= tag <= super::wire::MAX_TAG,
        super::wire::all_writable(super::wire::record_views(old(records)@)),
    ensures
        super::wire::record_views(final(records)@) =~= super::wire::record_views(old(records)@)
            + some_bytes(tag, Some(bytes@)),
        super::wire::all_writable(super::wire::record_views(final(records)@)),
{
    assert(bytes.len() <= usize::MAX);
    push_record(records, Record { tag, value: Value::Bytes(bytes) });
}

pub(crate) fn push_text(records: &mut Vec<Record>, tag: u32, text: &String)
    requires
        1 <= tag <= super::wire::MAX_TAG,
        super::wire::all_writable(super::wire::record_views(old(records)@)),
    ensures
        super::wire::record_views(final(records)@) =~= super::wire::record_views(old(records)@)
            + opt_text(tag, text@),
        super::wire::all_writable(super::wire::record_views(final(records)@)),
{
    let bytes = text.as_str().as_bytes_vec();
    if bytes.len() != 0 {
        proof {
            if text@.len() == 0 {
                assert(vstd::utf8::encode_utf8(text@) =~= Seq::empty());
            }
        }
        push_bytes(records, tag, bytes);
    } else {
        proof {
            lemma_text_reads_back(text@);
            assert(vstd::utf8::encode_utf8(text@) =~= vstd::utf8::encode_utf8(Seq::empty()));
            lemma_text_reads_back(Seq::empty());
        }
    }
}

pub(crate) fn push_some_text(records: &mut Vec<Record>, tag: u32, text: &Option<String>)
    requires
        1 <= tag <= super::wire::MAX_TAG,
        super::wire::all_writable(super::wire::record_views(old(records)@)),
    ensures
        super::wire::record_views(final(records)@) =~= super::wire::record_views(old(records)@)
            + some_text(tag, text_view(*text)),
        super::wire::all_writable(super::wire::record_views(final(records)@)),
{
    if let Some(t) = text {
        push_bytes(records, tag, t.as_str().as_bytes_vec());
    }
}

pub open spec fn text_view(text: Option<String>) -> Option<Seq<char>> {
    match text {
        Some(t) => Some(t@),
        None => None,
    }
}

} // verus!

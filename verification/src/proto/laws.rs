//! What holds of the wire format as a whole.

use vstd::prelude::*;

use super::message::MessageView;
use super::wire::{parse_records, write_records, Record, RecordView, ValueView, WireType};
use super::{message, wire};

verus! {

/// The number that bytes stand for that hold seven bits each, the lowest first.
pub open spec fn low_first(bytes: Seq<u8>) -> int
    decreases bytes.len(),
{
    if bytes.len() == 0 {
        0
    } else {
        bytes[0] % 128 + 128 * low_first(bytes.skip(1))
    }
}

/// Bytes of which the last one and no other has its highest bit clear.
pub open spec fn ends_once(bytes: Seq<u8>) -> bool {
    &&& bytes.len() > 0
    &&& bytes.last() < 128
    &&& forall|i: int| 0 <= i < bytes.len() - 1 ==> #[trigger] bytes[i] >= 128
}

/// A number is written as bytes that stand for it, of which only the last one has its
/// highest bit clear, and as few as will do.
pub proof fn law_a_number_is_written_low_bits_first(n: nat)
    ensures
        low_first(wire::varint(n)) == n,
        ends_once(wire::varint(n)),
        n > 0 ==> wire::varint(n).last() > 0,
        n == 0 ==> wire::varint(n) == seq![0u8],
    decreases n,
{
    let bytes = wire::varint(n);
    if n < 128 {
        assert(bytes.skip(1) =~= Seq::empty());
        assert(low_first(bytes.skip(1)) == 0);
        assert(bytes[0] == n);
    } else {
        law_a_number_is_written_low_bits_first(n / 128);
        assert(bytes.skip(1) =~= wire::varint(n / 128));
        assert(bytes[0] == n % 128 + 128);
        assert(bytes.last() == wire::varint(n / 128).last());
        assert forall|i: int| 0 <= i < bytes.len() - 1 implies #[trigger] bytes[i] >= 128 by {
            if i > 0 {
                assert(bytes[i] == wire::varint(n / 128)[i - 1]);
            }
        }
    }
}

proof fn lemma_low_first_is_no_less(bytes: Seq<u8>)
    ensures
        low_first(bytes) >= 0,
    decreases bytes.len(),
{
    if bytes.len() > 0 {
        lemma_low_first_is_no_less(bytes.skip(1));
    }
}

proof fn lemma_within(bytes: Seq<u8>, tail: Seq<u8>, limit: nat)
    requires
        ends_once(bytes),
    ensures
        bytes.len() <= limit ==> wire::varint_within(bytes + tail, limit) == Some(
            (low_first(bytes) as nat, bytes.len()),
        ),
        bytes.len() > limit ==> wire::varint_within(bytes + tail, limit) is None,
    decreases bytes.len(),
{
    let all = bytes + tail;
    lemma_low_first_is_no_less(bytes.skip(1));
    assert(all[0] == bytes[0]);
    if limit > 0 {
        if bytes.len() == 1 {
            assert(bytes.skip(1) =~= Seq::empty());
            assert(low_first(bytes.skip(1)) == 0);
        } else {
            assert(bytes[0] >= 128);
            let rest = bytes.skip(1);
            assert(rest.last() == bytes.last());
            assert(ends_once(rest));
            lemma_within(rest, tail, (limit - 1) as nat);
            assert(all.skip(1) =~= rest + tail);
        }
    }
}

proof fn lemma_never_ends(bytes: Seq<u8>, limit: nat)
    requires
        forall|i: int| 0 <= i < bytes.len() ==> #[trigger] bytes[i] >= 128,
    ensures
        wire::varint_within(bytes, limit) is None,
    decreases limit,
{
    if limit > 0 && bytes.len() > 0 {
        lemma_never_ends(bytes.skip(1), (limit - 1) as nat);
    }
}

/// A number is read from the bytes up to the first one with its highest bit clear. It
/// takes ten bytes at most and fits in 64 bits.
pub proof fn law_a_number_is_read_low_bits_first(bytes: Seq<u8>, tail: Seq<u8>)
    ensures
        ends_once(bytes) && bytes.len() <= 10 && low_first(bytes) <= u64::MAX
            ==> wire::read_varint(bytes + tail) == Some((low_first(bytes) as u64, bytes.len())),
        ends_once(bytes) && (bytes.len() > 10 || low_first(bytes) > u64::MAX)
            ==> wire::read_varint(bytes + tail) is None,
        (forall|i: int| 0 <= i < bytes.len() ==> #[trigger] bytes[i] >= 128)
            ==> wire::read_varint(bytes) is None,
{
    lemma_low_first_is_no_less(bytes);
    if ends_once(bytes) {
        lemma_within(bytes, tail, 10);
    }
    if forall|i: int| 0 <= i < bytes.len() ==> #[trigger] bytes[i] >= 128 {
        lemma_never_ends(bytes, 10);
    }
}

proof fn lemma_varint_is_a_prefix(a: Seq<u8>, b: Seq<u8>, limit: nat)
    ensures
        wire::varint_within(a, limit) is Some ==> wire::varint_within(a + b, limit)
            == wire::varint_within(a, limit),
    decreases limit,
{
    if limit > 0 && a.len() > 0 && a[0] >= 128 {
        lemma_varint_is_a_prefix(a.skip(1), b, (limit - 1) as nat);
        assert((a + b).skip(1) =~= a.skip(1) + b);
    }
}

proof fn lemma_skip_is_a_prefix(a: Seq<u8>, b: Seq<u8>, kind: WireType, tag: u32, depth: nat)
    ensures
        wire::skip_len(a, kind, tag, depth) is Some ==> wire::skip_len(a + b, kind, tag, depth)
            == wire::skip_len(a, kind, tag, depth),
        wire::group_len(a, tag, depth) is Some ==> wire::group_len(a + b, tag, depth)
            == wire::group_len(a, tag, depth),
    decreases a.len(),
{
    lemma_varint_is_a_prefix(a, b, 10);
    wire::lemma_read_varint_len(a);
    if let Some((inner, k, len)) = wire::read_key(a) {
        let after = a.skip(len as int);
        assert((a + b).skip(len as int) =~= after + b);
        lemma_skip_is_a_prefix(after, b, k, inner, (depth - 1) as nat);
        wire::lemma_skip_len(after, k, inner, (depth - 1) as nat);
        if let Some(n) = wire::skip_len(after, k, inner, (depth - 1) as nat) {
            let next = a.skip((len + n) as int);
            assert((a + b).skip((len + n) as int) =~= next + b);
            lemma_skip_is_a_prefix(next, b, k, tag, depth);
        }
    }
}

pub(crate) proof fn lemma_read_then(a: Seq<u8>, b: Seq<u8>, depth: nat)
    requires
        wire::read_records(a, depth) is Some,
    ensures
        wire::read_records(a + b, depth) == (match wire::read_records(b, depth) {
            Some(more) => Some(wire::read_records(a, depth)->0 + more),
            None => None,
        }),
    decreases a.len(),
{
    if a.len() == 0 {
        assert(a + b =~= b);
        if let Some(more) = wire::read_records(b, depth) {
            assert(Seq::<RecordView>::empty() + more =~= more);
        }
    } else {
        lemma_varint_is_a_prefix(a, b, 10);
        wire::lemma_read_varint_len(a);
        let (tag, kind, len) = wire::read_key(a)->0;
        let after = a.skip(len as int);
        assert((a + b).skip(len as int) =~= after + b);
        lemma_skip_is_a_prefix(after, b, kind, tag, depth);
        lemma_varint_is_a_prefix(after, b, 10);
        wire::lemma_read_varint_len(after);
        wire::lemma_skip_len(after, kind, tag, depth);
        let (value, n) = wire::read_value(after, kind, tag, depth)->0;
        if kind == WireType::LengthDelimited {
            let from = (wire::read_varint(after)->0).1;
            assert((after + b).subrange(from as int, n as int) =~= after.subrange(
                from as int,
                n as int,
            ));
        }
        assert(wire::read_value(after + b, kind, tag, depth) == Some((value, n)));
        let next = a.skip((len + n) as int);
        assert((a + b).skip((len + n) as int) =~= next + b);
        lemma_read_then(next, b, depth);
        let first = seq![RecordView { tag, value }];
        if let Some(more) = wire::read_records(b, depth) {
            let rest = wire::read_records(next, depth)->0;
            assert(first + (rest + more) =~= (first + rest) + more);
        }
    }
}

/// Bytes that follow other bytes are read as if they stood alone.
pub proof fn law_records_follow_each_other(
    a: &[u8],
    b: &[u8],
    both: &[u8],
    depth: u32,
    before: Vec<Record>,
    more: Option<Vec<Record>>,
    all: Option<Vec<Record>>,
)
    requires
        both@ == a@ + b@,
        call_ensures(parse_records, (a, depth), Some(before)),
        call_ensures(parse_records, (b, depth), more),
        call_ensures(parse_records, (both, depth), all),
    ensures
        more is None <==> all is None,
        all matches Some(records) ==> wire::record_views(records@) == wire::record_views(before@)
            + wire::record_views(more->0@),
{
    lemma_read_then(a@, b@, depth as nat);
}

/// Records are read back as they were written, one after the other.
pub proof fn law_written_records_are_read(
    records: Vec<Record>,
    bytes: Vec<u8>,
    sent: &[u8],
    depth: u32,
    read: Option<Vec<Record>>,
)
    requires
        wire::all_writable(wire::record_views(records@)),
        call_ensures(write_records, (&records,), bytes),
        sent@ == bytes@,
        depth > 0,
        call_ensures(parse_records, (sent, depth), read),
    ensures
        read is Some,
        wire::record_views(read->0@) == wire::record_views(records@),
{
    wire::law_records_read_back(wire::record_views(records@), depth as nat);
}

/// A number under the number of its field.
pub open spec fn number_field(tag: u32, n: u64) -> Seq<u8> {
    wire::varint((tag * 8) as nat) + wire::varint(n as nat)
}

/// Bytes under the number of their field.
pub open spec fn bytes_field(tag: u32, bytes: Seq<u8>) -> Seq<u8> {
    wire::varint((tag * 8 + 2) as nat) + wire::varint(bytes.len()) + bytes
}

/// A record is written as the number of its field and its kind, and then its value:
/// bytes after how many they are.
pub proof fn law_a_record_is_written_after_its_key(
    before: Vec<Record>,
    record: Record,
    after: Vec<Record>,
    short: Vec<u8>,
    long: Vec<u8>,
)
    requires
        after@ == before@.push(record),
        wire::all_writable(wire::record_views(after@)),
        call_ensures(write_records, (&before,), short),
        call_ensures(write_records, (&after,), long),
    ensures
        record.value matches wire::Value::Varint(n) ==> long@ == short@ + number_field(
            record.tag,
            n,
        ),
        record.value matches wire::Value::Bytes(b) ==> long@ == short@ + bytes_field(
            record.tag,
            b@,
        ),
        before@.len() == 0 ==> short@.len() == 0,
{
    assert(wire::record_views(after@) =~= wire::record_views(before@).push(record@));
    wire::lemma_records_bytes_push(wire::record_views(before@), record@);
}

/// A value of fixed size is eight bytes or four. Fewer are no record.
pub proof fn law_values_of_fixed_size(
    eight: &[u8],
    four: &[u8],
    tag: u32,
    a: Seq<u8>,
    b: Seq<u8>,
    depth: u32,
    long: Option<Vec<Record>>,
    short: Option<Vec<Record>>,
)
    requires
        1 <= tag <= 0x1fff_ffff,
        depth > 0,
        a.len() <= 8,
        b.len() <= 4,
        eight@ == wire::varint((tag * 8 + 1) as nat) + a,
        four@ == wire::varint((tag * 8 + 5) as nat) + b,
        call_ensures(parse_records, (eight, depth), long),
        call_ensures(parse_records, (four, depth), short),
    ensures
        long is Some <==> a.len() == 8,
        short is Some <==> b.len() == 4,
        long matches Some(records) ==> wire::record_views(records@) == seq![
            RecordView { tag, value: ValueView::SixtyFourBit },
        ],
        short matches Some(records) ==> wire::record_views(records@) == seq![
            RecordView { tag, value: ValueView::ThirtyTwoBit },
        ],
{
    let k8: u64 = (tag * 8 + 1) as u64;
    let k4: u64 = (tag * 8 + 5) as u64;
    wire::law_varint_reads_back(k8, a);
    wire::law_varint_reads_back(k4, b);
    let l8 = wire::varint(k8 as nat).len() as int;
    let l4 = wire::varint(k4 as nat).len() as int;
    assert(eight@.skip(l8) =~= a);
    assert(four@.skip(l4) =~= b);
    assert(eight@.skip(l8 + 8) =~= Seq::empty() || a.len() < 8);
    assert(four@.skip(l4 + 4) =~= Seq::empty() || b.len() < 4);
    if a.len() == 8 {
        assert(wire::read_records(eight@.skip(l8 + 8), depth as nat) == Some(
            Seq::<RecordView>::empty(),
        ));
        assert(seq![RecordView { tag, value: ValueView::SixtyFourBit }] + Seq::empty() =~= seq![
            RecordView { tag, value: ValueView::SixtyFourBit },
        ]);
    }
    if b.len() == 4 {
        assert(wire::read_records(four@.skip(l4 + 4), depth as nat) == Some(
            Seq::<RecordView>::empty(),
        ));
        assert(seq![RecordView { tag, value: ValueView::ThirtyTwoBit }] + Seq::empty() =~= seq![
            RecordView { tag, value: ValueView::ThirtyTwoBit },
        ]);
    }
}

/// What has no number of a field, a kind that there is not, or the end of a group that
/// did not begin, is no record. Nor are bytes of which some are missing.
pub proof fn law_what_is_no_record(
    bytes: &[u8],
    key: u64,
    tail: Seq<u8>,
    depth: u32,
    read: Option<Vec<Record>>,
)
    requires
        bytes@ == wire::varint(key as nat) + tail,
        call_ensures(parse_records, (bytes, depth), read),
    ensures
        key < 8 || key > u32::MAX || key % 8 == 4 || key % 8 == 6 || key % 8 == 7 ==> read is None,
        depth == 0 ==> read is None,
        key % 8 == 2 ==> forall|n: u64|
            tail.len() < wire::varint(n as nat).len() + n && #[trigger] wire::varint(
                n as nat,
            ).is_prefix_of(tail) ==> read is None,
{
    wire::law_varint_reads_back(key, tail);
    assert(bytes@.skip(wire::varint(key as nat).len() as int) =~= tail);
    assert forall|n: u64|
        key % 8 == 2 && tail.len() < wire::varint(n as nat).len() + n && #[trigger] wire::varint(
            n as nat,
        ).is_prefix_of(tail) implies read is None by {
        let size = wire::varint(n as nat);
        wire::law_varint_reads_back(n, tail.skip(size.len() as int));
        assert(tail =~= size + tail.skip(size.len() as int));
    }
}

proof fn lemma_group(inner: Seq<u8>, tail: Seq<u8>, tag: u32, depth: nat)
    requires
        depth > 0,
        wire::read_records(inner, (depth - 1) as nat) is Some,
    ensures
        wire::group_len(inner + tail, tag, depth) == (match wire::group_len(tail, tag, depth) {
            Some(n) => Some(inner.len() + n),
            None => None,
        }),
    decreases inner.len(),
{
    if inner.len() == 0 {
        assert(inner + tail =~= tail);
    } else {
        let all = inner + tail;
        lemma_varint_is_a_prefix(inner, tail, 10);
        wire::lemma_read_varint_len(inner);
        let (t, kind, len) = wire::read_key(inner)->0;
        let after = inner.skip(len as int);
        assert(all.skip(len as int) =~= after + tail);
        lemma_skip_is_a_prefix(after, tail, kind, t, (depth - 1) as nat);
        wire::lemma_skip_len(after, kind, t, (depth - 1) as nat);
        let n = wire::skip_len(after, kind, t, (depth - 1) as nat)->0;
        let next = inner.skip((len + n) as int);
        assert(all.skip((len + n) as int) =~= next + tail);
        lemma_group(next, tail, tag, depth);
        wire::lemma_skip_len(tail, kind, tag, depth);
    }
}

/// A group is the records between its beginning and an end with the same number. With
/// another number at the end it is none.
pub proof fn law_a_group_ends_where_it_says(
    bytes: &[u8],
    tag: u32,
    end: u32,
    inner: &[u8],
    within: Vec<Record>,
    depth: u32,
    read: Option<Vec<Record>>,
)
    requires
        1 <= tag <= 0x1fff_ffff,
        1 <= end <= 0x1fff_ffff,
        depth > 0,
        call_ensures(parse_records, (inner, (depth - 1) as u32), Some(within)),
        bytes@ == wire::varint((tag * 8 + 3) as nat) + inner@ + wire::varint(
            (end * 8 + 4) as nat,
        ),
        call_ensures(parse_records, (bytes, depth), read),
    ensures
        read is Some <==> end == tag,
        read matches Some(records) ==> wire::record_views(records@) == seq![
            RecordView { tag, value: ValueView::Group },
        ],
{
    let begin: u64 = (tag * 8 + 3) as u64;
    let close: u64 = (end * 8 + 4) as u64;
    let last = wire::varint(close as nat);
    let rest = inner@ + last;
    assert(bytes@ =~= wire::varint(begin as nat) + rest);
    wire::law_varint_reads_back(begin, rest);
    wire::law_varint_reads_back(close, Seq::empty());
    assert(last + Seq::<u8>::empty() =~= last);
    let len = wire::varint(begin as nat).len() as int;
    assert(bytes@.skip(len) =~= rest);
    lemma_group(inner@, last, tag, depth as nat);
    if end == tag {
        assert(wire::group_len(last, tag, depth as nat) == Some(last.len()));
        assert(bytes@.skip(len + rest.len()) =~= Seq::empty());
        assert(wire::read_records(bytes@.skip(len + rest.len()), depth as nat) == Some(
            Seq::<RecordView>::empty(),
        ));
        assert(seq![RecordView { tag, value: ValueView::Group }] + Seq::empty() =~= seq![
            RecordView { tag, value: ValueView::Group },
        ]);
    }
}

pub(crate) proof fn lemma_one_more<M: MessageView>(
    base: M,
    a: Seq<u8>,
    prev: M,
    record: RecordView,
    depth: nat,
)
    requires
        message::decoded(base, a, depth) == Some(prev),
        wire::writable(record),
        depth > 0,
    ensures
        message::decoded(base, a + wire::record_bytes(record), depth) == prev.merged(record, depth),
{
    let one = seq![record];
    let bytes = wire::record_bytes(record);
    assert(wire::all_writable(one));
    wire::law_records_read_back(one, depth);
    assert(one.skip(1) =~= Seq::empty());
    assert(wire::records_bytes(one.skip(1)) =~= Seq::<u8>::empty());
    assert(wire::records_bytes(one) =~= bytes);
    lemma_read_then(a, bytes, depth);
    message::lemma_merge_concat(base, wire::read_records(a, depth)->0, one, depth);
    message::lemma_merge_one(prev, record, depth);
}

/// A number under the number of its field, or nothing where it is zero.
pub open spec fn unless_zero(tag: u32, n: u64) -> Seq<u8> {
    if n == 0 {
        Seq::empty()
    } else {
        number_field(tag, n)
    }
}

/// A text under the number of its field, or nothing where it is empty.
pub open spec fn unless_empty(tag: u32, text: Seq<char>) -> Seq<u8> {
    if text.len() == 0 {
        Seq::empty()
    } else {
        bytes_field(tag, vstd::utf8::encode_utf8(text))
    }
}

/// A number under the number of its field, zero or not, or nothing where there is none.
pub open spec fn if_number(tag: u32, n: Option<u64>) -> Seq<u8> {
    match n {
        Some(n) => number_field(tag, n),
        None => Seq::empty(),
    }
}

/// Bytes under the number of their field, or nothing where there are none.
pub open spec fn if_bytes(tag: u32, bytes: Option<Seq<u8>>) -> Seq<u8> {
    match bytes {
        Some(b) => bytes_field(tag, b),
        None => Seq::empty(),
    }
}

/// A text under the number of its field, empty or not, or nothing where there is none.
pub open spec fn if_text(tag: u32, text: Option<String>) -> Seq<u8> {
    match text {
        Some(t) => bytes_field(tag, vstd::utf8::encode_utf8(t@)),
        None => Seq::empty(),
    }
}

/// Each of several messages under the number of their field.
pub open spec fn each_of(tag: u32, parts: Seq<Seq<u8>>) -> Seq<u8>
    decreases parts.len(),
{
    if parts.len() == 0 {
        Seq::empty()
    } else {
        bytes_field(tag, parts[0]) + each_of(tag, parts.skip(1))
    }
}

/// A number as 64 bits: one below zero comes after all the others.
pub open spec fn in_64_bits(n: int) -> u64 {
    if n < 0 {
        (0x1_0000_0000_0000_0000 + n) as u64
    } else {
        n as u64
    }
}

pub(crate) proof fn lemma_bytes_concat(a: Seq<RecordView>, b: Seq<RecordView>)
    ensures
        wire::records_bytes(a + b) == wire::records_bytes(a) + wire::records_bytes(b),
    decreases b.len(),
{
    if b.len() == 0 {
        assert(a + b =~= a);
        assert(wire::records_bytes(b) =~= Seq::<u8>::empty());
    } else {
        lemma_bytes_concat(a, b.drop_last());
        assert(a + b =~= (a + b.drop_last()).push(b.last()));
        wire::lemma_records_bytes_push(a + b.drop_last(), b.last());
        assert(b =~= b.drop_last().push(b.last()));
        wire::lemma_records_bytes_push(b.drop_last(), b.last());
    }
}

proof fn lemma_bytes_one(record: RecordView)
    ensures
        wire::records_bytes(seq![record]) == wire::record_bytes(record),
        wire::records_bytes(Seq::empty()) == Seq::<u8>::empty(),
{
    let one = seq![record];
    assert(one.skip(1) =~= Seq::empty());
    assert(wire::records_bytes(one.skip(1)) =~= Seq::<u8>::empty());
}

pub(crate) proof fn lemma_bytes_number(tag: u32, n: u64)
    ensures
        wire::records_bytes(message::opt_number(tag, n)) == unless_zero(tag, n),
{
    lemma_bytes_one(RecordView { tag, value: ValueView::Varint(n) });
}

pub(crate) proof fn lemma_bytes_some_number(tag: u32, n: Option<u64>)
    ensures
        wire::records_bytes(message::some_number(tag, n)) == if_number(tag, n),
{
    lemma_bytes_one(RecordView { tag, value: ValueView::Varint(n->0) });
}

pub(crate) proof fn lemma_bytes_text(tag: u32, text: Seq<char>)
    ensures
        wire::records_bytes(message::opt_text(tag, text)) == unless_empty(tag, text),
{
    lemma_bytes_one(RecordView { tag, value: ValueView::Bytes(vstd::utf8::encode_utf8(text)) });
}

pub(crate) proof fn lemma_bytes_some_text(tag: u32, text: Option<String>)
    ensures
        wire::records_bytes(message::some_text(tag, message::text_view(text))) == if_text(
            tag,
            text,
        ),
{
    lemma_bytes_one(
        RecordView { tag, value: ValueView::Bytes(vstd::utf8::encode_utf8(text->0@)) },
    );
}

pub(crate) proof fn lemma_bytes_some_bytes(tag: u32, bytes: Option<Seq<u8>>)
    ensures
        wire::records_bytes(message::some_bytes(tag, bytes)) == if_bytes(tag, bytes),
{
    lemma_bytes_one(RecordView { tag, value: ValueView::Bytes(bytes->0) });
}

pub(crate) proof fn lemma_bytes_repeated(tag: u32, parts: Seq<Seq<u8>>)
    ensures
        wire::records_bytes(super::v1::repeated(tag, parts)) == each_of(tag, parts),
    decreases parts.len(),
{
    let all = super::v1::repeated(tag, parts);
    if parts.len() > 0 {
        lemma_bytes_repeated(tag, parts.skip(1));
        assert(all.skip(1) =~= super::v1::repeated(tag, parts.skip(1)));
    }
}

} // verus!

//! The wire format: a message is a sequence of records, and a record is a
//! number of a field and a value.

use vstd::prelude::*;
use vstd::slice::*;

verus! {

/// How deep messages and groups may be nested.
pub const RECURSION_LIMIT: u32 = 100;

/// The largest number of a field.
pub const MAX_TAG: u32 = 0x1fff_ffff;

/// A number, seven bits a byte, the lowest first. All bytes but the last have
/// their highest bit set.
pub open spec fn varint(n: nat) -> Seq<u8>
    decreases n,
{
    if n < 128 {
        seq![n as u8]
    } else {
        seq![(n % 128 + 128) as u8] + varint(n / 128)
    }
}

/// The number at the front of `bytes` and how many bytes it takes, if it takes
/// no more than `limit`.
pub open spec fn varint_within(bytes: Seq<u8>, limit: nat) -> Option<(nat, nat)>
    decreases limit,
{
    if limit == 0 || bytes.len() == 0 {
        None
    } else if bytes[0] < 128 {
        Some((bytes[0] as nat, 1))
    } else {
        match varint_within(bytes.skip(1), (limit - 1) as nat) {
            Some((n, len)) => Some(((bytes[0] - 128 + 128 * n) as nat, len + 1)),
            None => None,
        }
    }
}

/// The number at the front of `bytes` and how many bytes it takes: no more than
/// ten, for no more than 64 bits.
pub open spec fn read_varint(bytes: Seq<u8>) -> Option<(u64, nat)> {
    match varint_within(bytes, 10) {
        Some((n, len)) if n <= u64::MAX => Some((n as u64, len)),
        _ => None,
    }
}

/// `prost::encoding::encode_varint`: appends a number, seven bits a byte, the
/// lowest first.
#[verifier::external_body]
fn put_varint(out: &mut Vec<u8>, value: u64)
    ensures
        final(out)@ == old(out)@ + varint(value as nat),
{
    prost::encoding::encode_varint(value, out)
}

/// `prost::encoding::decode_varint`: takes a number off the front. It fails if
/// the bytes end within the number, if the number takes more than ten bytes, and
/// if it takes more than 64 bits.
#[verifier::external_body]
fn take_varint(bytes: &[u8]) -> (taken: Option<(u64, &[u8])>)
    ensures
        match taken {
            Some((value, rest)) => {
                &&& read_varint(bytes@) matches Some((n, len))
                &&& value == n
                &&& rest@ == bytes@.skip(len as int)
            },
            None => read_varint(bytes@) is None,
        },
{
    let mut rest = bytes;
    match prost::encoding::decode_varint(&mut rest) {
        Ok(value) => Some((value, rest)),
        Err(_) => None,
    }
}

/// `String::from_utf8`: the text that the bytes stand for, if they are UTF-8.
#[verifier::external_body]
pub(crate) fn text_of(bytes: Vec<u8>) -> (text: Option<String>)
    ensures
        text is Some <==> vstd::utf8::valid_utf8(bytes@),
        text matches Some(t) ==> t@ == vstd::utf8::decode_utf8(bytes@),
{
    String::from_utf8(bytes).ok()
}

pub open spec fn power_of_128(k: nat) -> nat
    decreases k,
{
    if k == 0 {
        1
    } else {
        128 * power_of_128((k - 1) as nat)
    }
}

proof fn lemma_varint_within(n: nat, tail: Seq<u8>, limit: nat)
    requires
        n < power_of_128(limit),
        limit > 0,
    ensures
        varint(n).len() >= 1,
        varint_within(varint(n) + tail, limit) == Some((n, varint(n).len())),
    decreases limit,
{
    let bytes = varint(n) + tail;
    assert(bytes[0] == varint(n)[0]);
    if n >= 128 {
        reveal_with_fuel(power_of_128, 2);
        assert(limit > 1);
        assert(n / 128 < power_of_128((limit - 1) as nat)) by (nonlinear_arith)
            requires
                n < 128 * power_of_128((limit - 1) as nat),
        ;
        lemma_varint_within(n / 128, tail, (limit - 1) as nat);
        assert(bytes.skip(1) =~= varint(n / 128) + tail);
    }
}

/// A number that was written is read back, whatever follows it.
pub proof fn law_varint_reads_back(value: u64, tail: Seq<u8>)
    ensures
        varint(value as nat).len() >= 1,
        read_varint(varint(value as nat) + tail) == Some((value, varint(value as nat).len())),
{
    reveal_with_fuel(power_of_128, 11);
    lemma_varint_within(value as nat, tail, 10);
}

pub proof fn lemma_varint_within_len(bytes: Seq<u8>, limit: nat)
    ensures
        varint_within(bytes, limit) matches Some((n, len)) ==> 1 <= len <= bytes.len(),
    decreases limit,
{
    if limit > 0 && bytes.len() > 0 && bytes[0] >= 128 {
        lemma_varint_within_len(bytes.skip(1), (limit - 1) as nat);
    }
}

pub proof fn lemma_read_varint_len(bytes: Seq<u8>)
    ensures
        read_varint(bytes) matches Some((n, len)) ==> 1 <= len <= bytes.len(),
{
    lemma_varint_within_len(bytes, 10);
}

/// How a value is written.
#[derive(Clone, Copy, Debug, PartialEq, Eq, Structural)]
pub enum WireType {
    Varint,
    SixtyFourBit,
    LengthDelimited,
    StartGroup,
    EndGroup,
    ThirtyTwoBit,
}

impl WireType {
    pub open spec fn spec_from_number(n: u64) -> Option<WireType> {
        if n == 0 {
            Some(WireType::Varint)
        } else if n == 1 {
            Some(WireType::SixtyFourBit)
        } else if n == 2 {
            Some(WireType::LengthDelimited)
        } else if n == 3 {
            Some(WireType::StartGroup)
        } else if n == 4 {
            Some(WireType::EndGroup)
        } else if n == 5 {
            Some(WireType::ThirtyTwoBit)
        } else {
            None
        }
    }

    fn from_number(n: u64) -> (wire: Option<WireType>)
        ensures
            wire == WireType::spec_from_number(n),
    {
        match n {
            0 => Some(WireType::Varint),
            1 => Some(WireType::SixtyFourBit),
            2 => Some(WireType::LengthDelimited),
            3 => Some(WireType::StartGroup),
            4 => Some(WireType::EndGroup),
            5 => Some(WireType::ThirtyTwoBit),
            _ => None,
        }
    }
}

/// The number of a field and how its value is written, from the front of
/// `bytes`, and how many bytes these take.
pub open spec fn read_key(bytes: Seq<u8>) -> Option<(u32, WireType, nat)> {
    match read_varint(bytes) {
        Some((key, len)) => match WireType::spec_from_number(key % 8) {
            Some(wire) if 8 <= key <= u32::MAX => Some(((key / 8) as u32, wire, len)),
            _ => None,
        },
        None => None,
    }
}

fn take_key(bytes: &[u8]) -> (taken: Option<(u32, WireType, &[u8])>)
    ensures
        match taken {
            Some((tag, wire, rest)) => {
                &&& read_key(bytes@) matches Some((t, w, len))
                &&& tag == t
                &&& wire == w
                &&& 1 <= len <= bytes@.len()
                &&& rest@ == bytes@.skip(len as int)
            },
            None => read_key(bytes@) is None,
        },
{
    proof {
        lemma_read_varint_len(bytes@);
    }
    match take_varint(bytes) {
        Some((key, rest)) => match WireType::from_number(key % 8) {
            Some(wire) => if 8 <= key && key <= u32::MAX as u64 {
                Some(((key / 8) as u32, wire, rest))
            } else {
                None
            },
            None => None,
        },
        None => None,
    }
}

/// How many bytes at the front of `bytes` a value takes of which nothing is
/// needed. A group ends where a record of the kind says so that has the number
/// of the group.
pub open spec fn skip_len(bytes: Seq<u8>, wire: WireType, tag: u32, depth: nat) -> Option<nat>
    decreases bytes.len(), 1int,
{
    if depth == 0 {
        None
    } else {
        match wire {
            WireType::Varint => match read_varint(bytes) {
                Some((_, len)) => Some(len),
                None => None,
            },
            WireType::SixtyFourBit => if bytes.len() >= 8 {
                Some(8)
            } else {
                None
            },
            WireType::ThirtyTwoBit => if bytes.len() >= 4 {
                Some(4)
            } else {
                None
            },
            WireType::LengthDelimited => match read_varint(bytes) {
                Some((n, len)) if n <= bytes.len() - len => Some(len + n as nat),
                _ => None,
            },
            WireType::StartGroup => group_len(bytes, tag, depth),
            WireType::EndGroup => None,
        }
    }
}

/// How many bytes the rest of the group `tag` takes.
pub open spec fn group_len(bytes: Seq<u8>, tag: u32, depth: nat) -> Option<nat>
    decreases bytes.len(), 0int,
{
    match read_key(bytes) {
        None => None,
        Some((inner, wire, len)) => {
            proof {
                lemma_read_varint_len(bytes);
            }
            if wire == WireType::EndGroup {
                if inner == tag {
                    Some(len)
                } else {
                    None
                }
            } else {
                match skip_len(bytes.skip(len as int), wire, inner, (depth - 1) as nat) {
                    Some(n) if n <= bytes.len() - len => match group_len(
                        bytes.skip((len + n) as int),
                        tag,
                        depth,
                    ) {
                        Some(more) => Some(len + n + more),
                        None => None,
                    },
                    _ => None,
                }
            }
        },
    }
}

pub(crate) proof fn lemma_skip_len(bytes: Seq<u8>, wire: WireType, tag: u32, depth: nat)
    ensures
        skip_len(bytes, wire, tag, depth) matches Some(n) ==> n <= bytes.len(),
        group_len(bytes, tag, depth) matches Some(n) ==> n <= bytes.len(),
    decreases bytes.len(),
{
    lemma_read_varint_len(bytes);
    if let Some((inner, w, len)) = read_key(bytes) {
        let after = bytes.skip(len as int);
        lemma_skip_len(after, w, inner, (depth - 1) as nat);
        if let Some(n) = skip_len(after, w, inner, (depth - 1) as nat) {
            lemma_skip_len(bytes.skip((len + n) as int), w, tag, depth);
        }
    }
}

/// Takes a value off the front of which nothing is needed.
fn skip_value(bytes: &[u8], wire: WireType, tag: u32, depth: u32) -> (rest: Option<&[u8]>)
    ensures
        match rest {
            Some(r) => {
                &&& skip_len(bytes@, wire, tag, depth as nat) matches Some(n)
                &&& n <= bytes@.len()
                &&& r@ == bytes@.skip(n as int)
            },
            None => skip_len(bytes@, wire, tag, depth as nat) is None,
        },
    decreases bytes@.len(), 1int,
{
    proof {
        lemma_read_varint_len(bytes@);
        lemma_skip_len(bytes@, wire, tag, depth as nat);
    }
    if depth == 0 {
        return None;
    }
    match wire {
        WireType::Varint => match take_varint(bytes) {
            Some((_, rest)) => Some(rest),
            None => None,
        },
        WireType::SixtyFourBit => if bytes.len() >= 8 {
            Some(slice_subrange(bytes, 8, bytes.len()))
        } else {
            None
        },
        WireType::ThirtyTwoBit => if bytes.len() >= 4 {
            Some(slice_subrange(bytes, 4, bytes.len()))
        } else {
            None
        },
        WireType::LengthDelimited => match take_varint(bytes) {
            Some((n, rest)) => {
                if n <= rest.len() as u64 {
                    let after = slice_subrange(rest, n as usize, rest.len());
                    proof {
                        let len = (read_varint(bytes@)->0).1;
                        assert(after@ =~= bytes@.skip((len + n) as int));
                    }
                    Some(after)
                } else {
                    None
                }
            },
            None => None,
        },
        WireType::StartGroup => skip_group(bytes, tag, depth),
        WireType::EndGroup => None,
    }
}

/// Takes the rest of the group `tag` off the front.
fn skip_group(bytes: &[u8], tag: u32, depth: u32) -> (rest: Option<&[u8]>)
    requires
        depth > 0,
    ensures
        match rest {
            Some(r) => {
                &&& group_len(bytes@, tag, depth as nat) matches Some(n)
                &&& n <= bytes@.len()
                &&& r@ == bytes@.skip(n as int)
            },
            None => group_len(bytes@, tag, depth as nat) is None,
        },
    decreases bytes@.len(), 0int,
{
    match take_key(bytes) {
        None => None,
        Some((inner, wire, after)) => {
            let ghost len = (read_key(bytes@)->0).2;
            match wire {
                WireType::EndGroup => if inner == tag {
                    Some(after)
                } else {
                    None
                },
                _ => match skip_value(after, wire, inner, depth - 1) {
                    Some(next) => {
                        let ghost n = skip_len(after@, wire, inner, (depth - 1) as nat)->0;
                        assert(next@ =~= bytes@.skip((len + n) as int));
                        match skip_group(next, tag, depth) {
                            Some(rest) => {
                                let ghost more = group_len(next@, tag, depth as nat)->0;
                                assert(rest@ =~= bytes@.skip((len + n + more) as int));
                                Some(rest)
                            },
                            None => None,
                        }
                    },
                    None => None,
                },
            }
        },
    }
}

/// The value of a field. Of values that no field here has, only the kind is
/// kept.
#[derive(Clone, Debug, PartialEq, Eq)]
pub enum Value {
    Varint(u64),
    SixtyFourBit,
    Bytes(Vec<u8>),
    Group,
    ThirtyTwoBit,
}

/// A number of a field and a value.
#[derive(Clone, Debug, PartialEq, Eq)]
pub struct Record {
    pub tag: u32,
    pub value: Value,
}

/// The value of a field as a mathematical value.
pub enum ValueView {
    Varint(u64),
    SixtyFourBit,
    Bytes(Seq<u8>),
    Group,
    ThirtyTwoBit,
}

/// A record as a mathematical value.
pub struct RecordView {
    pub tag: u32,
    pub value: ValueView,
}

impl View for Value {
    type V = ValueView;

    open spec fn view(&self) -> ValueView {
        match *self {
            Value::Varint(n) => ValueView::Varint(n),
            Value::SixtyFourBit => ValueView::SixtyFourBit,
            Value::Bytes(bytes) => ValueView::Bytes(bytes@),
            Value::Group => ValueView::Group,
            Value::ThirtyTwoBit => ValueView::ThirtyTwoBit,
        }
    }
}

impl View for Record {
    type V = RecordView;

    open spec fn view(&self) -> RecordView {
        RecordView { tag: self.tag, value: self.value@ }
    }
}

pub open spec fn record_views(records: Seq<Record>) -> Seq<RecordView> {
    records.map_values(|r: Record| r@)
}

/// A value from the front of `bytes`, and how many bytes it takes.
pub open spec fn read_value(bytes: Seq<u8>, wire: WireType, tag: u32, depth: nat) -> Option<
    (ValueView, nat),
> {
    match skip_len(bytes, wire, tag, depth) {
        None => None,
        Some(n) => Some(
            (
                match wire {
                    WireType::Varint => ValueView::Varint((read_varint(bytes)->0).0),
                    WireType::SixtyFourBit => ValueView::SixtyFourBit,
                    WireType::LengthDelimited => ValueView::Bytes(
                        bytes.subrange((read_varint(bytes)->0).1 as int, n as int),
                    ),
                    WireType::StartGroup => ValueView::Group,
                    WireType::EndGroup => ValueView::Group,
                    WireType::ThirtyTwoBit => ValueView::ThirtyTwoBit,
                },
                n,
            ),
        ),
    }
}

/// The records that bytes stand for, if they do.
pub open spec fn read_records(bytes: Seq<u8>, depth: nat) -> Option<Seq<RecordView>>
    decreases bytes.len(),
{
    if bytes.len() == 0 {
        Some(Seq::empty())
    } else {
        match read_key(bytes) {
            None => None,
            Some((tag, wire, len)) => {
                proof {
                    lemma_read_varint_len(bytes);
                }
                match read_value(bytes.skip(len as int), wire, tag, depth) {
                    Some((value, n)) if n <= bytes.len() - len => match read_records(
                        bytes.skip((len + n) as int),
                        depth,
                    ) {
                        Some(more) => Some(seq![RecordView { tag, value }] + more),
                        None => None,
                    },
                    _ => None,
                }
            },
        }
    }
}

fn copied(bytes: &[u8]) -> (copy: Vec<u8>)
    ensures
        copy@ == bytes@,
{
    let mut copy: Vec<u8> = Vec::new();
    let mut i: usize = 0;
    while i < bytes.len()
        invariant
            i <= bytes@.len(),
            copy@ == bytes@.take(i as int),
        decreases bytes@.len() - i,
    {
        copy.push(bytes[i]);
        i = i + 1;
        assert(copy@ =~= bytes@.take(i as int));
    }
    assert(bytes@.take(i as int) =~= bytes@);
    copy
}

fn take_value(bytes: &[u8], wire: WireType, tag: u32, depth: u32) -> (taken: Option<
    (Value, &[u8]),
>)
    ensures
        match taken {
            Some((value, rest)) => {
                &&& read_value(bytes@, wire, tag, depth as nat) matches Some((v, n))
                &&& n <= bytes@.len()
                &&& value@ == v
                &&& rest@ == bytes@.skip(n as int)
            },
            None => read_value(bytes@, wire, tag, depth as nat) is None,
        },
{
    proof {
        lemma_read_varint_len(bytes@);
    }
    if depth == 0 {
        return None;
    }
    match wire {
        WireType::Varint => match take_varint(bytes) {
            Some((n, rest)) => Some((Value::Varint(n), rest)),
            None => None,
        },
        WireType::LengthDelimited => match take_varint(bytes) {
            Some((n, after)) => {
                if n > after.len() as u64 {
                    return None;
                }
                let payload = slice_subrange(after, 0, n as usize);
                let rest = slice_subrange(after, n as usize, after.len());
                proof {
                    let len = (read_varint(bytes@)->0).1;
                    assert(payload@ =~= bytes@.subrange(len as int, len + n));
                    assert(rest@ =~= bytes@.skip(len + n));
                }
                Some((Value::Bytes(copied(payload)), rest))
            },
            None => None,
        },
        WireType::SixtyFourBit => match skip_value(bytes, wire, tag, depth) {
            Some(rest) => Some((Value::SixtyFourBit, rest)),
            None => None,
        },
        WireType::ThirtyTwoBit => match skip_value(bytes, wire, tag, depth) {
            Some(rest) => Some((Value::ThirtyTwoBit, rest)),
            None => None,
        },
        WireType::StartGroup => match skip_value(bytes, wire, tag, depth) {
            Some(rest) => Some((Value::Group, rest)),
            None => None,
        },
        WireType::EndGroup => None,
    }
}

/// The records that bytes stand for, if they do.
pub fn parse_records(bytes: &[u8], depth: u32) -> (parsed: Option<Vec<Record>>)
    ensures
        match parsed {
            Some(records) => read_records(bytes@, depth as nat) == Some(record_views(records@)),
            None => read_records(bytes@, depth as nat) is None,
        },
{
    let mut records: Vec<Record> = Vec::new();
    let mut rest: &[u8] = bytes;
    assert(Seq::<RecordView>::empty() + read_records(bytes@, depth as nat)->0 =~= read_records(
        bytes@,
        depth as nat,
    )->0);
    while rest.len() > 0
        invariant
            read_records(bytes@, depth as nat) == (match read_records(rest@, depth as nat) {
                Some(more) => Some(record_views(records@) + more),
                None => None,
            }),
        decreases rest@.len(),
    {
        let ghost here = rest@;
        let ghost done = record_views(records@);
        let (tag, wire, after) = match take_key(rest) {
            Some(key) => key,
            None => {
                return None;
            },
        };
        let ghost len = (read_key(here)->0).2;
        let (value, next) = match take_value(after, wire, tag, depth) {
            Some(taken) => taken,
            None => {
                return None;
            },
        };
        proof {
            let n = (read_value(after@, wire, tag, depth as nat)->0).1;
            assert(next@ =~= here.skip((len + n) as int));
        }
        let ghost record = RecordView { tag, value: value@ };
        records.push(Record { tag, value });
        rest = next;
        proof {
            assert(record_views(records@) =~= done.push(record));
            if let Some(more) = read_records(rest@, depth as nat) {
                assert(done + (seq![record] + more) =~= record_views(records@) + more);
            }
        }
    }
    assert(record_views(records@) + Seq::<RecordView>::empty() =~= record_views(records@));
    Some(records)
}

/// The bytes that a record is written as.
pub open spec fn record_bytes(record: RecordView) -> Seq<u8> {
    match record.value {
        ValueView::Varint(n) => varint((record.tag * 8) as nat) + varint(n as nat),
        ValueView::Bytes(bytes) => varint((record.tag * 8 + 2) as nat) + varint(bytes.len())
            + bytes,
        _ => Seq::empty(),
    }
}

/// The bytes that records are written as.
pub open spec fn records_bytes(records: Seq<RecordView>) -> Seq<u8>
    decreases records.len(),
{
    if records.len() == 0 {
        Seq::empty()
    } else {
        record_bytes(records[0]) + records_bytes(records.skip(1))
    }
}

/// A record that can be written: its number is that of a field, and its value a
/// number or bytes.
pub open spec fn writable(record: RecordView) -> bool {
    &&& 1 <= record.tag <= MAX_TAG
    &&& match record.value {
        ValueView::Varint(_) => true,
        ValueView::Bytes(bytes) => bytes.len() <= u64::MAX,
        _ => false,
    }
}

pub open spec fn all_writable(records: Seq<RecordView>) -> bool {
    forall|i: int| 0 <= i < records.len() ==> writable(#[trigger] records[i])
}

pub(crate) proof fn lemma_record_reads_back(record: RecordView, tail: Seq<u8>, depth: nat)
    requires
        writable(record),
        depth > 0,
    ensures
        ({
            let bytes = record_bytes(record) + tail;
            &&& record_bytes(record).len() > 0
            &&& read_key(bytes) matches Some((tag, wire, len))
            &&& tag == record.tag
            &&& 1 <= len
            &&& read_value(bytes.skip(len as int), wire, tag, depth) matches Some((value, n))
            &&& value == record.value
            &&& len + n == record_bytes(record).len()
        }),
{
    let bytes = record_bytes(record) + tail;
    match record.value {
        ValueView::Varint(n) => {
            let key: u64 = (record.tag * 8) as u64;
            let after = varint(n as nat) + tail;
            law_varint_reads_back(key, after);
            law_varint_reads_back(n, tail);
            assert(bytes =~= varint(key as nat) + after);
            assert(bytes.skip(varint(key as nat).len() as int) =~= after);
        },
        ValueView::Bytes(payload) => {
            let key: u64 = (record.tag * 8 + 2) as u64;
            let size: u64 = payload.len() as u64;
            let after = varint(size as nat) + (payload + tail);
            law_varint_reads_back(key, after);
            law_varint_reads_back(size, payload + tail);
            assert(bytes =~= varint(key as nat) + after);
            assert(bytes.skip(varint(key as nat).len() as int) =~= after);
            let from = varint(size as nat).len() as int;
            assert(after.subrange(from, from + size) =~= payload);
        },
        _ => {},
    }
}

/// Records that were written are read back.
pub proof fn law_records_read_back(records: Seq<RecordView>, depth: nat)
    requires
        all_writable(records),
        depth > 0,
    ensures
        read_records(records_bytes(records), depth) == Some(records),
    decreases records.len(),
{
    if records.len() > 0 {
        let tail = records_bytes(records.skip(1));
        let bytes = records_bytes(records);
        lemma_record_reads_back(records[0], tail, depth);
        assert forall|i: int| 0 <= i < records.skip(1).len() implies writable(
            #[trigger] records.skip(1)[i],
        ) by {
            assert(records.skip(1)[i] == records[i + 1]);
        }
        law_records_read_back(records.skip(1), depth);
        assert(bytes.skip(record_bytes(records[0]).len() as int) =~= tail);
        assert(seq![records[0]] + records.skip(1) =~= records);
    } else {
        assert(records =~= Seq::empty());
    }
}

pub(crate) proof fn lemma_records_bytes_push(records: Seq<RecordView>, last: RecordView)
    ensures
        records_bytes(records.push(last)) == records_bytes(records) + record_bytes(last),
    decreases records.len(),
{
    let all = records.push(last);
    if records.len() == 0 {
        assert(all.skip(1) =~= Seq::empty());
        assert(records_bytes(all.skip(1)) =~= Seq::empty());
        assert(records_bytes(all) =~= record_bytes(last));
    } else {
        assert(all.skip(1) =~= records.skip(1).push(last));
        lemma_records_bytes_push(records.skip(1), last);
        assert(records_bytes(all) =~= records_bytes(records) + record_bytes(last));
    }
}

/// The bytes that records are written as.
pub fn write_records(records: &Vec<Record>) -> (bytes: Vec<u8>)
    requires
        all_writable(record_views(records@)),
    ensures
        bytes@ == records_bytes(record_views(records@)),
{
    let mut out: Vec<u8> = Vec::new();
    let ghost views = record_views(records@);
    let mut i: usize = 0;
    assert(views.take(0) =~= Seq::empty());
    while i < records.len()
        invariant
            i <= records@.len(),
            views == record_views(records@),
            all_writable(views),
            out@ == records_bytes(views.take(i as int)),
        decreases records@.len() - i,
    {
        let record = &records[i];
        let ghost before = out@;
        assert(writable(views[i as int]));
        match &record.value {
            Value::Varint(n) => {
                put_varint(&mut out, record.tag as u64 * 8);
                put_varint(&mut out, *n);
            },
            Value::Bytes(payload) => {
                put_varint(&mut out, record.tag as u64 * 8 + 2);
                put_varint(&mut out, payload.len() as u64);
                append(&mut out, payload);
            },
            _ => {},
        }
        i = i + 1;
        proof {
            assert(views.take(i as int) =~= views.take(i - 1).push(views[i - 1]));
            lemma_records_bytes_push(views.take(i - 1), views[i - 1]);
            assert(out@ =~= before + record_bytes(views[i - 1]));
        }
    }
    assert(views.take(i as int) =~= views);
    out
}

fn append(out: &mut Vec<u8>, bytes: &Vec<u8>)
    ensures
        final(out)@ == old(out)@ + bytes@,
{
    let mut i: usize = 0;
    while i < bytes.len()
        invariant
            i <= bytes@.len(),
            out@ == old(out)@ + bytes@.take(i as int),
        decreases bytes@.len() - i,
    {
        out.push(bytes[i]);
        i = i + 1;
        assert(out@ =~= old(out)@ + bytes@.take(i as int));
    }
    assert(bytes@.take(i as int) =~= bytes@);
}

} // verus!

//! The messages of the control plane.

pub mod enrollment;
pub mod quota;
pub mod rule;
pub mod stats;

use vstd::prelude::*;

use super::message::{merge_bytes, to_bits, Message, MessageView};
use super::wire::{parse_records, RecordView, Value, ValueView};
use super::{message, wire};

verus! {

/// Bytes do not stand for a message.
#[derive(Clone, Copy, Debug, PartialEq, Eq, Structural)]
pub struct DecodeError;

/// Which protocol a rule forwards.
#[derive(Clone, Copy, Debug, PartialEq, Eq, Structural)]
pub enum Protocol {
    Unspecified,
    Tcp,
    Udp,
}

/// Which header a target wants ahead of a connection.
#[derive(Clone, Copy, Debug, PartialEq, Eq, Structural)]
pub enum ProxyProtocolVersion {
    Unspecified,
    V1,
    V2,
}

impl ProxyProtocolVersion {
    pub open spec fn spec_from_number(n: i32) -> Option<ProxyProtocolVersion> {
        if n == 0 {
            Some(ProxyProtocolVersion::Unspecified)
        } else if n == 1 {
            Some(ProxyProtocolVersion::V1)
        } else if n == 2 {
            Some(ProxyProtocolVersion::V2)
        } else {
            None
        }
    }

    /// The version with this number, if there is one.
    pub fn from_number(n: i32) -> (version: Option<ProxyProtocolVersion>)
        ensures
            version == ProxyProtocolVersion::spec_from_number(n),
    {
        match n {
            0 => Some(ProxyProtocolVersion::Unspecified),
            1 => Some(ProxyProtocolVersion::V1),
            2 => Some(ProxyProtocolVersion::V2),
            _ => None,
        }
    }
}

/// What becomes of a quota.
#[derive(Clone, Copy, Debug, PartialEq, Eq, Structural)]
pub enum TrafficQuotaAction {
    Unspecified,
    SetState,
    Remove,
}

pub open spec fn bool_number(b: bool) -> u64 {
    if b {
        1
    } else {
        0
    }
}

pub open spec fn flag_number(b: Option<bool>) -> Option<u64> {
    match b {
        Some(b) => Some(bool_number(b)),
        None => None,
    }
}

pub open spec fn choice_number(n: Option<i32>) -> Option<u64> {
    match n {
        Some(n) => Some(message::bits_of(n as i64)),
        None => None,
    }
}

pub(crate) fn to_bool_number(b: bool) -> (n: u64)
    ensures
        n == bool_number(b),
{
    if b {
        1
    } else {
        0
    }
}

pub(crate) fn to_flag_number(b: Option<bool>) -> (n: Option<u64>)
    ensures
        n == flag_number(b),
{
    match b {
        Some(b) => Some(to_bool_number(b)),
        None => None,
    }
}

pub(crate) fn to_choice_number(n: Option<i32>) -> (number: Option<u64>)
    ensures
        number == choice_number(n),
{
    match n {
        Some(n) => Some(to_bits(n as i64)),
        None => None,
    }
}

/// The records of a field that can occur many times.
pub open spec fn repeated(tag: u32, payloads: Seq<Seq<u8>>) -> Seq<RecordView> {
    payloads.map_values(|b: Seq<u8>| RecordView { tag, value: ValueView::Bytes(b) })
}

/// A message inside another one, after it was read from a value.
pub open spec fn nested<M: MessageView>(base: M, value: ValueView, depth: nat) -> Option<M> {
    match message::bytes_in(value) {
        Some(bytes) if depth > 0 => message::decoded(base, bytes, (depth - 1) as nat),
        _ => None,
    }
}

pub(crate) fn merge_nested<M>(message: &mut M, value: &Value, depth: u32) -> (ok: bool) where
    M: Message,
    <M as View>::V: MessageView,

    ensures
        match nested(old(message)@, value@, depth as nat) {
            Some(next) => ok && final(message)@ == next,
            None => !ok,
        },
{
    match value {
        Value::Bytes(bytes) => if depth > 0 {
            merge_bytes(message, bytes.as_slice(), depth - 1)
        } else {
            false
        },
        _ => false,
    }
}

/// A message inside another one of which only the bytes are kept, after more of
/// it was read. The bytes must stand for records.
pub open spec fn merged_raw(base: Option<Seq<u8>>, value: ValueView, depth: nat) -> Option<
    Seq<u8>,
> {
    match message::bytes_in(value) {
        Some(bytes) if depth > 0 && wire::read_records(bytes, (depth - 1) as nat)
            is Some => Some(
            match base {
                Some(b) => b + bytes,
                None => bytes,
            },
        ),
        _ => None,
    }
}

pub open spec fn raw_view(raw: Option<Vec<u8>>) -> Option<Seq<u8>> {
    match raw {
        Some(bytes) => Some(bytes@),
        None => None,
    }
}

pub(crate) fn merge_raw(raw: &mut Option<Vec<u8>>, value: &Value, depth: u32) -> (ok: bool)
    ensures
        match merged_raw(raw_view(*old(raw)), value@, depth as nat) {
            Some(next) => ok && raw_view(*final(raw)) == Some(next),
            None => !ok,
        },
{
    let bytes = match value {
        Value::Bytes(bytes) => bytes,
        _ => {
            return false;
        },
    };
    if depth == 0 || parse_records(bytes.as_slice(), depth - 1).is_none() {
        return false;
    }
    let mut joined: Vec<u8> = match raw.take() {
        Some(b) => b,
        None => Vec::new(),
    };
    let mut more = bytes.clone();
    joined.append(&mut more);
    assert(joined@ =~= (match raw_view(*old(raw)) {
        Some(b) => b + bytes@,
        None => bytes@,
    }));
    *raw = Some(joined);
    true
}

/// The versions of the header have the numbers from 0 to 2, and no other number is one.
pub proof fn law_versions_have_numbers(n: i32, version: Option<ProxyProtocolVersion>)
    requires
        call_ensures(ProxyProtocolVersion::from_number, (n,), version),
    ensures
        version is Some <==> 0 <= n <= 2,
        version == Some(ProxyProtocolVersion::Unspecified) <==> n == 0,
        version == Some(ProxyProtocolVersion::V1) <==> n == 1,
        version == Some(ProxyProtocolVersion::V2) <==> n == 2,
{
}

} // verus!

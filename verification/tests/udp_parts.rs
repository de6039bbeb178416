use std::io;

use portunus::addr::{IpAddr, SocketAddr};
use portunus::udp::batch::{
    sockaddr_to_socketaddr, socketaddr_to_sockaddr, BatchBufs, FamilyCodes, RawSockaddr,
    BATCH_BYTES, BATCH_SIZE, UDP_BUFFER_BYTES,
};
use portunus::udp::error::{classify_udp_error, UdpAction};
use portunus::udp::registry::{FlowId, FlowKey, Slot, TryGetOrReserve, UdpFlowRegistry};

fn err_from_raw(raw: i32) -> io::Error {
    io::Error::from_raw_os_error(raw)
}

#[test]
fn wouldblock_is_would_block() {
    let e = io::Error::new(io::ErrorKind::WouldBlock, "x");
    assert_eq!(classify_udp_error(&e), UdpAction::WouldBlock);
}

#[test]
fn econnrefused_evicts() {
    let e = err_from_raw(libc::ECONNREFUSED);
    assert_eq!(classify_udp_error(&e), UdpAction::Evict);
}

#[test]
fn ehostunreach_evicts() {
    let e = err_from_raw(libc::EHOSTUNREACH);
    assert_eq!(classify_udp_error(&e), UdpAction::Evict);
}

#[test]
fn enetunreach_evicts() {
    let e = err_from_raw(libc::ENETUNREACH);
    assert_eq!(classify_udp_error(&e), UdpAction::Evict);
}

#[test]
fn econnaborted_evicts() {
    let e = err_from_raw(libc::ECONNABORTED);
    assert_eq!(classify_udp_error(&e), UdpAction::Evict);
}

#[test]
fn econnreset_evicts() {
    let e = err_from_raw(libc::ECONNRESET);
    assert_eq!(classify_udp_error(&e), UdpAction::Evict);
}

#[test]
fn emsgsize_message_too_large() {
    let e = err_from_raw(libc::EMSGSIZE);
    assert_eq!(classify_udp_error(&e), UdpAction::MessageTooLarge);
}

#[test]
fn eintr_transient() {
    let e = err_from_raw(libc::EINTR);
    assert_eq!(classify_udp_error(&e), UdpAction::Transient);
}

#[test]
fn errors_without_a_number_are_transient() {
    let e = io::Error::new(io::ErrorKind::Other, "x");
    assert_eq!(classify_udp_error(&e), UdpAction::Transient);
    assert_eq!(classify_udp_error(&err_from_raw(libc::EINVAL)), UdpAction::Transient);
}

fn v4(a: u8, b: u8, c: u8, d: u8, port: u16) -> SocketAddr {
    SocketAddr::new(IpAddr::V4(u32::from_be_bytes([a, b, c, d])), port)
}

#[test]
fn slot_returns_payload_and_source() {
    let mut bufs = BatchBufs::new();
    let src = v4(10, 0, 0, 7, 4321);
    let payload = [1u8, 2, 3, 4, 5];

    let i = 1usize;
    let off = i * UDP_BUFFER_BYTES;
    bufs.slots[off..off + payload.len()].copy_from_slice(&payload);
    bufs.lens[i] = payload.len();
    bufs.addrs[i] = Some(src);

    let (got_payload, got_src) = bufs.slot(i);
    assert_eq!(got_payload, &payload);
    assert_eq!(got_src, src);
}

#[test]
fn slot_with_zero_length_payload_is_empty() {
    let mut bufs = BatchBufs::new();
    let src = v4(127, 0, 0, 1, 9);
    bufs.lens[0] = 0;
    bufs.addrs[0] = Some(src);

    let (payload, got_src) = bufs.slot(0);
    assert!(payload.is_empty());
    assert_eq!(got_src, src);
}

#[test]
fn new_allocates_zeroed_arena() {
    let bufs = BatchBufs::new();
    assert_eq!(bufs.slots.len(), BATCH_SIZE * UDP_BUFFER_BYTES);
    assert_eq!(BATCH_BYTES, BATCH_SIZE * UDP_BUFFER_BYTES);
    assert!(bufs.slots.iter().all(|&b| b == 0));
    assert_eq!(bufs.lens, [0usize; BATCH_SIZE]);
    assert!(bufs.addrs.iter().all(Option::is_none));
}

#[test]
fn payload_returns_slice_without_address() {
    let mut bufs = BatchBufs::new();
    let payload = [9u8, 8, 7];

    let i = 2usize;
    let off = i * UDP_BUFFER_BYTES;
    bufs.slots[off..off + payload.len()].copy_from_slice(&payload);
    bufs.lens[i] = payload.len();

    assert_eq!(bufs.payload(i), &payload);
    assert!(bufs.addrs[i].is_none());
}

#[test]
fn payload_with_zero_length_is_empty() {
    let mut bufs = BatchBufs::new();
    bufs.lens[0] = 0;
    assert!(bufs.payload(0).is_empty());
}

#[test]
fn socketaddr_encoder_round_trips_through_decoder() {
    let codes = FamilyCodes::system();
    let a = v4(192, 168, 1, 42, 4242);
    let (raw, len) = socketaddr_to_sockaddr(a, &codes);
    assert_eq!(len as usize, std::mem::size_of::<libc::sockaddr_in>(), "v4 namelen");
    assert_eq!(i32::from(raw.family), libc::AF_INET);
    assert_eq!(sockaddr_to_socketaddr(&raw, len, &codes), Some(a));

    let b = SocketAddr::V6 {
        ip: 0xfe80_0000_0000_0000_0001_0002_0003_0004,
        port: 5353,
        flowinfo: 7,
        scope_id: 3,
    };
    let (raw6, len6) = socketaddr_to_sockaddr(b, &codes);
    assert_eq!(len6 as usize, std::mem::size_of::<libc::sockaddr_in6>(), "v6 namelen");
    assert_eq!(i32::from(raw6.family), libc::AF_INET6);
    assert_eq!(sockaddr_to_socketaddr(&raw6, len6, &codes), Some(b));
}

#[test]
fn a_short_or_strange_address_is_none() {
    let codes = FamilyCodes::system();
    let (raw, len) = socketaddr_to_sockaddr(v4(1, 2, 3, 4, 5), &codes);
    assert_eq!(sockaddr_to_socketaddr(&raw, len - 1, &codes), None);
    let strange = RawSockaddr { family: libc::AF_UNIX as u16, ..raw };
    assert_eq!(sockaddr_to_socketaddr(&strange, len, &codes), None);
}

fn key(port: u16, ip_last_octet: u8, src_port: u16) -> FlowKey {
    FlowKey::new(port, v4(127, 0, 0, ip_last_octet, src_port))
}

#[test]
fn reserve_then_commit_makes_flow_live() {
    let mut reg = UdpFlowRegistry::new(4);
    let k = key(8000, 1, 50000);
    let TryGetOrReserve::Reserved(reservation) = reg.try_get_or_reserve(k) else {
        panic!("expected reservation")
    };
    assert_eq!(reg.len(), 1, "Pending counts toward occupancy");
    reg.commit(reservation, FlowId(11));
    assert_eq!(reg.len(), 1);
    assert_eq!(reg.get(k), Some(FlowId(11)));
}

#[test]
fn cap_exhaustion_returns_cap_exhausted_and_bumps_counter() {
    let mut reg = UdpFlowRegistry::new(2);
    assert!(matches!(reg.try_get_or_reserve(key(8000, 1, 1)), TryGetOrReserve::Reserved(_)));
    assert!(matches!(reg.try_get_or_reserve(key(8000, 2, 1)), TryGetOrReserve::Reserved(_)));
    let r3 = reg.try_get_or_reserve(key(8000, 3, 1));
    assert!(matches!(r3, TryGetOrReserve::CapExhausted));
    assert_eq!(reg.dropped_overflow(), 1);
}

#[test]
fn drop_uncommitted_reservation_releases_slot() {
    let mut reg = UdpFlowRegistry::new(1);
    let TryGetOrReserve::Reserved(r) = reg.try_get_or_reserve(key(8000, 1, 1)) else {
        panic!("expected reservation")
    };
    assert_eq!(reg.len(), 1);
    reg.release(r);
    assert!(reg.is_empty(), "a released reservation frees its slot");
}

#[test]
fn concurrent_reserve_same_key_second_caller_sees_cap_exhausted() {
    let mut reg = UdpFlowRegistry::new(4);
    let k = key(8000, 1, 50000);
    assert!(matches!(reg.try_get_or_reserve(k), TryGetOrReserve::Reserved(_)));
    assert!(matches!(reg.try_get_or_reserve(k), TryGetOrReserve::CapExhausted));
}

#[test]
fn remove_live_returns_arc_and_decrements_len() {
    let mut reg = UdpFlowRegistry::new(4);
    let k = key(8000, 1, 50000);
    let TryGetOrReserve::Reserved(reservation) = reg.try_get_or_reserve(k) else {
        panic!("expected reservation")
    };
    reg.commit(reservation, FlowId(5));
    assert_eq!(reg.remove(k), Some(FlowId(5)));
    assert_eq!(reg.len(), 0);
    assert!(reg.get(k).is_none());
}

#[test]
fn snapshot_live_excludes_pending() {
    let mut reg = UdpFlowRegistry::new(4);
    let _res_pending = reg.try_get_or_reserve(key(8000, 1, 1));
    let TryGetOrReserve::Reserved(res_live) = reg.try_get_or_reserve(key(8001, 2, 1)) else {
        panic!("expected reservation")
    };
    reg.commit(res_live, FlowId(2));
    let snap = reg.snapshot_live();
    assert_eq!(snap.len(), 1);
    assert_eq!(snap[0].0.listen_port, 8001);
    assert_eq!(snap[0].1, FlowId(2));
}

#[test]
fn commit_after_drain_restores_occupancy() {
    let mut reg = UdpFlowRegistry::new(4);
    let k = key(8000, 1, 50000);
    let TryGetOrReserve::Reserved(reservation) = reg.try_get_or_reserve(k) else {
        panic!("expected reservation")
    };
    reg.drain();
    assert_eq!(reg.len(), 0);
    reg.commit(reservation, FlowId(9));
    assert_eq!(reg.len(), 1);
    assert_eq!(reg.get(k), Some(FlowId(9)));
}

#[test]
fn draining_returns_what_was_live() {
    let mut reg = UdpFlowRegistry::new(4);
    let k = key(8000, 1, 50000);
    let TryGetOrReserve::Reserved(reservation) = reg.try_get_or_reserve(k) else {
        panic!("expected reservation")
    };
    reg.commit(reservation, FlowId(3));
    assert_eq!(reg.drain(), vec![(k, FlowId(3))]);
    assert_eq!(reg.len(), 0);
}

#[test]
fn cap_returns_configured_capacity() {
    let reg = UdpFlowRegistry::new(7);
    assert_eq!(reg.cap(), 7);
}

#[test]
fn get_on_pending_slot_returns_none() {
    let mut reg = UdpFlowRegistry::new(4);
    let k = key(8000, 1, 50000);
    let TryGetOrReserve::Reserved(_res) = reg.try_get_or_reserve(k) else {
        panic!("expected reservation")
    };
    assert!(reg.get(k).is_none(), "Pending slot must not surface via get");
    assert_eq!(reg.slot(k), Some(Slot::Pending));
    assert_eq!(reg.len(), 1);
}

#[test]
fn try_get_or_reserve_returns_existing_for_live_slot() {
    let mut reg = UdpFlowRegistry::new(4);
    let k = key(8000, 1, 50000);
    let TryGetOrReserve::Reserved(reservation) = reg.try_get_or_reserve(k) else {
        panic!("expected reservation")
    };
    reg.commit(reservation, FlowId(4));
    match reg.try_get_or_reserve(k) {
        TryGetOrReserve::Existing(existing) => assert_eq!(existing, FlowId(4)),
        _ => panic!("expected Existing for an already-live key"),
    }
    assert_eq!(reg.len(), 1);
    assert_eq!(reg.dropped_overflow(), 0);
}

#[test]
fn remove_pending_slot_decrements_len_and_returns_none() {
    let mut reg = UdpFlowRegistry::new(4);
    let k = key(8000, 1, 50000);
    let TryGetOrReserve::Reserved(reservation) = reg.try_get_or_reserve(k) else {
        panic!("expected reservation")
    };
    assert_eq!(reg.len(), 1);
    assert!(reg.remove(k).is_none(), "removing a Pending slot yields no flow");
    assert_eq!(reg.len(), 0, "Pending removal decrements occupancy");
    reg.release(reservation);
    assert_eq!(reg.len(), 0);
}

#[test]
fn remove_missing_key_returns_none_without_touching_occupancy() {
    let mut reg = UdpFlowRegistry::new(4);
    let k = key(8000, 9, 1234);
    assert!(reg.remove(k).is_none());
    assert_eq!(reg.len(), 0);
}

#[test]
fn reservation_key_returns_the_keyed_flow_key() {
    let mut reg = UdpFlowRegistry::new(4);
    let k = key(8123, 4, 4321);
    let TryGetOrReserve::Reserved(reservation) = reg.try_get_or_reserve(k) else {
        panic!("expected reservation")
    };
    assert_eq!(reservation.key(), k);
}

#[test]
fn drain_decrements_occupancy_for_pending_only_slot() {
    let mut reg = UdpFlowRegistry::new(4);
    let TryGetOrReserve::Reserved(reservation) = reg.try_get_or_reserve(key(8000, 1, 1)) else {
        panic!("expected reservation")
    };
    assert_eq!(reg.len(), 1);
    assert!(reg.drain().is_empty());
    assert_eq!(reg.len(), 0, "draining a Pending-only slot zeroes occupancy");
    reg.release(reservation);
    assert_eq!(reg.len(), 0);
}

#[test]
fn keys_of_both_families_are_told_apart() {
    let mut reg = UdpFlowRegistry::new(8);
    let keys = [
        FlowKey::new(1, SocketAddr::V4 { ip: 1, port: 2 }),
        FlowKey::new(2, SocketAddr::V4 { ip: 1, port: 2 }),
        FlowKey::new(1, SocketAddr::V6 { ip: 1, port: 2, flowinfo: 0, scope_id: 0 }),
        FlowKey::new(1, SocketAddr::V6 { ip: 1, port: 2, flowinfo: 0, scope_id: 1 }),
        FlowKey::new(1, SocketAddr::V6 { ip: 1, port: 2, flowinfo: 1, scope_id: 0 }),
    ];
    for (i, k) in keys.iter().enumerate() {
        let TryGetOrReserve::Reserved(r) = reg.try_get_or_reserve(*k) else {
            panic!("expected reservation")
        };
        reg.commit(r, FlowId(i as u64));
    }
    for (i, k) in keys.iter().enumerate() {
        assert_eq!(reg.get(*k), Some(FlowId(i as u64)));
    }
    let mut live = reg.drain();
    live.sort_by_key(|(_, id)| id.0);
    assert_eq!(live.iter().map(|(k, _)| *k).collect::<Vec<_>>(), keys.to_vec());
}

#[test]
fn what_an_earlier_batch_left_cannot_be_read() {
    let mut bufs = BatchBufs::new();
    for i in 0..5 {
        bufs.lens[i] = 1;
        bufs.addrs[i] = Some(v4(127, 0, 0, 1, 9));
    }
    bufs.filled(5);
    assert_eq!(bufs.slot(3).1, v4(127, 0, 0, 1, 9));
    bufs.filled(2);
    assert_eq!(bufs.slot(1).1, v4(127, 0, 0, 1, 9));
    assert!(bufs.addrs[3].is_none());
    assert_eq!(bufs.lens[3], 1);
}

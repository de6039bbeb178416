//! Buffers for many datagrams at once, and addresses as the socket calls want
//! them.

use vstd::prelude::*;
use vstd::slice::*;

use crate::addr::SocketAddr;

verus! {

/// The room for one datagram.
pub const UDP_BUFFER_BYTES: usize = 65535;

/// How many datagrams one call takes.
pub const BATCH_SIZE: usize = 32;

/// The room for one batch: [`BATCH_SIZE`] times [`UDP_BUFFER_BYTES`].
pub const BATCH_BYTES: usize = 2_097_120;

/// The datagrams of one batch.
#[derive(Debug)]
pub struct BatchBufs {
    /// The room of datagram `i` begins at `i` times [`UDP_BUFFER_BYTES`].
    pub slots: Vec<u8>,
    /// How long each datagram is.
    pub lens: Vec<usize>,
    /// Where each datagram came from, where that is known.
    pub addrs: Vec<Option<SocketAddr>>,
}

impl BatchBufs {
    /// There is room for a whole batch, and no datagram is longer than its room.
    pub open spec fn wf(&self) -> bool {
        &&& self.slots@.len() == BATCH_SIZE * UDP_BUFFER_BYTES
        &&& self.lens@.len() == BATCH_SIZE
        &&& self.addrs@.len() == BATCH_SIZE
        &&& forall|i: int| 0 <= i < BATCH_SIZE ==> #[trigger] self.lens@[i] <= UDP_BUFFER_BYTES
    }

    /// The bytes of datagram `i`.
    pub open spec fn spec_payload(&self, i: int) -> Seq<u8> {
        self.slots@.subrange(i * UDP_BUFFER_BYTES, i * UDP_BUFFER_BYTES + self.lens@[i])
    }

    /// Room for a batch, all zero, with nothing in it.
    pub fn new() -> (bufs: BatchBufs)
        ensures
            bufs.wf(),
            forall|i: int| 0 <= i < bufs.slots@.len() ==> #[trigger] bufs.slots@[i] == 0,
            forall|i: int| 0 <= i < BATCH_SIZE ==> #[trigger] bufs.lens@[i] == 0,
            forall|i: int| 0 <= i < BATCH_SIZE ==> #[trigger] bufs.addrs@[i] is None,
    {
        let slots: Vec<u8> = vec![0; BATCH_BYTES];
        let lens: Vec<usize> = vec![0; BATCH_SIZE];
        let addrs: Vec<Option<SocketAddr>> = vec![None; BATCH_SIZE];
        BatchBufs { slots, lens, addrs }
    }

    /// The last batch that was received has `n` datagrams: what earlier batches
    /// left behind them is no longer there to be read.
    pub fn filled(&mut self, n: usize)
        requires
            old(self).wf(),
            n <= BATCH_SIZE,
        ensures
            final(self).wf(),
            final(self).slots@ == old(self).slots@,
            final(self).lens@ == old(self).lens@,
            forall|i: int|
                0 <= i < n ==> #[trigger] final(self).addrs@[i] == old(self).addrs@[i],
            forall|i: int| n <= i < BATCH_SIZE ==> #[trigger] final(self).addrs@[i] is None,
    {
        let mut i: usize = n;
        while i < BATCH_SIZE
            invariant
                n <= i <= BATCH_SIZE,
                self.slots@ == old(self).slots@,
                self.lens@ == old(self).lens@,
                self.addrs@.len() == BATCH_SIZE,
                forall|j: int| 0 <= j < n ==> #[trigger] self.addrs@[j] == old(self).addrs@[j],
                forall|j: int| n <= j < i ==> #[trigger] self.addrs@[j] is None,
            decreases BATCH_SIZE - i,
        {
            self.addrs.set(i, None);
            i = i + 1;
        }
    }

    /// The bytes of datagram `i`.
    pub fn payload(&self, i: usize) -> (bytes: &[u8])
        requires
            self.wf(),
            i < BATCH_SIZE,
        ensures
            bytes@ == self.spec_payload(i as int),
    {
        let start: usize = i * UDP_BUFFER_BYTES;
        let len: usize = self.lens[i];
        slice_subrange(self.slots.as_slice(), start, start + len)
    }

    /// The bytes of datagram `i` and where it came from. Datagrams that the last
    /// batch does not have cannot be asked for: see [`BatchBufs::filled`].
    pub fn slot(&self, i: usize) -> (datagram: (&[u8], SocketAddr))
        requires
            self.wf(),
            i < BATCH_SIZE,
            self.addrs@[i as int] is Some,
        ensures
            datagram.0@ == self.spec_payload(i as int),
            self.addrs@[i as int] == Some(datagram.1),
    {
        let src = self.addrs[i].unwrap();
        (self.payload(i), src)
    }
}

/// An address as the socket calls want it. The fields that the family does not
/// use are zero.
#[derive(Clone, Copy, Debug, PartialEq, Eq, Structural)]
pub struct RawSockaddr {
    pub family: u16,
    pub port: u16,
    pub v4: u32,
    pub v6: u128,
    pub flowinfo: u32,
    pub scope_id: u32,
}

/// The numbers of the address families, and the sizes of their addresses.
#[derive(Clone, Copy, Debug, PartialEq, Eq, Structural)]
pub struct FamilyCodes {
    pub inet: u16,
    pub inet6: u16,
    pub inet_len: u32,
    pub inet6_len: u32,
}

/// `libc::AF_INET` and `libc::AF_INET6`, and the sizes of `libc::sockaddr_in`
/// and `libc::sockaddr_in6`. The numbers differ between operating systems; what
/// is said of them is that the two families are told apart.
#[verifier::external_body]
fn family_codes() -> (codes: FamilyCodes)
    ensures
        codes.inet != codes.inet6,
{
    FamilyCodes {
        inet: libc::AF_INET as u16,
        inet6: libc::AF_INET6 as u16,
        inet_len: std::mem::size_of::<libc::sockaddr_in>() as u32,
        inet6_len: std::mem::size_of::<libc::sockaddr_in6>() as u32,
    }
}

impl FamilyCodes {
    /// The numbers of this operating system.
    pub fn system() -> (codes: FamilyCodes)
        ensures
            codes.inet != codes.inet6,
    {
        family_codes()
    }
}

pub open spec fn spec_to_sockaddr(addr: SocketAddr, codes: FamilyCodes) -> (RawSockaddr, u32) {
    match addr {
        SocketAddr::V4 { ip, port } => (
            RawSockaddr { family: codes.inet, port, v4: ip, v6: 0, flowinfo: 0, scope_id: 0 },
            codes.inet_len,
        ),
        SocketAddr::V6 { ip, port, flowinfo, scope_id } => (
            RawSockaddr { family: codes.inet6, port, v4: 0, v6: ip, flowinfo, scope_id },
            codes.inet6_len,
        ),
    }
}

pub open spec fn spec_from_sockaddr(
    raw: RawSockaddr,
    len: u32,
    codes: FamilyCodes,
) -> Option<SocketAddr> {
    if raw.family == codes.inet && len >= codes.inet_len {
        Some(SocketAddr::V4 { ip: raw.v4, port: raw.port })
    } else if raw.family == codes.inet6 && len >= codes.inet6_len {
        Some(
            SocketAddr::V6 {
                ip: raw.v6,
                port: raw.port,
                flowinfo: raw.flowinfo,
                scope_id: raw.scope_id,
            },
        )
    } else {
        None
    }
}

/// An address as the socket calls want it, and its size.
pub fn socketaddr_to_sockaddr(addr: SocketAddr, codes: &FamilyCodes) -> (raw: (RawSockaddr, u32))
    ensures
        raw == spec_to_sockaddr(addr, *codes),
{
    match addr {
        SocketAddr::V4 { ip, port } => (
            RawSockaddr { family: codes.inet, port, v4: ip, v6: 0, flowinfo: 0, scope_id: 0 },
            codes.inet_len,
        ),
        SocketAddr::V6 { ip, port, flowinfo, scope_id } => (
            RawSockaddr { family: codes.inet6, port, v4: 0, v6: ip, flowinfo, scope_id },
            codes.inet6_len,
        ),
    }
}

/// The address that the socket calls gave, of which `len` bytes are filled in.
/// `None` if it is of no known family or cut short.
pub fn sockaddr_to_socketaddr(raw: &RawSockaddr, len: u32, codes: &FamilyCodes) -> (addr: Option<
    SocketAddr,
>)
    ensures
        addr == spec_from_sockaddr(*raw, len, *codes),
{
    if raw.family == codes.inet && len >= codes.inet_len {
        Some(SocketAddr::V4 { ip: raw.v4, port: raw.port })
    } else if raw.family == codes.inet6 && len >= codes.inet6_len {
        Some(
            SocketAddr::V6 {
                ip: raw.v6,
                port: raw.port,
                flowinfo: raw.flowinfo,
                scope_id: raw.scope_id,
            },
        )
    } else {
        None
    }
}

/// An address that is turned into what the socket calls want comes back the
/// same.
pub proof fn law_sockaddr_round_trip(addr: SocketAddr, codes: FamilyCodes)
    requires
        codes.inet != codes.inet6,
    ensures
        spec_from_sockaddr(
            spec_to_sockaddr(addr, codes).0,
            spec_to_sockaddr(addr, codes).1,
            codes,
        ) == Some(addr),
{
}

/// The buffers of a batch hold 32 datagrams of up to 65535 bytes, each in a place of
/// its own, and none at first. A datagram is the bytes of its place up to its length,
/// and comes with the address that stands there.
pub proof fn law_a_datagram_stands_in_its_own_place(
    fresh: BatchBufs,
    bufs: &BatchBufs,
    i: usize,
    payload: &[u8],
    datagram: (&[u8], SocketAddr),
    k: int,
)
    requires
        bufs.wf(),
        i < 32,
        bufs.addrs@[i as int] is Some,
        call_ensures(BatchBufs::new, (), fresh),
        call_ensures(BatchBufs::payload, (bufs, i), payload),
        call_ensures(BatchBufs::slot, (bufs, i), datagram),
    ensures
        fresh.slots@.len() == 32 * 65535,
        fresh.addrs@.len() == 32,
        fresh.addrs@[i as int] is None,
        fresh.lens@[i as int] == 0,
        payload@.len() == bufs.lens@[i as int],
        0 <= k < payload@.len() ==> payload@[k] == bufs.slots@[i * 65535 + k],
        datagram.0@ == payload@,
        bufs.addrs@[i as int] == Some(datagram.1),
{
    assert(bufs.lens@[i as int] <= 65535);
    assert(i * 65535 + bufs.lens@[i as int] <= 32 * 65535) by (nonlinear_arith)
        requires
            i < 32,
            bufs.lens@[i as int] <= 65535,
    ;
}

/// After a batch was received only its own datagrams are there.
pub proof fn law_only_the_last_batch_is_there(bufs: &mut BatchBufs, n: usize, i: int)
    requires
        bufs.wf(),
        n <= 32,
        0 <= i < 32,
        call_ensures(BatchBufs::filled, (bufs, n), ()),
    ensures
        i < n ==> final(bufs).addrs@[i] == old(bufs).addrs@[i],
        i >= n ==> final(bufs).addrs@[i] is None,
        final(bufs).slots@ == old(bufs).slots@,
        final(bufs).lens@ == old(bufs).lens@,
{
}

/// An address survives the way to the system and back. What comes from the system is
/// taken exactly if it is of a known family and long enough for it, field by field.
pub proof fn law_addresses_survive_the_system(
    addr: SocketAddr,
    codes: &FamilyCodes,
    sent: (RawSockaddr, u32),
    back: Option<SocketAddr>,
    raw: &RawSockaddr,
    len: u32,
    read: Option<SocketAddr>,
)
    requires
        codes.inet != codes.inet6,
        call_ensures(socketaddr_to_sockaddr, (addr, codes), sent),
        call_ensures(sockaddr_to_socketaddr, (&sent.0, sent.1, codes), back),
        call_ensures(sockaddr_to_socketaddr, (raw, len, codes), read),
    ensures
        back == Some(addr),
        addr is V4 ==> sent.0.family == codes.inet && sent.1 == codes.inet_len,
        addr is V6 ==> sent.0.family == codes.inet6 && sent.1 == codes.inet6_len,
        raw.family == codes.inet ==> read == (if len >= codes.inet_len {
            Some(SocketAddr::V4 { ip: raw.v4, port: raw.port })
        } else {
            None
        }),
        raw.family == codes.inet6 ==> read == (if len >= codes.inet6_len {
            Some(
                SocketAddr::V6 {
                    ip: raw.v6,
                    port: raw.port,
                    flowinfo: raw.flowinfo,
                    scope_id: raw.scope_id,
                },
            )
        } else {
            None
        }),
        raw.family != codes.inet && raw.family != codes.inet6 ==> read is None,
        addr matches SocketAddr::V4 { ip, port } ==> sent.0.v4 == ip && sent.0.port == port,
        addr matches SocketAddr::V6 { ip, port, flowinfo, scope_id } ==> sent.0.v6 == ip
            && sent.0.port == port && sent.0.flowinfo == flowinfo && sent.0.scope_id == scope_id,
{
}

} // verus!

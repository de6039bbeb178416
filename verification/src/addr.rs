//! Internet addresses as plain integers.

use vstd::prelude::*;

verus! {

/// An IP address, in host byte order: `127.0.0.1` is `V4(0x7f00_0001)` and
/// `::1` is `V6(1)`.
#[derive(Clone, Copy, Debug, PartialEq, Eq, Hash, Structural)]
pub enum IpAddr {
    V4(u32),
    V6(u128),
}

/// A socket address. The flow label and the scope only exist for IPv6.
#[derive(Clone, Copy, Debug, PartialEq, Eq, Hash, Structural)]
#[allow(inconsistent_fields)]
pub enum SocketAddr {
    V4 { ip: u32, port: u16 },
    V6 { ip: u128, port: u16, flowinfo: u32, scope_id: u32 },
}

impl SocketAddr {
    pub open spec fn spec_ip(self) -> IpAddr {
        match self {
            SocketAddr::V4 { ip, .. } => IpAddr::V4(ip),
            SocketAddr::V6 { ip, .. } => IpAddr::V6(ip),
        }
    }

    pub open spec fn spec_port(self) -> u16 {
        match self {
            SocketAddr::V4 { port, .. } => port,
            SocketAddr::V6 { port, .. } => port,
        }
    }

    /// The address of `ip` and `port`, with no flow label and no scope.
    pub open spec fn spec_new(ip: IpAddr, port: u16) -> SocketAddr {
        match ip {
            IpAddr::V4(ip) => SocketAddr::V4 { ip, port },
            IpAddr::V6(ip) => SocketAddr::V6 { ip, port, flowinfo: 0, scope_id: 0 },
        }
    }

    pub fn new(ip: IpAddr, port: u16) -> (addr: SocketAddr)
        ensures
            addr == SocketAddr::spec_new(ip, port),
    {
        match ip {
            IpAddr::V4(ip) => SocketAddr::V4 { ip, port },
            IpAddr::V6(ip) => SocketAddr::V6 { ip, port, flowinfo: 0, scope_id: 0 },
        }
    }

    pub fn ip(&self) -> (ip: IpAddr)
        ensures
            ip == self.spec_ip(),
    {
        match *self {
            SocketAddr::V4 { ip, .. } => IpAddr::V4(ip),
            SocketAddr::V6 { ip, .. } => IpAddr::V6(ip),
        }
    }

    pub fn port(&self) -> (port: u16)
        ensures
            port == self.spec_port(),
    {
        match *self {
            SocketAddr::V4 { port, .. } => port,
            SocketAddr::V6 { port, .. } => port,
        }
    }
}

/// An address is made of its ip and port, and shows them again.
pub proof fn law_an_address_is_its_ip_and_port(
    ip: IpAddr,
    port: u16,
    addr: SocketAddr,
    shown_ip: IpAddr,
    shown_port: u16,
)
    requires
        call_ensures(SocketAddr::new, (ip, port), addr),
        call_ensures(SocketAddr::ip, (&addr,), shown_ip),
        call_ensures(SocketAddr::port, (&addr,), shown_port),
    ensures
        shown_ip == ip,
        shown_port == port,
        ip matches IpAddr::V4(v4) ==> addr == (SocketAddr::V4 { ip: v4, port }),
        ip matches IpAddr::V6(v6) ==> addr == (SocketAddr::V6 {
            ip: v6,
            port,
            flowinfo: 0,
            scope_id: 0,
        }),
{
}

} // verus!

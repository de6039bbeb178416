//! Name resolution. Times are nanoseconds: an instant counts them from a fixed
//! origin, a duration is their number.

pub mod cache;
pub mod laws;

use vstd::prelude::*;

use crate::addr::{IpAddr, SocketAddr};

verus! {

/// How the cache behaves.
#[derive(Clone, Copy, Debug, PartialEq, Eq, Structural)]
pub struct ResolverConfig {
    /// No answer is kept for less than this.
    pub cache_floor: u128,
    /// No answer is kept for longer than this.
    pub cache_ceiling: u128,
    /// For how long the last good answer is served once a refresh has failed.
    pub stale_while_error_grace: u128,
    /// For how long a failure is remembered.
    pub negative_cache_retry: u128,
    /// How long one call of the resolver may take.
    pub attempt_timeout: u128,
    /// How many names the cache holds.
    pub max_cache_entries: usize,
    /// How many calls of the resolver may be in flight.
    pub max_concurrent_resolves: usize,
}

impl ResolverConfig {
    /// The bounds on the time to live are in order and no deadline that is
    /// computed at `now` is past the last instant.
    pub open spec fn usable_at(&self, now: u128) -> bool {
        &&& self.cache_floor <= self.cache_ceiling
        &&& now + self.cache_ceiling <= u128::MAX
        &&& now + self.stale_while_error_grace <= u128::MAX
        &&& now + self.negative_cache_retry <= u128::MAX
        &&& self.attempt_timeout + cache::PENDING_ABANDON_MARGIN <= u128::MAX
    }
}

/// Why a name has no addresses.
#[derive(Debug)]
pub enum ResolverError {
    /// The resolver answered with no address.
    EmptyAnswer,
    /// The resolver failed.
    Lookup(String),
    /// That many calls of the resolver were in flight already.
    Overloaded(usize),
}

/// Why a target could not be reached.
#[derive(Debug)]
pub enum ConnectError {
    /// Its name could not be resolved.
    Resolution(ResolverError),
    /// There was no socket for it, or no connection.
    Dial(std::io::Error),
}

impl ResolverError {
    /// The same error once more.
    pub fn duplicate(&self) -> (copy: ResolverError)
        ensures
            copy == *self,
    {
        match self {
            ResolverError::EmptyAnswer => ResolverError::EmptyAnswer,
            ResolverError::Lookup(reason) => ResolverError::Lookup(reason.clone()),
            ResolverError::Overloaded(limit) => ResolverError::Overloaded(*limit),
        }
    }
}

/// What the resolver answered.
#[derive(Debug)]
pub struct ResolveAnswer {
    pub addrs: Vec<IpAddr>,
    pub ttl: u128,
}

/// The addresses of one family, in the order in which they came.
pub open spec fn of_family(ips: Seq<IpAddr>, ipv6: bool) -> Seq<IpAddr> {
    ips.filter(|ip: IpAddr| (ip is V6) == ipv6)
}

/// These addresses with a port.
pub open spec fn with_port(ips: Seq<IpAddr>, port: u16) -> Seq<SocketAddr> {
    ips.map_values(|ip: IpAddr| SocketAddr::spec_new(ip, port))
}

/// Appends the addresses of one family.
fn push_family(addrs: &mut Vec<SocketAddr>, ips: &Vec<IpAddr>, port: u16, ipv6: bool)
    ensures
        final(addrs)@ =~= old(addrs)@ + with_port(of_family(ips@, ipv6), port),
{
    let mut i: usize = 0;
    proof {
        reveal(Seq::filter);
        assert(of_family(ips@.take(0), ipv6) =~= Seq::<IpAddr>::empty());
    }
    while i < ips.len()
        invariant
            i <= ips@.len(),
            addrs@ =~= old(addrs)@ + with_port(of_family(ips@.take(i as int), ipv6), port),
        decreases ips.len() - i,
    {
        let ip = ips[i];
        proof {
            reveal(Seq::filter);
            assert(ips@.take(i + 1).drop_last() =~= ips@.take(i as int));
            assert(ips@.take(i + 1).last() == ip);
        }
        let v6: bool = match ip {
            IpAddr::V4(_) => false,
            IpAddr::V6(_) => true,
        };
        if v6 == ipv6 {
            addrs.push(SocketAddr::new(ip, port));
        }
        i = i + 1;
    }
    assert(ips@.take(i as int) =~= ips@);
}

/// Where to connect to, given the addresses of a name: the preferred family
/// first, each family in the order in which its addresses came.
pub fn order_by_family(ips: &Vec<IpAddr>, port: u16, prefer_ipv6: bool) -> (addrs: Vec<SocketAddr>)
    ensures
        addrs@ =~= with_port(of_family(ips@, prefer_ipv6), port) + with_port(
            of_family(ips@, !prefer_ipv6),
            port,
        ),
{
    let mut addrs: Vec<SocketAddr> = Vec::new();
    push_family(&mut addrs, ips, port, prefer_ipv6);
    push_family(&mut addrs, ips, port, !prefer_ipv6);
    addrs
}

} // verus!

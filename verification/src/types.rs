//! Small types that several parts share.

use vstd::prelude::*;

verus! {

/// Names a rule.
#[derive(Clone, Copy, Debug, PartialEq, Eq, Hash, Structural)]
pub struct RuleId(pub u64);

/// A non-empty range of ports, both ends included.
#[derive(Clone, Copy, Debug, PartialEq, Eq, Structural)]
pub struct PortRange {
    start: u16,
    end: u16,
}

/// Which way bytes flow: `In` from the client to the target, `Out` back.
#[derive(Clone, Copy, Debug, PartialEq, Eq, Structural)]
pub enum BandwidthDirection {
    In,
    Out,
}

/// Why a rate limit turned a connection or a flow away.
#[derive(Clone, Copy, Debug, PartialEq, Eq, Structural)]
pub enum RejectReason {
    ConnConcurrent,
    ConnRate,
    UdpFlowRate,
    OwnerConcurrent,
    OwnerConnRate,
    OwnerUdpFlowRate,
}

impl PortRange {
    pub closed spec fn first(&self) -> int {
        self.start as int
    }

    pub closed spec fn last(&self) -> int {
        self.end as int
    }

    /// The range is not empty and within the ports.
    #[verifier::type_invariant]
    spec fn inv(self) -> bool {
        self.start <= self.end
    }

    pub open spec fn spec_contains(&self, port: int) -> bool {
        self.first() <= port <= self.last()
    }

    pub open spec fn spec_len(&self) -> int {
        self.last() - self.first() + 1
    }

    /// The range from `start` to `end`, if there is one.
    pub fn new(start: u16, end: u16) -> (range: Option<PortRange>)
        ensures
            range is Some <==> start <= end,
            range matches Some(r) ==> r.first() == start && r.last() == end,
    {
        if start <= end {
            Some(PortRange { start, end })
        } else {
            None
        }
    }

    /// The range that holds one port.
    pub fn single(port: u16) -> (range: PortRange)
        ensures
            range.first() == port,
            range.last() == port,
    {
        PortRange { start: port, end: port }
    }

    pub fn start(&self) -> (port: u16)
        ensures
            port == self.first(),
            self.first() <= self.last(),
    {
        proof {
            use_type_invariant(self);
        }
        self.start
    }

    pub fn end(&self) -> (port: u16)
        ensures
            port == self.last(),
            self.first() <= self.last(),
    {
        proof {
            use_type_invariant(self);
        }
        self.end
    }

    /// How many ports the range holds.
    pub fn len(&self) -> (len: u32)
        ensures
            len == self.spec_len(),
            1 <= len <= 65536,
    {
        proof {
            use_type_invariant(self);
        }
        (self.end - self.start) as u32 + 1
    }

    pub fn contains(&self, port: u16) -> (inside: bool)
        ensures
            inside == self.spec_contains(port as int),
    {
        self.start <= port && port <= self.end
    }
}

/// A range is what it was made of: it exists exactly if its ends are in order, holds
/// the ports from its start to its end, and as many as that.
pub proof fn law_a_range_holds_the_ports_between_its_ends(
    start: u16,
    end: u16,
    made: Option<PortRange>,
    port: u16,
    lone: PortRange,
    first: u16,
    last: u16,
    len: u32,
    inside: bool,
)
    requires
        call_ensures(PortRange::new, (start, end), made),
        call_ensures(PortRange::single, (port,), lone),
        made matches Some(range) ==> {
            &&& call_ensures(PortRange::start, (&range,), first)
            &&& call_ensures(PortRange::end, (&range,), last)
            &&& call_ensures(PortRange::len, (&range,), len)
            &&& call_ensures(PortRange::contains, (&range, port), inside)
        },
    ensures
        made is Some <==> start <= end,
        made is Some ==> {
            &&& first == start
            &&& last == end
            &&& len == end - start + 1
            &&& inside <==> start <= port <= end
        },
        lone.first() == port,
        lone.last() == port,
{
}

} // verus!

//! What passes over the wire of the control plane.

pub mod laws;
pub mod message;
pub mod v1;
pub mod wire;

use vstd::prelude::*;

verus! {

/// Which protocol a rule forwards.
#[derive(Clone, Copy, Debug, PartialEq, Eq, Structural)]
pub enum Protocol {
    Tcp,
    Udp,
}

/// The wire did not say which protocol.
#[derive(Clone, Copy, Debug, PartialEq, Eq, Structural)]
pub struct UnspecifiedProtocolError;

impl UnspecifiedProtocolError {
    pub fn message(&self) -> (text: String)
        ensures
            text@ == "wire Protocol::Unspecified cannot be converted to core::Protocol"@,
    {
        "wire Protocol::Unspecified cannot be converted to core::Protocol".to_owned()
    }
}

impl From<Protocol> for v1::Protocol {
    fn from(p: Protocol) -> (wire: v1::Protocol) {
        match p {
            Protocol::Tcp => v1::Protocol::Tcp,
            Protocol::Udp => v1::Protocol::Udp,
        }
    }
}

impl vstd::std_specs::convert::FromSpecImpl<Protocol> for v1::Protocol {
    open spec fn obeys_from_spec() -> bool {
        true
    }

    open spec fn from_spec(p: Protocol) -> v1::Protocol {
        match p {
            Protocol::Tcp => v1::Protocol::Tcp,
            Protocol::Udp => v1::Protocol::Udp,
        }
    }
}

impl Protocol {
    pub open spec fn spec_from_wire(p: v1::Protocol) -> Result<Protocol, UnspecifiedProtocolError> {
        match p {
            v1::Protocol::Tcp => Ok(Protocol::Tcp),
            v1::Protocol::Udp => Ok(Protocol::Udp),
            v1::Protocol::Unspecified => Err(UnspecifiedProtocolError),
        }
    }
}

impl TryFrom<v1::Protocol> for Protocol {
    type Error = UnspecifiedProtocolError;

    fn try_from(p: v1::Protocol) -> (protocol: Result<Protocol, UnspecifiedProtocolError>) {
        match p {
            v1::Protocol::Tcp => Ok(Protocol::Tcp),
            v1::Protocol::Udp => Ok(Protocol::Udp),
            v1::Protocol::Unspecified => Err(UnspecifiedProtocolError),
        }
    }
}

impl vstd::std_specs::convert::TryFromSpecImpl<v1::Protocol> for Protocol {
    open spec fn obeys_try_from_spec() -> bool {
        true
    }

    open spec fn try_from_spec(p: v1::Protocol) -> Result<Protocol, UnspecifiedProtocolError> {
        Protocol::spec_from_wire(p)
    }
}

/// A protocol that was put on the wire is read back from it, and the wire's
/// protocol from what it was read as. Only what the wire leaves open cannot be
/// read.
pub proof fn law_protocol_round_trip(p: Protocol, w: v1::Protocol)
    ensures
        Protocol::spec_from_wire(
            <v1::Protocol as vstd::std_specs::convert::FromSpec<Protocol>>::from_spec(p),
        ) == Ok::<Protocol, UnspecifiedProtocolError>(p),
        Protocol::spec_from_wire(w) matches Ok(read) ==>
            <v1::Protocol as vstd::std_specs::convert::FromSpec<Protocol>>::from_spec(read) == w,
        Protocol::spec_from_wire(w) is Err <==> w == v1::Protocol::Unspecified,
{
}

/// A protocol keeps its name on its way to the wire and back, and only an unspecified
/// one is refused.
pub proof fn law_a_protocol_keeps_its_name(
    p: Protocol,
    sent: v1::Protocol,
    w: v1::Protocol,
    read: Result<Protocol, UnspecifiedProtocolError>,
)
    requires
        call_ensures(<v1::Protocol as From<Protocol>>::from, (p,), sent),
        call_ensures(<Protocol as TryFrom<v1::Protocol>>::try_from, (w,), read),
    ensures
        p is Tcp <==> sent is Tcp,
        p is Udp <==> sent is Udp,
        w is Unspecified <==> read is Err,
        read matches Ok(q) ==> ((q is Tcp <==> w is Tcp) && (q is Udp <==> w is Udp)),
{
}

} // verus!

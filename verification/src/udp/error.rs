//! What an error of a UDP socket means for the flow.

use std::io;

use vstd::prelude::*;

verus! {

/// What is to be done after an error.
#[derive(Clone, Copy, Debug, PartialEq, Eq, Structural)]
pub enum UdpAction {
    /// The socket was not ready: drop the datagram, keep the flow.
    WouldBlock,
    /// The datagram was too large: drop it, keep the flow.
    MessageTooLarge,
    /// The other end is gone: drop the flow.
    Evict,
    /// Anything else: drop the datagram, keep the flow.
    Transient,
}

/// The kinds of error that matter here.
#[derive(Clone, Copy, Debug, PartialEq, Eq, Structural)]
pub enum SocketErrorKind {
    WouldBlock,
    ConnectionRefused,
    ConnectionAborted,
    ConnectionReset,
    HostUnreachable,
    NetworkUnreachable,
    Interrupted,
    Other,
}

/// The numbers that the operating system gives to some errors.
#[derive(Clone, Copy, Debug, PartialEq, Eq, Structural)]
pub struct ErrorCodes {
    pub message_size: i32,
    pub host_unreachable: i32,
    pub network_unreachable: i32,
    pub connection_refused: i32,
}

/// Declares `std::io::Error`.
#[verifier::external_type_specification]
#[verifier::external_body]
pub struct ExIoError(std::io::Error);

/// What `std::io::Error::kind` says of an error, as one of the kinds that matter
/// here.
pub uninterp spec fn io_error_kind(e: std::io::Error) -> SocketErrorKind;

/// What `std::io::Error::raw_os_error` says of an error.
pub uninterp spec fn io_error_code(e: std::io::Error) -> Option<i32>;

/// `std::io::Error::kind`, as one of the kinds that matter here: the same for the
/// same error.
#[verifier::external_body]
fn kind_of(e: &io::Error) -> (kind: SocketErrorKind)
    ensures
        kind == io_error_kind(*e),
{
    match e.kind() {
        io::ErrorKind::WouldBlock => SocketErrorKind::WouldBlock,
        io::ErrorKind::ConnectionRefused => SocketErrorKind::ConnectionRefused,
        io::ErrorKind::ConnectionAborted => SocketErrorKind::ConnectionAborted,
        io::ErrorKind::ConnectionReset => SocketErrorKind::ConnectionReset,
        io::ErrorKind::HostUnreachable => SocketErrorKind::HostUnreachable,
        io::ErrorKind::NetworkUnreachable => SocketErrorKind::NetworkUnreachable,
        io::ErrorKind::Interrupted => SocketErrorKind::Interrupted,
        _ => SocketErrorKind::Other,
    }
}

/// `std::io::Error::raw_os_error`: the number that the operating system gave,
/// if the error came from it. It is the same for the same error.
#[verifier::external_body]
fn raw_code_of(e: &io::Error) -> (code: Option<i32>)
    ensures
        code == io_error_code(*e),
{
    e.raw_os_error()
}

/// `libc::EMSGSIZE`, `libc::EHOSTUNREACH`, `libc::ENETUNREACH` and
/// `libc::ECONNREFUSED`. They differ between operating systems; nothing is said
/// of them.
#[verifier::external_body]
fn error_codes() -> (codes: ErrorCodes) {
    ErrorCodes {
        message_size: libc::EMSGSIZE,
        host_unreachable: libc::EHOSTUNREACH,
        network_unreachable: libc::ENETUNREACH,
        connection_refused: libc::ECONNREFUSED,
    }
}

/// What an error means, by its kind and then by its number.
pub open spec fn action_for(
    kind: SocketErrorKind,
    code: Option<i32>,
    codes: ErrorCodes,
) -> UdpAction {
    match kind {
        SocketErrorKind::WouldBlock => UdpAction::WouldBlock,
        SocketErrorKind::ConnectionRefused
        | SocketErrorKind::ConnectionAborted
        | SocketErrorKind::ConnectionReset
        | SocketErrorKind::HostUnreachable
        | SocketErrorKind::NetworkUnreachable => UdpAction::Evict,
        SocketErrorKind::Interrupted => UdpAction::Transient,
        SocketErrorKind::Other => match code {
            Some(code) => if code == codes.message_size {
                UdpAction::MessageTooLarge
            } else if code == codes.host_unreachable || code == codes.network_unreachable || code
                == codes.connection_refused {
                UdpAction::Evict
            } else {
                UdpAction::Transient
            },
            None => UdpAction::Transient,
        },
    }
}

/// What an error of this kind and with this number means.
pub fn classify(kind: SocketErrorKind, code: Option<i32>, codes: &ErrorCodes) -> (action: UdpAction)
    ensures
        action == action_for(kind, code, *codes),
{
    match kind {
        SocketErrorKind::WouldBlock => UdpAction::WouldBlock,
        SocketErrorKind::ConnectionRefused
        | SocketErrorKind::ConnectionAborted
        | SocketErrorKind::ConnectionReset
        | SocketErrorKind::HostUnreachable
        | SocketErrorKind::NetworkUnreachable => UdpAction::Evict,
        SocketErrorKind::Interrupted => UdpAction::Transient,
        SocketErrorKind::Other => {
            if let Some(code) = code {
                if code == codes.message_size {
                    return UdpAction::MessageTooLarge;
                }
                if code == codes.host_unreachable || code == codes.network_unreachable || code
                    == codes.connection_refused {
                    return UdpAction::Evict;
                }
            }
            UdpAction::Transient
        },
    }
}

/// What an error of a UDP socket means: what [`classify`] says of its kind, its
/// number and the numbers of this operating system. The latter are constants of
/// the machine, of which nothing is said.
pub fn classify_udp_error(e: &io::Error) -> (action: UdpAction)
    ensures
        exists|codes: ErrorCodes|
            action == #[trigger] action_for(io_error_kind(*e), io_error_code(*e), codes),
{
    let kind = kind_of(e);
    let code = raw_code_of(e);
    let codes = error_codes();
    classify(kind, code, &codes)
}

/// A socket that was not ready is not ready; a peer that refuses, aborts, resets or
/// cannot be reached ends the flow; a call that was interrupted passes over. Of all
/// other errors the number decides: that of an oversized message, those of a peer that
/// cannot be reached or refuses, and everything else passes over.
pub proof fn law_errors_end_a_flow_if_the_peer_is_gone(
    kind: SocketErrorKind,
    code: Option<i32>,
    codes: &ErrorCodes,
    action: UdpAction,
)
    requires
        call_ensures(classify, (kind, code, codes), action),
    ensures
        kind == SocketErrorKind::WouldBlock <==> action == UdpAction::WouldBlock,
        kind == SocketErrorKind::ConnectionRefused || kind == SocketErrorKind::ConnectionAborted
            || kind == SocketErrorKind::ConnectionReset || kind == SocketErrorKind::HostUnreachable
            || kind == SocketErrorKind::NetworkUnreachable ==> action == UdpAction::Evict,
        kind == SocketErrorKind::Interrupted ==> action == UdpAction::Transient,
        kind == SocketErrorKind::Other ==> {
            &&& code == Some(codes.message_size) ==> action == UdpAction::MessageTooLarge
            &&& code != Some(codes.message_size) ==> (action == UdpAction::Evict <==> code == Some(
                codes.host_unreachable,
            ) || code == Some(codes.network_unreachable) || code == Some(codes.connection_refused))
            &&& action == UdpAction::MessageTooLarge ==> code == Some(codes.message_size)
            &&& code is None ==> action == UdpAction::Transient
        },
        kind != SocketErrorKind::Other ==> action != UdpAction::MessageTooLarge,
{
}

/// What an error of the system comes to is what its kind and number come to, for some
/// numbers of the system.
pub proof fn law_the_kind_of_an_error_decides(e: &io::Error, action: UdpAction)
    requires
        call_ensures(classify_udp_error, (e,), action),
    ensures
        io_error_kind(*e) == SocketErrorKind::WouldBlock <==> action == UdpAction::WouldBlock,
        io_error_kind(*e) == SocketErrorKind::ConnectionRefused || io_error_kind(*e)
            == SocketErrorKind::ConnectionAborted || io_error_kind(*e)
            == SocketErrorKind::ConnectionReset || io_error_kind(*e)
            == SocketErrorKind::HostUnreachable || io_error_kind(*e)
            == SocketErrorKind::NetworkUnreachable ==> action == UdpAction::Evict,
        io_error_kind(*e) == SocketErrorKind::Interrupted ==> action == UdpAction::Transient,
        io_error_kind(*e) == SocketErrorKind::Other && io_error_code(*e) is None ==> action
            == UdpAction::Transient,
{
}

} // verus!

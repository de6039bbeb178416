//! The PROXY protocol: a header that tells a target where a connection came
//! from.

use vstd::prelude::*;

use crate::addr::{IpAddr, SocketAddr};
use crate::addr_text::push_ip;
use crate::bytes::{push_ascii, push_be, push_dec};

verus! {

/// For how many milliseconds the header may block before the connection is
/// given up.
pub const PRELUDE_WRITE_TIMEOUT_MS: u64 = 10_000;

#[derive(Clone, Copy, Debug, PartialEq, Eq, Structural)]
pub enum ProxyProtocolVersion {
    /// One line of text.
    V1,
    /// Binary.
    V2,
}

/// What the header of a connection says.
#[derive(Clone, Copy, Debug, PartialEq, Eq, Structural)]
pub struct ProxyProtocolPrelude {
    pub version: ProxyProtocolVersion,
    pub source: SocketAddr,
    pub destination: SocketAddr,
}

/// Why there is no header.
#[derive(Clone, Copy, Debug, PartialEq, Eq, Structural)]
pub enum PreludeError {
    /// One address is IPv4 and the other IPv6.
    FamilyMismatch,
}

impl PreludeError {
    pub fn message(&self) -> (text: String)
        ensures
            text@ == "proxy_protocol_family_mismatch"@,
    {
        "proxy_protocol_family_mismatch".to_owned()
    }
}

/// Both addresses are of the same family.
pub open spec fn same_family(source: SocketAddr, destination: SocketAddr) -> bool {
    source is V4 <==> destination is V4
}

pub open spec fn family_word(source: SocketAddr) -> Seq<u8> {
    if source is V4 {
        crate::bytes::ascii("PROXY TCP4 "@)
    } else {
        crate::bytes::ascii("PROXY TCP6 "@)
    }
}

/// The line of the first version.
pub open spec fn v1_line(source: SocketAddr, destination: SocketAddr) -> Seq<u8> {
    let space = crate::bytes::ascii(" "@);
    family_word(source) + crate::addr_text::ip_text(source.spec_ip()) + space
        + crate::addr_text::ip_text(destination.spec_ip()) + space + crate::bytes::dec_text(
        source.spec_port() as nat,
    ) + space + crate::bytes::dec_text(destination.spec_port() as nat) + crate::bytes::ascii(
        "\r\n"@,
    )
}

/// The twelve bytes with which the second version begins.
pub open spec fn v2_signature() -> Seq<u8> {
    seq![0x0d, 0x0a, 0x0d, 0x0a, 0x00, 0x0d, 0x0a, 0x51, 0x55, 0x49, 0x54, 0x0a]
}

pub open spec fn ip_bytes(ip: IpAddr) -> Seq<u8> {
    match ip {
        IpAddr::V4(ip) => crate::bytes::be_bytes(ip as nat, 4),
        IpAddr::V6(ip) => crate::bytes::be_bytes(ip as nat, 16),
    }
}

/// The addresses and ports of the second version.
pub open spec fn v2_addresses(source: SocketAddr, destination: SocketAddr) -> Seq<u8> {
    ip_bytes(source.spec_ip()) + ip_bytes(destination.spec_ip()) + crate::bytes::be_bytes(
        source.spec_port() as nat,
        2,
    ) + crate::bytes::be_bytes(destination.spec_port() as nat, 2)
}

/// The header of the second version: the signature, version and command, family
/// and transport, the length of the rest, and the rest.
pub open spec fn v2_header(source: SocketAddr, destination: SocketAddr) -> Seq<u8> {
    let family: u8 = if source is V4 {
        0x11
    } else {
        0x21
    };
    let len: nat = if source is V4 {
        12
    } else {
        36
    };
    v2_signature() + seq![0x21u8, family] + crate::bytes::be_bytes(len, 2) + v2_addresses(
        source,
        destination,
    )
}

pub open spec fn prelude_bytes(
    version: ProxyProtocolVersion,
    source: SocketAddr,
    destination: SocketAddr,
) -> Seq<u8> {
    match version {
        ProxyProtocolVersion::V1 => v1_line(source, destination),
        ProxyProtocolVersion::V2 => v2_header(source, destination),
    }
}

/// The header that says that a connection goes from `source` to `destination`.
pub fn encode(version: ProxyProtocolVersion, source: SocketAddr, destination: SocketAddr) -> (header:
    Result<Vec<u8>, PreludeError>)
    ensures
        match header {
            Ok(bytes) => same_family(source, destination) && bytes@ == prelude_bytes(
                version,
                source,
                destination,
            ),
            Err(e) => !same_family(source, destination) && e == PreludeError::FamilyMismatch,
        },
{
    match version {
        ProxyProtocolVersion::V1 => encode_v1(source, destination),
        ProxyProtocolVersion::V2 => encode_v2(source, destination),
    }
}

/// The line of the first version.
pub fn encode_v1(source: SocketAddr, destination: SocketAddr) -> (header: Result<
    Vec<u8>,
    PreludeError,
>)
    ensures
        match header {
            Ok(bytes) => same_family(source, destination) && bytes@ == v1_line(source, destination),
            Err(e) => !same_family(source, destination) && e == PreludeError::FamilyMismatch,
        },
{
    proof {
        reveal_strlit("PROXY TCP4 ");
        reveal_strlit("PROXY TCP6 ");
        reveal_strlit(" ");
        reveal_strlit("\r\n");
    }
    let mut line: Vec<u8> = Vec::new();
    match (source, destination) {
        (SocketAddr::V4 { .. }, SocketAddr::V4 { .. }) => push_ascii(&mut line, "PROXY TCP4 "),
        (SocketAddr::V6 { .. }, SocketAddr::V6 { .. }) => push_ascii(&mut line, "PROXY TCP6 "),
        _ => {
            return Err(PreludeError::FamilyMismatch);
        },
    }
    push_ip(&mut line, source.ip());
    push_ascii(&mut line, " ");
    push_ip(&mut line, destination.ip());
    push_ascii(&mut line, " ");
    push_dec(&mut line, source.port() as u64);
    push_ascii(&mut line, " ");
    push_dec(&mut line, destination.port() as u64);
    push_ascii(&mut line, "\r\n");
    assert(line@ =~= v1_line(source, destination));
    Ok(line)
}

fn push_ip_bytes(out: &mut Vec<u8>, ip: IpAddr)
    ensures
        final(out)@ == old(out)@ + ip_bytes(ip),
{
    match ip {
        IpAddr::V4(ip) => push_be(out, ip as u128, 4),
        IpAddr::V6(ip) => push_be(out, ip, 16),
    }
}

/// The header of the second version.
pub fn encode_v2(source: SocketAddr, destination: SocketAddr) -> (header: Result<
    Vec<u8>,
    PreludeError,
>)
    ensures
        match header {
            Ok(bytes) => same_family(source, destination) && bytes@ == v2_header(
                source,
                destination,
            ),
            Err(e) => !same_family(source, destination) && e == PreludeError::FamilyMismatch,
        },
{
    let mut out: Vec<u8> = vec![
        0x0d, 0x0a, 0x0d, 0x0a, 0x00, 0x0d, 0x0a, 0x51, 0x55, 0x49, 0x54, 0x0a, 0x21,
    ];
    match (source, destination) {
        (SocketAddr::V4 { .. }, SocketAddr::V4 { .. }) => {
            out.push(0x11);
            push_be(&mut out, 12, 2);
        },
        (SocketAddr::V6 { .. }, SocketAddr::V6 { .. }) => {
            out.push(0x21);
            push_be(&mut out, 36, 2);
        },
        _ => {
            return Err(PreludeError::FamilyMismatch);
        },
    }
    push_ip_bytes(&mut out, source.ip());
    push_ip_bytes(&mut out, destination.ip());
    push_be(&mut out, source.port() as u128, 2);
    push_be(&mut out, destination.port() as u128, 2);
    assert(out@ =~= v2_header(source, destination));
    Ok(out)
}

/// An address as a number, and its size in bytes.
pub open spec fn ip_value(ip: IpAddr) -> (nat, nat) {
    match ip {
        IpAddr::V4(ip) => (ip as nat, 4),
        IpAddr::V6(ip) => (ip as nat, 16),
    }
}

/// From the header of the second version everything can be read back: the
/// length of what follows the first sixteen bytes, both addresses and both
/// ports.
pub proof fn law_v2_header_reads_back(source: SocketAddr, destination: SocketAddr)
    requires
        same_family(source, destination),
    ensures
        ({
            let header = v2_header(source, destination);
            let (source_ip, size) = ip_value(source.spec_ip());
            let (destination_ip, _) = ip_value(destination.spec_ip());
            let ports: int = 16 + 2 * size as int;
            &&& header.len() == ports + 4
            &&& crate::bytes::be_value(header.subrange(14, 16)) == header.len() - 16
            &&& crate::bytes::be_value(header.subrange(16, 16 + size as int)) == source_ip
            &&& crate::bytes::be_value(header.subrange(16 + size as int, ports))
                == destination_ip
            &&& crate::bytes::be_value(header.subrange(ports, ports + 2))
                == source.spec_port()
            &&& crate::bytes::be_value(header.subrange(ports + 2, ports + 4))
                == destination.spec_port()
        }),
{
    reveal_with_fuel(crate::bytes::byte_range, 17);
    let header = v2_header(source, destination);
    let (source_ip, size) = ip_value(source.spec_ip());
    let (destination_ip, _) = ip_value(destination.spec_ip());
    let ports: int = 16 + 2 * size as int;
    let len: nat = if source is V4 {
        12
    } else {
        36
    };
    crate::bytes::law_be_bytes_round_trip(len, 2);
    crate::bytes::law_be_bytes_round_trip(source_ip, size);
    crate::bytes::law_be_bytes_round_trip(destination_ip, size);
    crate::bytes::law_be_bytes_round_trip(source.spec_port() as nat, 2);
    crate::bytes::law_be_bytes_round_trip(destination.spec_port() as nat, 2);
    assert(header.subrange(14, 16) =~= crate::bytes::be_bytes(len, 2));
    assert(header.subrange(16, 16 + size as int) =~= crate::bytes::be_bytes(source_ip, size));
    assert(header.subrange(16 + size as int, ports) =~= crate::bytes::be_bytes(
        destination_ip,
        size,
    ));
    assert(header.subrange(ports, ports + 2) =~= crate::bytes::be_bytes(
        source.spec_port() as nat,
        2,
    ));
    assert(header.subrange(ports + 2, ports + 4) =~= crate::bytes::be_bytes(
        destination.spec_port() as nat,
        2,
    ));
}

/// A header is made exactly if both ends are of one family. Version 1 is a line of
/// text that names the family, both addresses and both ports, source first; version 2
/// is what [`law_v2_header_reads_back`] reads.
pub proof fn law_a_header_names_source_then_destination(
    source: SocketAddr,
    destination: SocketAddr,
    line: Result<Vec<u8>, PreludeError>,
    first: Result<Vec<u8>, PreludeError>,
    header: Result<Vec<u8>, PreludeError>,
    second: Result<Vec<u8>, PreludeError>,
)
    requires
        call_ensures(encode_v1, (source, destination), line),
        call_ensures(encode, (ProxyProtocolVersion::V1, source, destination), first),
        call_ensures(encode_v2, (source, destination), header),
        call_ensures(encode, (ProxyProtocolVersion::V2, source, destination), second),
    ensures
        line is Ok <==> (source is V4) == (destination is V4),
        header is Ok <==> (source is V4) == (destination is V4),
        line is Ok ==> first is Ok && first->Ok_0@ == line->Ok_0@,
        line is Err ==> first is Err,
        header is Ok ==> second is Ok && second->Ok_0@ == header->Ok_0@,
        header is Err ==> second is Err,
        line matches Ok(bytes) ==> {
            let word: u8 = if source is V4 {
                0x34
            } else {
                0x36
            };
            bytes@ == seq![0x50u8, 0x52, 0x4f, 0x58, 0x59, 0x20, 0x54, 0x43, 0x50, word, 0x20]
                + crate::addr_text::ip_text(
                match source {
                    SocketAddr::V4 { ip, .. } => IpAddr::V4(ip),
                    SocketAddr::V6 { ip, .. } => IpAddr::V6(ip),
                },
            ) + seq![0x20u8] + crate::addr_text::ip_text(
                match destination {
                    SocketAddr::V4 { ip, .. } => IpAddr::V4(ip),
                    SocketAddr::V6 { ip, .. } => IpAddr::V6(ip),
                },
            ) + seq![0x20u8] + crate::bytes::dec_text(
                match source {
                    SocketAddr::V4 { port, .. } => port as nat,
                    SocketAddr::V6 { port, .. } => port as nat,
                },
            ) + seq![0x20u8] + crate::bytes::dec_text(
                match destination {
                    SocketAddr::V4 { port, .. } => port as nat,
                    SocketAddr::V6 { port, .. } => port as nat,
                },
            ) + seq![0x0du8, 0x0a]
        },
{
    reveal_strlit("PROXY TCP4 ");
    reveal_strlit("PROXY TCP6 ");
    reveal_strlit(" ");
    reveal_strlit("\r\n");
    assert(crate::bytes::ascii(" "@) =~= seq![0x20u8]);
    assert(crate::bytes::ascii("\r\n"@) =~= seq![0x0du8, 0x0a]);
    assert(crate::bytes::ascii("PROXY TCP4 "@) =~= seq![
        0x50u8, 0x52, 0x4f, 0x58, 0x59, 0x20, 0x54, 0x43, 0x50, 0x34, 0x20,
    ]);
    assert(crate::bytes::ascii("PROXY TCP6 "@) =~= seq![
        0x50u8, 0x52, 0x4f, 0x58, 0x59, 0x20, 0x54, 0x43, 0x50, 0x36, 0x20,
    ]);
}

/// The text of an address in a header is that of its family.
pub proof fn law_addresses_are_written_by_family(v4: u32, v6: u128)
    ensures
        crate::addr_text::ip_text(IpAddr::V4(v4)) == crate::addr_text::v4_text(v4 as nat),
        crate::addr_text::ip_text(IpAddr::V6(v6)) == crate::addr_text::v6_text(v6 as nat),
{
}

/// A header of version 2 starts with its signature, its version and the command to
/// proxy, then the family over a stream, then the length of what follows: both
/// addresses and both ports, source first, the highest byte first.
pub proof fn law_a_binary_header_reads_back(
    source: SocketAddr,
    destination: SocketAddr,
    made: Result<Vec<u8>, PreludeError>,
)
    requires
        call_ensures(encode_v2, (source, destination), made),
    ensures
        made matches Ok(bytes) ==> {
            let b = bytes@;
            let size: int = if source is V4 {
                4
            } else {
                16
            };
            let ports = 16 + 2 * size;
            &&& b.take(12) == seq![
                0x0du8, 0x0a, 0x0d, 0x0a, 0x00, 0x0d, 0x0a, 0x51, 0x55, 0x49, 0x54, 0x0a,
            ]
            &&& b[12] == 0x21
            &&& b[13] == (if source is V4 {
                0x11u8
            } else {
                0x21u8
            })
            &&& b.len() == ports + 4
            &&& b[14] as int * 256 + b[15] == b.len() - 16
            &&& crate::bytes::be_value(b.subrange(16, 16 + size)) == (match source {
                SocketAddr::V4 { ip, .. } => ip as nat,
                SocketAddr::V6 { ip, .. } => ip as nat,
            })
            &&& crate::bytes::be_value(b.subrange(16 + size, ports)) == (match destination {
                SocketAddr::V4 { ip, .. } => ip as nat,
                SocketAddr::V6 { ip, .. } => ip as nat,
            })
            &&& b[ports] as int * 256 + b[ports + 1] == (match source {
                SocketAddr::V4 { port, .. } => port,
                SocketAddr::V6 { port, .. } => port,
            })
            &&& b[ports + 2] as int * 256 + b[ports + 3] == (match destination {
                SocketAddr::V4 { port, .. } => port,
                SocketAddr::V6 { port, .. } => port,
            })
        },
{
    if let Ok(bytes) = made {
        let b = bytes@;
        law_v2_header_reads_back(source, destination);
        let size: int = if source is V4 {
            4
        } else {
            16
        };
        let ports = 16 + 2 * size;
        assert(b.take(12) =~= v2_signature());
        lemma_two_bytes(b, 14);
        lemma_two_bytes(b, ports);
        lemma_two_bytes(b, ports + 2);
    }
}

proof fn lemma_two_bytes(b: Seq<u8>, at: int)
    requires
        0 <= at,
        at + 2 <= b.len(),
    ensures
        crate::bytes::be_value(b.subrange(at, at + 2)) == b[at] as int * 256 + b[at + 1],
{
    let two = b.subrange(at, at + 2);
    let one = two.drop_last();
    assert(one.drop_last() =~= Seq::<u8>::empty());
    reveal_with_fuel(crate::bytes::be_value, 3);
    assert(two.last() == b[at + 1]);
    assert(one.last() == b[at]);
}

} // verus!

use portunus::addr::{IpAddr, SocketAddr};
use portunus::proxy_protocol::{encode, encode_v1, encode_v2, PreludeError, ProxyProtocolVersion};

fn v4(a: u8, b: u8, c: u8, d: u8, port: u16) -> SocketAddr {
    SocketAddr::new(IpAddr::V4(u32::from_be_bytes([a, b, c, d])), port)
}

fn v6(groups: [u16; 8], port: u16) -> SocketAddr {
    let mut ip: u128 = 0;
    for g in groups {
        ip = (ip << 16) | u128::from(g);
    }
    SocketAddr::new(IpAddr::V6(ip), port)
}

const LOCALHOST6: [u16; 8] = [0, 0, 0, 0, 0, 0, 0, 1];

#[test]
fn proxy_protocol_v1_encodes_ipv4_line() {
    let source = v4(203, 0, 113, 45, 54321);
    let dest = v4(10, 0, 0, 5, 443);
    let bytes = encode_v1(source, dest).expect("encodes");
    assert_eq!(
        String::from_utf8(bytes).expect("utf8"),
        "PROXY TCP4 203.0.113.45 10.0.0.5 54321 443\r\n"
    );
}

#[test]
fn proxy_protocol_v1_encodes_ipv6_line() {
    let source = v6([0x2001, 0xdb8, 0, 0, 0, 0, 0, 0xabcd], 54321);
    let dest = v6(LOCALHOST6, 443);
    let bytes = encode_v1(source, dest).expect("encodes");
    assert_eq!(
        String::from_utf8(bytes).expect("utf8"),
        "PROXY TCP6 2001:db8::abcd ::1 54321 443\r\n"
    );
}

#[test]
fn ipv6_text_follows_the_usual_form() {
    let cases: Vec<([u16; 8], &str)> = vec![
        ([0; 8], "::"),
        ([0x2001, 0, 0, 1, 0, 0, 0, 1], "2001:0:0:1::1"),
        ([0, 0, 0, 0, 0, 0xffff, 0xc000, 0x0201], "::ffff:192.0.2.1"),
        ([1, 2, 3, 4, 5, 6, 7, 8], "1:2:3:4:5:6:7:8"),
        ([1, 0, 3, 4, 5, 6, 7, 8], "1:0:3:4:5:6:7:8"),
        ([0xfe80, 0, 0, 0, 0, 0, 0, 0], "fe80::"),
    ];
    for (groups, text) in cases {
        let line = encode_v1(v6(groups, 1), v6(LOCALHOST6, 2)).expect("encodes");
        assert_eq!(
            String::from_utf8(line).expect("utf8"),
            format!("PROXY TCP6 {text} ::1 1 2\r\n")
        );
    }
}

#[test]
fn proxy_protocol_v2_encodes_ipv4_header() {
    let source = v4(203, 0, 113, 45, 54321);
    let dest = v4(10, 0, 0, 5, 443);
    let bytes = encode_v2(source, dest).expect("encodes");
    assert_eq!(bytes.len(), 28);
    assert_eq!(
        &bytes[..16],
        &[
            0x0d, 0x0a, 0x0d, 0x0a, 0x00, 0x0d, 0x0a, 0x51, 0x55, 0x49, 0x54, 0x0a, 0x21, 0x11,
            0x00, 0x0c,
        ]
    );
    assert_eq!(&bytes[16..20], &[203, 0, 113, 45]);
    assert_eq!(&bytes[20..24], &[10, 0, 0, 5]);
    assert_eq!(&bytes[24..26], &54321u16.to_be_bytes());
    assert_eq!(&bytes[26..28], &443u16.to_be_bytes());
}

#[test]
fn proxy_protocol_v2_rejects_mixed_families() {
    let source = v4(127, 0, 0, 1, 1234);
    let dest = v6(LOCALHOST6, 443);
    let err = encode(ProxyProtocolVersion::V2, source, dest).expect_err("mixed families rejected");
    assert_eq!(err, PreludeError::FamilyMismatch);
    assert_eq!(err.message(), "proxy_protocol_family_mismatch");
}

#[test]
fn encode_dispatches_v2_to_binary_header() {
    let source = v4(127, 0, 0, 1, 1);
    let dest = v4(127, 0, 0, 1, 2);
    let via_encode =
        encode(ProxyProtocolVersion::V2, source, dest).expect("encode dispatches to v2");
    let direct = encode_v2(source, dest).expect("encodes");
    assert_eq!(via_encode, direct);
}

#[test]
fn proxy_protocol_v2_encodes_ipv6_header() {
    let source = v6(LOCALHOST6, 1234);
    let dest = v6([0x2001, 0xdb8, 0, 0, 0, 0, 0, 1], 443);
    let bytes = encode_v2(source, dest).expect("encodes");
    assert_eq!(
        &bytes[..16],
        &[
            0x0d, 0x0a, 0x0d, 0x0a, 0x00, 0x0d, 0x0a, 0x51, 0x55, 0x49, 0x54, 0x0a, 0x21, 0x21,
            0x00, 0x24,
        ]
    );
    assert_eq!(bytes.len(), 52);
    assert_eq!(&bytes[48..50], &1234u16.to_be_bytes());
}

#[test]
fn proxy_protocol_rejects_mixed_families() {
    let source = v4(127, 0, 0, 1, 1234);
    let dest = v6(LOCALHOST6, 443);
    let err = encode(ProxyProtocolVersion::V1, source, dest).expect_err("mixed families rejected");
    assert_eq!(err, PreludeError::FamilyMismatch);
}

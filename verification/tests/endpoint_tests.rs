use netns_kit::cidr::IpAddress;
use netns_kit::endpoint::{parse_endpoint, SocketAddress};

fn v4(a: u8, b: u8, c: u8, d: u8, port: u16) -> SocketAddress {
    SocketAddress { addr: IpAddress::V4(u32::from_be_bytes([a, b, c, d])), port }
}

fn v6(bits: u128, port: u16) -> SocketAddress {
    SocketAddress { addr: IpAddress::V6(bits), port }
}

#[test]
fn test_endpoint_v4() {
    assert_eq!(parse_endpoint(b"10.0.0.1:51820"), Some(v4(10, 0, 0, 1, 51820)));
    assert_eq!(parse_endpoint(b"255.255.255.255:65535"), Some(v4(255, 255, 255, 255, 65535)));
    assert_eq!(parse_endpoint(b"0.0.0.0:0"), Some(v4(0, 0, 0, 0, 0)));
}

#[test]
fn test_endpoint_v4_rejects() {
    assert_eq!(parse_endpoint(b""), None);
    assert_eq!(parse_endpoint(b"10.0.0.1"), None);
    assert_eq!(parse_endpoint(b"10.0.0.1:"), None);
    assert_eq!(parse_endpoint(b"10.0.0:80"), None);
    assert_eq!(parse_endpoint(b"10.0.0.256:80"), None);
    assert_eq!(parse_endpoint(b"010.0.0.1:80"), None);
    assert_eq!(parse_endpoint(b"10.0.0.1:65536"), None);
    assert_eq!(parse_endpoint(b"10.0.0.1:8x"), None);
    assert_eq!(parse_endpoint(b"10.0.0.1:80:81"), None);
}

#[test]
fn test_endpoint_v6() {
    assert_eq!(parse_endpoint(b"[::1]:80"), Some(v6(1, 80)));
    assert_eq!(parse_endpoint(b"[::]:0"), Some(v6(0, 0)));
    assert_eq!(parse_endpoint(b"[fd00::1]:2468"), Some(v6((0xfd00u128 << 112) | 1, 2468)));
    assert_eq!(
        parse_endpoint(b"[1:2:3:4:5:6:7:8]:9"),
        Some(v6(
            (1u128 << 112) | (2u128 << 96) | (3u128 << 80) | (4u128 << 64) | (5u128 << 48)
                | (6u128 << 32) | (7u128 << 16) | 8,
            9,
        ))
    );
    // Upper-case hexadecimal digits are accepted.
    assert_eq!(parse_endpoint(b"[FD00::A]:1"), Some(v6((0xfd00u128 << 112) | 0xa, 1)));
    // A trailing `::` elides the remaining zero groups.
    assert_eq!(parse_endpoint(b"[fe80::]:5"), Some(v6(0xfe80u128 << 112, 5)));
    // The last two groups may be written as a dotted quad.
    assert_eq!(
        parse_endpoint(b"[::ffff:10.0.0.1]:7"),
        Some(v6((0xffffu128 << 32) | 0x0a000001, 7))
    );
}

#[test]
fn test_endpoint_v6_rejects() {
    // A second `::`, too many digits in a group, too many groups, a
    // missing port, an unbracketed v6 address.
    assert_eq!(parse_endpoint(b"[1::2::3]:80"), None);
    assert_eq!(parse_endpoint(b"[12345::]:80"), None);
    assert_eq!(parse_endpoint(b"[1:2:3:4:5:6:7:8:9]:80"), None);
    assert_eq!(parse_endpoint(b"[1:2:3:4:5:6:7]:80"), None);
    assert_eq!(parse_endpoint(b"[::1]"), None);
    assert_eq!(parse_endpoint(b"[::1]80"), None);
    assert_eq!(parse_endpoint(b"[]:80"), None);
    assert_eq!(parse_endpoint(b"fd00::1:80"), None);
    // A dotted quad may not stand before the `::`, nor anywhere but last.
    assert_eq!(parse_endpoint(b"[1.2.3.4::]:80"), None);
    assert_eq!(parse_endpoint(b"[::1.2.3.4:5]:80"), None);
    // `::` standing for no group at all is one group too many.
    assert_eq!(parse_endpoint(b"[1:2:3:4:5:6:7:8::]:80"), None);
}

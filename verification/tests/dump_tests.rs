use netns_kit::cidr::{CidrAddr, IpAddress};
use netns_kit::dump::NetworkStats;
use netns_kit::endpoint::SocketAddress;
use netns_kit::errors::DecodeError;

// 64 hex characters decode to 32 key bytes.
const PRIV_HEX: &str = "1111111111111111111111111111111111111111111111111111111111111111";
const PUB_HEX: &str = "2222222222222222222222222222222222222222222222222222222222222222";
const PEER_HEX: &str = "3333333333333333333333333333333333333333333333333333333333333333";
const PSK_B64: &str = "yG+Xc4BmcF/j5ChWkOloirX6nWxjWqN3p2nihDtGVW4=";

#[test]
fn test_dump_sentinel_values() {
    let dump = format!(
        "{}\t{}\t51820\toff\n{}\t(none)\t(none)\t(none)\t0\t0\t0\toff\n",
        PRIV_HEX, PUB_HEX, PEER_HEX
    );
    let stats = NetworkStats::from_dump(dump.as_bytes()).unwrap();
    assert_eq!(stats.listen_port(), 51820);
    assert_eq!(stats.fwmark(), None);
    assert_eq!(stats.public_key, vec![0x22u8; 32]);
    let peers = stats.peers();
    assert_eq!(peers.len(), 1);
    let peer = &peers[0];
    assert_eq!(peer.public_key, vec![0x33u8; 32]);
    assert!(peer.preshared_key.is_none());
    assert!(peer.endpoint.is_none());
    assert!(peer.allowed_ips.is_empty());
    assert!(peer.latest_handshake.is_none());
    assert_eq!(peer.transfer(), (0, 0));
    assert!(peer.persistent_keepalive.is_none());
}

#[test]
fn test_dump_full_peer() {
    let dump = format!(
        "{}\t{}\t51820\t1234\n{}\t{}\t10.0.0.1:51820\t10.80.69.0/24,fd00::/64\t1700000000\t123\t456\t25\n",
        PRIV_HEX, PUB_HEX, PEER_HEX, PSK_B64
    );
    let stats = NetworkStats::from_dump(dump.as_bytes()).unwrap();
    assert_eq!(stats.fwmark(), Some(1234));
    let peers = stats.peers();
    assert_eq!(peers.len(), 1);
    let peer = &peers[0];
    assert!(peer.preshared_key.is_some());
    assert_eq!(peer.preshared_key.as_ref().unwrap().len(), 32);
    assert_eq!(
        peer.endpoint,
        Some(SocketAddress {
            addr: IpAddress::V4(u32::from_be_bytes([10, 0, 0, 1])),
            port: 51820,
        })
    );
    assert_eq!(
        peer.allowed_ips,
        vec![
            CidrAddr {
                addr: IpAddress::V4(u32::from_be_bytes([10, 80, 69, 0])),
                prefix_len: 24,
            },
            CidrAddr { addr: IpAddress::V6(0xfd00u128 << 112), prefix_len: 64 },
        ]
    );
    assert_eq!(peer.latest_handshake, Some(1700000000));
    assert_eq!(peer.transfer(), (123, 456));
    assert_eq!(peer.persistent_keepalive, Some(25));
}

#[test]
fn test_dump_keepalive_is_own_field() {
    // The keepalive comes from the eighth field, not from the handshake.
    let dump = format!(
        "{}\t{}\t51820\toff\n{}\t(none)\t(none)\t(none)\t99\t0\t0\t25\n",
        PRIV_HEX, PUB_HEX, PEER_HEX
    );
    let stats = NetworkStats::from_dump(dump.as_bytes()).unwrap();
    let peer = &stats.peers()[0];
    assert_eq!(peer.latest_handshake, Some(99));
    assert_eq!(peer.persistent_keepalive, Some(25));
}

#[test]
fn test_dump_interface_field_count() {
    let line = "a\tb\tc\n";
    match NetworkStats::from_dump(line.as_bytes()) {
        Err(e) => assert_eq!(e, DecodeError::InterfaceFieldCount { count: 3 }),
        Ok(_) => panic!("a three-field interface line must not decode"),
    }
    let five = format!("{}\t{}\t51820\toff\textra\n", PRIV_HEX, PUB_HEX);
    match NetworkStats::from_dump(five.as_bytes()) {
        Err(e) => assert_eq!(e, DecodeError::InterfaceFieldCount { count: 5 }),
        Ok(_) => panic!("a five-field interface line must not decode"),
    }
}

#[test]
fn test_dump_peer_field_count() {
    let dump = format!(
        "{}\t{}\t51820\toff\n{}\t(none)\t(none)\t(none)\t0\t0\t0\n",
        PRIV_HEX, PUB_HEX, PEER_HEX
    );
    match NetworkStats::from_dump(dump.as_bytes()) {
        Err(e) => assert_eq!(e, DecodeError::PeerFieldCount { line: 0, count: 7 }),
        Ok(_) => panic!("a seven-field peer line must not decode"),
    }
}

#[test]
fn test_dump_empty_input() {
    match NetworkStats::from_dump(b"") {
        Err(e) => assert_eq!(e, DecodeError::MissingInterfaceLine),
        Ok(_) => panic!("empty input must not decode"),
    }
}

#[test]
fn test_dump_bad_fields() {
    // An unparseable private key.
    let dump = format!("nonsense\t{}\t51820\toff\n", PUB_HEX);
    match NetworkStats::from_dump(dump.as_bytes()) {
        Err(e) => assert_eq!(e, DecodeError::BadInterfaceField { field: 0 }),
        Ok(_) => panic!("a bad private key must not decode"),
    }
    // A peer with a bad public key.
    let dump = format!(
        "{}\t{}\t51820\toff\nshort\t(none)\t(none)\t(none)\t0\t0\t0\toff\n",
        PRIV_HEX, PUB_HEX
    );
    match NetworkStats::from_dump(dump.as_bytes()) {
        Err(e) => assert_eq!(e, DecodeError::BadPeerField { line: 0, field: 0 }),
        Ok(_) => panic!("a bad peer key must not decode"),
    }
    // A peer whose allowed-ips field is empty rather than the sentinel.
    let dump = format!(
        "{}\t{}\t51820\toff\n{}\t(none)\t(none)\t\t0\t0\t0\toff\n",
        PRIV_HEX, PUB_HEX, PEER_HEX
    );
    match NetworkStats::from_dump(dump.as_bytes()) {
        Err(e) => assert_eq!(e, DecodeError::BadPeerField { line: 0, field: 3 }),
        Ok(_) => panic!("an empty allowed-ips field must not decode"),
    }
    // A non-numeric listen port.
    let dump = format!("{}\t{}\tport\toff\n", PRIV_HEX, PUB_HEX);
    match NetworkStats::from_dump(dump.as_bytes()) {
        Err(e) => assert_eq!(e, DecodeError::BadInterfaceField { field: 2 }),
        Ok(_) => panic!("a non-numeric port must not decode"),
    }
    // A firewall mark that is neither `off` nor a number.
    let dump = format!("{}\t{}\t51820\tmaybe\n", PRIV_HEX, PUB_HEX);
    match NetworkStats::from_dump(dump.as_bytes()) {
        Err(e) => assert_eq!(e, DecodeError::BadInterfaceField { field: 3 }),
        Ok(_) => panic!("a malformed firewall mark must not decode"),
    }
    // The second peer line carries the error when the first is sound.
    let dump = format!(
        "{}\t{}\t51820\toff\n{}\t(none)\t(none)\t(none)\t0\t0\t0\toff\n{}\t(none)\t(none)\t(none)\tnever\t0\t0\toff\n",
        PRIV_HEX, PUB_HEX, PEER_HEX, PEER_HEX
    );
    match NetworkStats::from_dump(dump.as_bytes()) {
        Err(e) => assert_eq!(e, DecodeError::BadPeerField { line: 1, field: 4 }),
        Ok(_) => panic!("a malformed handshake must not decode"),
    }
}

#[test]
fn test_dump_malformed_endpoint_fails() {
    // A non-sentinel endpoint must be well-formed socket-address text:
    // anything else is a decode error, never a silently kept value.
    for bad in ["x", "10.0.0.1", "10.0.0.1:", "10.0.0.256:80", "1.2.3.4:65536", "fd00::1:80"] {
        let dump = format!(
            "{}\t{}\t51820\toff\n{}\t(none)\t{}\t(none)\t0\t0\t0\toff\n",
            PRIV_HEX, PUB_HEX, PEER_HEX, bad
        );
        match NetworkStats::from_dump(dump.as_bytes()) {
            Err(e) => assert_eq!(e, DecodeError::BadPeerField { line: 0, field: 2 }),
            Ok(_) => panic!("endpoint {:?} must not decode", bad),
        }
    }
}

#[test]
fn test_dump_v6_endpoint() {
    let dump = format!(
        "{}\t{}\t51820\toff\n{}\t(none)\t[fd00::1]:2468\t(none)\t0\t0\t0\toff\n",
        PRIV_HEX, PUB_HEX, PEER_HEX
    );
    let stats = NetworkStats::from_dump(dump.as_bytes()).unwrap();
    let peer = &stats.peers()[0];
    assert_eq!(
        peer.endpoint,
        Some(SocketAddress { addr: IpAddress::V6((0xfd00u128 << 112) | 1), port: 2468 })
    );
}

#[test]
fn test_dump_peer_order_kept() {
    let dump = format!(
        "{}\t{}\t51820\toff\n{}\t(none)\t(none)\t(none)\t0\t1\t0\toff\n{}\t(none)\t(none)\t(none)\t0\t2\t0\toff\n",
        PRIV_HEX, PUB_HEX, PEER_HEX, PUB_HEX
    );
    let stats = NetworkStats::from_dump(dump.as_bytes()).unwrap();
    let peers = stats.peers();
    assert_eq!(peers.len(), 2);
    assert_eq!(peers[0].transfer(), (1, 0));
    assert_eq!(peers[1].transfer(), (2, 0));
    assert_eq!(peers[0].public_key, vec![0x33u8; 32]);
    assert_eq!(peers[1].public_key, vec![0x22u8; 32]);
}

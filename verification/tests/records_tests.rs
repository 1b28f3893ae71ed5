use netns_kit::cidr::{CidrAddr, IpAddress};
use netns_kit::errors::{DecodeError, NetError, OpKind};
use netns_kit::records::{
    flatten_addrs, link_master_decode, netns_has, netns_list_decode, select_single, AddrInfo,
    AddrRecord, InterfaceShow, LinkInfo, NetnsItem,
};

fn show(operstate: &str) -> InterfaceShow {
    InterfaceShow {
        ifindex: 7,
        ifname: "wg0".to_string(),
        mtu: Some(1420),
        operstate: operstate.to_string(),
    }
}

#[test]
fn test_is_down() {
    assert!(show("DOWN").is_down());
    assert!(!show("UP").is_down());
    assert!(!show("UNKNOWN").is_down());
    assert!(!show("down").is_down());
}

#[test]
fn test_select_single() {
    let one = vec![show("DOWN")];
    let it = select_single(one).unwrap();
    assert_eq!(it.ifname, "wg0");
    assert_eq!(it.mtu, Some(1420));

    match select_single(Vec::new()) {
        Err(NetError::WrongRecordCount { op, count }) => {
            assert!(matches!(op, OpKind::InterfaceShow));
            assert_eq!(count, 0);
        }
        _ => panic!("zero records must be an error"),
    }
    match select_single(vec![show("UP"), show("DOWN")]) {
        Err(NetError::WrongRecordCount { count, .. }) => assert_eq!(count, 2),
        _ => panic!("two records must be an error"),
    }
}

#[test]
fn test_flatten_addrs_single_v4() {
    let records = vec![AddrRecord {
        addr_info: vec![AddrInfo {
            addr: IpAddress::V4(u32::from_be_bytes([10, 80, 69, 7])),
            prefix_len: 24,
        }],
    }];
    let addrs = flatten_addrs(&records).unwrap();
    assert_eq!(
        addrs,
        vec![CidrAddr { addr: IpAddress::V4(u32::from_be_bytes([10, 80, 69, 7])), prefix_len: 24 }]
    );
}

#[test]
fn test_flatten_addrs_empty_is_empty() {
    assert_eq!(flatten_addrs(&Vec::new()).unwrap(), Vec::new());
    let no_entries = vec![AddrRecord { addr_info: Vec::new() }];
    assert_eq!(flatten_addrs(&no_entries).unwrap(), Vec::new());
}

#[test]
fn test_flatten_addrs_order_and_bounds() {
    let records = vec![
        AddrRecord {
            addr_info: vec![
                AddrInfo { addr: IpAddress::V4(1), prefix_len: 32 },
                AddrInfo { addr: IpAddress::V6(2), prefix_len: 128 },
            ],
        },
        AddrRecord { addr_info: vec![AddrInfo { addr: IpAddress::V4(3), prefix_len: 0 }] },
    ];
    let addrs = flatten_addrs(&records).unwrap();
    assert_eq!(
        addrs,
        vec![
            CidrAddr { addr: IpAddress::V4(1), prefix_len: 32 },
            CidrAddr { addr: IpAddress::V6(2), prefix_len: 128 },
            CidrAddr { addr: IpAddress::V4(3), prefix_len: 0 },
        ]
    );

    let bad = vec![AddrRecord {
        addr_info: vec![AddrInfo { addr: IpAddress::V4(1), prefix_len: 33 }],
    }];
    match flatten_addrs(&bad) {
        Err(NetError::Decode(DecodeError::PrefixLenOutOfRange { entry })) => assert_eq!(entry, 0),
        _ => panic!("a 33-bit prefix on a v4 address must be an error"),
    }

    // The error names the first offending entry, counted across records.
    let later = vec![
        AddrRecord { addr_info: vec![AddrInfo { addr: IpAddress::V4(1), prefix_len: 8 }] },
        AddrRecord { addr_info: vec![AddrInfo { addr: IpAddress::V6(2), prefix_len: 129 }] },
    ];
    match flatten_addrs(&later) {
        Err(NetError::Decode(DecodeError::PrefixLenOutOfRange { entry })) => assert_eq!(entry, 1),
        _ => panic!("a 129-bit prefix on a v6 address must be an error"),
    }
}

#[test]
fn test_netns_list_decode() {
    // Empty tool output is an empty listing, never an error.
    let empty = netns_list_decode(&Vec::new(), None).unwrap();
    assert!(empty.is_empty());

    // Non-empty output that did not parse is a decode error.
    match netns_list_decode(&b"bogus".to_vec(), None) {
        Err(NetError::Decode(DecodeError::JsonShape)) => {}
        _ => panic!("unparsed non-empty output must be an error"),
    }

    // Parsed records pass through untouched.
    let items = vec![NetnsItem { name: "blue".to_string(), id: Some(0) }];
    let out = netns_list_decode(&b"[{}]".to_vec(), Some(items)).unwrap();
    assert_eq!(out.len(), 1);
    assert_eq!(out[0].name, "blue");
    assert_eq!(out[0].id, Some(0));
}

#[test]
fn test_link_master_decode() {
    assert_eq!(link_master_decode(&Vec::new(), None).unwrap(), None);
    match link_master_decode(&b"bogus".to_vec(), None) {
        Err(NetError::Decode(DecodeError::JsonShape)) => {}
        _ => panic!("unparsed non-empty output must be an error"),
    }
    let records = vec![LinkInfo { master: Some("br0".to_string()) }];
    assert_eq!(
        link_master_decode(&b"[{}]".to_vec(), Some(records)).unwrap(),
        Some("br0".to_string())
    );
    let none = vec![LinkInfo { master: None }];
    assert_eq!(link_master_decode(&b"[{}]".to_vec(), Some(none)).unwrap(), None);
    assert_eq!(link_master_decode(&b"[]".to_vec(), Some(Vec::new())).unwrap(), None);
}

#[test]
fn test_netns_has() {
    let items = vec![
        NetnsItem { name: "blue".to_string(), id: None },
        NetnsItem { name: "green".to_string(), id: Some(1) },
    ];
    assert!(netns_has(&items, &"blue".to_string()));
    assert!(netns_has(&items, &"green".to_string()));
    assert!(!netns_has(&items, &"red".to_string()));
    assert!(!netns_has(&Vec::new(), &"blue".to_string()));
}

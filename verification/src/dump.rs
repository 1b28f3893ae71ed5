//! The tunnel dump decoder: the tab-delimited, sentinel-valued status
//! report of the tunnel control tool.
//!
//! The first line describes the interface itself in exactly four fields:
//! private key, public key, listen port, firewall mark.  Every following
//! line describes one peer in exactly eight fields.  Absence is encoded by
//! sentinels — `(none)` for keys, endpoints and allowed addresses, `off`
//! for marks and keepalives, a `0` timestamp for "never handshaken" — and
//! each sentinel is matched exactly: malformed input is an error, never a
//! default.  Decoding preserves the tool's peer order.

use vstd::prelude::*;
use crate::cidr::{cidr_of, parse_cidr, CidrAddr};
use crate::endpoint::{endpoint_of, parse_endpoint, SocketAddress};
use crate::errors::DecodeError;
use crate::keys::{
    parse_privkey,
    parse_pubkey,
    parse_secret,
    privkey_bytes_of,
    pubkey_bytes_of,
    secret_bytes_of,
};
use crate::text::{
    bytes_eq,
    dec_val,
    is_digits,
    parse_u16,
    parse_u64,
    parse_usize,
    spec_lines,
    spec_split,
    split_bytes,
    split_lines,
    views_of,
    COMMA,
    TAB,
};

verus! {

/// The bytes of the `(none)` sentinel.
pub open spec fn none_sentinel() -> Seq<u8> {
    seq![40u8, 110u8, 111u8, 110u8, 101u8, 41u8]
}

/// The bytes of the `off` sentinel.
pub open spec fn off_sentinel() -> Seq<u8> {
    seq![111u8, 102u8, 102u8]
}

fn none_sentinel_bytes() -> (r: Vec<u8>)
    ensures
        r@ == none_sentinel(),
{
    let mut v: Vec<u8> = Vec::new();
    v.push(40);
    v.push(110);
    v.push(111);
    v.push(110);
    v.push(101);
    v.push(41);
    proof {
        assert(v@ =~= none_sentinel());
    }
    v
}

fn off_sentinel_bytes() -> (r: Vec<u8>)
    ensures
        r@ == off_sentinel(),
{
    let mut v: Vec<u8> = Vec::new();
    v.push(111);
    v.push(102);
    v.push(102);
    proof {
        assert(v@ =~= off_sentinel());
    }
    v
}

/// The decoded form of one peer line.
#[verifier::ext_equal]
pub struct PeerModel {
    pub public_key: Seq<u8>,
    pub preshared_key: Option<Seq<u8>>,
    pub endpoint: Option<SocketAddress>,
    pub allowed_ips: Seq<CidrAddr>,
    pub latest_handshake: Option<u64>,
    pub transfer_rx: usize,
    pub transfer_tx: usize,
    pub persistent_keepalive: Option<usize>,
}

/// The decoded form of a whole dump.
#[verifier::ext_equal]
pub struct StatsModel {
    pub private_key: Seq<u8>,
    pub public_key: Seq<u8>,
    pub listen_port: u16,
    pub fwmark: Option<u16>,
    pub peers: Seq<PeerModel>,
}

/// Decode an allowed-ips field: the `(none)` sentinel is the empty list;
/// anything else is comma-separated CIDR entries, every one of which must
/// parse.
pub open spec fn allowed_ips_of(field: Seq<u8>) -> Option<Seq<CidrAddr>> {
    if field == none_sentinel() {
        Some(Seq::<CidrAddr>::empty())
    } else {
        let parts = spec_split(field, COMMA);
        if forall|i: int| 0 <= i < parts.len() ==> (#[trigger] cidr_of(parts[i])) is Some {
            Some(Seq::new(parts.len(), |i: int| cidr_of(parts[i])->Some_0))
        } else {
            None
        }
    }
}

/// Decode one peer line: exactly eight tab-separated fields — public key,
/// preshared key, endpoint (socket-address text), allowed ips, latest
/// handshake, received bytes, sent bytes, persistent keepalive.
pub open spec fn peer_of_line(line: Seq<u8>) -> Option<PeerModel> {
    let f = spec_split(line, TAB);
    if f.len() != 8 {
        None
    } else if pubkey_bytes_of(f[0]) is None {
        None
    } else if f[1] != none_sentinel() && secret_bytes_of(f[1]) is None {
        None
    } else if f[2] != none_sentinel() && endpoint_of(f[2]) is None {
        None
    } else if allowed_ips_of(f[3]) is None {
        None
    } else if !(is_digits(f[4]) && dec_val(f[4]) <= u64::MAX) {
        None
    } else if !(is_digits(f[5]) && dec_val(f[5]) <= usize::MAX) {
        None
    } else if !(is_digits(f[6]) && dec_val(f[6]) <= usize::MAX) {
        None
    } else if f[7] != off_sentinel() && !(is_digits(f[7]) && dec_val(f[7]) <= usize::MAX) {
        None
    } else {
        Some(
            PeerModel {
                public_key: pubkey_bytes_of(f[0])->Some_0,
                preshared_key: if f[1] == none_sentinel() {
                    None
                } else {
                    Some(secret_bytes_of(f[1])->Some_0)
                },
                endpoint: if f[2] == none_sentinel() {
                    None
                } else {
                    Some(endpoint_of(f[2])->Some_0)
                },
                allowed_ips: allowed_ips_of(f[3])->Some_0,
                latest_handshake: if dec_val(f[4]) == 0 {
                    None
                } else {
                    Some(dec_val(f[4]) as u64)
                },
                transfer_rx: dec_val(f[5]) as usize,
                transfer_tx: dec_val(f[6]) as usize,
                persistent_keepalive: if f[7] == off_sentinel() {
                    None
                } else {
                    Some(dec_val(f[7]) as usize)
                },
            },
        )
    }
}

/// The error a failing peer line decodes to: the first rule it breaks, in
/// the order the fields stand on the line.
pub open spec fn peer_line_error(line: Seq<u8>, index: usize) -> DecodeError {
    let f = spec_split(line, TAB);
    if f.len() != 8 {
        DecodeError::PeerFieldCount { line: index, count: f.len() as usize }
    } else if pubkey_bytes_of(f[0]) is None {
        DecodeError::BadPeerField { line: index, field: 0 }
    } else if f[1] != none_sentinel() && secret_bytes_of(f[1]) is None {
        DecodeError::BadPeerField { line: index, field: 1 }
    } else if f[2] != none_sentinel() && endpoint_of(f[2]) is None {
        DecodeError::BadPeerField { line: index, field: 2 }
    } else if allowed_ips_of(f[3]) is None {
        DecodeError::BadPeerField { line: index, field: 3 }
    } else if !(is_digits(f[4]) && dec_val(f[4]) <= u64::MAX) {
        DecodeError::BadPeerField { line: index, field: 4 }
    } else if !(is_digits(f[5]) && dec_val(f[5]) <= usize::MAX) {
        DecodeError::BadPeerField { line: index, field: 5 }
    } else if !(is_digits(f[6]) && dec_val(f[6]) <= usize::MAX) {
        DecodeError::BadPeerField { line: index, field: 6 }
    } else {
        DecodeError::BadPeerField { line: index, field: 7 }
    }
}

/// Decode a whole dump: the first line is the interface's own state in
/// exactly four tab-separated fields — private key, public key, listen
/// port, firewall mark — and every further line one peer, in source order.
pub open spec fn stats_of_dump(s: Seq<u8>) -> Option<StatsModel> {
    let lines = spec_lines(s);
    if lines.len() == 0 {
        None
    } else {
        let f = spec_split(lines[0], TAB);
        if f.len() != 4 {
            None
        } else if privkey_bytes_of(f[0]) is None {
            None
        } else if pubkey_bytes_of(f[1]) is None {
            None
        } else if !(is_digits(f[2]) && dec_val(f[2]) <= u16::MAX) {
            None
        } else if f[3] != off_sentinel() && !(is_digits(f[3]) && dec_val(f[3]) <= u16::MAX) {
            None
        } else if exists|i: int|
            1 <= i < lines.len() && (#[trigger] peer_of_line(lines[i])) is None {
            None
        } else {
            Some(
                StatsModel {
                    private_key: privkey_bytes_of(f[0])->Some_0,
                    public_key: pubkey_bytes_of(f[1])->Some_0,
                    listen_port: dec_val(f[2]) as u16,
                    fwmark: if f[3] == off_sentinel() {
                        None
                    } else {
                        Some(dec_val(f[3]) as u16)
                    },
                    peers: Seq::new(
                        (lines.len() - 1) as nat,
                        |i: int| peer_of_line(lines[i + 1])->Some_0,
                    ),
                },
            )
        }
    }
}

/// The index of the first line at or after `i` that fails to decode as a
/// peer, or the line count when every one decodes.
pub open spec fn first_bad_peer(lines: Seq<Seq<u8>>, i: int) -> int
    decreases lines.len() - i,
{
    if i < 0 || i >= lines.len() {
        lines.len() as int
    } else if peer_of_line(lines[i]) is None {
        i
    } else {
        first_bad_peer(lines, i + 1)
    }
}

/// The error a failing dump decodes to: the first rule it breaks, reading
/// the interface line first and then the peer lines in order.
pub open spec fn dump_error(s: Seq<u8>) -> DecodeError {
    let lines = spec_lines(s);
    if lines.len() == 0 {
        DecodeError::MissingInterfaceLine
    } else {
        let f = spec_split(lines[0], TAB);
        if f.len() != 4 {
            DecodeError::InterfaceFieldCount { count: f.len() as usize }
        } else if privkey_bytes_of(f[0]) is None {
            DecodeError::BadInterfaceField { field: 0 }
        } else if pubkey_bytes_of(f[1]) is None {
            DecodeError::BadInterfaceField { field: 1 }
        } else if !(is_digits(f[2]) && dec_val(f[2]) <= u16::MAX) {
            DecodeError::BadInterfaceField { field: 2 }
        } else if f[3] != off_sentinel() && !(is_digits(f[3]) && dec_val(f[3]) <= u16::MAX) {
            DecodeError::BadInterfaceField { field: 3 }
        } else {
            let k = first_bad_peer(lines, 1);
            peer_line_error(lines[k], (k - 1) as usize)
        }
    }
}

/// Everything before `i` decodes, so the first failure at or after `i` is
/// the first failure overall.
proof fn lemma_first_bad_peer_from(lines: Seq<Seq<u8>>, start: int, i: int)
    requires
        1 <= start <= i <= lines.len(),
        forall|j: int| start <= j < i ==> (#[trigger] peer_of_line(lines[j])) is Some,
    ensures
        first_bad_peer(lines, start) == first_bad_peer(lines, i),
    decreases i - start,
{
    if start < i {
        lemma_first_bad_peer_from(lines, start + 1, i);
    }
}

/// Live state of one tunnel peer, as one dump line reports it.
pub struct PeerStats {
    pub public_key: Vec<u8>,
    pub preshared_key: Option<Vec<u8>>,
    pub endpoint: Option<SocketAddress>,
    pub allowed_ips: Vec<CidrAddr>,
    pub latest_handshake: Option<u64>,
    pub transfer_rx: usize,
    pub transfer_tx: usize,
    pub persistent_keepalive: Option<usize>,
}

impl View for PeerStats {
    type V = PeerModel;

    open spec fn view(&self) -> PeerModel {
        PeerModel {
            public_key: self.public_key@,
            preshared_key: match self.preshared_key {
                Some(k) => Some(k@),
                None => None,
            },
            endpoint: self.endpoint,
            allowed_ips: self.allowed_ips@,
            latest_handshake: self.latest_handshake,
            transfer_rx: self.transfer_rx,
            transfer_tx: self.transfer_tx,
            persistent_keepalive: self.persistent_keepalive,
        }
    }
}

#[verifier::loop_isolation(false)]
fn parse_allowed_ips(field: &[u8], index: usize) -> (r: Result<Vec<CidrAddr>, DecodeError>)
    ensures
        r is Ok <==> allowed_ips_of(field@) is Some,
        r matches Ok(v) ==> v@ == allowed_ips_of(field@)->Some_0,
        r is Err ==> r == Err::<Vec<CidrAddr>, DecodeError>(
            DecodeError::BadPeerField { line: index, field: 3 },
        ),
{
    let none_s = none_sentinel_bytes();
    if bytes_eq(field, none_s.as_slice()) {
        let empty: Vec<CidrAddr> = Vec::new();
        proof {
            assert(empty@ =~= allowed_ips_of(field@)->Some_0);
        }
        return Ok(empty);
    }
    let parts = split_bytes(field, COMMA);
    let ghost ps = spec_split(field@, COMMA);
    let mut acc: Vec<CidrAddr> = Vec::new();
    let mut i: usize = 0;
    while i < parts.len()
        invariant
            0 <= i <= parts@.len(),
            views_of(parts@) == ps,
            parts@.len() == ps.len(),
            acc@.len() == i,
            field@ != none_sentinel(),
            forall|j: int| 0 <= j < i ==> (#[trigger] cidr_of(ps[j])) is Some,
            forall|j: int| 0 <= j < i ==> acc@[j] == cidr_of(ps[j])->Some_0,
        decreases parts@.len() - i,
    {
        proof {
            assert(parts@[i as int]@ == ps[i as int]);
        }
        match parse_cidr(parts[i].as_slice()) {
            Some(c) => {
                acc.push(c);
            },
            None => {
                proof {
                    assert(cidr_of(ps[i as int]) is None);
                    assert(!(forall|j: int|
                        0 <= j < ps.len() ==> (#[trigger] cidr_of(ps[j])) is Some));
                }
                return Err(DecodeError::BadPeerField { line: index, field: 3 });
            },
        }
        i += 1;
    }
    proof {
        assert(allowed_ips_of(field@) is Some);
        assert(acc@ =~= allowed_ips_of(field@)->Some_0);
    }
    Ok(acc)
}

impl PeerStats {
    /// Decode one peer line of a dump.  `index` is the peer's position,
    /// counted from zero, and is carried into any error.
    pub fn from_line(line: &[u8], index: usize) -> (r: Result<PeerStats, DecodeError>)
        ensures
            r is Ok <==> peer_of_line(line@) is Some,
            r matches Ok(p) ==> p@ == peer_of_line(line@)->Some_0,
            r is Err ==> r == Err::<PeerStats, DecodeError>(peer_line_error(line@, index)),
    {
        let fields = split_bytes(line, TAB);
        let ghost f = spec_split(line@, TAB);
        proof {
            assert(fields@.len() == f.len());
            assert(forall|k: int| 0 <= k < f.len() ==> (#[trigger] fields@[k])@ == f[k]);
        }
        if fields.len() != 8 {
            return Err(DecodeError::PeerFieldCount { line: index, count: fields.len() });
        }
        let public_key = match parse_pubkey(fields[0].as_slice()) {
            Some(v) => v,
            None => {
                return Err(DecodeError::BadPeerField { line: index, field: 0 });
            },
        };
        let none_s = none_sentinel_bytes();
        let preshared_key = if bytes_eq(fields[1].as_slice(), none_s.as_slice()) {
            None
        } else {
            match parse_secret(fields[1].as_slice()) {
                Some(v) => Some(v),
                None => {
                    return Err(DecodeError::BadPeerField { line: index, field: 1 });
                },
            }
        };
        let endpoint = if bytes_eq(fields[2].as_slice(), none_s.as_slice()) {
            None
        } else {
            match parse_endpoint(fields[2].as_slice()) {
                Some(sa) => Some(sa),
                None => {
                    return Err(DecodeError::BadPeerField { line: index, field: 2 });
                },
            }
        };
        let allowed_ips = match parse_allowed_ips(fields[3].as_slice(), index) {
            Ok(v) => v,
            Err(e) => {
                return Err(e);
            },
        };
        let handshake_secs = match parse_u64(fields[4].as_slice()) {
            Some(v) => v,
            None => {
                return Err(DecodeError::BadPeerField { line: index, field: 4 });
            },
        };
        let latest_handshake = if handshake_secs == 0 {
            None
        } else {
            Some(handshake_secs)
        };
        let transfer_rx = match parse_usize(fields[5].as_slice()) {
            Some(v) => v,
            None => {
                return Err(DecodeError::BadPeerField { line: index, field: 5 });
            },
        };
        let transfer_tx = match parse_usize(fields[6].as_slice()) {
            Some(v) => v,
            None => {
                return Err(DecodeError::BadPeerField { line: index, field: 6 });
            },
        };
        let off_s = off_sentinel_bytes();
        let persistent_keepalive = if bytes_eq(fields[7].as_slice(), off_s.as_slice()) {
            None
        } else {
            match parse_usize(fields[7].as_slice()) {
                Some(v) => Some(v),
                None => {
                    return Err(DecodeError::BadPeerField { line: index, field: 7 });
                },
            }
        };
        let p = PeerStats {
            public_key,
            preshared_key,
            endpoint,
            allowed_ips,
            latest_handshake,
            transfer_rx,
            transfer_tx,
            persistent_keepalive,
        };
        proof {
            assert(peer_of_line(line@) is Some);
            assert(p@ =~~= peer_of_line(line@)->Some_0);
        }
        Ok(p)
    }

    /// The peer's received and sent byte counts, in that order.
    pub fn transfer(&self) -> (r: (usize, usize))
        ensures
            r.0 == self@.transfer_rx,
            r.1 == self@.transfer_tx,
    {
        (self.transfer_rx, self.transfer_tx)
    }
}

/// Live state of a tunnel interface: its own keys, port and mark, plus its
/// peers in the order the dump reported them.
pub struct NetworkStats {
    private_key: Vec<u8>,
    pub public_key: Vec<u8>,
    pub listen_port: u16,
    fwmark: Option<u16>,
    peers: Vec<PeerStats>,
}

impl View for NetworkStats {
    type V = StatsModel;

    closed spec fn view(&self) -> StatsModel {
        StatsModel {
            private_key: self.private_key@,
            public_key: self.public_key@,
            listen_port: self.listen_port,
            fwmark: self.fwmark,
            peers: self.peers@.map_values(|p: PeerStats| p@),
        }
    }
}

impl NetworkStats {
    /// Decode a whole dump.  Fails closed: a missing interface line, a
    /// wrong field count anywhere, or any malformed field is an error,
    /// never a partial record.
    #[verifier::loop_isolation(false)]
    pub fn from_dump(input: &[u8]) -> (r: Result<NetworkStats, DecodeError>)
        ensures
            r is Ok <==> stats_of_dump(input@) is Some,
            r matches Ok(st) ==> st@ == stats_of_dump(input@)->Some_0,
            r is Err ==> r == Err::<NetworkStats, DecodeError>(dump_error(input@)),
    {
        let lines = split_lines(input);
        let ghost ls = spec_lines(input@);
        proof {
            assert(lines@.len() == ls.len());
            assert(forall|k: int| 0 <= k < ls.len() ==> (#[trigger] lines@[k])@ == ls[k]);
        }
        if lines.len() == 0 {
            return Err(DecodeError::MissingInterfaceLine);
        }
        let fields = split_bytes(lines[0].as_slice(), TAB);
        let ghost f = spec_split(ls[0], TAB);
        proof {
            assert(fields@.len() == f.len());
            assert(forall|k: int| 0 <= k < f.len() ==> (#[trigger] fields@[k])@ == f[k]);
        }
        if fields.len() != 4 {
            return Err(DecodeError::InterfaceFieldCount { count: fields.len() });
        }
        let private_key = match parse_privkey(fields[0].as_slice()) {
            Some(v) => v,
            None => {
                return Err(DecodeError::BadInterfaceField { field: 0 });
            },
        };
        let public_key = match parse_pubkey(fields[1].as_slice()) {
            Some(v) => v,
            None => {
                return Err(DecodeError::BadInterfaceField { field: 1 });
            },
        };
        let listen_port = match parse_u16(fields[2].as_slice()) {
            Some(v) => v,
            None => {
                return Err(DecodeError::BadInterfaceField { field: 2 });
            },
        };
        let off_s = off_sentinel_bytes();
        let fwmark = if bytes_eq(fields[3].as_slice(), off_s.as_slice()) {
            None
        } else {
            match parse_u16(fields[3].as_slice()) {
                Some(v) => Some(v),
                None => {
                    return Err(DecodeError::BadInterfaceField { field: 3 });
                },
            }
        };
        let mut peers: Vec<PeerStats> = Vec::new();
        let mut i: usize = 1;
        while i < lines.len()
            invariant
                1 <= i <= lines@.len(),
                lines@.len() == ls.len(),
                forall|k: int| 0 <= k < ls.len() ==> (#[trigger] lines@[k])@ == ls[k],
                peers@.len() == i - 1,
                forall|j: int|
                    1 <= j < i ==> (#[trigger] peer_of_line(ls[j])) is Some,
                forall|j: int|
                    0 <= j < i - 1 ==> (#[trigger] peers@[j])@ == peer_of_line(ls[j + 1])->Some_0,
            decreases lines@.len() - i,
        {
            match PeerStats::from_line(lines[i].as_slice(), i - 1) {
                Ok(p) => {
                    peers.push(p);
                },
                Err(e) => {
                    proof {
                        assert(peer_of_line(ls[i as int]) is None);
                        assert(exists|j: int|
                            1 <= j < ls.len() && (#[trigger] peer_of_line(ls[j])) is None);
                        lemma_first_bad_peer_from(ls, 1, i as int);
                        assert(first_bad_peer(ls, 1) == i as int);
                    }
                    return Err(e);
                },
            }
            i += 1;
        }
        let st = NetworkStats { private_key, public_key, listen_port, fwmark, peers };
        proof {
            assert(forall|j: int|
                1 <= j < ls.len() ==> (#[trigger] peer_of_line(ls[j])) is Some);
            assert(stats_of_dump(input@) is Some);
            assert(st@.peers =~~= stats_of_dump(input@)->Some_0.peers);
            assert(st@ =~~= stats_of_dump(input@)->Some_0);
        }
        Ok(st)
    }

    /// The peers, in dump order.
    pub fn peers(&self) -> (r: &Vec<PeerStats>)
        ensures
            r@.map_values(|p: PeerStats| p@) == self@.peers,
    {
        &self.peers
    }

    /// The interface's listen port.
    pub fn listen_port(&self) -> (r: u16)
        ensures
            r == self@.listen_port,
    {
        self.listen_port
    }

    /// The interface's firewall mark, absent when the dump reported the
    /// `off` sentinel.
    pub fn fwmark(&self) -> (r: Option<u16>)
        ensures
            r == self@.fwmark,
    {
        self.fwmark
    }
}

/// Law: a dump whose interface line does not have exactly four
/// tab-separated fields fails to decode, and so does a dump any of whose
/// peer lines does not have exactly eight — an error, never a partial
/// record.
pub proof fn lemma_dump_field_counts(s: Seq<u8>)
    ensures
        spec_lines(s).len() > 0 && spec_split(spec_lines(s)[0], TAB).len() != 4 ==> stats_of_dump(
            s,
        ) is None,
        forall|i: int|
            1 <= i < spec_lines(s).len() && spec_split(
                #[trigger] spec_lines(s)[i],
                TAB,
            ).len() != 8 ==> stats_of_dump(s) is None,
{
    let lines = spec_lines(s);
    assert forall|i: int|
        1 <= i < lines.len() && spec_split(#[trigger] lines[i], TAB).len() != 8 implies stats_of_dump(
        s,
    ) is None by {
        assert(peer_of_line(lines[i]) is None);
        assert(exists|j: int| 1 <= j < lines.len() && (#[trigger] peer_of_line(lines[j])) is None);
    }
}

} // verus!

//! Typed records decoded from the manager tool's JSON queries, and the
//! record-level rules applied to them.
//!
//! Turning raw JSON text into these records is the embedding application's
//! job (it goes through a JSON deserializer the verifier cannot read); the
//! rules applied after that — empty output means an empty listing, a
//! single-interface query must return exactly one record, address entries
//! are flattened and their prefix lengths checked — are verified here, for
//! every possible decoded value.

use vstd::prelude::*;
use crate::cidr::{CidrAddr, IpAddress};
use crate::errors::{DecodeError, NetError, OpKind};

verus! {

/// One namespace known to the system.  A namespace with no record does
/// not exist.
pub struct NetnsItem {
    pub name: String,
    pub id: Option<usize>,
}

/// The state of one interface, as the link query reports it.
pub struct InterfaceShow {
    pub ifindex: usize,
    pub ifname: String,
    pub mtu: Option<usize>,
    pub operstate: String,
}

impl InterfaceShow {
    /// Whether the interface is administratively/operationally down: the
    /// operational state reads exactly `DOWN`.  Every other value,
    /// `UNKNOWN` included, counts as up.
    pub fn is_down(&self) -> (r: bool)
        ensures
            r == (self.operstate@ == "DOWN"@),
    {
        let down: String = "DOWN".to_owned();
        self.operstate == down
    }
}

/// One record of the link query, reduced to the bridge-enslavement field:
/// the master interface's name, absent when the link is not enslaved.
pub struct LinkInfo {
    pub master: Option<String>,
}

/// One record of the address query: the address entries of one interface.
pub struct AddrRecord {
    pub addr_info: Vec<AddrInfo>,
}

/// One address entry: the address and its prefix length, as reported.
#[derive(Clone, Copy, PartialEq, Eq, Structural, Debug)]
pub struct AddrInfo {
    pub addr: IpAddress,
    pub prefix_len: u8,
}

/// The CIDR record an address entry stands for.
pub open spec fn info_cidr(info: AddrInfo) -> CidrAddr {
    CidrAddr { addr: info.addr, prefix_len: info.prefix_len }
}

/// An address entry is acceptable when its prefix length fits its address
/// family.
pub open spec fn info_ok(info: AddrInfo) -> bool {
    info_cidr(info).wf()
}

/// The address entries of a record list, flattened in source order.
pub open spec fn spec_flatten_infos(records: Seq<AddrRecord>) -> Seq<AddrInfo>
    decreases records.len(),
{
    if records.len() == 0 {
        Seq::<AddrInfo>::empty()
    } else {
        records[0].addr_info@ + spec_flatten_infos(records.skip(1))
    }
}

/// The CIDR records of a record list, flattened in source order.
pub open spec fn spec_flatten_addrs(records: Seq<AddrRecord>) -> Seq<CidrAddr> {
    spec_flatten_infos(records).map_values(|info: AddrInfo| info_cidr(info))
}

proof fn lemma_flatten_snoc(records: Seq<AddrRecord>, rec: AddrRecord)
    ensures
        spec_flatten_infos(records.push(rec)) == spec_flatten_infos(records) + rec.addr_info@,
    decreases records.len(),
{
    if records.len() == 0 {
        assert(spec_flatten_infos(Seq::<AddrRecord>::empty()) == Seq::<AddrInfo>::empty());
        assert(records =~= Seq::<AddrRecord>::empty());
        assert(records.push(rec).skip(1) =~= Seq::<AddrRecord>::empty());
        assert(spec_flatten_infos(records.push(rec)) =~= spec_flatten_infos(records)
            + rec.addr_info@);
    } else {
        lemma_flatten_snoc(records.skip(1), rec);
        assert(records.push(rec).skip(1) =~= records.skip(1).push(rec));
        assert(spec_flatten_infos(records.push(rec)) =~= spec_flatten_infos(records)
            + rec.addr_info@);
    }
}

/// The index of the first flattened entry at or after `i` whose prefix
/// length is out of range, or the entry count when every one fits.
pub open spec fn first_bad_info(flat: Seq<AddrInfo>, i: int) -> int
    decreases flat.len() - i,
{
    if i < 0 || i >= flat.len() {
        flat.len() as int
    } else if !info_ok(flat[i]) {
        i
    } else {
        first_bad_info(flat, i + 1)
    }
}

proof fn lemma_first_bad_info_at(flat: Seq<AddrInfo>, start: int, k: int)
    requires
        0 <= start <= k < flat.len(),
        forall|j: int| start <= j < k ==> info_ok(#[trigger] flat[j]),
        !info_ok(flat[k]),
    ensures
        first_bad_info(flat, start) == k,
    decreases k - start,
{
    if start < k {
        lemma_first_bad_info_at(flat, start + 1, k);
    }
}

proof fn lemma_flatten_all_ok(records: Seq<AddrRecord>)
    requires
        forall|i2: int, j2: int|
            0 <= i2 < records.len() && 0 <= j2 < records[i2].addr_info@.len() ==> info_ok(
                #[trigger] records[i2].addr_info@[j2],
            ),
    ensures
        forall|m: int|
            0 <= m < spec_flatten_infos(records).len() ==> info_ok(
                #[trigger] spec_flatten_infos(records)[m],
            ),
    decreases records.len(),
{
    if records.len() > 0 {
        let rest = records.skip(1);
        assert forall|i2: int, j2: int|
            0 <= i2 < rest.len() && 0 <= j2 < rest[i2].addr_info@.len() implies info_ok(
            #[trigger] rest[i2].addr_info@[j2],
        ) by {
            assert(rest[i2] == records[i2 + 1]);
        }
        lemma_flatten_all_ok(rest);
        assert forall|m: int|
            0 <= m < spec_flatten_infos(records).len() implies info_ok(
            #[trigger] spec_flatten_infos(records)[m],
        ) by {
            if m < records[0].addr_info@.len() {
                assert(spec_flatten_infos(records)[m] == records[0].addr_info@[m]);
            } else {
                assert(spec_flatten_infos(records)[m] == spec_flatten_infos(rest)[m
                    - records[0].addr_info@.len()]);
            }
        }
    }
}

proof fn lemma_flatten_split(records: Seq<AddrRecord>, i: int)
    requires
        0 <= i <= records.len(),
    ensures
        spec_flatten_infos(records) == spec_flatten_infos(records.take(i)) + spec_flatten_infos(
            records.skip(i),
        ),
    decreases i,
{
    if i == 0 {
        assert(records.take(0) =~= Seq::<AddrRecord>::empty());
        assert(records.skip(0) =~= records);
        assert(spec_flatten_infos(Seq::<AddrRecord>::empty()) == Seq::<AddrInfo>::empty());
        assert(spec_flatten_infos(records) =~= spec_flatten_infos(records.take(0))
            + spec_flatten_infos(records.skip(0)));
    } else {
        lemma_flatten_split(records, i - 1);
        lemma_flatten_snoc(records.take(i - 1), records[i - 1]);
        assert(records.take(i) =~= records.take(i - 1).push(records[i - 1]));
        assert(records.skip(i - 1)[0] == records[i - 1]);
        assert(records.skip(i - 1).skip(1) =~= records.skip(i));
        assert(spec_flatten_infos(records.skip(i - 1)) == records[i - 1].addr_info@
            + spec_flatten_infos(records.skip(i)));
        assert(spec_flatten_infos(records) =~= spec_flatten_infos(records.take(i))
            + spec_flatten_infos(records.skip(i)));
    }
}

/// Flatten an address listing into CIDR records, in source order, checking
/// every prefix length against its address family.  Decode fails closed:
/// one bad entry fails the whole listing.  An empty listing — no records,
/// or records with no entries — is an empty list, not an error.
#[verifier::loop_isolation(false)]
pub fn flatten_addrs(records: &Vec<AddrRecord>) -> (r: Result<Vec<CidrAddr>, NetError>)
    ensures
        r is Ok <==> (forall|i: int, j: int|
            0 <= i < records@.len() && 0 <= j < records@[i].addr_info@.len() ==> info_ok(
                #[trigger] records@[i].addr_info@[j],
            )),
        r matches Ok(v) ==> v@ == spec_flatten_addrs(records@),
        r is Err ==> r == Err::<Vec<CidrAddr>, NetError>(
            NetError::Decode(
                DecodeError::PrefixLenOutOfRange {
                    entry: first_bad_info(spec_flatten_infos(records@), 0) as usize,
                },
            ),
        ),
{
    let mut out: Vec<CidrAddr> = Vec::new();
    let mut i: usize = 0;
    while i < records.len()
        invariant
            0 <= i <= records@.len(),
            out@ == spec_flatten_addrs(records@.take(i as int)),
            forall|i2: int, j2: int|
                0 <= i2 < i && 0 <= j2 < records@[i2].addr_info@.len() ==> info_ok(
                    #[trigger] records@[i2].addr_info@[j2],
                ),
        decreases records@.len() - i,
    {
        let infos = &records[i].addr_info;
        let mut j: usize = 0;
        while j < infos.len()
            invariant
                0 <= j <= infos@.len(),
                out@ == spec_flatten_addrs(records@.take(i as int)) + infos@.take(
                    j as int,
                ).map_values(|info: AddrInfo| info_cidr(info)),
                forall|j2: int| 0 <= j2 < j ==> info_ok(#[trigger] infos@[j2]),
            decreases infos@.len() - j,
        {
            let info = infos[j];
            let ok = match info.addr {
                IpAddress::V4(_) => info.prefix_len <= 32,
                IpAddress::V6(_) => info.prefix_len <= 128,
            };
            if !ok {
                proof {
                    let flat = spec_flatten_infos(records@);
                    let a = spec_flatten_infos(records@.take(i as int));
                    lemma_flatten_split(records@, i as int);
                    assert(records@.skip(i as int)[0] == records@[i as int]);
                    assert(records@.skip(i as int).skip(1) =~= records@.skip(i + 1));
                    assert(spec_flatten_infos(records@.skip(i as int)) == records@[i as int].addr_info@
                        + spec_flatten_infos(records@.skip(i + 1)));
                    let k = a.len() + j;
                    assert(out@.len() == a.len() + j);
                    assert(flat[k as int] == infos@[j as int]);
                    assert(!info_ok(flat[k as int]));
                    lemma_flatten_all_ok(records@.take(i as int));
                    assert forall|m: int| 0 <= m < k implies info_ok(#[trigger] flat[m]) by {
                        if m < a.len() {
                            assert(flat[m] == a[m]);
                        } else {
                            assert(flat[m] == infos@[m - a.len()]);
                        }
                    }
                    lemma_first_bad_info_at(flat, 0, k as int);
                }
                return Err(
                    NetError::Decode(DecodeError::PrefixLenOutOfRange { entry: out.len() }),
                );
            }
            out.push(CidrAddr { addr: info.addr, prefix_len: info.prefix_len });
            proof {
                assert(infos@.take(j + 1) =~= infos@.take(j as int).push(info));
                assert(out@ =~= spec_flatten_addrs(records@.take(i as int)) + infos@.take(
                    j + 1,
                ).map_values(|x: AddrInfo| info_cidr(x)));
            }
            j += 1;
        }
        proof {
            lemma_flatten_snoc(records@.take(i as int), records@[i as int]);
            assert(records@.take(i + 1) =~= records@.take(i as int).push(records@[i as int]));
            assert(infos@.take(infos@.len() as int) =~= infos@);
            assert(out@ =~= spec_flatten_addrs(records@.take(i + 1)));
        }
        i += 1;
    }
    proof {
        assert(records@.take(records@.len() as int) =~= records@);
    }
    Ok(out)
}

/// Select the single record a one-interface query must return: any other
/// count — zero matching records included — is an error, not a default.
pub fn select_single(items: Vec<InterfaceShow>) -> (r: Result<InterfaceShow, NetError>)
    ensures
        items@.len() == 1 ==> (r matches Ok(it) && it == items@[0]),
        items@.len() != 1 ==> r == Err::<InterfaceShow, NetError>(
            NetError::WrongRecordCount { op: OpKind::InterfaceShow, count: items@.len() as usize },
        ),
{
    let count = items.len();
    if count == 1 {
        let mut items = items;
        match items.pop() {
            Some(it) => Ok(it),
            None => Err(NetError::WrongRecordCount { op: OpKind::InterfaceShow, count: 0 }),
        }
    } else {
        Err(NetError::WrongRecordCount { op: OpKind::InterfaceShow, count })
    }
}

/// Decode a namespace listing.  Empty tool output is a legitimate empty
/// listing, never an error; non-empty output must have parsed as JSON
/// records (`parsed` is what the application's JSON front end produced,
/// absent when the text did not match the expected shape).
pub fn netns_list_decode(stdout: &Vec<u8>, parsed: Option<Vec<NetnsItem>>) -> (r: Result<
    Vec<NetnsItem>,
    NetError,
>)
    ensures
        stdout@.len() == 0 ==> (r matches Ok(v) && v@.len() == 0),
        stdout@.len() > 0 && parsed is None ==> (r matches Err(e) && e == NetError::Decode(
            DecodeError::JsonShape,
        )),
        stdout@.len() > 0 && parsed is Some ==> (r matches Ok(rv) && rv == parsed->Some_0),
{
    if stdout.len() == 0 {
        return Ok(Vec::new());
    }
    match parsed {
        Some(v) => Ok(v),
        None => Err(NetError::Decode(DecodeError::JsonShape)),
    }
}

/// Read the bridge master off a link query's records: empty output or an
/// empty record list mean the interface reported nothing (no master);
/// otherwise the first record's master field, absent when not enslaved.
pub fn link_master_decode(stdout: &Vec<u8>, parsed: Option<Vec<LinkInfo>>) -> (r: Result<
    Option<String>,
    NetError,
>)
    ensures
        stdout@.len() == 0 ==> (r matches Ok(m) && m is None),
        stdout@.len() > 0 && parsed is None ==> (r matches Err(e) && e == NetError::Decode(
            DecodeError::JsonShape,
        )),
        stdout@.len() > 0 && parsed is Some ==> (r matches Ok(m) && (parsed->Some_0@.len() == 0
            ==> m is None) && (parsed->Some_0@.len() > 0 ==> m == parsed->Some_0@[0].master)),
{
    if stdout.len() == 0 {
        return Ok(None);
    }
    match parsed {
        Some(records) => {
            if records.len() == 0 {
                Ok(None)
            } else {
                let mut records = records;
                let first = records.remove(0);
                Ok(first.master)
            }
        },
        None => Err(NetError::Decode(DecodeError::JsonShape)),
    }
}

/// Whether a namespace listing contains a record with the given name.
pub fn netns_has(items: &Vec<NetnsItem>, name: &String) -> (r: bool)
    ensures
        r == (exists|i: int| 0 <= i < items@.len() && (#[trigger] items@[i]).name@ == name@),
{
    let mut i: usize = 0;
    while i < items.len()
        invariant
            0 <= i <= items@.len(),
            forall|j: int| 0 <= j < i ==> (#[trigger] items@[j]).name@ != name@,
        decreases items@.len() - i,
    {
        if items[i].name == *name {
            return true;
        }
        i += 1;
    }
    false
}

} // verus!

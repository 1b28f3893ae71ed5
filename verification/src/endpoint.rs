//! Socket-address text, decoded by verified byte-level parsing.
//!
//! A peer endpoint in the tunnel dump is socket-address text: either
//! `a.b.c.d:port`, or `[v6]:port` with the address in the usual IPv6
//! notation — hexadecimal groups of one to four digits separated by
//! colons, at most one `::` eliding one or more zero groups, and
//! optionally the last two groups written as a dotted quad.  Octets are
//! decimal, at most 255, without leading zeros; the port is decimal, at
//! most 65535.  Anything else fails to decode.

use vstd::prelude::*;
use crate::cidr::IpAddress;
use crate::text::{
    dec_val,
    is_digits,
    parse_u16,
    spec_split,
    split_bytes,
    views_of,
};

verus! {

/// Full stop, the octet separator of dotted-quad text.
pub const DOT: u8 = 46;
/// Colon, the group separator of socket-address and IPv6 text.
pub const COLON: u8 = 58;
/// Opening square bracket, around the address of a v6 endpoint.
pub const LBRACKET: u8 = 91;
/// Closing square bracket.
pub const RBRACKET: u8 = 93;

/// A socket address as plain data: an IP address and a port.
#[derive(Clone, Copy, PartialEq, Eq, Structural, Debug)]
pub struct SocketAddress {
    pub addr: IpAddress,
    pub port: u16,
}

/// Whether `b` is a hexadecimal digit, either case.
pub open spec fn is_hex_digit(b: u8) -> bool {
    (48 <= b <= 57) || (97 <= b <= 102) || (65 <= b <= 70)
}

/// The value of one hexadecimal digit (meaningful when `is_hex_digit`).
pub open spec fn hex_digit_val(b: u8) -> int {
    if 48 <= b <= 57 {
        b - 48
    } else if 97 <= b <= 102 {
        b - 87
    } else {
        b - 55
    }
}

/// The value of `s` read as a hexadecimal numeral.
pub open spec fn hex_val(s: Seq<u8>) -> int
    decreases s.len(),
{
    if s.len() == 0 {
        0
    } else {
        hex_val(s.drop_last()) * 16 + hex_digit_val(s.last())
    }
}

/// An IPv6 group: one to four hexadecimal digits.
pub open spec fn is_group(s: Seq<u8>) -> bool {
    1 <= s.len() <= 4 && forall|i: int| 0 <= i < s.len() ==> is_hex_digit(#[trigger] s[i])
}

/// Parse one IPv6 group.
fn parse_group(s: &[u8]) -> (r: Option<u16>)
    ensures
        r is Some <==> is_group(s@),
        r matches Some(v) ==> v == hex_val(s@),
{
    if s.len() < 1 || s.len() > 4 {
        return None;
    }
    let mut acc: u16 = 0;
    let mut i: usize = 0;
    proof {
        assert(s@.take(0) =~= Seq::<u8>::empty());
    }
    while i < s.len()
        invariant
            0 <= i <= s@.len(),
            1 <= s@.len() <= 4,
            forall|j: int| 0 <= j < i ==> is_hex_digit(#[trigger] s@[j]),
            acc == hex_val(s@.take(i as int)),
            i == 0 ==> acc == 0,
            i == 1 ==> acc <= 15,
            i == 2 ==> acc <= 255,
            i == 3 ==> acc <= 4095,
        decreases s@.len() - i,
    {
        let b = s[i];
        let d: u16 = if 48 <= b && b <= 57 {
            (b - 48) as u16
        } else if 97 <= b && b <= 102 {
            (b - 87) as u16
        } else if 65 <= b && b <= 70 {
            (b - 55) as u16
        } else {
            assert(!is_hex_digit(s@[i as int]));
            return None;
        };
        proof {
            assert(s@.take(i + 1) =~= s@.take(i as int).push(b));
            assert(s@.take(i + 1).drop_last() =~= s@.take(i as int));
        }
        acc = acc * 16 + d;
        i += 1;
    }
    proof {
        assert(s@.take(s@.len() as int) =~= s@);
    }
    Some(acc)
}

/// A dotted-quad octet: decimal, at most three digits, at most 255, no
/// leading zero.
pub open spec fn is_octet(s: Seq<u8>) -> bool {
    1 <= s.len() <= 3 && is_digits(s) && dec_val(s) <= 255 && (s.len() > 1 ==> s[0] != 48)
}

fn parse_octet(s: &[u8]) -> (r: Option<u8>)
    ensures
        r is Some <==> is_octet(s@),
        r matches Some(v) ==> v == dec_val(s@),
{
    if s.len() < 1 || s.len() > 3 {
        return None;
    }
    if s.len() > 1 && s[0] == 48 {
        return None;
    }
    match crate::text::parse_u64(s) {
        Some(v) => if v <= 255 {
            Some(v as u8)
        } else {
            None
        },
        None => None,
    }
}

/// The dotted-quad address value: four octets, most significant first.
pub open spec fn v4_of(s: Seq<u8>) -> Option<u32> {
    let parts = spec_split(s, DOT);
    if parts.len() == 4 && is_octet(parts[0]) && is_octet(parts[1]) && is_octet(parts[2])
        && is_octet(parts[3]) {
        Some(
            (dec_val(parts[0]) * 0x1000000 + dec_val(parts[1]) * 0x10000 + dec_val(parts[2])
                * 0x100 + dec_val(parts[3])) as u32,
        )
    } else {
        None
    }
}

/// Parse dotted-quad IPv4 text.
fn parse_v4(s: &[u8]) -> (r: Option<u32>)
    ensures
        r == v4_of(s@),
{
    let parts = split_bytes(s, DOT);
    proof {
        assert(forall|k: int|
            0 <= k < parts@.len() ==> (#[trigger] parts@[k])@ == spec_split(s@, DOT)[k]);
    }
    if parts.len() != 4 {
        return None;
    }
    let o0 = match parse_octet(parts[0].as_slice()) {
        Some(v) => v,
        None => return None,
    };
    let o1 = match parse_octet(parts[1].as_slice()) {
        Some(v) => v,
        None => return None,
    };
    let o2 = match parse_octet(parts[2].as_slice()) {
        Some(v) => v,
        None => return None,
    };
    let o3 = match parse_octet(parts[3].as_slice()) {
        Some(v) => v,
        None => return None,
    };
    Some((o0 as u32) * 0x1000000 + (o1 as u32) * 0x10000 + (o2 as u32) * 0x100 + (o3 as u32))
}

/// The index of the first `::` at or after `i`, or `-1` when there is
/// none.
pub open spec fn find_dc(s: Seq<u8>, i: int) -> int
    decreases s.len() - i,
{
    if i < 0 || i + 1 >= s.len() {
        -1
    } else if s[i] == COLON && s[i + 1] == COLON {
        i
    } else {
        find_dc(s, i + 1)
    }
}

proof fn lemma_find_dc_from(s: Seq<u8>, start: int, i: int)
    requires
        0 <= start <= i,
        forall|j: int| start <= j < i ==> !(s[j] == COLON && #[trigger] s[j + 1] == COLON),
    ensures
        find_dc(s, start) == find_dc(s, i),
    decreases i - start,
{
    if start < i {
        lemma_find_dc_from(s, start + 1, i);
    }
}

fn find_double_colon(s: &[u8]) -> (r: Option<usize>)
    ensures
        r is Some <==> find_dc(s@, 0) >= 0,
        r matches Some(k) ==> k == find_dc(s@, 0) && k + 1 < s@.len(),
{
    if s.len() < 2 {
        return None;
    }
    let mut i: usize = 0;
    while i < s.len() - 1
        invariant
            0 <= i <= s@.len() - 1,
            s@.len() >= 2,
            forall|j: int| 0 <= j < i ==> !(s@[j] == COLON && #[trigger] s@[j + 1] == COLON),
        decreases s@.len() - i,
    {
        if s[i] == COLON && s[i + 1] == COLON {
            proof {
                lemma_find_dc_from(s@, 0, i as int);
            }
            return Some(i);
        }
        i += 1;
    }
    proof {
        lemma_find_dc_from(s@, 0, i as int);
    }
    None
}

/// Whether every piece is an IPv6 group.
pub open spec fn all_groups(parts: Seq<Seq<u8>>) -> bool {
    forall|i: int| 0 <= i < parts.len() ==> is_group(#[trigger] parts[i])
}

/// The 16-bit values of a run of groups (meaningful when `all_groups`).
pub open spec fn group_vals(parts: Seq<Seq<u8>>) -> Seq<u16> {
    parts.map_values(|p: Seq<u8>| hex_val(p) as u16)
}

/// The 16-bit values of a colon-separated piece list: all groups, or all
/// groups followed by one dotted quad standing for two groups.
pub open spec fn piece_vals(parts: Seq<Seq<u8>>) -> Option<Seq<u16>> {
    if parts.len() == 0 {
        Some(Seq::<u16>::empty())
    } else if all_groups(parts) {
        Some(group_vals(parts))
    } else if all_groups(parts.drop_last()) && v4_of(parts.last()) is Some {
        Some(
            group_vals(parts.drop_last()) + seq![
                (v4_of(parts.last())->Some_0 / 0x10000) as u16,
                (v4_of(parts.last())->Some_0 % 0x10000) as u16,
            ],
        )
    } else {
        None
    }
}

/// The eight 16-bit groups of IPv6 text: either eight explicit groups, or
/// fewer with one `::` standing for the missing zero groups.
pub open spec fn v6_groups_of(s: Seq<u8>) -> Option<Seq<u16>> {
    let dc = find_dc(s, 0);
    if dc < 0 {
        match piece_vals(spec_split(s, COLON)) {
            Some(vals) => if vals.len() == 8 {
                Some(vals)
            } else {
                None
            },
            None => None,
        }
    } else {
        let left = s.take(dc);
        let right = s.skip(dc + 2);
        let lparts = if left.len() == 0 {
            Seq::<Seq<u8>>::empty()
        } else {
            spec_split(left, COLON)
        };
        let rparts = if right.len() == 0 {
            Seq::<Seq<u8>>::empty()
        } else {
            spec_split(right, COLON)
        };
        if !all_groups(lparts) {
            None
        } else {
            match piece_vals(rparts) {
                Some(rv) => {
                    let lv = group_vals(lparts);
                    if lv.len() + rv.len() <= 7 {
                        Some(lv + Seq::new((8 - lv.len() - rv.len()) as nat, |i: int| 0u16) + rv)
                    } else {
                        None
                    }
                },
                None => None,
            }
        }
    }
}

/// The address value of eight 16-bit groups, most significant first.
pub open spec fn v6_val(vals: Seq<u16>) -> int
    decreases vals.len(),
{
    if vals.len() == 0 {
        0
    } else {
        v6_val(vals.drop_last()) * 0x10000 + vals.last()
    }
}

/// The largest value `n` groups can take.
spec fn max16(n: int) -> int
    decreases n,
{
    if n <= 0 {
        0
    } else {
        max16(n - 1) * 0x10000 + 0xFFFF
    }
}

proof fn lemma_v6_val_bound(vals: Seq<u16>)
    ensures
        0 <= v6_val(vals) <= max16(vals.len() as int),
    decreases vals.len(),
{
    if vals.len() > 0 {
        lemma_v6_val_bound(vals.drop_last());
    }
}

proof fn lemma_max16_nonneg(n: int)
    ensures
        max16(n) >= 0,
    decreases n,
{
    if n > 0 {
        lemma_max16_nonneg(n - 1);
    }
}

proof fn lemma_max16_mono(a: int, b: int)
    requires
        a <= b,
    ensures
        max16(a) <= max16(b),
    decreases b - a,
{
    if a < b {
        lemma_max16_mono(a, b - 1);
        lemma_max16_nonneg(b - 1);
    }
}

proof fn lemma_max16_full()
    ensures
        max16(8) == u128::MAX as int,
{
    assert(max16(0) == 0);
    assert(max16(1) == 0xFFFF);
    assert(max16(2) == 0xFFFF_FFFF);
    assert(max16(3) == 0xFFFF_FFFF_FFFF);
    assert(max16(4) == 0xFFFF_FFFF_FFFF_FFFF);
    assert(max16(5) == 0xFFFF_FFFF_FFFF_FFFF_FFFF);
    assert(max16(6) == 0xFFFF_FFFF_FFFF_FFFF_FFFF_FFFF);
    assert(max16(7) == 0xFFFF_FFFF_FFFF_FFFF_FFFF_FFFF_FFFF);
    assert(max16(8) == 0xFFFF_FFFF_FFFF_FFFF_FFFF_FFFF_FFFF_FFFF);
}

/// The IPv6 address value of the text, when it is well formed.
pub open spec fn v6_of(s: Seq<u8>) -> Option<u128> {
    match v6_groups_of(s) {
        Some(vals) => Some(v6_val(vals) as u128),
        None => None,
    }
}

fn sub_bytes(s: &[u8], from: usize, to: usize) -> (r: Vec<u8>)
    requires
        from <= to <= s@.len(),
    ensures
        r@ == s@.subrange(from as int, to as int),
{
    let mut out: Vec<u8> = Vec::new();
    let mut i: usize = from;
    proof {
        assert(s@.subrange(from as int, from as int) =~= Seq::<u8>::empty());
    }
    while i < to
        invariant
            from <= i <= to <= s@.len(),
            out@ == s@.subrange(from as int, i as int),
        decreases to - i,
    {
        out.push(s[i]);
        proof {
            assert(s@.subrange(from as int, i + 1) =~= s@.subrange(from as int, i as int).push(
                s@[i as int],
            ));
        }
        i += 1;
    }
    out
}

#[verifier::loop_isolation(false)]
fn parse_pieces(parts: &Vec<Vec<u8>>) -> (r: Option<Vec<u16>>)
    ensures
        r is Some <==> piece_vals(views_of(parts@)) is Some,
        r matches Some(v) ==> v@ == piece_vals(views_of(parts@))->Some_0,
{
    let ghost ps = views_of(parts@);
    proof {
        assert(forall|k: int| 0 <= k < ps.len() ==> (#[trigger] parts@[k])@ == ps[k]);
    }
    if parts.len() == 0 {
        let empty: Vec<u16> = Vec::new();
        proof {
            assert(empty@ =~= piece_vals(ps)->Some_0);
        }
        return Some(empty);
    }
    let mut vals: Vec<u16> = Vec::new();
    let mut i: usize = 0;
    while i < parts.len() - 1
        invariant
            0 <= i <= ps.len() - 1,
            vals@.len() == i,
            forall|j: int| 0 <= j < i ==> is_group(#[trigger] ps[j]),
            forall|j: int| 0 <= j < i ==> vals@[j] == hex_val(ps[j]) as u16,
        decreases ps.len() - 1 - i,
    {
        match parse_group(parts[i].as_slice()) {
            Some(v) => {
                vals.push(v);
            },
            None => {
                proof {
                    assert(!is_group(ps[i as int]));
                    assert(!all_groups(ps));
                    assert(ps.drop_last()[i as int] == ps[i as int]);
                    assert(!all_groups(ps.drop_last()));
                }
                return None;
            },
        }
        i += 1;
    }
    match parse_group(parts[parts.len() - 1].as_slice()) {
        Some(v) => {
            vals.push(v);
            proof {
                assert(all_groups(ps));
                assert(vals@ =~= group_vals(ps));
            }
            Some(vals)
        },
        None => {
            proof {
                assert(!is_group(ps.last()));
                assert(!all_groups(ps));
                assert(ps.drop_last() =~= ps.take(ps.len() - 1));
            }
            match parse_v4(parts[parts.len() - 1].as_slice()) {
                Some(q) => {
                    proof {
                        assert(all_groups(ps.drop_last()));
                        assert(q / 0x10000 <= 0xFFFF) by (nonlinear_arith)
                            requires
                                q <= u32::MAX,
                        ;
                    }
                    vals.push((q / 0x10000) as u16);
                    vals.push((q % 0x10000) as u16);
                    proof {
                        assert(vals@ =~= piece_vals(ps)->Some_0);
                    }
                    Some(vals)
                },
                None => None,
            }
        },
    }
}

#[verifier::loop_isolation(false)]
fn combine_groups(vals: &Vec<u16>) -> (r: u128)
    requires
        vals@.len() == 8,
    ensures
        r == v6_val(vals@),
{
    let mut acc: u128 = 0;
    let mut k: usize = 0;
    proof {
        assert(vals@.take(0) =~= Seq::<u16>::empty());
    }
    while k < 8
        invariant
            0 <= k <= 8,
            acc == v6_val(vals@.take(k as int)),
        decreases 8 - k,
    {
        proof {
            lemma_v6_val_bound(vals@.take(k as int));
            lemma_max16_mono(k as int, 7);
            lemma_max16_full();
            assert(max16(8) == max16(7) * 0x10000 + 0xFFFF);
            assert(vals@.take(k + 1) =~= vals@.take(k as int).push(vals@[k as int]));
            assert(vals@.take(k + 1).drop_last() =~= vals@.take(k as int));
        }
        acc = acc * 0x10000 + (vals[k] as u128);
        k += 1;
    }
    proof {
        assert(vals@.take(8) =~= vals@);
    }
    acc
}

/// Parse IPv6 address text.
#[verifier::loop_isolation(false)]
fn parse_v6(s: &[u8]) -> (r: Option<u128>)
    ensures
        r == v6_of(s@),
{
    match find_double_colon(s) {
        None => {
            let parts = split_bytes(s, COLON);
            match parse_pieces(&parts) {
                Some(vals) => {
                    if vals.len() != 8 {
                        return None;
                    }
                    Some(combine_groups(&vals))
                },
                None => None,
            }
        },
        Some(dc) => {
            let n = s.len();
            proof {
                assert(dc + 2 <= n);
            }
            let ghost left = s@.take(dc as int);
            let ghost right = s@.skip(dc + 2);
            let left_b = sub_bytes(s, 0, dc);
            let right_b = sub_bytes(s, dc + 2, n);
            proof {
                assert(left_b@ =~= left);
                assert(right_b@ =~= right);
            }
            let lparts = if left_b.len() == 0 {
                Vec::new()
            } else {
                split_bytes(left_b.as_slice(), COLON)
            };
            let rparts = if right_b.len() == 0 {
                Vec::new()
            } else {
                split_bytes(right_b.as_slice(), COLON)
            };
            proof {
                if left.len() == 0 {
                    assert(views_of(lparts@) =~= Seq::<Seq<u8>>::empty());
                } else {
                    assert(views_of(lparts@) == spec_split(left, COLON));
                }
                if right.len() == 0 {
                    assert(views_of(rparts@) =~= Seq::<Seq<u8>>::empty());
                } else {
                    assert(views_of(rparts@) == spec_split(right, COLON));
                }
            }
            let ghost lps = views_of(lparts@);
            let lvals = match parse_pieces(&lparts) {
                Some(v) => v,
                None => {
                    // Every run of plain groups has piece values, so a
                    // failure here means the left side is not all groups.
                    proof {
                        if all_groups(lps) {
                            if lps.len() == 0 {
                                assert(piece_vals(lps) == Some(Seq::<u16>::empty()));
                            }
                            assert(piece_vals(lps) is Some);
                            assert(false);
                        }
                        assert(v6_groups_of(s@) is None);
                    }
                    return None;
                },
            };
            // The left side of a `::` must be plain groups: a dotted quad
            // there (the only other way piece values exist, and it yields
            // one extra value) is malformed.
            if lvals.len() != lparts.len() {
                proof {
                    if all_groups(lps) {
                        if lps.len() == 0 {
                            assert(lvals@ == piece_vals(lps)->Some_0);
                        } else {
                            assert(lvals@ == group_vals(lps));
                        }
                        assert(false);
                    }
                    assert(v6_groups_of(s@) is None);
                }
                return None;
            }
            proof {
                if !all_groups(lps) {
                    assert(lvals@.len() == lps.len() + 1);
                    assert(false);
                }
                assert(lvals@ == group_vals(lps));
            }
            let rvals = match parse_pieces(&rparts) {
                Some(v) => v,
                None => {
                    proof {
                        assert(v6_groups_of(s@) is None);
                    }
                    return None;
                },
            };
            if lvals.len() > 7 || rvals.len() > 7 - lvals.len() {
                proof {
                    assert(group_vals(lps).len() + piece_vals(views_of(rparts@))->Some_0.len()
                        > 7);
                    assert(v6_groups_of(s@) is None);
                }
                return None;
            }
            let ghost lv = group_vals(lps);
            let ghost rvv = piece_vals(views_of(rparts@))->Some_0;
            let zeros: usize = 8 - lvals.len() - rvals.len();
            let mut all: Vec<u16> = lvals;
            let mut fill: usize = zeros;
            proof {
                assert(all@ =~= lv + Seq::new(0nat, |i: int| 0u16));
            }
            while fill > 0
                invariant
                    fill <= zeros,
                    all@.len() == lv.len() + zeros - fill,
                    all@ == lv + Seq::new((zeros - fill) as nat, |i: int| 0u16),
                decreases fill,
            {
                all.push(0);
                proof {
                    assert(all@ =~= lv + Seq::new((zeros - (fill - 1)) as nat, |i: int| 0u16));
                }
                fill -= 1;
            }
            let mut rv = rvals;
            all.append(&mut rv);
            proof {
                assert(all@ =~= lv + Seq::new((8 - lv.len() - rvv.len()) as nat, |i: int| 0u16)
                    + rvv);
                assert(find_dc(s@, 0) == dc as int);
                let lparts_spec = if left.len() == 0 {
                    Seq::<Seq<u8>>::empty()
                } else {
                    spec_split(left, COLON)
                };
                let rparts_spec = if right.len() == 0 {
                    Seq::<Seq<u8>>::empty()
                } else {
                    spec_split(right, COLON)
                };
                assert(lps == lparts_spec);
                assert(views_of(rparts@) == rparts_spec);
                assert(all_groups(lparts_spec));
                assert(piece_vals(rparts_spec) is Some);
                assert(piece_vals(rparts_spec)->Some_0 == rvv);
                assert(group_vals(lparts_spec) == lv);
                assert(lv.len() + rvv.len() <= 7);
                assert(v6_groups_of(s@) is Some);
                assert(v6_groups_of(s@)->Some_0 == all@);
                assert(all@.len() == 8);
            }
            Some(combine_groups(&all))
        },
    }
}

/// The index of the first `b` at or after `i`, or `-1` when there is
/// none.
pub open spec fn find_byte(s: Seq<u8>, b: u8, i: int) -> int
    decreases s.len() - i,
{
    if i < 0 || i >= s.len() {
        -1
    } else if s[i] == b {
        i
    } else {
        find_byte(s, b, i + 1)
    }
}

proof fn lemma_find_byte_from(s: Seq<u8>, b: u8, start: int, i: int)
    requires
        0 <= start <= i,
        forall|j: int| start <= j < i ==> s[j] != b,
    ensures
        find_byte(s, b, start) == find_byte(s, b, i),
    decreases i - start,
{
    if start < i {
        lemma_find_byte_from(s, b, start + 1, i);
    }
}

fn find_byte_exec(s: &[u8], b: u8) -> (r: Option<usize>)
    ensures
        r is Some <==> find_byte(s@, b, 0) >= 0,
        r matches Some(k) ==> k == find_byte(s@, b, 0) && k < s@.len() && s@[k as int] == b,
{
    let mut i: usize = 0;
    while i < s.len()
        invariant
            0 <= i <= s@.len(),
            forall|j: int| 0 <= j < i ==> s@[j] != b,
        decreases s@.len() - i,
    {
        if s[i] == b {
            proof {
                lemma_find_byte_from(s@, b, 0, i as int);
            }
            return Some(i);
        }
        i += 1;
    }
    proof {
        lemma_find_byte_from(s@, b, 0, i as int);
    }
    None
}

/// The socket address the text denotes: `a.b.c.d:port`, or `[v6]:port`.
pub open spec fn endpoint_of(s: Seq<u8>) -> Option<SocketAddress> {
    if s.len() > 0 && s[0] == LBRACKET {
        let j = find_byte(s, RBRACKET, 0);
        if j >= 1 && j + 1 < s.len() && s[j + 1] == COLON {
            let addr = v6_of(s.subrange(1, j));
            let port = s.skip(j + 2);
            if addr is Some && is_digits(port) && dec_val(port) <= u16::MAX {
                Some(
                    SocketAddress {
                        addr: IpAddress::V6(addr->Some_0),
                        port: dec_val(port) as u16,
                    },
                )
            } else {
                None
            }
        } else {
            None
        }
    } else {
        let parts = spec_split(s, COLON);
        if parts.len() == 2 && v4_of(parts[0]) is Some && is_digits(parts[1]) && dec_val(parts[1])
            <= u16::MAX {
            Some(
                SocketAddress {
                    addr: IpAddress::V4(v4_of(parts[0])->Some_0),
                    port: dec_val(parts[1]) as u16,
                },
            )
        } else {
            None
        }
    }
}

/// Parse socket-address text.
pub fn parse_endpoint(s: &[u8]) -> (r: Option<SocketAddress>)
    ensures
        r == endpoint_of(s@),
{
    if s.len() > 0 && s[0] == LBRACKET {
        let j = match find_byte_exec(s, RBRACKET) {
            Some(j) => j,
            None => {
                return None;
            },
        };
        if !(j >= 1 && j + 1 < s.len()) {
            return None;
        }
        if s[j + 1] != COLON {
            return None;
        }
        let inner = sub_bytes(s, 1, j);
        let addr = match parse_v6(inner.as_slice()) {
            Some(a) => a,
            None => {
                return None;
            },
        };
        let port_b = sub_bytes(s, j + 2, s.len());
        proof {
            assert(port_b@ =~= s@.skip(j + 2));
        }
        match parse_u16(port_b.as_slice()) {
            Some(port) => Some(SocketAddress { addr: IpAddress::V6(addr), port }),
            None => None,
        }
    } else {
        let parts = split_bytes(s, COLON);
        proof {
            assert(forall|k: int|
                0 <= k < parts@.len() ==> (#[trigger] parts@[k])@ == spec_split(s@, COLON)[k]);
        }
        if parts.len() != 2 {
            return None;
        }
        let addr = match parse_v4(parts[0].as_slice()) {
            Some(a) => a,
            None => {
                return None;
            },
        };
        match parse_u16(parts[1].as_slice()) {
            Some(port) => Some(SocketAddress { addr: IpAddress::V4(addr), port }),
            None => None,
        }
    }
}

} // verus!

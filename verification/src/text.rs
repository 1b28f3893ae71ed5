//! Byte-level text utilities: separator splitting, line splitting, and
//! decimal number parsing and formatting.  These are the primitives the
//! tool-output decoders are built on.

use vstd::prelude::*;

verus! {

/// Horizontal tab, the field separator of the tunnel dump format.
pub const TAB: u8 = 9;
/// Line feed, the record separator of the tunnel dump format.
pub const NEWLINE: u8 = 10;
/// Comma, the element separator inside a multi-value field.
pub const COMMA: u8 = 44;

/// The views of a sequence of byte vectors.
pub open spec fn views_of(v: Seq<Vec<u8>>) -> Seq<Seq<u8>> {
    v.map_values(|x: Vec<u8>| x@)
}

/// Split `s` at every occurrence of `sep`.  The result always has at least
/// one piece; a separator at the edge yields an empty piece there.
pub open spec fn spec_split(s: Seq<u8>, sep: u8) -> Seq<Seq<u8>>
    decreases s.len(),
{
    if s.len() == 0 {
        seq![Seq::<u8>::empty()]
    } else if s[0] == sep {
        seq![Seq::<u8>::empty()] + spec_split(s.skip(1), sep)
    } else {
        let rest = spec_split(s.skip(1), sep);
        seq![seq![s[0]] + rest[0]] + rest.skip(1)
    }
}

proof fn lemma_split_len(s: Seq<u8>, sep: u8)
    ensures
        spec_split(s, sep).len() >= 1,
    decreases s.len(),
{
    if s.len() == 0 {
    } else {
        lemma_split_len(s.skip(1), sep);
    }
}

/// Appending one byte extends the last piece, or opens a fresh empty piece
/// when the byte is the separator.
proof fn lemma_split_push(s: Seq<u8>, sep: u8, c: u8)
    ensures
        c == sep ==> spec_split(s.push(c), sep) == spec_split(s, sep).push(Seq::<u8>::empty()),
        c != sep ==> spec_split(s.push(c), sep) == spec_split(s, sep).update(
            spec_split(s, sep).len() - 1,
            spec_split(s, sep).last().push(c),
        ),
    decreases s.len(),
{
    lemma_split_len(s, sep);
    if s.len() == 0 {
        assert(spec_split(Seq::<u8>::empty(), sep) == seq![Seq::<u8>::empty()]);
        assert(s =~= Seq::<u8>::empty());
        assert(s.push(c).skip(1) =~= Seq::<u8>::empty());
        if c == sep {
            assert(spec_split(s.push(c), sep) =~~= spec_split(s, sep).push(Seq::<u8>::empty()));
        } else {
            assert(spec_split(s.push(c), sep) =~~= spec_split(s, sep).update(
                0,
                spec_split(s, sep).last().push(c),
            ));
        }
    } else {
        lemma_split_push(s.skip(1), sep, c);
        lemma_split_len(s.skip(1), sep);
        assert(s.push(c).skip(1) =~= s.skip(1).push(c));
        if c == sep {
            assert(spec_split(s.push(c), sep) =~~= spec_split(s, sep).push(Seq::<u8>::empty()));
        } else {
            assert(spec_split(s.push(c), sep) =~~= spec_split(s, sep).update(
                spec_split(s, sep).len() - 1,
                spec_split(s, sep).last().push(c),
            ));
        }
    }
}

/// Split a byte slice at every occurrence of `sep`.
pub fn split_bytes(s: &[u8], sep: u8) -> (r: Vec<Vec<u8>>)
    ensures
        views_of(r@) == spec_split(s@, sep),
{
    let mut out: Vec<Vec<u8>> = Vec::new();
    let mut cur: Vec<u8> = Vec::new();
    let mut i: usize = 0;
    proof {
        assert(s@.take(0) =~= Seq::<u8>::empty());
        assert(views_of(out@).push(cur@) =~~= spec_split(s@.take(0), sep));
    }
    while i < s.len()
        invariant
            0 <= i <= s@.len(),
            views_of(out@).push(cur@) == spec_split(s@.take(i as int), sep),
        decreases s@.len() - i,
    {
        let ghost prev = s@.take(i as int);
        let b = s[i];
        proof {
            lemma_split_push(prev, sep, b);
            lemma_split_len(prev, sep);
            assert(s@.take(i + 1) =~= prev.push(b));
        }
        if b == sep {
            let ghost old_out = out@;
            let ghost old_cur = cur@;
            out.push(cur);
            cur = Vec::new();
            proof {
                assert(views_of(out@) =~~= views_of(old_out).push(old_cur));
                assert(views_of(out@).push(cur@) =~~= spec_split(prev, sep).push(
                    Seq::<u8>::empty(),
                ));
            }
        } else {
            let ghost old_cur = cur@;
            cur.push(b);
            proof {
                let pieces = spec_split(prev, sep);
                assert(views_of(out@).push(cur@) =~~= pieces.update(
                    pieces.len() - 1,
                    pieces.last().push(b),
                ));
            }
        }
        i += 1;
    }
    proof {
        assert(s@.take(s@.len() as int) =~= s@);
    }
    let ghost old_out = out@;
    let ghost last_cur = cur@;
    out.push(cur);
    proof {
        assert(views_of(out@) =~~= views_of(old_out).push(last_cur));
    }
    out
}

/// Split `s` into lines: pieces separated by line feeds, with a final empty
/// piece (from a trailing line feed, or from empty input) dropped.
pub open spec fn spec_lines(s: Seq<u8>) -> Seq<Seq<u8>> {
    let pieces = spec_split(s, NEWLINE);
    if pieces.last() == Seq::<u8>::empty() {
        pieces.drop_last()
    } else {
        pieces
    }
}

/// Split a byte slice into lines.
pub fn split_lines(s: &[u8]) -> (r: Vec<Vec<u8>>)
    ensures
        views_of(r@) == spec_lines(s@),
{
    let mut pieces = split_bytes(s, NEWLINE);
    proof {
        lemma_split_len(s@, NEWLINE);
        assert(views_of(pieces@).last() == pieces@.last()@);
    }
    if pieces[pieces.len() - 1].len() == 0 {
        let ghost old_pieces = pieces@;
        pieces.pop();
        proof {
            assert(views_of(pieces@) =~~= views_of(old_pieces).drop_last());
            assert(views_of(old_pieces).last() =~= Seq::<u8>::empty());
        }
    } else {
        proof {
            assert(views_of(pieces@).last() != Seq::<u8>::empty());
        }
    }
    pieces
}

/// Whether `b` is an ASCII decimal digit.
pub open spec fn is_dec_digit(b: u8) -> bool {
    48 <= b <= 57
}

/// Whether `s` is a non-empty run of ASCII decimal digits.
pub open spec fn is_digits(s: Seq<u8>) -> bool {
    s.len() > 0 && forall|i: int| 0 <= i < s.len() ==> is_dec_digit(#[trigger] s[i])
}

/// The value of `s` read as a decimal numeral (meaningful when `is_digits`).
pub open spec fn dec_val(s: Seq<u8>) -> int
    decreases s.len(),
{
    if s.len() == 0 {
        0
    } else {
        dec_val(s.drop_last()) * 10 + s.last() - 48
    }
}

/// A numeral that already exceeds a bound keeps exceeding it as digits are
/// appended.
proof fn lemma_dec_val_prefix_exceeds(s: Seq<u8>, k: int, bound: int)
    requires
        0 <= k <= s.len(),
        bound >= 6,
        dec_val(s.take(k)) > bound,
    ensures
        dec_val(s) > bound,
    decreases s.len() - k,
{
    if k == s.len() {
        assert(s.take(k) =~= s);
    } else {
        let t = s.take(k + 1);
        assert(t.drop_last() =~= s.take(k));
        assert(dec_val(t) == dec_val(s.take(k)) * 10 + t.last() - 48);
        assert(dec_val(t) > bound);
        lemma_dec_val_prefix_exceeds(s, k + 1, bound);
    }
}

/// Parse a non-empty, all-digit byte string as a decimal `u64`.
/// Returns the value exactly when the string is well formed and fits.
pub fn parse_u64(s: &[u8]) -> (r: Option<u64>)
    ensures
        r is Some <==> is_digits(s@) && dec_val(s@) <= u64::MAX,
        r matches Some(v) ==> v == dec_val(s@),
{
    if s.len() == 0 {
        return None;
    }
    let mut acc: u64 = 0;
    let mut i: usize = 0;
    proof {
        assert(s@.take(0) =~= Seq::<u8>::empty());
    }
    while i < s.len()
        invariant
            0 <= i <= s@.len(),
            s@.len() > 0,
            forall|j: int| 0 <= j < i ==> is_dec_digit(#[trigger] s@[j]),
            acc == dec_val(s@.take(i as int)),
        decreases s@.len() - i,
    {
        let b = s[i];
        if !(48 <= b && b <= 57) {
            assert(!is_dec_digit(s@[i as int]));
            return None;
        }
        let d = (b - 48) as u64;
        let ghost prev = s@.take(i as int);
        proof {
            assert(s@.take(i + 1) =~= prev.push(b));
            assert(s@.take(i + 1).drop_last() =~= prev);
            assert(dec_val(s@.take(i + 1)) == acc * 10 + d);
        }
        if acc > (u64::MAX - d) / 10 {
            proof {
                assert(acc * 10 + d > u64::MAX) by (nonlinear_arith)
                    requires
                        acc > (u64::MAX - d) / 10,
                        0 <= d <= 9,
                ;
                lemma_dec_val_prefix_exceeds(s@, i + 1, u64::MAX as int);
            }
            return None;
        }
        proof {
            assert(acc * 10 + d <= u64::MAX) by (nonlinear_arith)
                requires
                    acc <= (u64::MAX - d) / 10,
                    0 <= d <= 9,
            ;
        }
        acc = acc * 10 + d;
        i += 1;
    }
    proof {
        assert(s@.take(s@.len() as int) =~= s@);
    }
    Some(acc)
}

/// Parse a decimal `u16`, the shape of a port number or a firewall mark.
pub fn parse_u16(s: &[u8]) -> (r: Option<u16>)
    ensures
        r is Some <==> is_digits(s@) && dec_val(s@) <= u16::MAX,
        r matches Some(v) ==> v == dec_val(s@),
{
    match parse_u64(s) {
        Some(v) => if v <= u16::MAX as u64 {
            Some(v as u16)
        } else {
            None
        },
        None => {
            proof {
                if is_digits(s@) && dec_val(s@) <= u16::MAX {
                    assert(dec_val(s@) <= u64::MAX);
                }
            }
            None
        },
    }
}

/// Parse a decimal `usize`, the shape of a transfer byte count.
pub fn parse_usize(s: &[u8]) -> (r: Option<usize>)
    ensures
        r is Some <==> is_digits(s@) && dec_val(s@) <= usize::MAX,
        r matches Some(v) ==> v == dec_val(s@),
{
    match parse_u64(s) {
        Some(v) => if v <= usize::MAX as u64 {
            Some(v as usize)
        } else {
            None
        },
        None => {
            proof {
                if is_digits(s@) && dec_val(s@) <= usize::MAX {
                    assert(dec_val(s@) <= u64::MAX);
                }
            }
            None
        },
    }
}

/// The decimal numeral of `n`, most significant digit first, no leading
/// zeros (a lone zero for 0).
pub open spec fn spec_dec_digits(n: int) -> Seq<u8>
    decreases n,
{
    if n < 10 {
        seq![(48 + n) as u8]
    } else {
        spec_dec_digits(n / 10).push((48 + n % 10) as u8)
    }
}

/// The decimal numeral of a number reads back as that number.
pub proof fn lemma_dec_digits_val(n: int)
    requires
        n >= 0,
    ensures
        is_digits(spec_dec_digits(n)),
        dec_val(spec_dec_digits(n)) == n,
    decreases n,
{
    assert(dec_val(Seq::<u8>::empty()) == 0);
    if n < 10 {
        let s = spec_dec_digits(n);
        assert(s.drop_last() =~= Seq::<u8>::empty());
        assert(s.last() == (48 + n) as u8);
    } else {
        lemma_dec_digits_val(n / 10);
        let s = spec_dec_digits(n);
        assert(s.drop_last() =~= spec_dec_digits(n / 10));
        assert(n == (n / 10) * 10 + n % 10) by (nonlinear_arith)
            requires
                n >= 10,
        ;
    }
}

/// Render `n` as its decimal numeral.
pub fn format_u64(n: u64) -> (r: Vec<u8>)
    ensures
        r@ == spec_dec_digits(n as int),
        is_digits(r@),
        dec_val(r@) == n,
    decreases n,
{
    proof {
        lemma_dec_digits_val(n as int);
    }
    if n < 10 {
        let mut v: Vec<u8> = Vec::new();
        v.push(48 + n as u8);
        proof {
            assert(v@ =~= spec_dec_digits(n as int));
        }
        v
    } else {
        let mut v = format_u64(n / 10);
        v.push(48 + (n % 10) as u8);
        v
    }
}

/// The decimal numeral of `n` as characters.
pub open spec fn dec_chars(n: int) -> Seq<char> {
    spec_dec_digits(n).map_values(|b: u8| b as char)
}

/// Relies on `String::from_utf8`: ASCII bytes are valid UTF-8 and decode to
/// the characters with the same code points.
#[verifier::external_body]
pub(crate) fn ascii_string(bytes: Vec<u8>) -> (r: String)
    requires
        forall|i: int| 0 <= i < bytes@.len() ==> bytes@[i] < 128,
    ensures
        r@ == bytes@.map_values(|b: u8| b as char),
{
    match String::from_utf8(bytes) {
        Ok(s) => s,
        Err(_) => String::new(),
    }
}

/// Compare two byte strings for equality.
pub fn bytes_eq(a: &[u8], b: &[u8]) -> (r: bool)
    ensures
        r == (a@ == b@),
{
    if a.len() != b.len() {
        return false;
    }
    let mut i: usize = 0;
    while i < a.len()
        invariant
            0 <= i <= a@.len(),
            a@.len() == b@.len(),
            forall|j: int| 0 <= j < i ==> a@[j] == b@[j],
        decreases a@.len() - i,
    {
        if a[i] != b[i] {
            return false;
        }
        i += 1;
    }
    proof {
        assert(a@ =~= b@);
    }
    true
}

} // verus!


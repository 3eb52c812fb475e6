//! Big-endian integers on byte sequences.
//!
//! The spec functions say what a run of bytes means as a number and what
//! bytes a number is written as; the executable functions read and write
//! them through the `byteorder` crate.

use byteorder::{BigEndian, ByteOrder};
use vstd::prelude::*;
use vstd::slice::slice_subrange;
use vstd::utf8::{decode_utf8, valid_utf8};

verus! {

/// The 16-bit unsigned number held big-endian in `s[i..i + 2]`.
#[verifier::opaque]
pub open spec fn be_u16(s: Seq<u8>, i: int) -> u16 {
    (s[i] as int * 0x100 + s[i + 1] as int) as u16
}

/// The 24-bit unsigned number held big-endian in `s[i..i + 3]`.
#[verifier::opaque]
pub open spec fn be_u24(s: Seq<u8>, i: int) -> u32 {
    (s[i] as int * 0x1_0000 + s[i + 1] as int * 0x100 + s[i + 2] as int) as u32
}

/// The 32-bit unsigned number held big-endian in `s[i..i + 4]`.
#[verifier::opaque]
pub open spec fn be_u32(s: Seq<u8>, i: int) -> u32 {
    (s[i] as int * 0x100_0000 + s[i + 1] as int * 0x1_0000 + s[i + 2] as int * 0x100 + s[i
        + 3] as int) as u32
}

/// The 64-bit unsigned number held big-endian in `s[i..i + 8]`.
#[verifier::opaque]
pub open spec fn be_u64(s: Seq<u8>, i: int) -> u64 {
    (be_u32(s, i) as int * 0x1_0000_0000 + be_u32(s, i + 4) as int) as u64
}

/// The two's-complement reading of a 32-bit pattern.
pub open spec fn as_signed32(u: u32) -> i32 {
    if u < 0x8000_0000 {
        u as i32
    } else {
        (u as int - 0x1_0000_0000) as i32
    }
}

/// The 32-bit pattern of a signed number in two's complement.
pub open spec fn as_unsigned32(v: i32) -> u32 {
    if v >= 0 {
        v as u32
    } else {
        (v as int + 0x1_0000_0000) as u32
    }
}

/// The 32-bit signed number held big-endian in `s[i..i + 4]`.
pub open spec fn be_i32(s: Seq<u8>, i: int) -> i32 {
    as_signed32(be_u32(s, i))
}

/// The two bytes of `v`, most significant first.
pub open spec fn u16_be(v: u16) -> Seq<u8> {
    seq![(v / 0x100) as u8, (v % 0x100) as u8]
}

/// The three low bytes of `v`, most significant first.
pub open spec fn u24_be(v: u32) -> Seq<u8> {
    seq![(v / 0x1_0000 % 0x100) as u8, (v / 0x100 % 0x100) as u8, (v % 0x100) as u8]
}

/// The four bytes of `v`, most significant first.
pub open spec fn u32_be(v: u32) -> Seq<u8> {
    seq![
        (v / 0x100_0000) as u8,
        (v / 0x1_0000 % 0x100) as u8,
        (v / 0x100 % 0x100) as u8,
        (v % 0x100) as u8,
    ]
}

/// The eight bytes of `v`, most significant first.
pub open spec fn u64_be(v: u64) -> Seq<u8> {
    u32_be((v / 0x1_0000_0000) as u32) + u32_be((v % 0x1_0000_0000) as u32)
}

/// The four bytes of `v` in two's complement, most significant first.
pub open spec fn i32_be(v: i32) -> Seq<u8> {
    u32_be(as_unsigned32(v))
}

/// `n` zero bytes.
pub open spec fn zeros(n: nat) -> Seq<u8> {
    Seq::new(n, |i: int| 0u8)
}

/// A 32-bit number is the sum of its four bytes, each weighted by its place.
pub proof fn lemma_u32_split(v: u32)
    ensures
        v / 0x100_0000 < 0x100,
        v == (v / 0x100_0000) * 0x100_0000 + (v / 0x1_0000 % 0x100) * 0x1_0000 + (v / 0x100
            % 0x100) * 0x100 + v % 0x100,
        v < 0x100_0000 ==> v / 0x100_0000 == 0,
{
    assert(v / 0x100_0000 < 0x100) by (bit_vector);
    assert(v < 0x100_0000 ==> v / 0x100_0000 == 0) by (bit_vector);
    assert(v == (v / 0x100_0000) * 0x100_0000 + (v / 0x1_0000 % 0x100) * 0x1_0000 + (v / 0x100
        % 0x100) * 0x100 + v % 0x100) by (bit_vector);
}

/// Reading back the bytes of a 16-bit number gives the number.
pub proof fn lemma_u16_round_trip(v: u16, pre: Seq<u8>, post: Seq<u8>)
    ensures
        u16_be(v).len() == 2,
        be_u16(pre + u16_be(v) + post, pre.len() as int) == v,
{
    reveal(be_u16);
    let s = pre + u16_be(v) + post;
    let n = pre.len() as int;
    assert(s[n] == u16_be(v)[0]);
    assert(s[n + 1] == u16_be(v)[1]);
    assert(v / 0x100 < 0x100 && v == (v / 0x100) * 0x100 + v % 0x100);
}

/// Reading back the bytes of a 24-bit number gives the number.
pub proof fn lemma_u24_round_trip(v: u32, pre: Seq<u8>, post: Seq<u8>)
    requires
        v < 0x100_0000,
    ensures
        u24_be(v).len() == 3,
        be_u24(pre + u24_be(v) + post, pre.len() as int) == v,
{
    reveal(be_u24);
    let s = pre + u24_be(v) + post;
    let n = pre.len() as int;
    assert(s[n] == u24_be(v)[0]);
    assert(s[n + 1] == u24_be(v)[1]);
    assert(s[n + 2] == u24_be(v)[2]);
    lemma_u32_split(v);
}

/// Reading back the bytes of a 32-bit number gives the number.
pub proof fn lemma_u32_round_trip(v: u32, pre: Seq<u8>, post: Seq<u8>)
    ensures
        u32_be(v).len() == 4,
        be_u32(pre + u32_be(v) + post, pre.len() as int) == v,
{
    reveal(be_u32);
    let s = pre + u32_be(v) + post;
    let n = pre.len() as int;
    assert(s[n] == u32_be(v)[0]);
    assert(s[n + 1] == u32_be(v)[1]);
    assert(s[n + 2] == u32_be(v)[2]);
    assert(s[n + 3] == u32_be(v)[3]);
    lemma_u32_split(v);
}

/// Reading back the bytes of a 64-bit number gives the number.
pub proof fn lemma_u64_round_trip(v: u64, pre: Seq<u8>, post: Seq<u8>)
    ensures
        u64_be(v).len() == 8,
        be_u64(pre + u64_be(v) + post, pre.len() as int) == v,
{
    reveal(be_u64);
    let hi = (v / 0x1_0000_0000) as u32;
    let lo = (v % 0x1_0000_0000) as u32;
    let s = pre + u64_be(v) + post;
    let n = pre.len() as int;
    lemma_u32_round_trip(hi, pre, u32_be(lo) + post);
    lemma_u32_round_trip(lo, pre + u32_be(hi), post);
    assert(s =~= pre + u32_be(hi) + (u32_be(lo) + post));
    assert(s =~= (pre + u32_be(hi)) + u32_be(lo) + post);
}

/// Reading back the bytes of a signed 32-bit number gives the number.
pub proof fn lemma_i32_round_trip(v: i32, pre: Seq<u8>, post: Seq<u8>)
    ensures
        i32_be(v).len() == 4,
        be_i32(pre + i32_be(v) + post, pre.len() as int) == v,
{
    lemma_u32_round_trip(as_unsigned32(v), pre, post);
}

/// A number reads the same from a run of bytes and from a longer run
/// that holds it.
pub proof fn lemma_be_u32_window(p: Seq<u8>, cur: int, c: Seq<u8>, i: int)
    requires
        0 <= cur,
        0 <= i,
        i + 4 <= c.len(),
        cur + c.len() <= p.len(),
        p.subrange(cur, cur + c.len()) == c,
    ensures
        be_u32(p, cur + i) == be_u32(c, i),
{
    reveal(be_u32);
    assert(c[i] == p[cur + i]);
    assert(c[i + 1] == p[cur + i + 1]);
    assert(c[i + 2] == p[cur + i + 2]);
    assert(c[i + 3] == p[cur + i + 3]);
}

/// Reads the `u16` at `pos` with `byteorder::BigEndian::read_u16`, which
/// takes the first two bytes of the slice it is given, most significant
/// first.
#[verifier::external_body]
pub(crate) fn get_u16(buf: &[u8], pos: usize) -> (r: u16)
    requires
        pos + 2 <= buf@.len(),
    ensures
        r == be_u16(buf@, pos as int),
{
    BigEndian::read_u16(&buf[pos..])
}

/// Reads the 24-bit number at `pos` with `byteorder::BigEndian::read_u24`,
/// which takes the first three bytes of the slice it is given, most
/// significant first.
#[verifier::external_body]
pub(crate) fn get_u24(buf: &[u8], pos: usize) -> (r: u32)
    requires
        pos + 3 <= buf@.len(),
    ensures
        r == be_u24(buf@, pos as int),
{
    BigEndian::read_u24(&buf[pos..])
}

/// Reads the `u32` at `pos` with `byteorder::BigEndian::read_u32`, which
/// takes the first four bytes of the slice it is given, most significant
/// first.
#[verifier::external_body]
pub(crate) fn get_u32(buf: &[u8], pos: usize) -> (r: u32)
    requires
        pos + 4 <= buf@.len(),
    ensures
        r == be_u32(buf@, pos as int),
{
    BigEndian::read_u32(&buf[pos..])
}

/// Reads the `u64` at `pos` with `byteorder::BigEndian::read_u64`, which
/// takes the first eight bytes of the slice it is given, most significant
/// first.
#[verifier::external_body]
pub(crate) fn get_u64(buf: &[u8], pos: usize) -> (r: u64)
    requires
        pos + 8 <= buf@.len(),
    ensures
        r == be_u64(buf@, pos as int),
{
    BigEndian::read_u64(&buf[pos..])
}

/// Reads the `i32` at `pos` with `byteorder::BigEndian::read_i32`, which
/// reads a `u32` and reinterprets its bits in two's complement.
#[verifier::external_body]
pub(crate) fn get_i32(buf: &[u8], pos: usize) -> (r: i32)
    requires
        pos + 4 <= buf@.len(),
    ensures
        r == be_i32(buf@, pos as int),
{
    BigEndian::read_i32(&buf[pos..])
}

/// Appends `v` as written by `byteorder::BigEndian::write_u16`: two bytes,
/// most significant first.
#[verifier::external_body]
pub(crate) fn put_u16(out: &mut Vec<u8>, v: u16)
    ensures
        final(out)@ == old(out)@ + u16_be(v),
{
    let mut b = [0u8; 2];
    BigEndian::write_u16(&mut b, v);
    out.extend_from_slice(&b);
}

/// Appends the low 24 bits of `v` as written by
/// `byteorder::BigEndian::write_u24`: three bytes, most significant first.
/// That function refuses a number of more than 24 bits.
#[verifier::external_body]
pub(crate) fn put_u24(out: &mut Vec<u8>, v: u32)
    requires
        v < 0x100_0000,
    ensures
        final(out)@ == old(out)@ + u24_be(v),
{
    let mut b = [0u8; 3];
    BigEndian::write_u24(&mut b, v);
    out.extend_from_slice(&b);
}

/// Appends `v` as written by `byteorder::BigEndian::write_u32`: four bytes,
/// most significant first.
#[verifier::external_body]
pub(crate) fn put_u32(out: &mut Vec<u8>, v: u32)
    ensures
        final(out)@ == old(out)@ + u32_be(v),
{
    let mut b = [0u8; 4];
    BigEndian::write_u32(&mut b, v);
    out.extend_from_slice(&b);
}

/// Appends `v` as written by `byteorder::BigEndian::write_u64`: eight
/// bytes, most significant first.
#[verifier::external_body]
pub(crate) fn put_u64(out: &mut Vec<u8>, v: u64)
    ensures
        final(out)@ == old(out)@ + u64_be(v),
{
    let mut b = [0u8; 8];
    BigEndian::write_u64(&mut b, v);
    out.extend_from_slice(&b);
}

/// Appends `v` as written by `byteorder::BigEndian::write_i32`: the four
/// bytes of its two's-complement pattern, most significant first.
#[verifier::external_body]
pub(crate) fn put_i32(out: &mut Vec<u8>, v: i32)
    ensures
        final(out)@ == old(out)@ + i32_be(v),
{
    let mut b = [0u8; 4];
    BigEndian::write_i32(&mut b, v);
    out.extend_from_slice(&b);
}

/// Appends `n` zero bytes.
pub fn put_zeros(out: &mut Vec<u8>, n: usize)
    ensures
        final(out)@ == old(out)@ + zeros(n as nat),
{
    let mut i: usize = 0;
    while i < n
        invariant
            i <= n,
            out@ == old(out)@ + zeros(i as nat),
        decreases n - i,
    {
        out.push(0u8);
        i += 1;
        assert(out@ =~= old(out)@ + zeros(i as nat));
    }
    assert(out@ =~= old(out)@ + zeros(n as nat));
}

/// Appends a copy of `bytes`.
pub fn put_bytes(out: &mut Vec<u8>, bytes: &[u8])
    ensures
        final(out)@ == old(out)@ + bytes@,
{
    out.extend_from_slice(bytes);
}

/// The number `n` as a `u64`, or `u64::MAX` where it does not fit.
pub open spec fn saturate(n: int) -> u64 {
    if n < 0 {
        0
    } else if n <= u64::MAX {
        n as u64
    } else {
        u64::MAX
    }
}

/// `base + width * count`, saturating at `u64::MAX`.
pub fn table_size(base: u64, width: u64, count: usize) -> (r: u64)
    ensures
        r == saturate(base + width * count),
{
    let c: u64 = count as u64;
    assert(width * c >= 0) by (nonlinear_arith);
    match width.checked_mul(c) {
        Some(body) => match base.checked_add(body) {
            Some(total) => total,
            None => u64::MAX,
        },
        None => u64::MAX,
    }
}

/// `a + b`, saturating at `u64::MAX`.
pub fn add_size(a: u64, b: u64) -> (r: u64)
    ensures
        r == saturate(a + b),
{
    match a.checked_add(b) {
        Some(total) => total,
        None => u64::MAX,
    }
}

/// The text that `bytes` encode, by `String::from_utf8` of std: that
/// function accepts exactly the valid UTF-8 sequences and keeps the bytes
/// as the text's encoding.
#[verifier::external_body]
pub(crate) fn utf8_text(bytes: Vec<u8>) -> (r: Option<String>)
    ensures
        r is Some <==> valid_utf8(bytes@),
        r is Some ==> r.unwrap()@ == decode_utf8(bytes@),
{
    String::from_utf8(bytes).ok()
}

/// The text that `String::from_utf8_lossy` of std makes of `bytes`: the
/// text they encode, with a replacement character for what is no UTF-8.
pub uninterp spec fn lossy_text(bytes: Seq<u8>) -> Seq<char>;

/// The text of `bytes` by `String::from_utf8_lossy` of std, which keeps
/// valid UTF-8 as it is and puts U+FFFD for each invalid sequence.
#[verifier::external_body]
pub(crate) fn text_lossy(bytes: &[u8]) -> (r: String)
    ensures
        r@ == lossy_text(bytes@),
        valid_utf8(bytes@) ==> r@ == decode_utf8(bytes@),
{
    String::from_utf8_lossy(bytes).into_owned()
}

/// The decimal digits of `n`, most significant first, as ASCII bytes.
pub open spec fn decimal(n: nat) -> Seq<u8>
    decreases n,
{
    if n < 10 {
        seq![(48 + n) as u8]
    } else {
        decimal(n / 10) + seq![(48 + n % 10) as u8]
    }
}

/// Appends the decimal digits of `n`.
pub fn put_decimal(out: &mut Vec<u8>, n: u32)
    ensures
        final(out)@ == old(out)@ + decimal(n as nat),
{
    let mut digits: Vec<u8> = Vec::new();
    let mut rest: u32 = n;
    digits.push((48 + rest % 10) as u8);
    rest = rest / 10;
    // `digits` holds the low digits of `n`, least significant first.
    let ghost mut low: Seq<u8> = seq![(48 + n % 10) as u8];
    proof {
        assert(digits@ =~= low.reverse());
        lemma_decimal_step(n as nat);
    }
    while rest > 0
        invariant
            digits@ == low.reverse(),
            decimal(n as nat) == (if rest == 0 {
                Seq::<u8>::empty()
            } else {
                decimal(rest as nat)
            }) + low,
        decreases rest,
    {
        digits.push((48 + rest % 10) as u8);
        proof {
            lemma_decimal_step(rest as nat);
            let d = seq![(48 + rest % 10) as u8];
            let next = d + low;
            assert(digits@ =~= next.reverse());
            let head = if rest / 10 == 0 {
                Seq::<u8>::empty()
            } else {
                decimal((rest / 10) as nat)
            };
            assert(decimal(rest as nat) == head + d);
            assert((head + d) + low =~= head + next);
            low = next;
        }
        rest = rest / 10;
    }
    let mut i: usize = digits.len();
    let ghost start = out@;
    while i > 0
        invariant
            i <= digits@.len(),
            digits@ == low.reverse(),
            out@ == start + low.take(digits@.len() - i),
        decreases i,
    {
        i -= 1;
        out.push(digits[i]);
        assert(out@ =~= start + low.take(digits@.len() - i));
    }
    assert(low.take(digits@.len() as int) =~= low);
    assert(Seq::<u8>::empty() + low =~= low);
}

/// The digits of a number are those of its tenth, then its last digit.
pub proof fn lemma_decimal_step(n: nat)
    ensures
        decimal(n) == (if n / 10 == 0 {
            Seq::<u8>::empty()
        } else {
            decimal(n / 10)
        }) + seq![(48 + n % 10) as u8],
{
    if n < 10 {
        assert(Seq::<u8>::empty() + seq![(48 + n % 10) as u8] =~= seq![(48 + n) as u8]);
    }
}

/// The number that the ASCII digits `s` write in decimal; `None` where a
/// byte is no digit.
pub open spec fn digits_value(s: Seq<u8>) -> Option<nat>
    decreases s.len(),
{
    if s.len() == 0 {
        Some(0)
    } else if s.last() < 48 || s.last() > 57 {
        None
    } else {
        match digits_value(s.drop_last()) {
            None => None,
            Some(v) => Some(v * 10 + (s.last() - 48) as nat),
        }
    }
}

/// The number that `s` writes in decimal: digits, after one `+` at most;
/// `None` where `s` has no digit, holds another byte, or writes a number
/// of more than 32 bits.
pub open spec fn spec_parse_decimal(s: Seq<u8>) -> Option<u32> {
    let digits = if s.len() > 0 && s[0] == 43 {
        s.skip(1)
    } else {
        s
    };
    if digits.len() == 0 {
        None
    } else {
        match digits_value(digits) {
            Some(v) => if v <= u32::MAX {
                Some(v as u32)
            } else {
                None
            },
            None => None,
        }
    }
}

/// More digits do not write a smaller number, and a byte that is no digit
/// spoils every longer run.
pub proof fn lemma_digits_grow(s: Seq<u8>, i: int)
    requires
        0 <= i <= s.len(),
    ensures
        digits_value(s.take(i)) is None ==> digits_value(s) is None,
        digits_value(s) is Some ==> digits_value(s.take(i)).unwrap() <= digits_value(s).unwrap(),
    decreases s.len() - i,
{
    if i < s.len() {
        assert(s.take(i + 1).drop_last() =~= s.take(i));
        lemma_digits_grow(s, i + 1);
    } else {
        assert(s.take(i) =~= s);
    }
}

/// Reads a decimal number of at most 32 bits.
pub fn parse_decimal(s: &[u8]) -> (r: Option<u32>)
    ensures
        r == spec_parse_decimal(s@),
{
    let start: usize = if s.len() > 0 && s[0] == 43 {
        1
    } else {
        0
    };
    if start == s.len() {
        return None;
    }
    let digits = slice_subrange(s, start, s.len());
    assert(digits@ =~= (if s@.len() > 0 && s@[0] == 43 {
        s@.skip(1)
    } else {
        s@
    }));
    let mut value: u64 = 0;
    let mut i: usize = 0;
    assert(digits@.take(0) =~= Seq::<u8>::empty());
    while i < digits.len()
        invariant
            i <= digits@.len(),
            digits@.len() > 0,
            digits@ == (if s@.len() > 0 && s@[0] == 43 {
                s@.skip(1)
            } else {
                s@
            }),
            value <= u32::MAX,
            digits_value(digits@.take(i as int)) == Some(value as nat),
        decreases digits@.len() - i,
    {
        let b: u8 = digits[i];
        proof {
            assert(digits@.take(i + 1).drop_last() =~= digits@.take(i as int));
            lemma_digits_grow(digits@, i + 1);
        }
        if b < 48 || b > 57 {
            return None;
        }
        value = value * 10 + (b - 48) as u64;
        if value > 0xFFFF_FFFF {
            return None;
        }
        i += 1;
    }
    assert(digits@.take(i as int) =~= digits@);
    Some(value as u32)
}

} // verus!

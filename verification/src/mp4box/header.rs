//! Box headers, the version and flags word of a full box, and the walk
//! over the children of a container.

use crate::codec::{
    be_u24, be_u32, be_u64, get_u24, get_u32, get_u64, lemma_be_u32_window, lemma_u24_round_trip,
    lemma_u32_round_trip, put_u24, put_u32, put_u64, u24_be, u32_be, u64_be,
};
use crate::error::{Error, ErrorKind};
use crate::mp4box::BoxType;
use vstd::prelude::*;
use vstd::slice::slice_subrange;

verus! {

/// What a decoder owes for a given input: the view of the decoded value,
/// or the kind of the error.
pub open spec fn decoded<T: View>(r: Result<T, Error>) -> Result<T::V, ErrorKind> {
    match r {
        Ok(v) => Ok(v@),
        Err(e) => Err(e.spec_kind()),
    }
}

/// The header of a box: its type, its declared size (header included, zero
/// for "to the end of the source"), and the length of the header itself.
#[derive(Debug, Clone, Copy, PartialEq, Eq, Structural)]
pub struct BoxHeader {
    pub name: BoxType,
    pub size: u64,
    pub header_len: u64,
}

impl View for BoxHeader {
    type V = BoxHeader;

    open spec fn view(&self) -> BoxHeader {
        *self
    }
}

impl BoxHeader {
    /// The header length with which a box of `size` bytes is written: the
    /// 32-bit form where the size fits it and is at least 8, else the
    /// 64-bit form.
    pub open spec fn spec_header_len(size: u64) -> u64 {
        if 8 <= size <= u32::MAX {
            8
        } else {
            16
        }
    }

    /// The header that starts at `s[pos]`.
    pub open spec fn spec_read(s: Seq<u8>, pos: int) -> Result<BoxHeader, ErrorKind> {
        if s.len() < pos + 8 {
            Err(ErrorKind::IoError)
        } else {
            let name = BoxType::spec_from_u32(be_u32(s, pos + 4));
            if be_u32(s, pos) != 1 {
                Ok(BoxHeader { name, size: be_u32(s, pos) as u64, header_len: 8 })
            } else if s.len() < pos + 16 {
                Err(ErrorKind::IoError)
            } else if be_u64(s, pos + 8) < 16 {
                Err(ErrorKind::InvalidData)
            } else {
                Ok(BoxHeader { name, size: be_u64(s, pos + 8), header_len: 16 })
            }
        }
    }

    /// The bytes that this header is written as.
    pub open spec fn spec_bytes(&self) -> Seq<u8> {
        if BoxHeader::spec_header_len(self.size) == 8 {
            u32_be(self.size as u32) + u32_be(self.name.spec_to_u32())
        } else {
            u32_be(1) + u32_be(self.name.spec_to_u32()) + u64_be(self.size)
        }
    }

    /// The header of a box of type `name` and `size` bytes.
    pub fn new(name: BoxType, size: u64) -> (r: BoxHeader)
        ensures
            r.name == name,
            r.size == size,
            r.header_len == BoxHeader::spec_header_len(size),
    {
        let header_len: u64 = if 8 <= size && size <= 0xFFFF_FFFF {
            8
        } else {
            16
        };
        BoxHeader { name, size, header_len }
    }

    /// Reads the header that starts at `src[pos]`.
    pub fn read_at(src: &[u8], pos: usize) -> (r: Result<BoxHeader, Error>)
        requires
            pos <= src@.len(),
        ensures
            decoded(r) == BoxHeader::spec_read(src@, pos as int),
    {
        if src.len() - pos < 8 {
            return Err(Error::IoError);
        }
        let size32: u32 = get_u32(src, pos);
        let name = BoxType::from_u32(get_u32(src, pos + 4));
        if size32 != 1 {
            return Ok(BoxHeader { name, size: size32 as u64, header_len: 8 });
        }
        if src.len() - pos < 16 {
            return Err(Error::IoError);
        }
        let large: u64 = get_u64(src, pos + 8);
        if large < 16 {
            return Err(Error::InvalidData("64-bit box size too small"));
        }
        Ok(BoxHeader { name, size: large, header_len: 16 })
    }

    /// Reads the header at the start of `src`.
    pub fn read(src: &[u8]) -> (r: Result<BoxHeader, Error>)
        ensures
            decoded(r) == BoxHeader::spec_read(src@, 0),
    {
        BoxHeader::read_at(src, 0)
    }

    /// Appends the header to `out` and returns the number of bytes written.
    pub fn write(&self, out: &mut Vec<u8>) -> (n: u64)
        ensures
            final(out)@ == old(out)@ + self.spec_bytes(),
            n == BoxHeader::spec_header_len(self.size),
            n == self.spec_bytes().len(),
    {
        if 8 <= self.size && self.size <= 0xFFFF_FFFF {
            put_u32(out, self.size as u32);
            put_u32(out, self.name.to_u32());
            assert(out@ =~= old(out)@ + self.spec_bytes());
            8
        } else {
            put_u32(out, 1);
            put_u32(out, self.name.to_u32());
            put_u64(out, self.size);
            assert(out@ =~= old(out)@ + self.spec_bytes());
            16
        }
    }
}

/// The payload of a box of declared size `size` in the bytes `src` that
/// follow its 8-byte header: the first `size - 8` bytes, or all of `src`
/// where it holds fewer.
pub open spec fn payload(src: Seq<u8>, size: u64) -> Seq<u8> {
    let n: int = if size < 8 {
        0
    } else {
        size - 8
    };
    if n < src.len() {
        src.take(n)
    } else {
        src
    }
}

/// The payload of a box of declared size `size` in the bytes that follow
/// its header.
pub fn payload_of<'a>(src: &'a [u8], size: u64) -> (r: &'a [u8])
    ensures
        r@ == payload(src@, size),
{
    let n: u64 = if size < 8 {
        0
    } else {
        size - 8
    };
    if n < src.len() as u64 {
        slice_subrange(src, 0, n as usize)
    } else {
        src
    }
}

/// The version byte of the full box whose payload is `p`.
pub open spec fn spec_version(p: Seq<u8>) -> u8 {
    p[0]
}

/// The 24 flag bits of the full box whose payload is `p`.
pub open spec fn spec_flags(p: Seq<u8>) -> u32 {
    be_u24(p, 1)
}

/// The version and flags word as it is written.
pub open spec fn ext_bytes(version: u8, flags: u32) -> Seq<u8> {
    seq![version] + u24_be(flags)
}

/// Reads the version and the flags at the start of a full box's payload.
pub fn read_box_header_ext(p: &[u8]) -> (r: Result<(u8, u32), Error>)
    ensures
        r is Ok <==> p@.len() >= 4,
        r is Ok ==> r.unwrap() == (spec_version(p@), spec_flags(p@)),
        r is Err ==> r.unwrap_err().spec_kind() == ErrorKind::IoError,
{
    if p.len() < 4 {
        return Err(Error::IoError);
    }
    let version: u8 = p[0];
    let flags: u32 = get_u24(p, 1);
    Ok((version, flags))
}

/// Appends the version and flags word of a full box.
pub fn write_box_header_ext(out: &mut Vec<u8>, version: u8, flags: u32)
    requires
        flags < 0x100_0000,
    ensures
        final(out)@ == old(out)@ + ext_bytes(version, flags),
{
    out.push(version);
    put_u24(out, flags);
    assert(out@ =~= old(out)@ + ext_bytes(version, flags));
}

/// The version and flags of the full box of type `name` whose payload is
/// `p`; a version above `max_version` is not defined for the type.
pub open spec fn spec_full_header(p: Seq<u8>, name: BoxType, max_version: u8) -> Result<
    (u8, u32),
    ErrorKind,
> {
    if p.len() < 4 {
        Err(ErrorKind::IoError)
    } else if spec_version(p) > max_version {
        Err(ErrorKind::UnsupportedBoxVersion(name, spec_version(p)))
    } else {
        Ok((spec_version(p), spec_flags(p)))
    }
}

/// Reads the version and flags of a full box and refuses a version that
/// the box type does not define.
pub fn read_full_header(p: &[u8], name: BoxType, max_version: u8) -> (r: Result<(u8, u32), Error>)
    ensures
        match r {
            Ok(vf) => spec_full_header(p@, name, max_version) == Ok::<(u8, u32), ErrorKind>(vf),
            Err(e) => spec_full_header(p@, name, max_version) == Err::<(u8, u32), ErrorKind>(
                e.spec_kind(),
            ),
        },
{
    let (version, flags) = match read_box_header_ext(p) {
        Ok(vf) => vf,
        Err(e) => {
            return Err(e);
        },
    };
    if version > max_version {
        return Err(Error::UnsupportedBoxVersion(name, version));
    }
    Ok((version, flags))
}

/// The bytes of a 32-bit box header followed by a full-box word.
pub open spec fn full_header_bytes(name: BoxType, size: u64, version: u8, flags: u32) -> Seq<u8> {
    u32_be(size as u32) + u32_be(name.spec_to_u32()) + ext_bytes(version, flags)
}

/// A child box found inside a container's payload.
#[derive(Debug, Clone, Copy, PartialEq, Eq, Structural)]
pub struct Child {
    /// The child's type.
    pub name: BoxType,
    /// Where the child's payload starts in the container's payload.
    pub start: usize,
    /// The child's declared size, counted as under an 8-byte header.
    pub size: u64,
    /// Where the child ends and its next sibling starts.
    pub next: usize,
}

/// Where a child box lies in its container's payload.
pub struct ChildSpan {
    /// The child's type.
    pub name: BoxType,
    /// Where the child's payload starts.
    pub start: int,
    /// The child's declared size, counted as under an 8-byte header.
    pub size: u64,
    /// Where the child ends and its next sibling starts.
    pub next: int,
}

impl View for Child {
    type V = ChildSpan;

    open spec fn view(&self) -> ChildSpan {
        ChildSpan {
            name: self.name,
            start: self.start as int,
            size: self.size,
            next: self.next as int,
        }
    }
}

impl ChildSpan {
    /// The payload bytes of this child.
    pub open spec fn bytes(self, p: Seq<u8>) -> Seq<u8> {
        p.subrange(self.start, self.next)
    }
}

impl Child {
    /// The child is laid out inside a payload of `len` bytes, after `cur`.
    pub open spec fn inside(&self, cur: int, len: int) -> bool {
        &&& cur + 8 <= self.start <= self.next <= len
        &&& self.size == self.next - self.start + 8
    }

    /// The child whose header starts at `p[cur]`: its declared size must
    /// cover its own header and must not reach past the end of `p`.
    pub open spec fn spec_next(p: Seq<u8>, cur: int) -> Result<ChildSpan, ErrorKind> {
        match BoxHeader::spec_read(p, cur) {
            Err(e) => Err(e),
            Ok(h) => if h.size < h.header_len || h.size > p.len() - cur {
                Err(ErrorKind::InvalidData)
            } else {
                Ok(
                    ChildSpan {
                        name: h.name,
                        start: cur + h.header_len,
                        size: (h.size - h.header_len + 8) as u64,
                        next: cur + h.size,
                    },
                )
            },
        }
    }

    /// Reads the header of the child at `p[cur]` and checks its extent
    /// against the container.
    pub fn next_child(p: &[u8], cur: usize) -> (r: Result<Child, Error>)
        requires
            cur <= p@.len(),
        ensures
            decoded(r) == Child::spec_next(p@, cur as int),
            r is Ok ==> r.unwrap().inside(cur as int, p@.len() as int),
    {
        let h = match BoxHeader::read_at(p, cur) {
            Ok(h) => h,
            Err(e) => {
                return Err(e);
            },
        };
        if h.size < h.header_len || h.size > (p.len() - cur) as u64 {
            return Err(Error::InvalidData("child larger than parent"));
        }
        Ok(
            Child {
                name: h.name,
                start: cur + h.header_len as usize,
                size: h.size - h.header_len + 8,
                next: cur + h.size as usize,
            },
        )
    }

    /// The payload bytes of this child.
    pub fn bytes<'a>(&self, p: &'a [u8]) -> (r: &'a [u8])
        requires
            self.start <= self.next <= p@.len(),
            self.size == self.next - self.start + 8,
        ensures
            r@ == self@.bytes(p@),
            payload(r@, self.size) == r@,
    {
        slice_subrange(p, self.start, self.next)
    }
}

/// The bytes of a 32-bit box header.
pub open spec fn header_bytes(name: BoxType, size: u64) -> Seq<u8> {
    u32_be(size as u32) + u32_be(name.spec_to_u32())
}

/// A box header of a size that fits 32 bits reads back as written.
pub proof fn lemma_plain_header(name: BoxType, size: u64, rest: Seq<u8>)
    requires
        8 <= size <= u32::MAX,
    ensures
        header_bytes(name, size).len() == 8,
        BoxHeader::spec_read(header_bytes(name, size) + rest, 0) == Ok::<BoxHeader, ErrorKind>(
            BoxHeader {
                name: BoxType::spec_from_u32(name.spec_to_u32()),
                size: size,
                header_len: 8,
            },
        ),
        (header_bytes(name, size) + rest).skip(8) == rest,
        size == 8 + rest.len() ==> payload((header_bytes(name, size) + rest).skip(8), size)
            == rest,
{
    let b = header_bytes(name, size) + rest;
    let t = u32_be(name.spec_to_u32());
    lemma_u32_round_trip(size as u32, Seq::empty(), t + rest);
    assert(b =~= Seq::empty() + u32_be(size as u32) + (t + rest));
    lemma_u32_round_trip(name.spec_to_u32(), u32_be(size as u32), rest);
    assert(b =~= u32_be(size as u32) + t + rest);
    assert(b.skip(8) =~= rest);
}

/// The view of an optional value.
pub open spec fn opt_view<T: View>(o: Option<T>) -> Option<T::V> {
    match o {
        Some(v) => Some(v@),
        None => None,
    }
}

/// The views of a sequence of values.
pub open spec fn views<T: View>(s: Seq<T>) -> Seq<T::V> {
    Seq::new(s.len(), |i: int| s[i]@)
}

/// A full-box header of a size that fits 32 bits reads back as written.
pub proof fn lemma_full_header(
    name: BoxType,
    size: u64,
    version: u8,
    flags: u32,
    max_version: u8,
    rest: Seq<u8>,
)
    requires
        8 <= size <= u32::MAX,
        size != 1,
        flags < 0x100_0000,
        version <= max_version,
    ensures
        full_header_bytes(name, size, version, flags).len() == 12,
        BoxHeader::spec_read(full_header_bytes(name, size, version, flags) + rest, 0) == Ok::<
            BoxHeader,
            ErrorKind,
        >(
            BoxHeader {
                name: BoxType::spec_from_u32(name.spec_to_u32()),
                size: size,
                header_len: 8,
            },
        ),
        spec_version((full_header_bytes(name, size, version, flags) + rest).skip(8)) == version,
        spec_flags((full_header_bytes(name, size, version, flags) + rest).skip(8)) == flags,
        spec_full_header(
            (full_header_bytes(name, size, version, flags) + rest).skip(8),
            name,
            max_version,
        ) == Ok::<(u8, u32), ErrorKind>((version, flags)),
        (full_header_bytes(name, size, version, flags) + rest).skip(8) == ext_bytes(version, flags)
            + rest,
        ext_bytes(version, flags).len() == 4,
        size == 12 + rest.len() ==> payload(
            (full_header_bytes(name, size, version, flags) + rest).skip(8),
            size,
        ) == ext_bytes(version, flags) + rest,
{
    let b = full_header_bytes(name, size, version, flags) + rest;
    let e = ext_bytes(version, flags);
    let t = u32_be(name.spec_to_u32());
    lemma_u32_round_trip(size as u32, Seq::empty(), t + e + rest);
    assert(b =~= Seq::empty() + u32_be(size as u32) + (t + e + rest));
    lemma_u32_round_trip(name.spec_to_u32(), u32_be(size as u32), e + rest);
    assert(b =~= u32_be(size as u32) + t + (e + rest));
    lemma_u24_round_trip(flags, seq![version], rest);
    assert(b.skip(8) =~= seq![version] + u24_be(flags) + rest);
    assert(b.skip(8) =~= ext_bytes(version, flags) + rest);
}

/// Joining three runs of bytes gives the same whichever two are joined
/// first.
pub proof fn lemma_assoc(a: Seq<u8>, b: Seq<u8>, c: Seq<u8>)
    ensures
        (a + b) + c == a + (b + c),
{
    assert((a + b) + c =~= a + (b + c));
}

/// Joining nothing to a run of bytes leaves it as it is.
pub proof fn lemma_add_empty(a: Seq<u8>)
    ensures
        a + Seq::<u8>::empty() == a,
{
    assert(a + Seq::<u8>::empty() =~= a);
}

/// The written size of an optional child: nothing where it is absent.
pub open spec fn opt_size<V>(o: Option<V>, size: spec_fn(V) -> nat) -> nat {
    match o {
        Some(v) => size(v),
        None => 0,
    }
}

/// The written bytes of an optional child: none where it is absent.
pub open spec fn opt_bytes<V>(o: Option<V>, bytes: spec_fn(V) -> Seq<u8>) -> Seq<u8> {
    match o {
        Some(v) => bytes(v),
        None => Seq::empty(),
    }
}

/// The written sizes of the children `s`, added up.
pub open spec fn sum_sizes<V>(s: Seq<V>, size: spec_fn(V) -> nat) -> nat
    decreases s.len(),
{
    if s.len() == 0 {
        0
    } else {
        sum_sizes(s.drop_last(), size) + size(s.last())
    }
}

/// The first `i + 1` children weigh what the first `i` do and child `i`.
pub proof fn lemma_sum_take<V>(s: Seq<V>, i: int, size: spec_fn(V) -> nat)
    requires
        0 <= i < s.len(),
    ensures
        sum_sizes(s.take(i + 1), size) == sum_sizes(s.take(i), size) + size(s[i]),
{
    assert(s.take(i + 1).drop_last() =~= s.take(i));
}

/// The declared sizes, headers included, of the children that lie in the
/// payload `p` from `cur` on, added up; `None` where a child is refused.
pub open spec fn children_total(p: Seq<u8>, cur: int) -> Option<int>
    decreases p.len() - cur,
{
    if cur < 0 || cur >= p.len() {
        Some(0)
    } else {
        match Child::spec_next(p, cur) {
            Err(_) => None,
            Ok(ch) => match children_total(p, ch.next) {
                None => None,
                Some(rest) => Some(ch.next - cur + rest),
            },
        }
    }
}

/// The children of a payload tile it: where none is refused, their
/// declared sizes add up to the length of the payload.
pub proof fn lemma_children_tile(p: Seq<u8>, cur: int)
    requires
        0 <= cur <= p.len(),
        children_total(p, cur) is Some,
    ensures
        children_total(p, cur) == Some(p.len() - cur),
    decreases p.len() - cur,
{
    if cur < p.len() {
        let ch = Child::spec_next(p, cur).unwrap();
        lemma_children_tile(p, ch.next);
    }
}

/// A run of bytes is found again where it was joined in.
pub proof fn lemma_window(a: Seq<u8>, c: Seq<u8>, z: Seq<u8>)
    ensures
        ((a + c) + z).subrange(a.len() as int, (a.len() + c.len()) as int) == c,
        ((a + c) + z).len() == a.len() + c.len() + z.len(),
{
    assert(((a + c) + z).subrange(a.len() as int, (a.len() + c.len()) as int) =~= c);
}

/// Joining a run of bytes to nothing leaves it as it is.
pub proof fn lemma_empty_add(a: Seq<u8>)
    ensures
        Seq::<u8>::empty() + a == a,
{
    assert(Seq::<u8>::empty() + a =~= a);
}

/// A box that stands whole in a payload is found there as a child: the
/// walk reads its header where it starts, takes what follows the header
/// as its payload, and goes on where it ends.
pub proof fn lemma_child_at(p: Seq<u8>, cur: int, c: Seq<u8>, name: BoxType, size: u64)
    requires
        0 <= cur,
        cur + c.len() <= p.len(),
        p.subrange(cur, cur + c.len()) == c,
        c.len() == size,
        BoxHeader::spec_read(c, 0) == Ok::<BoxHeader, ErrorKind>(
            BoxHeader { name, size, header_len: 8 },
        ),
    ensures
        Child::spec_next(p, cur) == Ok::<ChildSpan, ErrorKind>(
            ChildSpan { name, start: cur + 8, size, next: cur + size },
        ),
        (ChildSpan { name, start: cur + 8, size, next: cur + size }).bytes(p) == c.skip(8),
        c.len() >= 8,
{
    lemma_be_u32_window(p, cur, c, 0);
    lemma_be_u32_window(p, cur, c, 4);
    assert(p.subrange(cur + 8, cur + size) =~= c.skip(8));
}

} // verus!

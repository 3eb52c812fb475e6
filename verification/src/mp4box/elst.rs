//! The edit list box.

use crate::codec::{
    be_u16, be_u32, be_u64, get_u16, get_u32, get_u64, lemma_u16_round_trip,
    lemma_u32_round_trip, lemma_u64_round_trip, put_u16, put_u32, put_u64, saturate, table_size,
    u16_be, u32_be, u64_be,
};
use crate::error::{Error, ErrorKind};
use crate::mp4box::header::{
    decoded, full_header_bytes, lemma_full_header, payload, payload_of, read_full_header,
    spec_full_header, write_box_header_ext, BoxHeader,
};
use crate::mp4box::table::{
    concat, inverse_on, lemma_concat_take, lemma_table_round_trip_on, table,
};
use crate::mp4box::BoxType;
use vstd::prelude::*;

verus! {

/// One edit: a stretch of the presentation and the media time it shows.
/// Both times are held unsigned.
#[derive(Debug, Clone, Copy, PartialEq, Eq, Default, Structural)]
pub struct ElstEntry {
    pub segment_duration: u64,
    pub media_time: u64,
    pub media_rate: u16,
    pub media_rate_fraction: u16,
}

impl ElstEntry {
    /// The twelve bytes of an entry under version 0, which keeps the low
    /// 32 bits of each time.
    pub open spec fn enc32() -> spec_fn(ElstEntry) -> Seq<u8> {
        |e: ElstEntry|
            u32_be(e.segment_duration as u32) + u32_be(e.media_time as u32) + u16_be(e.media_rate)
                + u16_be(e.media_rate_fraction)
    }

    /// The entry held at `p[i..i + 12]` under version 0.
    pub open spec fn dec32() -> spec_fn(Seq<u8>, int) -> ElstEntry {
        |p: Seq<u8>, i: int|
            ElstEntry {
                segment_duration: be_u32(p, i) as u64,
                media_time: be_u32(p, i + 4) as u64,
                media_rate: be_u16(p, i + 8),
                media_rate_fraction: be_u16(p, i + 10),
            }
    }

    /// The twenty bytes of an entry under version 1.
    pub open spec fn enc64() -> spec_fn(ElstEntry) -> Seq<u8> {
        |e: ElstEntry|
            u64_be(e.segment_duration) + u64_be(e.media_time) + u16_be(e.media_rate) + u16_be(
                e.media_rate_fraction,
            )
    }

    /// The entry held at `p[i..i + 20]` under version 1.
    pub open spec fn dec64() -> spec_fn(Seq<u8>, int) -> ElstEntry {
        |p: Seq<u8>, i: int|
            ElstEntry {
                segment_duration: be_u64(p, i),
                media_time: be_u64(p, i + 8),
                media_rate: be_u16(p, i + 16),
                media_rate_fraction: be_u16(p, i + 18),
            }
    }

    /// Both times of the entry fit 32 bits.
    pub open spec fn fits32() -> spec_fn(ElstEntry) -> bool {
        |e: ElstEntry| e.segment_duration <= u32::MAX && e.media_time <= u32::MAX
    }

    /// Any entry.
    pub open spec fn any() -> spec_fn(ElstEntry) -> bool {
        |e: ElstEntry| true
    }

    /// An entry whose times fit 32 bits reads back as version 0 wrote it.
    pub proof fn lemma_inverse32()
        ensures
            inverse_on(ElstEntry::enc32(), ElstEntry::dec32(), 12, ElstEntry::fits32()),
    {
        let enc = ElstEntry::enc32();
        let dec = ElstEntry::dec32();
        let ok = ElstEntry::fits32();
        assert forall|e: ElstEntry, a: Seq<u8>, b: Seq<u8>| ok(e) implies #[trigger] dec(
            a + enc(e) + b,
            a.len() as int,
        ) == e by {
            let s = a + enc(e) + b;
            let f0 = u32_be(e.segment_duration as u32);
            let f1 = u32_be(e.media_time as u32);
            let f2 = u16_be(e.media_rate);
            let f3 = u16_be(e.media_rate_fraction);
            lemma_u32_round_trip(e.segment_duration as u32, a, f1 + f2 + f3 + b);
            assert(s =~= a + f0 + (f1 + f2 + f3 + b));
            lemma_u32_round_trip(e.media_time as u32, a + f0, f2 + f3 + b);
            assert(s =~= (a + f0) + f1 + (f2 + f3 + b));
            lemma_u16_round_trip(e.media_rate, a + f0 + f1, f3 + b);
            assert(s =~= (a + f0 + f1) + f2 + (f3 + b));
            lemma_u16_round_trip(e.media_rate_fraction, a + f0 + f1 + f2, b);
            assert(s =~= (a + f0 + f1 + f2) + f3 + b);
        }
        assert forall|e: ElstEntry| (#[trigger] enc(e)).len() == 12 by {
            lemma_u32_round_trip(e.segment_duration as u32, Seq::empty(), Seq::empty());
            lemma_u32_round_trip(e.media_time as u32, Seq::empty(), Seq::empty());
            lemma_u16_round_trip(e.media_rate, Seq::empty(), Seq::empty());
            lemma_u16_round_trip(e.media_rate_fraction, Seq::empty(), Seq::empty());
        }
    }

    /// An entry reads back as version 1 wrote it.
    pub proof fn lemma_inverse64()
        ensures
            inverse_on(ElstEntry::enc64(), ElstEntry::dec64(), 20, ElstEntry::any()),
    {
        let enc = ElstEntry::enc64();
        let dec = ElstEntry::dec64();
        assert forall|e: ElstEntry, a: Seq<u8>, b: Seq<u8>| #[trigger]
            dec(a + enc(e) + b, a.len() as int) == e by {
            let s = a + enc(e) + b;
            let f0 = u64_be(e.segment_duration);
            let f1 = u64_be(e.media_time);
            let f2 = u16_be(e.media_rate);
            let f3 = u16_be(e.media_rate_fraction);
            lemma_u64_round_trip(e.segment_duration, a, f1 + f2 + f3 + b);
            assert(s =~= a + f0 + (f1 + f2 + f3 + b));
            lemma_u64_round_trip(e.media_time, a + f0, f2 + f3 + b);
            assert(s =~= (a + f0) + f1 + (f2 + f3 + b));
            lemma_u16_round_trip(e.media_rate, a + f0 + f1, f3 + b);
            assert(s =~= (a + f0 + f1) + f2 + (f3 + b));
            lemma_u16_round_trip(e.media_rate_fraction, a + f0 + f1 + f2, b);
            assert(s =~= (a + f0 + f1 + f2) + f3 + b);
        }
        assert forall|e: ElstEntry| (#[trigger] enc(e)).len() == 20 by {
            lemma_u64_round_trip(e.segment_duration, Seq::empty(), Seq::empty());
            lemma_u64_round_trip(e.media_time, Seq::empty(), Seq::empty());
            lemma_u16_round_trip(e.media_rate, Seq::empty(), Seq::empty());
            lemma_u16_round_trip(e.media_rate_fraction, Seq::empty(), Seq::empty());
        }
    }
}

/// The edits of a track, with 32-bit times (version 0) or 64-bit times
/// (version 1).
#[derive(Debug, Clone, PartialEq, Eq, Default)]
pub struct ElstBox {
    pub version: u8,
    pub flags: u32,
    pub entries: Vec<ElstEntry>,
}

/// What an [`ElstBox`] holds.
pub struct ElstView {
    pub version: u8,
    pub flags: u32,
    pub entries: Seq<ElstEntry>,
}

impl View for ElstBox {
    type V = ElstView;

    open spec fn view(&self) -> ElstView {
        ElstView { version: self.version, flags: self.flags, entries: self.entries@ }
    }
}

impl ElstView {
    /// The width of an entry under `version`.
    pub open spec fn width(version: u8) -> nat {
        if version == 1 {
            20
        } else {
            12
        }
    }

    /// How an entry is written under `version`.
    pub open spec fn enc(version: u8) -> spec_fn(ElstEntry) -> Seq<u8> {
        if version == 1 {
            ElstEntry::enc64()
        } else {
            ElstEntry::enc32()
        }
    }

    /// How an entry is read under `version`.
    pub open spec fn dec(version: u8) -> spec_fn(Seq<u8>, int) -> ElstEntry {
        if version == 1 {
            ElstEntry::dec64()
        } else {
            ElstEntry::dec32()
        }
    }

    /// The number of bytes that the box is written as; under a version
    /// other than 0 and 1 no entry counts.
    pub open spec fn size(self) -> nat {
        if self.version <= 1 {
            16 + ElstView::width(self.version) * self.entries.len()
        } else {
            16
        }
    }

    /// The box can be written: version 0 or 1, flags of 24 bits, a size of
    /// 32 bits, and under version 0 times of 32 bits.
    pub open spec fn well_formed(self) -> bool {
        &&& self.version <= 1
        &&& self.flags < 0x100_0000
        &&& self.size() <= u32::MAX
        &&& self.version == 0 ==> forall|i: int|
            0 <= i < self.entries.len() ==> (#[trigger] self.entries[i]).segment_duration
                <= u32::MAX && self.entries[i].media_time <= u32::MAX
    }

    /// The box as it is written, header included.
    pub open spec fn bytes(self) -> Seq<u8> {
        full_header_bytes(BoxType::ElstBox, self.size() as u64, self.version, self.flags) + u32_be(
            self.entries.len() as u32,
        ) + concat(self.entries, ElstView::enc(self.version))
    }

    /// The box that the payload `p` holds. The entry count is checked
    /// against the rest of the payload before any entry is read.
    pub open spec fn read(p: Seq<u8>) -> Result<ElstView, ErrorKind> {
        match spec_full_header(p, BoxType::ElstBox, 1) {
            Err(e) => Err(e),
            Ok(vf) => if p.len() < 8 {
                Err(ErrorKind::IoError)
            } else if be_u32(p, 4) > (p.len() - 8) / (ElstView::width(vf.0) as int) {
                Err(ErrorKind::InvalidData)
            } else {
                Ok(
                    ElstView {
                        version: vf.0,
                        flags: vf.1,
                        entries: table(
                            p,
                            8,
                            ElstView::width(vf.0) as int,
                            be_u32(p, 4) as nat,
                            ElstView::dec(vf.0),
                        ),
                    },
                )
            },
        }
    }

    /// Decoding what a well-formed box is written as gives the box back.
    #[verifier::rlimit(50)]
    pub proof fn lemma_round_trip(self)
        requires
            self.well_formed(),
        ensures
            self.bytes().len() == self.size(),
            BoxHeader::spec_read(self.bytes(), 0) == Ok::<BoxHeader, ErrorKind>(
                BoxHeader { name: BoxType::ElstBox, size: self.size() as u64, header_len: 8 },
            ),
            ElstView::read(payload(self.bytes().skip(8), self.size() as u64)) == Ok::<
                ElstView,
                ErrorKind,
            >(self),
    {
        let b = self.bytes();
        let size = self.size() as u64;
        let p = payload(b.skip(8), size);
        let h = full_header_bytes(BoxType::ElstBox, size, self.version, self.flags);
        let n = u32_be(self.entries.len() as u32);
        let enc = ElstView::enc(self.version);
        let dec = ElstView::dec(self.version);
        let w = ElstView::width(self.version);
        let body = concat(self.entries, enc);
        assert(w * self.entries.len() >= 0) by (nonlinear_arith);
        lemma_full_header(BoxType::ElstBox, size, self.version, self.flags, 1, n + body);
        assert(b =~= h + (n + body));
        if self.version == 1 {
            ElstEntry::lemma_inverse64();
            lemma_table_round_trip_on(
                self.entries,
                enc,
                dec,
                w,
                ElstEntry::any(),
                h.skip(8) + n,
                Seq::empty(),
            );
        } else {
            ElstEntry::lemma_inverse32();
            lemma_table_round_trip_on(
                self.entries,
                enc,
                dec,
                w,
                ElstEntry::fits32(),
                h.skip(8) + n,
                Seq::empty(),
            );
        }
        assert(p =~= h.skip(8) + n + body);
        assert(p =~= (h.skip(8) + n) + body + Seq::empty());
        lemma_u32_round_trip(self.entries.len() as u32, h.skip(8), body);
        assert(p.len() - 8 == w * self.entries.len());
        assert((w * self.entries.len()) as int / (w as int)
            == self.entries.len()) by (nonlinear_arith)
            requires
                w > 0,
        ;
        assert(ElstView::read(p).unwrap().entries == self.entries);
    }
}

impl ElstBox {
    pub fn get_type(&self) -> (r: BoxType)
        ensures
            r == BoxType::ElstBox,
    {
        BoxType::ElstBox
    }

    /// The size of the box as written, saturating at `u64::MAX`.
    pub fn get_size(&self) -> (r: u64)
        ensures
            r == saturate(self@.size() as int),
    {
        if self.version == 1 {
            table_size(16, 20, self.entries.len())
        } else if self.version == 0 {
            table_size(16, 12, self.entries.len())
        } else {
            16
        }
    }

    /// Decodes the box of declared size `size` whose payload starts `src`.
    #[verifier::rlimit(50)]
    pub fn read_box(src: &[u8], size: u64) -> (r: Result<ElstBox, Error>)
        ensures
            decoded(r) == ElstView::read(payload(src@, size)),
    {
        let p = payload_of(src, size);
        let (version, flags) = match read_full_header(p, BoxType::ElstBox, 1) {
            Ok(vf) => vf,
            Err(e) => {
                return Err(e);
            },
        };
        if p.len() < 8 {
            return Err(Error::IoError);
        }
        let entry_count: u32 = get_u32(p, 4);
        let width: usize = if version == 1 {
            20
        } else {
            12
        };
        if entry_count as usize > (p.len() - 8) / width {
            return Err(
                Error::InvalidData(
                    "elst entry_count indicates more entries than could fit in the box",
                ),
            );
        }
        let count: usize = entry_count as usize;
        assert(width * count <= p.len() - 8) by (nonlinear_arith)
            requires
                count <= (p.len() - 8) / (width as int),
                width > 0,
        ;
        let mut entries: Vec<ElstEntry> = Vec::with_capacity(count);
        let mut i: usize = 0;
        while i < count
            invariant
                i <= count,
                width == ElstView::width(version),
                8 + width * count <= p.len(),
                entries@ == table(p@, 8, width as int, i as nat, ElstView::dec(version)),
            decreases count - i,
        {
            assert(width * i + width <= width * count) by (nonlinear_arith)
                requires
                    i < count,
                    width > 0,
            ;
            assert(width * i >= 0) by (nonlinear_arith);
            let at: usize = 8 + width * i;
            let entry = if version == 1 {
                ElstEntry {
                    segment_duration: get_u64(p, at),
                    media_time: get_u64(p, at + 8),
                    media_rate: get_u16(p, at + 16),
                    media_rate_fraction: get_u16(p, at + 18),
                }
            } else {
                ElstEntry {
                    segment_duration: get_u32(p, at) as u64,
                    media_time: get_u32(p, at + 4) as u64,
                    media_rate: get_u16(p, at + 8),
                    media_rate_fraction: get_u16(p, at + 10),
                }
            };
            entries.push(entry);
            i += 1;
            assert(entries@ =~= table(p@, 8, width as int, i as nat, ElstView::dec(version)));
        }
        Ok(ElstBox { version, flags, entries })
    }

    /// Whether the times of all entries fit 32 bits.
    fn times_fit_32(&self) -> (r: bool)
        ensures
            r == forall|i: int|
                0 <= i < self.entries@.len() ==> (#[trigger] self.entries@[i]).segment_duration
                    <= u32::MAX && self.entries@[i].media_time <= u32::MAX,
    {
        let mut i: usize = 0;
        while i < self.entries.len()
            invariant
                i <= self.entries@.len(),
                forall|j: int|
                    0 <= j < i ==> (#[trigger] self.entries@[j]).segment_duration <= u32::MAX
                        && self.entries@[j].media_time <= u32::MAX,
            decreases self.entries@.len() - i,
        {
            if self.entries[i].segment_duration > 0xFFFF_FFFF || self.entries[i].media_time
                > 0xFFFF_FFFF {
                return false;
            }
            i += 1;
        }
        true
    }

    /// Appends the box to `out` and returns the number of bytes written;
    /// a box that is not well formed is refused and `out` left as it was.
    #[verifier::rlimit(50)]
    pub fn write_box(&self, out: &mut Vec<u8>) -> (r: Result<u64, Error>)
        ensures
            r is Ok <==> self@.well_formed(),
            r is Ok ==> r.unwrap() == self@.size() && final(out)@ == old(out)@ + self@.bytes()
                && self@.bytes().len() == self@.size(),
            r is Err ==> r.unwrap_err().spec_kind() == ErrorKind::InvalidData && final(out)@
                == old(out)@,
    {
        let size: u64 = self.get_size();
        if self.version > 1 || self.flags >= 0x100_0000 || size > 0xFFFF_FFFF {
            return Err(Error::InvalidData("elst box cannot be written"));
        }
        if self.version == 0 && !self.times_fit_32() {
            return Err(Error::InvalidData("elst times exceed 32 bits"));
        }
        assert(ElstView::width(self.version) * self.entries@.len() >= 0) by (nonlinear_arith);
        BoxHeader::new(self.get_type(), size).write(out);
        write_box_header_ext(out, self.version, self.flags);
        put_u32(out, self.entries.len() as u32);
        let ghost head = out@;
        let ghost enc = ElstView::enc(self.version);
        assert(head =~= old(out)@ + (full_header_bytes(
            BoxType::ElstBox,
            size,
            self.version,
            self.flags,
        ) + u32_be(self.entries.len() as u32)));
        let mut i: usize = 0;
        while i < self.entries.len()
            invariant
                i <= self.entries@.len(),
                enc == ElstView::enc(self.version),
                self.version <= 1,
                self.version == 0 ==> forall|j: int|
                    0 <= j < self.entries@.len() ==> (
                    #[trigger] self.entries@[j]).segment_duration <= u32::MAX
                        && self.entries@[j].media_time <= u32::MAX,
                out@ == head + concat(self.entries@.take(i as int), enc),
            decreases self.entries@.len() - i,
        {
            let entry: ElstEntry = self.entries[i];
            if self.version == 1 {
                put_u64(out, entry.segment_duration);
                put_u64(out, entry.media_time);
            } else {
                assert(self.entries@[i as int].segment_duration <= u32::MAX);
                put_u32(out, entry.segment_duration as u32);
                put_u32(out, entry.media_time as u32);
            }
            put_u16(out, entry.media_rate);
            put_u16(out, entry.media_rate_fraction);
            proof {
                lemma_concat_take(self.entries@, i as int, enc);
                assert(out@ =~= head + concat(self.entries@.take(i + 1), enc));
            }
            i += 1;
        }
        proof {
            assert(self.entries@.take(i as int) =~= self.entries@);
            assert(out@ =~= old(out)@ + self@.bytes());
            self@.lemma_round_trip();
        }
        Ok(size)
    }
}

} // verus!

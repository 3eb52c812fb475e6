//! The chunk large offset box: the file offset of each chunk, in 64 bits.

use crate::codec::{be_u32, be_u64, get_u32, get_u64, lemma_u32_round_trip, lemma_u64_round_trip,
    put_u32, put_u64, saturate, table_size, u32_be, u64_be};
use crate::error::{Error, ErrorKind};
use crate::mp4box::header::{
    decoded, full_header_bytes, lemma_full_header, payload, payload_of, read_full_header,
    spec_full_header, write_box_header_ext, BoxHeader,
};
use crate::mp4box::table::{concat, inverse, lemma_concat_take, lemma_table_round_trip, table};
use crate::mp4box::BoxType;
use vstd::prelude::*;

verus! {

/// The chunk large offset box: the file offset of each chunk, in 64 bits.
#[derive(Debug, Clone, PartialEq, Eq, Default)]
pub struct Co64Box {
    pub version: u8,
    pub flags: u32,
    pub entries: Vec<u64>,
}

/// What a [`Co64Box`] holds.
pub struct Co64View {
    pub version: u8,
    pub flags: u32,
    pub entries: Seq<u64>,
}

impl View for Co64Box {
    type V = Co64View;

    open spec fn view(&self) -> Co64View {
        Co64View { version: self.version, flags: self.flags, entries: self.entries@ }
    }
}

impl Co64View {
    /// The 8 bytes of an entry.
    pub open spec fn enc() -> spec_fn(u64) -> Seq<u8> {
        |e: u64| u64_be(e)
    }

    /// The entry held at `p[i..i + 8]`.
    pub open spec fn dec() -> spec_fn(Seq<u8>, int) -> u64 {
        |p: Seq<u8>, i: int| be_u64(p, i)
    }

    /// An entry reads back as it was written.
    pub proof fn lemma_inverse()
        ensures
            inverse(Co64View::enc(), Co64View::dec(), 8),
    {
        let enc = Co64View::enc();
        let dec = Co64View::dec();
        assert forall|e: u64, a: Seq<u8>, b: Seq<u8>| #[trigger]
            dec(a + enc(e) + b, a.len() as int) == e by {
            let s = a + enc(e) + b;
            lemma_u64_round_trip(e, a, b);
            assert(s =~= (a) + u64_be(e) + (b));
        }
        assert forall|e: u64| (#[trigger] enc(e)).len() == 8 by {
            lemma_u64_round_trip(e, Seq::empty(), Seq::empty());
        }
    }

    /// The number of bytes that the box is written as.
    pub open spec fn size(self) -> nat {
        (16 + 8 * self.entries.len()) as nat
    }

    /// The box can be written: its version is defined (version 0), its
    /// flags fit 24 bits and its size 32.
    pub open spec fn well_formed(self) -> bool {
        self.version <= 0 && self.flags < 0x100_0000 && self.size() <= u32::MAX
    }

    /// The box as it is written, header included.
    pub open spec fn bytes(self) -> Seq<u8> {
        full_header_bytes(BoxType::Co64Box, self.size() as u64, self.version, self.flags) + u32_be(
            self.entries.len() as u32,
        ) + concat(self.entries, Co64View::enc())
    }

    /// The box that the payload `p` holds. The entry count is checked
    /// against the rest of the payload before any entry is read.
    pub open spec fn read(p: Seq<u8>) -> Result<Co64View, ErrorKind> {
        match spec_full_header(p, BoxType::Co64Box, 0) {
            Err(e) => Err(e),
            Ok(vf) => if p.len() < 8 {
                Err(ErrorKind::IoError)
            } else if be_u32(p, 4) > (p.len() - 8) / 8 {
                Err(ErrorKind::InvalidData)
            } else {
                Ok(
                    Co64View {
                        version: vf.0,
                        flags: vf.1,
                        entries: table(p, 8, 8, be_u32(p, 4) as nat, Co64View::dec()),
                    },
                )
            },
        }
    }

    /// Decoding what a well-formed box is written as gives the box back.
    #[verifier::rlimit(50)]
    pub proof fn lemma_round_trip(self)
        requires
            self.well_formed(),
        ensures
            self.bytes().len() == self.size(),
            BoxHeader::spec_read(self.bytes(), 0) == Ok::<BoxHeader, ErrorKind>(
                BoxHeader { name: BoxType::Co64Box, size: self.size() as u64, header_len: 8 },
            ),
            Co64View::read(payload(self.bytes().skip(8), self.size() as u64)) == Ok::<
                Co64View,
                ErrorKind,
            >(self),
    {
        let b = self.bytes();
        let size = self.size() as u64;
        let p = payload(b.skip(8), size);
        let h = full_header_bytes(BoxType::Co64Box, size, self.version, self.flags);
        let n = u32_be(self.entries.len() as u32);
        let body = concat(self.entries, Co64View::enc());
        Co64View::lemma_inverse();
        lemma_full_header(BoxType::Co64Box, size, self.version, self.flags, 0, n + body);
        assert(b =~= h + (n + body));
        lemma_table_round_trip(
            self.entries,
            Co64View::enc(),
            Co64View::dec(),
            8,
            h.skip(8) + n,
            Seq::empty(),
        );
        assert(p =~= h.skip(8) + n + body);
        assert(p =~= (h.skip(8) + n) + body + Seq::empty());
        lemma_u32_round_trip(self.entries.len() as u32, h.skip(8), body);
        assert(Co64View::read(p).unwrap().entries == self.entries);
    }
}

impl Co64Box {
    pub fn get_type(&self) -> (r: BoxType)
        ensures
            r == BoxType::Co64Box,
    {
        BoxType::Co64Box
    }

    /// The size of the box as written, saturating at `u64::MAX`.
    pub fn get_size(&self) -> (r: u64)
        ensures
            r == saturate(self@.size() as int),
    {
        table_size(16, 8, self.entries.len())
    }

    /// Decodes the box of declared size `size` whose payload starts `src`.
    #[verifier::rlimit(50)]
    pub fn read_box(src: &[u8], size: u64) -> (r: Result<Co64Box, Error>)
        ensures
            decoded(r) == Co64View::read(payload(src@, size)),
    {
        let p = payload_of(src, size);
        let (version, flags) = match read_full_header(p, BoxType::Co64Box, 0) {
            Ok(vf) => vf,
            Err(e) => {
                return Err(e);
            },
        };
        if p.len() < 8 {
            return Err(Error::IoError);
        }
        let entry_count: u32 = get_u32(p, 4);
        if entry_count as usize > (p.len() - 8) / 8 {
            return Err(
                Error::InvalidData(
                    "co64 entry_count indicates more entries than could fit in the box",
                ),
            );
        }
        let count: usize = entry_count as usize;
        let mut entries: Vec<u64> = Vec::with_capacity(count);
        let mut i: usize = 0;
        while i < count
            invariant
                i <= count,
                8 + 8 * count <= p.len(),
                entries@ == table(p@, 8, 8, i as nat, Co64View::dec()),
            decreases count - i,
        {
            let entry: u64 = get_u64(p, 8 + 8 * i);
            entries.push(entry);
            i += 1;
            assert(entries@ =~= table(p@, 8, 8, i as nat, Co64View::dec()));
        }
        Ok(Co64Box { version, flags, entries })
    }

    /// Appends the box to `out` and returns the number of bytes written;
    /// a box that is not well formed is refused and `out` left as it was.
    #[verifier::rlimit(50)]
    pub fn write_box(&self, out: &mut Vec<u8>) -> (r: Result<u64, Error>)
        ensures
            r is Ok <==> self@.well_formed(),
            r is Ok ==> r.unwrap() == self@.size() && final(out)@ == old(out)@ + self@.bytes()
                && self@.bytes().len() == self@.size(),
            r is Err ==> r.unwrap_err().spec_kind() == ErrorKind::InvalidData && final(out)@
                == old(out)@,
    {
        let size: u64 = self.get_size();
        if self.version > 0 || self.flags >= 0x100_0000 || size > 0xFFFF_FFFF {
            return Err(Error::InvalidData("co64 box cannot be written"));
        }
        BoxHeader::new(self.get_type(), size).write(out);
        write_box_header_ext(out, self.version, self.flags);
        put_u32(out, self.entries.len() as u32);
        let ghost head = out@;
        assert(head =~= old(out)@ + (full_header_bytes(BoxType::Co64Box, size, self.version,
            self.flags)
            + u32_be(self.entries.len() as u32)));
        let mut i: usize = 0;
        while i < self.entries.len()
            invariant
                i <= self.entries@.len(),
                out@ == head + concat(self.entries@.take(i as int), Co64View::enc()),
            decreases self.entries@.len() - i,
        {
            let entry: u64 = self.entries[i];
            put_u64(out, entry);
            proof {
                lemma_concat_take(self.entries@, i as int, Co64View::enc());
                assert(out@ =~= head + concat(self.entries@.take(i + 1), Co64View::enc()));
            }
            i += 1;
        }
        proof {
            assert(self.entries@.take(i as int) =~= self.entries@);
            assert(out@ =~= old(out)@ + self@.bytes());
            self@.lemma_round_trip();
        }
        Ok(size)
    }
}

} // verus!

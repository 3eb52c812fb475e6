//! The sample size box.

use crate::codec::{be_u32, get_u32, lemma_u32_round_trip, put_u32, saturate, table_size, u32_be};
use crate::error::{Error, ErrorKind};
use crate::mp4box::header::{
    decoded, full_header_bytes, lemma_full_header, payload, payload_of, read_full_header,
    spec_full_header, write_box_header_ext, BoxHeader,
};
use crate::mp4box::table::{
    concat, dec_u32, enc_u32, lemma_concat_take, lemma_inverse_u32, lemma_table_round_trip, table,
};
use crate::mp4box::BoxType;
use vstd::prelude::*;

verus! {

/// The sizes of a track's samples: one size for all of them where
/// `sample_size` is not zero, else one size per sample.
#[derive(Debug, Clone, PartialEq, Eq, Default)]
pub struct StszBox {
    pub version: u8,
    pub flags: u32,
    pub sample_size: u32,
    pub sample_count: u32,
    pub sample_sizes: Vec<u32>,
}

/// What a [`StszBox`] holds.
pub struct StszView {
    pub version: u8,
    pub flags: u32,
    pub sample_size: u32,
    pub sample_count: u32,
    pub sample_sizes: Seq<u32>,
}

impl View for StszBox {
    type V = StszView;

    open spec fn view(&self) -> StszView {
        StszView {
            version: self.version,
            flags: self.flags,
            sample_size: self.sample_size,
            sample_count: self.sample_count,
            sample_sizes: self.sample_sizes@,
        }
    }
}

impl StszView {
    /// The number of bytes that the box is written as.
    pub open spec fn size(self) -> nat {
        (20 + 4 * self.sample_sizes.len()) as nat
    }

    /// The box can be written: version 0, flags of 24 bits, a size of 32
    /// bits, and a table that agrees with the two counts: one size per
    /// sample under `sample_size == 0`, and none otherwise.
    pub open spec fn well_formed(self) -> bool {
        &&& self.version == 0
        &&& self.flags < 0x100_0000
        &&& self.size() <= u32::MAX
        &&& self.sample_size == 0 ==> self.sample_sizes.len() == self.sample_count
        &&& self.sample_size != 0 ==> self.sample_sizes.len() == 0
    }

    /// The box as it is written, header included.
    pub open spec fn bytes(self) -> Seq<u8> {
        full_header_bytes(BoxType::StszBox, self.size() as u64, self.version, self.flags) + u32_be(
            self.sample_size,
        ) + u32_be(self.sample_count) + concat(self.sample_sizes, enc_u32())
    }

    /// The box that the payload `p` holds. Under `sample_size == 0` the
    /// sample count is checked against the rest of the payload before any
    /// size is read.
    pub open spec fn read(p: Seq<u8>) -> Result<StszView, ErrorKind> {
        match spec_full_header(p, BoxType::StszBox, 0) {
            Err(e) => Err(e),
            Ok(vf) => if p.len() < 12 {
                Err(ErrorKind::IoError)
            } else if be_u32(p, 4) != 0 {
                Ok(
                    StszView {
                        version: vf.0,
                        flags: vf.1,
                        sample_size: be_u32(p, 4),
                        sample_count: be_u32(p, 8),
                        sample_sizes: Seq::empty(),
                    },
                )
            } else if be_u32(p, 8) > (p.len() - 12) / 4 {
                Err(ErrorKind::InvalidData)
            } else {
                Ok(
                    StszView {
                        version: vf.0,
                        flags: vf.1,
                        sample_size: 0,
                        sample_count: be_u32(p, 8),
                        sample_sizes: table(p, 12, 4, be_u32(p, 8) as nat, dec_u32()),
                    },
                )
            },
        }
    }

    /// Decoding what a well-formed box is written as gives the box back.
    #[verifier::rlimit(50)]
    pub proof fn lemma_round_trip(self)
        requires
            self.well_formed(),
        ensures
            self.bytes().len() == self.size(),
            BoxHeader::spec_read(self.bytes(), 0) == Ok::<BoxHeader, ErrorKind>(
                BoxHeader { name: BoxType::StszBox, size: self.size() as u64, header_len: 8 },
            ),
            StszView::read(payload(self.bytes().skip(8), self.size() as u64)) == Ok::<
                StszView,
                ErrorKind,
            >(self),
    {
        let b = self.bytes();
        let size = self.size() as u64;
        let p = payload(b.skip(8), size);
        let h = full_header_bytes(BoxType::StszBox, size, self.version, self.flags);
        let s = u32_be(self.sample_size);
        let n = u32_be(self.sample_count);
        let body = concat(self.sample_sizes, enc_u32());
        lemma_inverse_u32();
        lemma_full_header(BoxType::StszBox, size, self.version, self.flags, 0, s + n + body);
        assert(b =~= h + (s + n + body));
        lemma_table_round_trip(
            self.sample_sizes,
            enc_u32(),
            dec_u32(),
            4,
            h.skip(8) + s + n,
            Seq::empty(),
        );
        assert(p =~= h.skip(8) + s + n + body);
        assert(p =~= (h.skip(8) + s + n) + body + Seq::empty());
        lemma_u32_round_trip(self.sample_size, h.skip(8), n + body);
        assert(p =~= h.skip(8) + s + (n + body));
        lemma_u32_round_trip(self.sample_count, h.skip(8) + s, body);
        if self.sample_size == 0 {
            assert(StszView::read(p).unwrap().sample_sizes == self.sample_sizes);
        } else {
            assert(self.sample_sizes =~= Seq::empty());
        }
    }
}

impl StszBox {
    pub fn get_type(&self) -> (r: BoxType)
        ensures
            r == BoxType::StszBox,
    {
        BoxType::StszBox
    }

    /// The size of the box as written, saturating at `u64::MAX`.
    pub fn get_size(&self) -> (r: u64)
        ensures
            r == saturate(self@.size() as int),
    {
        table_size(20, 4, self.sample_sizes.len())
    }

    /// Decodes the box of declared size `size` whose payload starts `src`.
    #[verifier::rlimit(50)]
    pub fn read_box(src: &[u8], size: u64) -> (r: Result<StszBox, Error>)
        ensures
            decoded(r) == StszView::read(payload(src@, size)),
    {
        let p = payload_of(src, size);
        let (version, flags) = match read_full_header(p, BoxType::StszBox, 0) {
            Ok(vf) => vf,
            Err(e) => {
                return Err(e);
            },
        };
        if p.len() < 12 {
            return Err(Error::IoError);
        }
        let sample_size: u32 = get_u32(p, 4);
        let sample_count: u32 = get_u32(p, 8);
        let mut sample_sizes: Vec<u32> = Vec::new();
        if sample_size == 0 {
            if sample_count as usize > (p.len() - 12) / 4 {
                return Err(
                    Error::InvalidData(
                        "stsz sample_count indicates more values than could fit in the box",
                    ),
                );
            }
            let count: usize = sample_count as usize;
            sample_sizes.reserve(count);
            let mut i: usize = 0;
            while i < count
                invariant
                    i <= count,
                    12 + 4 * count <= p.len(),
                    sample_sizes@ == table(p@, 12, 4, i as nat, dec_u32()),
                decreases count - i,
            {
                let entry: u32 = get_u32(p, 12 + 4 * i);
                sample_sizes.push(entry);
                i += 1;
                assert(sample_sizes@ =~= table(p@, 12, 4, i as nat, dec_u32()));
            }
        }
        Ok(StszBox { version, flags, sample_size, sample_count, sample_sizes })
    }

    /// Appends the box to `out` and returns the number of bytes written;
    /// a box that is not well formed is refused and `out` left as it was.
    #[verifier::rlimit(50)]
    pub fn write_box(&self, out: &mut Vec<u8>) -> (r: Result<u64, Error>)
        ensures
            r is Ok <==> self@.well_formed(),
            r is Ok ==> r.unwrap() == self@.size() && final(out)@ == old(out)@ + self@.bytes()
                && self@.bytes().len() == self@.size(),
            r is Err ==> r.unwrap_err().spec_kind() == ErrorKind::InvalidData && final(out)@
                == old(out)@,
    {
        let size: u64 = self.get_size();
        if self.version != 0 || self.flags >= 0x100_0000 || size > 0xFFFF_FFFF {
            return Err(Error::InvalidData("stsz box cannot be written"));
        }
        if self.sample_size == 0 {
            if self.sample_count as usize != self.sample_sizes.len() {
                return Err(Error::InvalidData("sample count out of sync"));
            }
        } else if self.sample_sizes.len() != 0 {
            return Err(Error::InvalidData("sample sizes beside a constant size"));
        }
        BoxHeader::new(self.get_type(), size).write(out);
        write_box_header_ext(out, self.version, self.flags);
        put_u32(out, self.sample_size);
        put_u32(out, self.sample_count);
        let ghost head = out@;
        assert(head =~= old(out)@ + (full_header_bytes(
            BoxType::StszBox,
            size,
            self.version,
            self.flags,
        ) + u32_be(self.sample_size) + u32_be(self.sample_count)));
        let mut i: usize = 0;
        while i < self.sample_sizes.len()
            invariant
                i <= self.sample_sizes@.len(),
                out@ == head + concat(self.sample_sizes@.take(i as int), enc_u32()),
            decreases self.sample_sizes@.len() - i,
        {
            let entry: u32 = self.sample_sizes[i];
            put_u32(out, entry);
            proof {
                lemma_concat_take(self.sample_sizes@, i as int, enc_u32());
                assert(out@ =~= head + concat(self.sample_sizes@.take(i + 1), enc_u32()));
            }
            i += 1;
        }
        proof {
            assert(self.sample_sizes@.take(i as int) =~= self.sample_sizes@);
            assert(out@ =~= old(out)@ + self@.bytes());
            self@.lemma_round_trip();
        }
        Ok(size)
    }
}

} // verus!

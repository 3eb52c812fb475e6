//! The track extends box: the defaults of a track's fragments.

use crate::codec::{be_u32, get_u32, lemma_u32_round_trip, put_u32, saturate, u32_be};
use crate::error::{Error, ErrorKind};
use crate::mp4box::header::{
    decoded, ext_bytes, full_header_bytes, lemma_add_empty, lemma_assoc, lemma_full_header,
    payload, payload_of, read_full_header, spec_full_header, write_box_header_ext, BoxHeader,
};
use crate::mp4box::BoxType;
use vstd::prelude::*;

verus! {

/// The track extends box: the defaults of a track's fragments.
#[derive(Debug, Clone, Copy, PartialEq, Eq, Default, Structural)]
pub struct TrexBox {
    pub version: u8,
    pub flags: u32,
    pub track_id: u32,
    pub default_sample_description_index: u32,
    pub default_sample_duration: u32,
    pub default_sample_size: u32,
    pub default_sample_flags: u32,
}

impl View for TrexBox {
    type V = TrexBox;

    open spec fn view(&self) -> TrexBox {
        *self
    }
}

impl TrexBox {
    /// The number of bytes that the box is written as.
    pub open spec fn size(self) -> nat {
        32
    }

    /// The box can be written: its version is defined, its flags fit 24
    /// bits, and under version 0 its times fit 32 bits.
    pub open spec fn well_formed(self) -> bool {
        &&& self.version <= 0
        &&& self.flags < 0x100_0000
    }

    /// The box as it is written, header included.
    pub open spec fn bytes(self) -> Seq<u8> {
        full_header_bytes(BoxType::TrexBox, self.size() as u64, self.version, self.flags)
            + u32_be(self.track_id) + u32_be(self.default_sample_description_index)
            + u32_be(self.default_sample_duration) + u32_be(self.default_sample_size)
            + u32_be(self.default_sample_flags)
    }

    /// The box that the payload `p` holds.
    pub open spec fn read(p: Seq<u8>) -> Result<TrexBox, ErrorKind> {
        match spec_full_header(p, BoxType::TrexBox, 0) {
            Err(e) => Err(e),
            Ok(vf) => if p.len() < 24 {
                Err(ErrorKind::IoError)
            } else {
                Ok(TrexBox {
                    version: vf.0,
                    flags: vf.1,
                    track_id: be_u32(p, 4),
                    default_sample_description_index: be_u32(p, 8),
                    default_sample_duration: be_u32(p, 12),
                    default_sample_size: be_u32(p, 16),
                    default_sample_flags: be_u32(p, 20),
                })
            },
        }
    }

    pub fn get_type(&self) -> (r: BoxType)
        ensures
            r == BoxType::TrexBox,
    {
        BoxType::TrexBox
    }

    pub fn get_size(&self) -> (r: u64)
        ensures
            r == self.size(),
            r == saturate(self.size() as int),
    {
        32
    }

    /// Decodes the box of declared size `size` whose payload starts `src`.
    #[verifier::rlimit(50)]
    pub fn read_box(src: &[u8], size: u64) -> (r: Result<TrexBox, Error>)
        ensures
            decoded(r) == TrexBox::read(payload(src@, size)),
    {
        let p = payload_of(src, size);
        let (version, flags) = match read_full_header(p, BoxType::TrexBox, 0) {
            Ok(vf) => vf,
            Err(e) => {
                return Err(e);
            },
        };
        if p.len() < 24 {
            return Err(Error::IoError);
        }
        Ok(TrexBox {
            version: version,
            flags: flags,
            track_id: get_u32(p, 4),
            default_sample_description_index: get_u32(p, 8),
            default_sample_duration: get_u32(p, 12),
            default_sample_size: get_u32(p, 16),
            default_sample_flags: get_u32(p, 20),
        })
    }

    /// Appends the box to `out` and returns the number of bytes written;
    /// a box that is not well formed is refused and `out` left as it was.
    #[verifier::rlimit(50)]
    pub fn write_box(&self, out: &mut Vec<u8>) -> (r: Result<u64, Error>)
        ensures
            r is Ok <==> self.well_formed(),
            r is Ok ==> r.unwrap() == self.size() && final(out)@ == old(out)@ + self.bytes()
                && self.bytes().len() == self.size(),
            r is Err ==> r.unwrap_err().spec_kind() == ErrorKind::InvalidData && final(out)@
                == old(out)@,
    {
        if self.version > 0 || self.flags >= 0x100_0000 {
            return Err(Error::InvalidData("trex box cannot be written"));
        }
        let size: u64 = self.get_size();
        BoxHeader::new(self.get_type(), size).write(out);
        write_box_header_ext(out, self.version, self.flags);
        let ghost h = full_header_bytes(BoxType::TrexBox, size, self.version, self.flags);
        assert(out@ =~= old(out)@ + h);
        let ghost c0 = out@;
        let ghost l0 = h;
        put_u32(out, self.track_id);
        let ghost c1 = out@;
        let ghost l1 = l0 + u32_be(self.track_id);
        proof {
            lemma_assoc(old(out)@, l0, u32_be(self.track_id));
            assert(c1 == old(out)@ + l1);
        }
        put_u32(out, self.default_sample_description_index);
        let ghost c2 = out@;
        let ghost l2 = l1 + u32_be(self.default_sample_description_index);
        proof {
            lemma_assoc(old(out)@, l1, u32_be(self.default_sample_description_index));
            assert(c2 == old(out)@ + l2);
        }
        put_u32(out, self.default_sample_duration);
        let ghost c3 = out@;
        let ghost l3 = l2 + u32_be(self.default_sample_duration);
        proof {
            lemma_assoc(old(out)@, l2, u32_be(self.default_sample_duration));
            assert(c3 == old(out)@ + l3);
        }
        put_u32(out, self.default_sample_size);
        let ghost c4 = out@;
        let ghost l4 = l3 + u32_be(self.default_sample_size);
        proof {
            lemma_assoc(old(out)@, l3, u32_be(self.default_sample_size));
            assert(c4 == old(out)@ + l4);
        }
        put_u32(out, self.default_sample_flags);
        let ghost c5 = out@;
        let ghost l5 = l4 + u32_be(self.default_sample_flags);
        proof {
            lemma_assoc(old(out)@, l4, u32_be(self.default_sample_flags));
            assert(c5 == old(out)@ + l5);
        }
        proof {
            self.lemma_round_trip();
        }
        Ok(size)
    }

    /// Decoding what a well-formed box is written as gives the box back.
    #[verifier::rlimit(50)]
    pub proof fn lemma_round_trip(self)
        requires
            self.well_formed(),
        ensures
            self.bytes().len() == self.size(),
            BoxHeader::spec_read(self.bytes(), 0) == Ok::<BoxHeader, ErrorKind>(
                BoxHeader { name: BoxType::TrexBox, size: self.size() as u64, header_len: 8 },
            ),
            TrexBox::read(payload(self.bytes().skip(8), self.size() as u64)) == Ok::<
                TrexBox,
                ErrorKind,
            >(self),
    {
        let b = self.bytes();
        let size = self.size() as u64;
        let p = payload(b.skip(8), size);
        let h = full_header_bytes(BoxType::TrexBox, size, self.version, self.flags);
        let e = ext_bytes(self.version, self.flags);
        let w0 = u32_be(self.track_id);
        let w1 = u32_be(self.default_sample_description_index);
        let w2 = u32_be(self.default_sample_duration);
        let w3 = u32_be(self.default_sample_size);
        let w4 = u32_be(self.default_sample_flags);
        let l0 = h;
        let l1 = l0 + w0;
        let l2 = l1 + w1;
        let l3 = l2 + w2;
        let l4 = l3 + w3;
        let l5 = l4 + w4;
        let z5 = Seq::<u8>::empty();
        let z4 = w4 + z5;
        let z3 = w3 + z4;
        let z2 = w2 + z3;
        let z1 = w1 + z2;
        let z0 = w0 + z1;
        assert(b == l5);
        lemma_add_empty(l5);
        lemma_assoc(l4, w4, z5);
        assert(b == l4 + z4);
        lemma_assoc(l3, w3, z4);
        assert(b == l3 + z3);
        lemma_assoc(l2, w2, z3);
        assert(b == l2 + z2);
        lemma_assoc(l1, w1, z2);
        assert(b == l1 + z1);
        lemma_assoc(l0, w0, z1);
        assert(b == l0 + z0);
        lemma_full_header(BoxType::TrexBox, size, self.version, self.flags, 0, z0);
        let a0 = e;
        assert(p == a0 + z0);
        let a1 = a0 + w0;
        lemma_assoc(a0, w0, z1);
        assert(p == a1 + z1);
        lemma_u32_round_trip(self.track_id, a0, z1);
        let a2 = a1 + w1;
        lemma_assoc(a1, w1, z2);
        assert(p == a2 + z2);
        lemma_u32_round_trip(self.default_sample_description_index, a1, z2);
        let a3 = a2 + w2;
        lemma_assoc(a2, w2, z3);
        assert(p == a3 + z3);
        lemma_u32_round_trip(self.default_sample_duration, a2, z3);
        let a4 = a3 + w3;
        lemma_assoc(a3, w3, z4);
        assert(p == a4 + z4);
        lemma_u32_round_trip(self.default_sample_size, a3, z4);
        let a5 = a4 + w4;
        lemma_assoc(a4, w4, z5);
        assert(p == a5 + z5);
        lemma_u32_round_trip(self.default_sample_flags, a4, z5);
    }
}

} // verus!

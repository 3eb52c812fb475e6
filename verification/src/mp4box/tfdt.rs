//! The track fragment decode time box.

use crate::codec::{
    be_u32, be_u64, get_u32, get_u64, lemma_u32_round_trip, lemma_u64_round_trip, put_u32,
    put_u64, u32_be, u64_be,
};
use crate::codec::saturate;
use crate::error::{Error, ErrorKind};
use crate::mp4box::header::{
    decoded, full_header_bytes, lemma_full_header, payload, payload_of, read_full_header,
    spec_full_header, write_box_header_ext, BoxHeader,
};
use crate::mp4box::BoxType;
use vstd::prelude::*;

verus! {

/// The decode time of the first sample of a track fragment, in 32 bits
/// (version 0) or 64 bits (version 1).
#[derive(Debug, Clone, Copy, PartialEq, Eq, Default, Structural)]
pub struct TfdtBox {
    pub version: u8,
    pub flags: u32,
    pub base_media_decode_time: u64,
}

impl View for TfdtBox {
    type V = TfdtBox;

    open spec fn view(&self) -> TfdtBox {
        *self
    }
}

impl TfdtBox {
    /// The number of bytes that the box is written as.
    pub open spec fn size(self) -> nat {
        if self.version == 1 {
            20
        } else {
            16
        }
    }

    /// The box can be written: its version is 0 or 1, its flags fit 24
    /// bits, and under version 0 its time fits 32 bits.
    pub open spec fn well_formed(self) -> bool {
        &&& self.version <= 1
        &&& self.flags < 0x100_0000
        &&& self.version == 0 ==> self.base_media_decode_time <= u32::MAX
    }

    /// The box as it is written, header included.
    pub open spec fn bytes(self) -> Seq<u8> {
        full_header_bytes(BoxType::TfdtBox, self.size() as u64, self.version, self.flags) + (
        if self.version == 1 {
            u64_be(self.base_media_decode_time)
        } else {
            u32_be(self.base_media_decode_time as u32)
        })
    }

    /// The box that the payload `p` holds.
    pub open spec fn read(p: Seq<u8>) -> Result<TfdtBox, ErrorKind> {
        match spec_full_header(p, BoxType::TfdtBox, 1) {
            Err(e) => Err(e),
            Ok(vf) => if vf.0 == 1 {
                if p.len() < 12 {
                    Err(ErrorKind::IoError)
                } else {
                    Ok(TfdtBox { version: 1, flags: vf.1, base_media_decode_time: be_u64(p, 4) })
                }
            } else {
                if p.len() < 8 {
                    Err(ErrorKind::IoError)
                } else {
                    Ok(
                        TfdtBox {
                            version: 0,
                            flags: vf.1,
                            base_media_decode_time: be_u32(p, 4) as u64,
                        },
                    )
                }
            },
        }
    }

    pub fn get_type(&self) -> (r: BoxType)
        ensures
            r == BoxType::TfdtBox,
    {
        BoxType::TfdtBox
    }

    pub fn get_size(&self) -> (r: u64)
        ensures
            r == self.size(),
            r == saturate(self.size() as int),
    {
        if self.version == 1 {
            20
        } else {
            16
        }
    }

    /// Decodes the box of declared size `size` whose payload starts `src`.
    #[verifier::rlimit(50)]
    pub fn read_box(src: &[u8], size: u64) -> (r: Result<TfdtBox, Error>)
        ensures
            decoded(r) == TfdtBox::read(payload(src@, size)),
    {
        let p = payload_of(src, size);
        let (version, flags) = match read_full_header(p, BoxType::TfdtBox, 1) {
            Ok(vf) => vf,
            Err(e) => {
                return Err(e);
            },
        };
        if version == 1 {
            if p.len() < 12 {
                return Err(Error::IoError);
            }
            Ok(TfdtBox { version, flags, base_media_decode_time: get_u64(p, 4) })
        } else {
            if p.len() < 8 {
                return Err(Error::IoError);
            }
            Ok(TfdtBox { version, flags, base_media_decode_time: get_u32(p, 4) as u64 })
        }
    }

    /// Appends the box to `out` and returns the number of bytes written;
    /// a box that is not well formed is refused and `out` left as it was.
    #[verifier::rlimit(50)]
    pub fn write_box(&self, out: &mut Vec<u8>) -> (r: Result<u64, Error>)
        ensures
            r is Ok <==> self.well_formed(),
            r is Ok ==> r.unwrap() == self.size() && final(out)@ == old(out)@
                + self.bytes() && self.bytes().len() == self.size(),
            r is Err ==> r.unwrap_err().spec_kind() == ErrorKind::InvalidData && final(out)@
                == old(out)@,
    {
        if self.version > 1 || self.flags >= 0x100_0000 {
            return Err(Error::InvalidData("version must be 0 or 1"));
        }
        if self.version == 0 && self.base_media_decode_time > 0xFFFF_FFFF {
            return Err(Error::InvalidData("decode time exceeds 32 bits"));
        }
        let size: u64 = self.get_size();
        BoxHeader::new(self.get_type(), size).write(out);
        write_box_header_ext(out, self.version, self.flags);
        if self.version == 1 {
            put_u64(out, self.base_media_decode_time);
        } else {
            put_u32(out, self.base_media_decode_time as u32);
        }
        proof {
            assert(out@ =~= old(out)@ + self.bytes());
            self.lemma_round_trip();
        }
        Ok(size)
    }

    /// Decoding what a well-formed box is written as gives the box back.
    #[verifier::rlimit(50)]
    pub proof fn lemma_round_trip(self)
        requires
            self.well_formed(),
        ensures
            self.bytes().len() == self.size(),
            BoxHeader::spec_read(self.bytes(), 0) == Ok::<BoxHeader, ErrorKind>(
                BoxHeader { name: BoxType::TfdtBox, size: self.size() as u64, header_len: 8 },
            ),
            TfdtBox::read(payload(self.bytes().skip(8), self.size() as u64))
                == Ok::<TfdtBox, ErrorKind>(self),
    {
        let b = self.bytes();
        let size = self.size() as u64;
        let p = payload(b.skip(8), size);
        let h = full_header_bytes(BoxType::TfdtBox, size, self.version, self.flags);
        lemma_full_header(BoxType::TfdtBox, size, self.version, self.flags, 1, b.skip(12));
        assert(b =~= h + b.skip(12));
        if self.version == 1 {
            lemma_u64_round_trip(self.base_media_decode_time, h.skip(8), Seq::empty());
            assert(p =~= h.skip(8) + u64_be(self.base_media_decode_time) + Seq::empty());
        } else {
            lemma_u32_round_trip(self.base_media_decode_time as u32, h.skip(8), Seq::empty());
            assert(p =~= h.skip(8) + u32_be(self.base_media_decode_time as u32) + Seq::empty());
        }
    }
}

} // verus!

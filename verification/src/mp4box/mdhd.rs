//! The media header box: the timescale and duration of a track's media.

use crate::codec::{be_u16, be_u32, be_u64, get_u16, get_u32, get_u64, lemma_u16_round_trip,
    lemma_u32_round_trip, lemma_u64_round_trip, put_u16, put_u32, put_u64, put_zeros, saturate,
    u16_be, u32_be, u64_be, zeros};
use crate::error::{Error, ErrorKind};
use crate::mp4box::header::{
    decoded, ext_bytes, full_header_bytes, lemma_add_empty, lemma_assoc, lemma_full_header,
    payload, payload_of, read_full_header, spec_full_header, write_box_header_ext, BoxHeader,
};
use crate::mp4box::BoxType;
use vstd::prelude::*;

verus! {

/// The media header box: the timescale and duration of a track's media.
#[derive(Debug, Clone, Copy, PartialEq, Eq, Default, Structural)]
pub struct MdhdBox {
    pub version: u8,
    pub flags: u32,
    pub creation_time: u64,
    pub modification_time: u64,
    /// Ticks per second of the media times.
    pub timescale: u32,
    /// In ticks of `timescale`.
    pub duration: u64,
    /// The packed ISO-639-2 language code.
    pub language: u16,
}

impl View for MdhdBox {
    type V = MdhdBox;

    open spec fn view(&self) -> MdhdBox {
        *self
    }
}

impl MdhdBox {
    /// The number of bytes that the box is written as.
    pub open spec fn size(self) -> nat {
        if self.version == 1 {
            44
        } else {
            32
        }
    }

    /// The box can be written: its version is defined, its flags fit 24
    /// bits, and under version 0 its times fit 32 bits.
    pub open spec fn well_formed(self) -> bool {
        &&& self.version <= 1
        &&& self.flags < 0x100_0000
        &&& self.version == 0 ==> self.creation_time <= u32::MAX
            && self.modification_time <= u32::MAX && self.duration <= u32::MAX
    }

    /// The box as it is written, header included.
    pub open spec fn bytes(self) -> Seq<u8> {
        if self.version == 1 {
            full_header_bytes(BoxType::MdhdBox, self.size() as u64, self.version, self.flags)
                + u64_be(self.creation_time) + u64_be(self.modification_time)
                + u32_be(self.timescale) + u64_be(self.duration) + u16_be(self.language) + zeros(2)
        } else {
            full_header_bytes(BoxType::MdhdBox, self.size() as u64, self.version, self.flags)
                + u32_be(self.creation_time as u32) + u32_be(self.modification_time as u32)
                + u32_be(self.timescale) + u32_be(self.duration as u32) + u16_be(self.language)
                + zeros(2)
        }
    }

    /// The box that the payload `p` holds.
    pub open spec fn read(p: Seq<u8>) -> Result<MdhdBox, ErrorKind> {
        match spec_full_header(p, BoxType::MdhdBox, 1) {
            Err(e) => Err(e),
            Ok(vf) => if vf.0 == 1 {
                if p.len() < 36 {
                    Err(ErrorKind::IoError)
                } else {
                    Ok(MdhdBox {
                        version: vf.0,
                        flags: vf.1,
                        creation_time: be_u64(p, 4),
                        modification_time: be_u64(p, 12),
                        timescale: be_u32(p, 20),
                        duration: be_u64(p, 24),
                        language: be_u16(p, 32),
                    })
                }
            } else {
                if p.len() < 24 {
                    Err(ErrorKind::IoError)
                } else {
                    Ok(MdhdBox {
                        version: vf.0,
                        flags: vf.1,
                        creation_time: be_u32(p, 4) as u64,
                        modification_time: be_u32(p, 8) as u64,
                        timescale: be_u32(p, 12),
                        duration: be_u32(p, 16) as u64,
                        language: be_u16(p, 20),
                    })
                }
            },
        }
    }

    pub fn get_type(&self) -> (r: BoxType)
        ensures
            r == BoxType::MdhdBox,
    {
        BoxType::MdhdBox
    }

    pub fn get_size(&self) -> (r: u64)
        ensures
            r == self.size(),
            r == saturate(self.size() as int),
    {
        if self.version == 1 {
            44
        } else {
            32
        }
    }

    /// Decodes the box of declared size `size` whose payload starts `src`.
    #[verifier::rlimit(50)]
    pub fn read_box(src: &[u8], size: u64) -> (r: Result<MdhdBox, Error>)
        ensures
            decoded(r) == MdhdBox::read(payload(src@, size)),
    {
        let p = payload_of(src, size);
        let (version, flags) = match read_full_header(p, BoxType::MdhdBox, 1) {
            Ok(vf) => vf,
            Err(e) => {
                return Err(e);
            },
        };
        if version == 1 {
            if p.len() < 36 {
                return Err(Error::IoError);
            }
            Ok(MdhdBox {
                version: version,
                flags: flags,
                creation_time: get_u64(p, 4),
                modification_time: get_u64(p, 12),
                timescale: get_u32(p, 20),
                duration: get_u64(p, 24),
                language: get_u16(p, 32),
            })
        } else {
            if p.len() < 24 {
                return Err(Error::IoError);
            }
            Ok(MdhdBox {
                version: version,
                flags: flags,
                creation_time: get_u32(p, 4) as u64,
                modification_time: get_u32(p, 8) as u64,
                timescale: get_u32(p, 12),
                duration: get_u32(p, 16) as u64,
                language: get_u16(p, 20),
            })
        }
    }

    /// Appends the box to `out` and returns the number of bytes written;
    /// a box that is not well formed is refused and `out` left as it was.
    #[verifier::rlimit(50)]
    pub fn write_box(&self, out: &mut Vec<u8>) -> (r: Result<u64, Error>)
        ensures
            r is Ok <==> self.well_formed(),
            r is Ok ==> r.unwrap() == self.size() && final(out)@ == old(out)@ + self.bytes()
                && self.bytes().len() == self.size(),
            r is Err ==> r.unwrap_err().spec_kind() == ErrorKind::InvalidData && final(out)@
                == old(out)@,
    {
        if self.version > 1 || self.flags >= 0x100_0000 {
            return Err(Error::InvalidData("mdhd box cannot be written"));
        }
        if self.version == 0
            && (self.creation_time > 0xFFFF_FFFF || self.modification_time > 0xFFFF_FFFF || self.duration > 0xFFFF_FFFF) {
            return Err(Error::InvalidData("mdhd box cannot be written"));
        }
        let size: u64 = self.get_size();
        BoxHeader::new(self.get_type(), size).write(out);
        write_box_header_ext(out, self.version, self.flags);
        let ghost h = full_header_bytes(BoxType::MdhdBox, size, self.version, self.flags);
        assert(out@ =~= old(out)@ + h);
        if self.version == 1 {
            let ghost c0 = out@;
            let ghost l0 = h;
            put_u64(out, self.creation_time);
            let ghost c1 = out@;
            let ghost l1 = l0 + u64_be(self.creation_time);
            proof {
                lemma_assoc(old(out)@, l0, u64_be(self.creation_time));
                assert(c1 == old(out)@ + l1);
            }
            put_u64(out, self.modification_time);
            let ghost c2 = out@;
            let ghost l2 = l1 + u64_be(self.modification_time);
            proof {
                lemma_assoc(old(out)@, l1, u64_be(self.modification_time));
                assert(c2 == old(out)@ + l2);
            }
            put_u32(out, self.timescale);
            let ghost c3 = out@;
            let ghost l3 = l2 + u32_be(self.timescale);
            proof {
                lemma_assoc(old(out)@, l2, u32_be(self.timescale));
                assert(c3 == old(out)@ + l3);
            }
            put_u64(out, self.duration);
            let ghost c4 = out@;
            let ghost l4 = l3 + u64_be(self.duration);
            proof {
                lemma_assoc(old(out)@, l3, u64_be(self.duration));
                assert(c4 == old(out)@ + l4);
            }
            put_u16(out, self.language);
            let ghost c5 = out@;
            let ghost l5 = l4 + u16_be(self.language);
            proof {
                lemma_assoc(old(out)@, l4, u16_be(self.language));
                assert(c5 == old(out)@ + l5);
            }
            put_zeros(out, 2);
            let ghost c6 = out@;
            let ghost l6 = l5 + zeros(2);
            proof {
                lemma_assoc(old(out)@, l5, zeros(2));
                assert(c6 == old(out)@ + l6);
            }
        } else {
            let ghost c0 = out@;
            let ghost l0 = h;
            put_u32(out, self.creation_time as u32);
            let ghost c1 = out@;
            let ghost l1 = l0 + u32_be(self.creation_time as u32);
            proof {
                lemma_assoc(old(out)@, l0, u32_be(self.creation_time as u32));
                assert(c1 == old(out)@ + l1);
            }
            put_u32(out, self.modification_time as u32);
            let ghost c2 = out@;
            let ghost l2 = l1 + u32_be(self.modification_time as u32);
            proof {
                lemma_assoc(old(out)@, l1, u32_be(self.modification_time as u32));
                assert(c2 == old(out)@ + l2);
            }
            put_u32(out, self.timescale);
            let ghost c3 = out@;
            let ghost l3 = l2 + u32_be(self.timescale);
            proof {
                lemma_assoc(old(out)@, l2, u32_be(self.timescale));
                assert(c3 == old(out)@ + l3);
            }
            put_u32(out, self.duration as u32);
            let ghost c4 = out@;
            let ghost l4 = l3 + u32_be(self.duration as u32);
            proof {
                lemma_assoc(old(out)@, l3, u32_be(self.duration as u32));
                assert(c4 == old(out)@ + l4);
            }
            put_u16(out, self.language);
            let ghost c5 = out@;
            let ghost l5 = l4 + u16_be(self.language);
            proof {
                lemma_assoc(old(out)@, l4, u16_be(self.language));
                assert(c5 == old(out)@ + l5);
            }
            put_zeros(out, 2);
            let ghost c6 = out@;
            let ghost l6 = l5 + zeros(2);
            proof {
                lemma_assoc(old(out)@, l5, zeros(2));
                assert(c6 == old(out)@ + l6);
            }
        }
        proof {
            self.lemma_round_trip();
        }
        Ok(size)
    }

    /// Decoding what a well-formed box of version 0 is written as gives the
    /// box back.
    #[verifier::rlimit(50)]
    proof fn lemma_round_trip_v0(self)
        requires
            self.well_formed(),
            self.version == 0,
        ensures
            self.bytes().len() == self.size(),
            BoxHeader::spec_read(self.bytes(), 0) == Ok::<BoxHeader, ErrorKind>(
                BoxHeader { name: BoxType::MdhdBox, size: self.size() as u64, header_len: 8 },
            ),
            MdhdBox::read(payload(self.bytes().skip(8), self.size() as u64)) == Ok::<
                MdhdBox,
                ErrorKind,
            >(self),
    {
        let b = self.bytes();
        let size = self.size() as u64;
        let p = payload(b.skip(8), size);
        let h = full_header_bytes(BoxType::MdhdBox, size, self.version, self.flags);
        let e = ext_bytes(self.version, self.flags);
        let w0 = u32_be(self.creation_time as u32);
        let w1 = u32_be(self.modification_time as u32);
        let w2 = u32_be(self.timescale);
        let w3 = u32_be(self.duration as u32);
        let w4 = u16_be(self.language);
        let w5 = zeros(2);
        let l0 = h;
        let l1 = l0 + w0;
        let l2 = l1 + w1;
        let l3 = l2 + w2;
        let l4 = l3 + w3;
        let l5 = l4 + w4;
        let l6 = l5 + w5;
        let z6 = Seq::<u8>::empty();
        let z5 = w5 + z6;
        let z4 = w4 + z5;
        let z3 = w3 + z4;
        let z2 = w2 + z3;
        let z1 = w1 + z2;
        let z0 = w0 + z1;
        assert(b == l6);
        lemma_add_empty(l6);
        lemma_assoc(l5, w5, z6);
        assert(b == l5 + z5);
        lemma_assoc(l4, w4, z5);
        assert(b == l4 + z4);
        lemma_assoc(l3, w3, z4);
        assert(b == l3 + z3);
        lemma_assoc(l2, w2, z3);
        assert(b == l2 + z2);
        lemma_assoc(l1, w1, z2);
        assert(b == l1 + z1);
        lemma_assoc(l0, w0, z1);
        assert(b == l0 + z0);
        lemma_full_header(BoxType::MdhdBox, size, self.version, self.flags, 1, z0);
        let a0 = e;
        assert(p == a0 + z0);
        let a1 = a0 + w0;
        lemma_assoc(a0, w0, z1);
        assert(p == a1 + z1);
        lemma_u32_round_trip(self.creation_time as u32, a0, z1);
        let a2 = a1 + w1;
        lemma_assoc(a1, w1, z2);
        assert(p == a2 + z2);
        lemma_u32_round_trip(self.modification_time as u32, a1, z2);
        let a3 = a2 + w2;
        lemma_assoc(a2, w2, z3);
        assert(p == a3 + z3);
        lemma_u32_round_trip(self.timescale, a2, z3);
        let a4 = a3 + w3;
        lemma_assoc(a3, w3, z4);
        assert(p == a4 + z4);
        lemma_u32_round_trip(self.duration as u32, a3, z4);
        let a5 = a4 + w4;
        lemma_assoc(a4, w4, z5);
        assert(p == a5 + z5);
        lemma_u16_round_trip(self.language, a4, z5);
        let a6 = a5 + w5;
        lemma_assoc(a5, w5, z6);
        assert(p == a6 + z6);
    }

    /// Decoding what a well-formed box of version 1 is written as gives the
    /// box back.
    #[verifier::rlimit(50)]
    proof fn lemma_round_trip_v1(self)
        requires
            self.well_formed(),
            self.version == 1,
        ensures
            self.bytes().len() == self.size(),
            BoxHeader::spec_read(self.bytes(), 0) == Ok::<BoxHeader, ErrorKind>(
                BoxHeader { name: BoxType::MdhdBox, size: self.size() as u64, header_len: 8 },
            ),
            MdhdBox::read(payload(self.bytes().skip(8), self.size() as u64)) == Ok::<
                MdhdBox,
                ErrorKind,
            >(self),
    {
        let b = self.bytes();
        let size = self.size() as u64;
        let p = payload(b.skip(8), size);
        let h = full_header_bytes(BoxType::MdhdBox, size, self.version, self.flags);
        let e = ext_bytes(self.version, self.flags);
        let w0 = u64_be(self.creation_time);
        let w1 = u64_be(self.modification_time);
        let w2 = u32_be(self.timescale);
        let w3 = u64_be(self.duration);
        let w4 = u16_be(self.language);
        let w5 = zeros(2);
        let l0 = h;
        let l1 = l0 + w0;
        let l2 = l1 + w1;
        let l3 = l2 + w2;
        let l4 = l3 + w3;
        let l5 = l4 + w4;
        let l6 = l5 + w5;
        let z6 = Seq::<u8>::empty();
        let z5 = w5 + z6;
        let z4 = w4 + z5;
        let z3 = w3 + z4;
        let z2 = w2 + z3;
        let z1 = w1 + z2;
        let z0 = w0 + z1;
        assert(b == l6);
        lemma_add_empty(l6);
        lemma_assoc(l5, w5, z6);
        assert(b == l5 + z5);
        lemma_assoc(l4, w4, z5);
        assert(b == l4 + z4);
        lemma_assoc(l3, w3, z4);
        assert(b == l3 + z3);
        lemma_assoc(l2, w2, z3);
        assert(b == l2 + z2);
        lemma_assoc(l1, w1, z2);
        assert(b == l1 + z1);
        lemma_assoc(l0, w0, z1);
        assert(b == l0 + z0);
        lemma_full_header(BoxType::MdhdBox, size, self.version, self.flags, 1, z0);
        let a0 = e;
        assert(p == a0 + z0);
        let a1 = a0 + w0;
        lemma_assoc(a0, w0, z1);
        assert(p == a1 + z1);
        lemma_u64_round_trip(self.creation_time, a0, z1);
        let a2 = a1 + w1;
        lemma_assoc(a1, w1, z2);
        assert(p == a2 + z2);
        lemma_u64_round_trip(self.modification_time, a1, z2);
        let a3 = a2 + w2;
        lemma_assoc(a2, w2, z3);
        assert(p == a3 + z3);
        lemma_u32_round_trip(self.timescale, a2, z3);
        let a4 = a3 + w3;
        lemma_assoc(a3, w3, z4);
        assert(p == a4 + z4);
        lemma_u64_round_trip(self.duration, a3, z4);
        let a5 = a4 + w4;
        lemma_assoc(a4, w4, z5);
        assert(p == a5 + z5);
        lemma_u16_round_trip(self.language, a4, z5);
        let a6 = a5 + w5;
        lemma_assoc(a5, w5, z6);
        assert(p == a6 + z6);
    }

    /// Decoding what a well-formed box is written as gives the box back.
    #[verifier::rlimit(50)]
    pub proof fn lemma_round_trip(self)
        requires
            self.well_formed(),
        ensures
            self.bytes().len() == self.size(),
            BoxHeader::spec_read(self.bytes(), 0) == Ok::<BoxHeader, ErrorKind>(
                BoxHeader { name: BoxType::MdhdBox, size: self.size() as u64, header_len: 8 },
            ),
            MdhdBox::read(payload(self.bytes().skip(8), self.size() as u64)) == Ok::<
                MdhdBox,
                ErrorKind,
            >(self),
    {
        if self.version == 1 {
            self.lemma_round_trip_v1();
        } else {
            self.lemma_round_trip_v0();
        }
    }
}

} // verus!

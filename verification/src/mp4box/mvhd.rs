//! The movie header box: the timescale and duration of the whole movie.

use crate::codec::{be_i32, be_u16, be_u32, be_u64, get_i32, get_u16, get_u32, get_u64, i32_be,
    lemma_i32_round_trip, lemma_u16_round_trip, lemma_u32_round_trip, lemma_u64_round_trip,
    put_i32, put_u16, put_u32, put_u64, put_zeros, saturate, u16_be, u32_be, u64_be, zeros};
use crate::error::{Error, ErrorKind};
use crate::mp4box::header::{
    decoded, ext_bytes, full_header_bytes, lemma_add_empty, lemma_assoc, lemma_full_header,
    payload, payload_of, read_full_header, spec_full_header, write_box_header_ext, BoxHeader,
};
use crate::mp4box::matrix::Matrix;
use crate::mp4box::BoxType;
use vstd::prelude::*;

verus! {

/// The movie header box: the timescale and duration of the whole movie.
#[derive(Debug, Clone, Copy, PartialEq, Eq, Default, Structural)]
pub struct MvhdBox {
    pub version: u8,
    pub flags: u32,
    pub creation_time: u64,
    pub modification_time: u64,
    /// Ticks per second of the movie times.
    pub timescale: u32,
    /// In ticks of `timescale`.
    pub duration: u64,
    /// The playback rate, in 16.16 fixed point.
    pub rate: u32,
    /// The playback volume, in 8.8 fixed point.
    pub volume: u16,
    /// The transformation matrix, in fixed point.
    pub matrix: Matrix,
    pub next_track_id: u32,
}

impl View for MvhdBox {
    type V = MvhdBox;

    open spec fn view(&self) -> MvhdBox {
        *self
    }
}

impl MvhdBox {
    /// The number of bytes that the box is written as.
    pub open spec fn size(self) -> nat {
        if self.version == 1 {
            120
        } else {
            108
        }
    }

    /// The box can be written: its version is defined, its flags fit 24
    /// bits, and under version 0 its times fit 32 bits.
    pub open spec fn well_formed(self) -> bool {
        &&& self.version <= 1
        &&& self.flags < 0x100_0000
        &&& self.version == 0 ==> self.creation_time <= u32::MAX
            && self.modification_time <= u32::MAX && self.duration <= u32::MAX
    }

    /// The box as it is written, header included.
    pub open spec fn bytes(self) -> Seq<u8> {
        if self.version == 1 {
            full_header_bytes(BoxType::MvhdBox, self.size() as u64, self.version, self.flags)
                + u64_be(self.creation_time) + u64_be(self.modification_time)
                + u32_be(self.timescale) + u64_be(self.duration) + u32_be(self.rate)
                + u16_be(self.volume) + zeros(10) + i32_be(self.matrix.a) + i32_be(self.matrix.b)
                + i32_be(self.matrix.u) + i32_be(self.matrix.c) + i32_be(self.matrix.d)
                + i32_be(self.matrix.v) + i32_be(self.matrix.x) + i32_be(self.matrix.y)
                + i32_be(self.matrix.w) + zeros(24) + u32_be(self.next_track_id)
        } else {
            full_header_bytes(BoxType::MvhdBox, self.size() as u64, self.version, self.flags)
                + u32_be(self.creation_time as u32) + u32_be(self.modification_time as u32)
                + u32_be(self.timescale) + u32_be(self.duration as u32) + u32_be(self.rate)
                + u16_be(self.volume) + zeros(10) + i32_be(self.matrix.a) + i32_be(self.matrix.b)
                + i32_be(self.matrix.u) + i32_be(self.matrix.c) + i32_be(self.matrix.d)
                + i32_be(self.matrix.v) + i32_be(self.matrix.x) + i32_be(self.matrix.y)
                + i32_be(self.matrix.w) + zeros(24) + u32_be(self.next_track_id)
        }
    }

    /// The box that the payload `p` holds.
    pub open spec fn read(p: Seq<u8>) -> Result<MvhdBox, ErrorKind> {
        match spec_full_header(p, BoxType::MvhdBox, 1) {
            Err(e) => Err(e),
            Ok(vf) => if vf.0 == 1 {
                if p.len() < 112 {
                    Err(ErrorKind::IoError)
                } else {
                    Ok(MvhdBox {
                        version: vf.0,
                        flags: vf.1,
                        creation_time: be_u64(p, 4),
                        modification_time: be_u64(p, 12),
                        timescale: be_u32(p, 20),
                        duration: be_u64(p, 24),
                        rate: be_u32(p, 32),
                        volume: be_u16(p, 36),
                        matrix: Matrix { a: be_i32(p, 48), b: be_i32(p, 52), u: be_i32(p, 56),
                            c: be_i32(p, 60), d: be_i32(p, 64), v: be_i32(p, 68), x: be_i32(p, 72),
                            y: be_i32(p, 76), w: be_i32(p, 80) },
                        next_track_id: be_u32(p, 108),
                    })
                }
            } else {
                if p.len() < 100 {
                    Err(ErrorKind::IoError)
                } else {
                    Ok(MvhdBox {
                        version: vf.0,
                        flags: vf.1,
                        creation_time: be_u32(p, 4) as u64,
                        modification_time: be_u32(p, 8) as u64,
                        timescale: be_u32(p, 12),
                        duration: be_u32(p, 16) as u64,
                        rate: be_u32(p, 20),
                        volume: be_u16(p, 24),
                        matrix: Matrix { a: be_i32(p, 36), b: be_i32(p, 40), u: be_i32(p, 44),
                            c: be_i32(p, 48), d: be_i32(p, 52), v: be_i32(p, 56), x: be_i32(p, 60),
                            y: be_i32(p, 64), w: be_i32(p, 68) },
                        next_track_id: be_u32(p, 96),
                    })
                }
            },
        }
    }

    pub fn get_type(&self) -> (r: BoxType)
        ensures
            r == BoxType::MvhdBox,
    {
        BoxType::MvhdBox
    }

    pub fn get_size(&self) -> (r: u64)
        ensures
            r == self.size(),
            r == saturate(self.size() as int),
    {
        if self.version == 1 {
            120
        } else {
            108
        }
    }

    /// Decodes the box of declared size `size` whose payload starts `src`.
    #[verifier::rlimit(50)]
    pub fn read_box(src: &[u8], size: u64) -> (r: Result<MvhdBox, Error>)
        ensures
            decoded(r) == MvhdBox::read(payload(src@, size)),
    {
        let p = payload_of(src, size);
        let (version, flags) = match read_full_header(p, BoxType::MvhdBox, 1) {
            Ok(vf) => vf,
            Err(e) => {
                return Err(e);
            },
        };
        if version == 1 {
            if p.len() < 112 {
                return Err(Error::IoError);
            }
            Ok(MvhdBox {
                version: version,
                flags: flags,
                creation_time: get_u64(p, 4),
                modification_time: get_u64(p, 12),
                timescale: get_u32(p, 20),
                duration: get_u64(p, 24),
                rate: get_u32(p, 32),
                volume: get_u16(p, 36),
                matrix: Matrix { a: get_i32(p, 48), b: get_i32(p, 52), u: get_i32(p, 56),
                    c: get_i32(p, 60), d: get_i32(p, 64), v: get_i32(p, 68), x: get_i32(p, 72),
                    y: get_i32(p, 76), w: get_i32(p, 80) },
                next_track_id: get_u32(p, 108),
            })
        } else {
            if p.len() < 100 {
                return Err(Error::IoError);
            }
            Ok(MvhdBox {
                version: version,
                flags: flags,
                creation_time: get_u32(p, 4) as u64,
                modification_time: get_u32(p, 8) as u64,
                timescale: get_u32(p, 12),
                duration: get_u32(p, 16) as u64,
                rate: get_u32(p, 20),
                volume: get_u16(p, 24),
                matrix: Matrix { a: get_i32(p, 36), b: get_i32(p, 40), u: get_i32(p, 44),
                    c: get_i32(p, 48), d: get_i32(p, 52), v: get_i32(p, 56), x: get_i32(p, 60),
                    y: get_i32(p, 64), w: get_i32(p, 68) },
                next_track_id: get_u32(p, 96),
            })
        }
    }

    /// Appends the box to `out` and returns the number of bytes written;
    /// a box that is not well formed is refused and `out` left as it was.
    #[verifier::rlimit(50)]
    pub fn write_box(&self, out: &mut Vec<u8>) -> (r: Result<u64, Error>)
        ensures
            r is Ok <==> self.well_formed(),
            r is Ok ==> r.unwrap() == self.size() && final(out)@ == old(out)@ + self.bytes()
                && self.bytes().len() == self.size(),
            r is Err ==> r.unwrap_err().spec_kind() == ErrorKind::InvalidData && final(out)@
                == old(out)@,
    {
        if self.version > 1 || self.flags >= 0x100_0000 {
            return Err(Error::InvalidData("mvhd box cannot be written"));
        }
        if self.version == 0
            && (self.creation_time > 0xFFFF_FFFF || self.modification_time > 0xFFFF_FFFF || self.duration > 0xFFFF_FFFF) {
            return Err(Error::InvalidData("mvhd box cannot be written"));
        }
        let size: u64 = self.get_size();
        BoxHeader::new(self.get_type(), size).write(out);
        write_box_header_ext(out, self.version, self.flags);
        let ghost h = full_header_bytes(BoxType::MvhdBox, size, self.version, self.flags);
        assert(out@ =~= old(out)@ + h);
        if self.version == 1 {
            let ghost c0 = out@;
            let ghost l0 = h;
            put_u64(out, self.creation_time);
            let ghost c1 = out@;
            let ghost l1 = l0 + u64_be(self.creation_time);
            proof {
                lemma_assoc(old(out)@, l0, u64_be(self.creation_time));
                assert(c1 == old(out)@ + l1);
            }
            put_u64(out, self.modification_time);
            let ghost c2 = out@;
            let ghost l2 = l1 + u64_be(self.modification_time);
            proof {
                lemma_assoc(old(out)@, l1, u64_be(self.modification_time));
                assert(c2 == old(out)@ + l2);
            }
            put_u32(out, self.timescale);
            let ghost c3 = out@;
            let ghost l3 = l2 + u32_be(self.timescale);
            proof {
                lemma_assoc(old(out)@, l2, u32_be(self.timescale));
                assert(c3 == old(out)@ + l3);
            }
            put_u64(out, self.duration);
            let ghost c4 = out@;
            let ghost l4 = l3 + u64_be(self.duration);
            proof {
                lemma_assoc(old(out)@, l3, u64_be(self.duration));
                assert(c4 == old(out)@ + l4);
            }
            put_u32(out, self.rate);
            let ghost c5 = out@;
            let ghost l5 = l4 + u32_be(self.rate);
            proof {
                lemma_assoc(old(out)@, l4, u32_be(self.rate));
                assert(c5 == old(out)@ + l5);
            }
            put_u16(out, self.volume);
            let ghost c6 = out@;
            let ghost l6 = l5 + u16_be(self.volume);
            proof {
                lemma_assoc(old(out)@, l5, u16_be(self.volume));
                assert(c6 == old(out)@ + l6);
            }
            put_zeros(out, 10);
            let ghost c7 = out@;
            let ghost l7 = l6 + zeros(10);
            proof {
                lemma_assoc(old(out)@, l6, zeros(10));
                assert(c7 == old(out)@ + l7);
            }
            put_i32(out, self.matrix.a);
            let ghost c8 = out@;
            let ghost l8 = l7 + i32_be(self.matrix.a);
            proof {
                lemma_assoc(old(out)@, l7, i32_be(self.matrix.a));
                assert(c8 == old(out)@ + l8);
            }
            put_i32(out, self.matrix.b);
            let ghost c9 = out@;
            let ghost l9 = l8 + i32_be(self.matrix.b);
            proof {
                lemma_assoc(old(out)@, l8, i32_be(self.matrix.b));
                assert(c9 == old(out)@ + l9);
            }
            put_i32(out, self.matrix.u);
            let ghost c10 = out@;
            let ghost l10 = l9 + i32_be(self.matrix.u);
            proof {
                lemma_assoc(old(out)@, l9, i32_be(self.matrix.u));
                assert(c10 == old(out)@ + l10);
            }
            put_i32(out, self.matrix.c);
            let ghost c11 = out@;
            let ghost l11 = l10 + i32_be(self.matrix.c);
            proof {
                lemma_assoc(old(out)@, l10, i32_be(self.matrix.c));
                assert(c11 == old(out)@ + l11);
            }
            put_i32(out, self.matrix.d);
            let ghost c12 = out@;
            let ghost l12 = l11 + i32_be(self.matrix.d);
            proof {
                lemma_assoc(old(out)@, l11, i32_be(self.matrix.d));
                assert(c12 == old(out)@ + l12);
            }
            put_i32(out, self.matrix.v);
            let ghost c13 = out@;
            let ghost l13 = l12 + i32_be(self.matrix.v);
            proof {
                lemma_assoc(old(out)@, l12, i32_be(self.matrix.v));
                assert(c13 == old(out)@ + l13);
            }
            put_i32(out, self.matrix.x);
            let ghost c14 = out@;
            let ghost l14 = l13 + i32_be(self.matrix.x);
            proof {
                lemma_assoc(old(out)@, l13, i32_be(self.matrix.x));
                assert(c14 == old(out)@ + l14);
            }
            put_i32(out, self.matrix.y);
            let ghost c15 = out@;
            let ghost l15 = l14 + i32_be(self.matrix.y);
            proof {
                lemma_assoc(old(out)@, l14, i32_be(self.matrix.y));
                assert(c15 == old(out)@ + l15);
            }
            put_i32(out, self.matrix.w);
            let ghost c16 = out@;
            let ghost l16 = l15 + i32_be(self.matrix.w);
            proof {
                lemma_assoc(old(out)@, l15, i32_be(self.matrix.w));
                assert(c16 == old(out)@ + l16);
            }
            put_zeros(out, 24);
            let ghost c17 = out@;
            let ghost l17 = l16 + zeros(24);
            proof {
                lemma_assoc(old(out)@, l16, zeros(24));
                assert(c17 == old(out)@ + l17);
            }
            put_u32(out, self.next_track_id);
            let ghost c18 = out@;
            let ghost l18 = l17 + u32_be(self.next_track_id);
            proof {
                lemma_assoc(old(out)@, l17, u32_be(self.next_track_id));
                assert(c18 == old(out)@ + l18);
            }
        } else {
            let ghost c0 = out@;
            let ghost l0 = h;
            put_u32(out, self.creation_time as u32);
            let ghost c1 = out@;
            let ghost l1 = l0 + u32_be(self.creation_time as u32);
            proof {
                lemma_assoc(old(out)@, l0, u32_be(self.creation_time as u32));
                assert(c1 == old(out)@ + l1);
            }
            put_u32(out, self.modification_time as u32);
            let ghost c2 = out@;
            let ghost l2 = l1 + u32_be(self.modification_time as u32);
            proof {
                lemma_assoc(old(out)@, l1, u32_be(self.modification_time as u32));
                assert(c2 == old(out)@ + l2);
            }
            put_u32(out, self.timescale);
            let ghost c3 = out@;
            let ghost l3 = l2 + u32_be(self.timescale);
            proof {
                lemma_assoc(old(out)@, l2, u32_be(self.timescale));
                assert(c3 == old(out)@ + l3);
            }
            put_u32(out, self.duration as u32);
            let ghost c4 = out@;
            let ghost l4 = l3 + u32_be(self.duration as u32);
            proof {
                lemma_assoc(old(out)@, l3, u32_be(self.duration as u32));
                assert(c4 == old(out)@ + l4);
            }
            put_u32(out, self.rate);
            let ghost c5 = out@;
            let ghost l5 = l4 + u32_be(self.rate);
            proof {
                lemma_assoc(old(out)@, l4, u32_be(self.rate));
                assert(c5 == old(out)@ + l5);
            }
            put_u16(out, self.volume);
            let ghost c6 = out@;
            let ghost l6 = l5 + u16_be(self.volume);
            proof {
                lemma_assoc(old(out)@, l5, u16_be(self.volume));
                assert(c6 == old(out)@ + l6);
            }
            put_zeros(out, 10);
            let ghost c7 = out@;
            let ghost l7 = l6 + zeros(10);
            proof {
                lemma_assoc(old(out)@, l6, zeros(10));
                assert(c7 == old(out)@ + l7);
            }
            put_i32(out, self.matrix.a);
            let ghost c8 = out@;
            let ghost l8 = l7 + i32_be(self.matrix.a);
            proof {
                lemma_assoc(old(out)@, l7, i32_be(self.matrix.a));
                assert(c8 == old(out)@ + l8);
            }
            put_i32(out, self.matrix.b);
            let ghost c9 = out@;
            let ghost l9 = l8 + i32_be(self.matrix.b);
            proof {
                lemma_assoc(old(out)@, l8, i32_be(self.matrix.b));
                assert(c9 == old(out)@ + l9);
            }
            put_i32(out, self.matrix.u);
            let ghost c10 = out@;
            let ghost l10 = l9 + i32_be(self.matrix.u);
            proof {
                lemma_assoc(old(out)@, l9, i32_be(self.matrix.u));
                assert(c10 == old(out)@ + l10);
            }
            put_i32(out, self.matrix.c);
            let ghost c11 = out@;
            let ghost l11 = l10 + i32_be(self.matrix.c);
            proof {
                lemma_assoc(old(out)@, l10, i32_be(self.matrix.c));
                assert(c11 == old(out)@ + l11);
            }
            put_i32(out, self.matrix.d);
            let ghost c12 = out@;
            let ghost l12 = l11 + i32_be(self.matrix.d);
            proof {
                lemma_assoc(old(out)@, l11, i32_be(self.matrix.d));
                assert(c12 == old(out)@ + l12);
            }
            put_i32(out, self.matrix.v);
            let ghost c13 = out@;
            let ghost l13 = l12 + i32_be(self.matrix.v);
            proof {
                lemma_assoc(old(out)@, l12, i32_be(self.matrix.v));
                assert(c13 == old(out)@ + l13);
            }
            put_i32(out, self.matrix.x);
            let ghost c14 = out@;
            let ghost l14 = l13 + i32_be(self.matrix.x);
            proof {
                lemma_assoc(old(out)@, l13, i32_be(self.matrix.x));
                assert(c14 == old(out)@ + l14);
            }
            put_i32(out, self.matrix.y);
            let ghost c15 = out@;
            let ghost l15 = l14 + i32_be(self.matrix.y);
            proof {
                lemma_assoc(old(out)@, l14, i32_be(self.matrix.y));
                assert(c15 == old(out)@ + l15);
            }
            put_i32(out, self.matrix.w);
            let ghost c16 = out@;
            let ghost l16 = l15 + i32_be(self.matrix.w);
            proof {
                lemma_assoc(old(out)@, l15, i32_be(self.matrix.w));
                assert(c16 == old(out)@ + l16);
            }
            put_zeros(out, 24);
            let ghost c17 = out@;
            let ghost l17 = l16 + zeros(24);
            proof {
                lemma_assoc(old(out)@, l16, zeros(24));
                assert(c17 == old(out)@ + l17);
            }
            put_u32(out, self.next_track_id);
            let ghost c18 = out@;
            let ghost l18 = l17 + u32_be(self.next_track_id);
            proof {
                lemma_assoc(old(out)@, l17, u32_be(self.next_track_id));
                assert(c18 == old(out)@ + l18);
            }
        }
        proof {
            self.lemma_round_trip();
        }
        Ok(size)
    }

    /// Decoding what a well-formed box of version 0 is written as gives the
    /// box back.
    #[verifier::rlimit(50)]
    proof fn lemma_round_trip_v0(self)
        requires
            self.well_formed(),
            self.version == 0,
        ensures
            self.bytes().len() == self.size(),
            BoxHeader::spec_read(self.bytes(), 0) == Ok::<BoxHeader, ErrorKind>(
                BoxHeader { name: BoxType::MvhdBox, size: self.size() as u64, header_len: 8 },
            ),
            MvhdBox::read(payload(self.bytes().skip(8), self.size() as u64)) == Ok::<
                MvhdBox,
                ErrorKind,
            >(self),
    {
        let b = self.bytes();
        let size = self.size() as u64;
        let p = payload(b.skip(8), size);
        let h = full_header_bytes(BoxType::MvhdBox, size, self.version, self.flags);
        let e = ext_bytes(self.version, self.flags);
        let w0 = u32_be(self.creation_time as u32);
        let w1 = u32_be(self.modification_time as u32);
        let w2 = u32_be(self.timescale);
        let w3 = u32_be(self.duration as u32);
        let w4 = u32_be(self.rate);
        let w5 = u16_be(self.volume);
        let w6 = zeros(10);
        let w7 = i32_be(self.matrix.a);
        let w8 = i32_be(self.matrix.b);
        let w9 = i32_be(self.matrix.u);
        let w10 = i32_be(self.matrix.c);
        let w11 = i32_be(self.matrix.d);
        let w12 = i32_be(self.matrix.v);
        let w13 = i32_be(self.matrix.x);
        let w14 = i32_be(self.matrix.y);
        let w15 = i32_be(self.matrix.w);
        let w16 = zeros(24);
        let w17 = u32_be(self.next_track_id);
        let l0 = h;
        let l1 = l0 + w0;
        let l2 = l1 + w1;
        let l3 = l2 + w2;
        let l4 = l3 + w3;
        let l5 = l4 + w4;
        let l6 = l5 + w5;
        let l7 = l6 + w6;
        let l8 = l7 + w7;
        let l9 = l8 + w8;
        let l10 = l9 + w9;
        let l11 = l10 + w10;
        let l12 = l11 + w11;
        let l13 = l12 + w12;
        let l14 = l13 + w13;
        let l15 = l14 + w14;
        let l16 = l15 + w15;
        let l17 = l16 + w16;
        let l18 = l17 + w17;
        let z18 = Seq::<u8>::empty();
        let z17 = w17 + z18;
        let z16 = w16 + z17;
        let z15 = w15 + z16;
        let z14 = w14 + z15;
        let z13 = w13 + z14;
        let z12 = w12 + z13;
        let z11 = w11 + z12;
        let z10 = w10 + z11;
        let z9 = w9 + z10;
        let z8 = w8 + z9;
        let z7 = w7 + z8;
        let z6 = w6 + z7;
        let z5 = w5 + z6;
        let z4 = w4 + z5;
        let z3 = w3 + z4;
        let z2 = w2 + z3;
        let z1 = w1 + z2;
        let z0 = w0 + z1;
        assert(b == l18);
        lemma_add_empty(l18);
        lemma_assoc(l17, w17, z18);
        assert(b == l17 + z17);
        lemma_assoc(l16, w16, z17);
        assert(b == l16 + z16);
        lemma_assoc(l15, w15, z16);
        assert(b == l15 + z15);
        lemma_assoc(l14, w14, z15);
        assert(b == l14 + z14);
        lemma_assoc(l13, w13, z14);
        assert(b == l13 + z13);
        lemma_assoc(l12, w12, z13);
        assert(b == l12 + z12);
        lemma_assoc(l11, w11, z12);
        assert(b == l11 + z11);
        lemma_assoc(l10, w10, z11);
        assert(b == l10 + z10);
        lemma_assoc(l9, w9, z10);
        assert(b == l9 + z9);
        lemma_assoc(l8, w8, z9);
        assert(b == l8 + z8);
        lemma_assoc(l7, w7, z8);
        assert(b == l7 + z7);
        lemma_assoc(l6, w6, z7);
        assert(b == l6 + z6);
        lemma_assoc(l5, w5, z6);
        assert(b == l5 + z5);
        lemma_assoc(l4, w4, z5);
        assert(b == l4 + z4);
        lemma_assoc(l3, w3, z4);
        assert(b == l3 + z3);
        lemma_assoc(l2, w2, z3);
        assert(b == l2 + z2);
        lemma_assoc(l1, w1, z2);
        assert(b == l1 + z1);
        lemma_assoc(l0, w0, z1);
        assert(b == l0 + z0);
        lemma_full_header(BoxType::MvhdBox, size, self.version, self.flags, 1, z0);
        let a0 = e;
        assert(p == a0 + z0);
        let a1 = a0 + w0;
        lemma_assoc(a0, w0, z1);
        assert(p == a1 + z1);
        lemma_u32_round_trip(self.creation_time as u32, a0, z1);
        let a2 = a1 + w1;
        lemma_assoc(a1, w1, z2);
        assert(p == a2 + z2);
        lemma_u32_round_trip(self.modification_time as u32, a1, z2);
        let a3 = a2 + w2;
        lemma_assoc(a2, w2, z3);
        assert(p == a3 + z3);
        lemma_u32_round_trip(self.timescale, a2, z3);
        let a4 = a3 + w3;
        lemma_assoc(a3, w3, z4);
        assert(p == a4 + z4);
        lemma_u32_round_trip(self.duration as u32, a3, z4);
        let a5 = a4 + w4;
        lemma_assoc(a4, w4, z5);
        assert(p == a5 + z5);
        lemma_u32_round_trip(self.rate, a4, z5);
        let a6 = a5 + w5;
        lemma_assoc(a5, w5, z6);
        assert(p == a6 + z6);
        lemma_u16_round_trip(self.volume, a5, z6);
        let a7 = a6 + w6;
        lemma_assoc(a6, w6, z7);
        assert(p == a7 + z7);
        let a8 = a7 + w7;
        lemma_assoc(a7, w7, z8);
        assert(p == a8 + z8);
        lemma_i32_round_trip(self.matrix.a, a7, z8);
        let a9 = a8 + w8;
        lemma_assoc(a8, w8, z9);
        assert(p == a9 + z9);
        lemma_i32_round_trip(self.matrix.b, a8, z9);
        let a10 = a9 + w9;
        lemma_assoc(a9, w9, z10);
        assert(p == a10 + z10);
        lemma_i32_round_trip(self.matrix.u, a9, z10);
        let a11 = a10 + w10;
        lemma_assoc(a10, w10, z11);
        assert(p == a11 + z11);
        lemma_i32_round_trip(self.matrix.c, a10, z11);
        let a12 = a11 + w11;
        lemma_assoc(a11, w11, z12);
        assert(p == a12 + z12);
        lemma_i32_round_trip(self.matrix.d, a11, z12);
        let a13 = a12 + w12;
        lemma_assoc(a12, w12, z13);
        assert(p == a13 + z13);
        lemma_i32_round_trip(self.matrix.v, a12, z13);
        let a14 = a13 + w13;
        lemma_assoc(a13, w13, z14);
        assert(p == a14 + z14);
        lemma_i32_round_trip(self.matrix.x, a13, z14);
        let a15 = a14 + w14;
        lemma_assoc(a14, w14, z15);
        assert(p == a15 + z15);
        lemma_i32_round_trip(self.matrix.y, a14, z15);
        let a16 = a15 + w15;
        lemma_assoc(a15, w15, z16);
        assert(p == a16 + z16);
        lemma_i32_round_trip(self.matrix.w, a15, z16);
        let a17 = a16 + w16;
        lemma_assoc(a16, w16, z17);
        assert(p == a17 + z17);
        let a18 = a17 + w17;
        lemma_assoc(a17, w17, z18);
        assert(p == a18 + z18);
        lemma_u32_round_trip(self.next_track_id, a17, z18);
    }

    /// Decoding what a well-formed box of version 1 is written as gives the
    /// box back.
    #[verifier::rlimit(50)]
    proof fn lemma_round_trip_v1(self)
        requires
            self.well_formed(),
            self.version == 1,
        ensures
            self.bytes().len() == self.size(),
            BoxHeader::spec_read(self.bytes(), 0) == Ok::<BoxHeader, ErrorKind>(
                BoxHeader { name: BoxType::MvhdBox, size: self.size() as u64, header_len: 8 },
            ),
            MvhdBox::read(payload(self.bytes().skip(8), self.size() as u64)) == Ok::<
                MvhdBox,
                ErrorKind,
            >(self),
    {
        let b = self.bytes();
        let size = self.size() as u64;
        let p = payload(b.skip(8), size);
        let h = full_header_bytes(BoxType::MvhdBox, size, self.version, self.flags);
        let e = ext_bytes(self.version, self.flags);
        let w0 = u64_be(self.creation_time);
        let w1 = u64_be(self.modification_time);
        let w2 = u32_be(self.timescale);
        let w3 = u64_be(self.duration);
        let w4 = u32_be(self.rate);
        let w5 = u16_be(self.volume);
        let w6 = zeros(10);
        let w7 = i32_be(self.matrix.a);
        let w8 = i32_be(self.matrix.b);
        let w9 = i32_be(self.matrix.u);
        let w10 = i32_be(self.matrix.c);
        let w11 = i32_be(self.matrix.d);
        let w12 = i32_be(self.matrix.v);
        let w13 = i32_be(self.matrix.x);
        let w14 = i32_be(self.matrix.y);
        let w15 = i32_be(self.matrix.w);
        let w16 = zeros(24);
        let w17 = u32_be(self.next_track_id);
        let l0 = h;
        let l1 = l0 + w0;
        let l2 = l1 + w1;
        let l3 = l2 + w2;
        let l4 = l3 + w3;
        let l5 = l4 + w4;
        let l6 = l5 + w5;
        let l7 = l6 + w6;
        let l8 = l7 + w7;
        let l9 = l8 + w8;
        let l10 = l9 + w9;
        let l11 = l10 + w10;
        let l12 = l11 + w11;
        let l13 = l12 + w12;
        let l14 = l13 + w13;
        let l15 = l14 + w14;
        let l16 = l15 + w15;
        let l17 = l16 + w16;
        let l18 = l17 + w17;
        let z18 = Seq::<u8>::empty();
        let z17 = w17 + z18;
        let z16 = w16 + z17;
        let z15 = w15 + z16;
        let z14 = w14 + z15;
        let z13 = w13 + z14;
        let z12 = w12 + z13;
        let z11 = w11 + z12;
        let z10 = w10 + z11;
        let z9 = w9 + z10;
        let z8 = w8 + z9;
        let z7 = w7 + z8;
        let z6 = w6 + z7;
        let z5 = w5 + z6;
        let z4 = w4 + z5;
        let z3 = w3 + z4;
        let z2 = w2 + z3;
        let z1 = w1 + z2;
        let z0 = w0 + z1;
        assert(b == l18);
        lemma_add_empty(l18);
        lemma_assoc(l17, w17, z18);
        assert(b == l17 + z17);
        lemma_assoc(l16, w16, z17);
        assert(b == l16 + z16);
        lemma_assoc(l15, w15, z16);
        assert(b == l15 + z15);
        lemma_assoc(l14, w14, z15);
        assert(b == l14 + z14);
        lemma_assoc(l13, w13, z14);
        assert(b == l13 + z13);
        lemma_assoc(l12, w12, z13);
        assert(b == l12 + z12);
        lemma_assoc(l11, w11, z12);
        assert(b == l11 + z11);
        lemma_assoc(l10, w10, z11);
        assert(b == l10 + z10);
        lemma_assoc(l9, w9, z10);
        assert(b == l9 + z9);
        lemma_assoc(l8, w8, z9);
        assert(b == l8 + z8);
        lemma_assoc(l7, w7, z8);
        assert(b == l7 + z7);
        lemma_assoc(l6, w6, z7);
        assert(b == l6 + z6);
        lemma_assoc(l5, w5, z6);
        assert(b == l5 + z5);
        lemma_assoc(l4, w4, z5);
        assert(b == l4 + z4);
        lemma_assoc(l3, w3, z4);
        assert(b == l3 + z3);
        lemma_assoc(l2, w2, z3);
        assert(b == l2 + z2);
        lemma_assoc(l1, w1, z2);
        assert(b == l1 + z1);
        lemma_assoc(l0, w0, z1);
        assert(b == l0 + z0);
        lemma_full_header(BoxType::MvhdBox, size, self.version, self.flags, 1, z0);
        let a0 = e;
        assert(p == a0 + z0);
        let a1 = a0 + w0;
        lemma_assoc(a0, w0, z1);
        assert(p == a1 + z1);
        lemma_u64_round_trip(self.creation_time, a0, z1);
        let a2 = a1 + w1;
        lemma_assoc(a1, w1, z2);
        assert(p == a2 + z2);
        lemma_u64_round_trip(self.modification_time, a1, z2);
        let a3 = a2 + w2;
        lemma_assoc(a2, w2, z3);
        assert(p == a3 + z3);
        lemma_u32_round_trip(self.timescale, a2, z3);
        let a4 = a3 + w3;
        lemma_assoc(a3, w3, z4);
        assert(p == a4 + z4);
        lemma_u64_round_trip(self.duration, a3, z4);
        let a5 = a4 + w4;
        lemma_assoc(a4, w4, z5);
        assert(p == a5 + z5);
        lemma_u32_round_trip(self.rate, a4, z5);
        let a6 = a5 + w5;
        lemma_assoc(a5, w5, z6);
        assert(p == a6 + z6);
        lemma_u16_round_trip(self.volume, a5, z6);
        let a7 = a6 + w6;
        lemma_assoc(a6, w6, z7);
        assert(p == a7 + z7);
        let a8 = a7 + w7;
        lemma_assoc(a7, w7, z8);
        assert(p == a8 + z8);
        lemma_i32_round_trip(self.matrix.a, a7, z8);
        let a9 = a8 + w8;
        lemma_assoc(a8, w8, z9);
        assert(p == a9 + z9);
        lemma_i32_round_trip(self.matrix.b, a8, z9);
        let a10 = a9 + w9;
        lemma_assoc(a9, w9, z10);
        assert(p == a10 + z10);
        lemma_i32_round_trip(self.matrix.u, a9, z10);
        let a11 = a10 + w10;
        lemma_assoc(a10, w10, z11);
        assert(p == a11 + z11);
        lemma_i32_round_trip(self.matrix.c, a10, z11);
        let a12 = a11 + w11;
        lemma_assoc(a11, w11, z12);
        assert(p == a12 + z12);
        lemma_i32_round_trip(self.matrix.d, a11, z12);
        let a13 = a12 + w12;
        lemma_assoc(a12, w12, z13);
        assert(p == a13 + z13);
        lemma_i32_round_trip(self.matrix.v, a12, z13);
        let a14 = a13 + w13;
        lemma_assoc(a13, w13, z14);
        assert(p == a14 + z14);
        lemma_i32_round_trip(self.matrix.x, a13, z14);
        let a15 = a14 + w14;
        lemma_assoc(a14, w14, z15);
        assert(p == a15 + z15);
        lemma_i32_round_trip(self.matrix.y, a14, z15);
        let a16 = a15 + w15;
        lemma_assoc(a15, w15, z16);
        assert(p == a16 + z16);
        lemma_i32_round_trip(self.matrix.w, a15, z16);
        let a17 = a16 + w16;
        lemma_assoc(a16, w16, z17);
        assert(p == a17 + z17);
        let a18 = a17 + w17;
        lemma_assoc(a17, w17, z18);
        assert(p == a18 + z18);
        lemma_u32_round_trip(self.next_track_id, a17, z18);
    }

    /// Decoding what a well-formed box is written as gives the box back.
    #[verifier::rlimit(50)]
    pub proof fn lemma_round_trip(self)
        requires
            self.well_formed(),
        ensures
            self.bytes().len() == self.size(),
            BoxHeader::spec_read(self.bytes(), 0) == Ok::<BoxHeader, ErrorKind>(
                BoxHeader { name: BoxType::MvhdBox, size: self.size() as u64, header_len: 8 },
            ),
            MvhdBox::read(payload(self.bytes().skip(8), self.size() as u64)) == Ok::<
                MvhdBox,
                ErrorKind,
            >(self),
    {
        if self.version == 1 {
            self.lemma_round_trip_v1();
        } else {
            self.lemma_round_trip_v0();
        }
    }
}

} // verus!

//! The video media header box.

use crate::codec::{be_u16, get_u16, lemma_u16_round_trip, put_u16, u16_be};
use crate::codec::saturate;
use crate::error::{Error, ErrorKind};
use crate::mp4box::header::{
    decoded, ext_bytes, full_header_bytes, lemma_full_header, payload, payload_of,
    read_full_header, spec_full_header, write_box_header_ext, BoxHeader,
};
use crate::mp4box::BoxType;
use vstd::prelude::*;

verus! {

/// A colour of three 16-bit channels.
#[derive(Debug, Clone, Copy, PartialEq, Eq, Default, Structural)]
pub struct RgbColor {
    pub red: u16,
    pub green: u16,
    pub blue: u16,
}

/// The video media header: a graphics mode and the colour it operates with.
#[derive(Debug, Clone, Copy, PartialEq, Eq, Default, Structural)]
pub struct VmhdBox {
    pub version: u8,
    pub flags: u32,
    pub graphics_mode: u16,
    pub op_color: RgbColor,
}

impl View for VmhdBox {
    type V = VmhdBox;

    open spec fn view(&self) -> VmhdBox {
        *self
    }
}

impl VmhdBox {
    /// The number of bytes that the box is written as.
    pub open spec fn size(self) -> nat {
        20
    }

    /// The box can be written: its version is 0 and its flags fit 24 bits.
    pub open spec fn well_formed(self) -> bool {
        self.version == 0 && self.flags < 0x100_0000
    }

    /// The box as it is written, header included.
    pub open spec fn bytes(self) -> Seq<u8> {
        full_header_bytes(BoxType::VmhdBox, 20, self.version, self.flags) + u16_be(
            self.graphics_mode,
        ) + u16_be(self.op_color.red) + u16_be(self.op_color.green) + u16_be(self.op_color.blue)
    }

    /// The box that the payload `p` holds: twelve bytes are needed.
    pub open spec fn read(p: Seq<u8>) -> Result<VmhdBox, ErrorKind> {
        match spec_full_header(p, BoxType::VmhdBox, 0) {
            Err(e) => Err(e),
            Ok(vf) => if p.len() < 12 {
                Err(ErrorKind::IoError)
            } else {
                Ok(
                    VmhdBox {
                        version: vf.0,
                        flags: vf.1,
                        graphics_mode: be_u16(p, 4),
                        op_color: RgbColor {
                            red: be_u16(p, 6),
                            green: be_u16(p, 8),
                            blue: be_u16(p, 10),
                        },
                    },
                )
            },
        }
    }

    pub fn get_type(&self) -> (r: BoxType)
        ensures
            r == BoxType::VmhdBox,
    {
        BoxType::VmhdBox
    }

    pub fn get_size(&self) -> (r: u64)
        ensures
            r == self.size(),
            r == saturate(self.size() as int),
    {
        20
    }

    /// Decodes the box of declared size `size` whose payload starts `src`.
    #[verifier::rlimit(50)]
    pub fn read_box(src: &[u8], size: u64) -> (r: Result<VmhdBox, Error>)
        ensures
            decoded(r) == VmhdBox::read(payload(src@, size)),
    {
        let p = payload_of(src, size);
        let (version, flags) = match read_full_header(p, BoxType::VmhdBox, 0) {
            Ok(vf) => vf,
            Err(e) => {
                return Err(e);
            },
        };
        if p.len() < 12 {
            return Err(Error::IoError);
        }
        let graphics_mode: u16 = get_u16(p, 4);
        let op_color = RgbColor { red: get_u16(p, 6), green: get_u16(p, 8), blue: get_u16(p, 10) };
        Ok(VmhdBox { version, flags, graphics_mode, op_color })
    }

    /// Appends the box to `out` and returns the number of bytes written;
    /// a box that is not well formed is refused and `out` left as it was.
    #[verifier::rlimit(50)]
    pub fn write_box(&self, out: &mut Vec<u8>) -> (r: Result<u64, Error>)
        ensures
            r is Ok <==> self.well_formed(),
            r is Ok ==> r.unwrap() == self.size() && final(out)@ == old(out)@
                + self.bytes() && self.bytes().len() == self.size(),
            r is Err ==> r.unwrap_err().spec_kind() == ErrorKind::InvalidData && final(out)@
                == old(out)@,
    {
        if self.version != 0 || self.flags >= 0x100_0000 {
            return Err(Error::InvalidData("vmhd box cannot be written"));
        }
        let size: u64 = self.get_size();
        BoxHeader::new(self.get_type(), size).write(out);
        write_box_header_ext(out, self.version, self.flags);
        put_u16(out, self.graphics_mode);
        put_u16(out, self.op_color.red);
        put_u16(out, self.op_color.green);
        put_u16(out, self.op_color.blue);
        assert(out@ =~= old(out)@ + self.bytes());
        Ok(size)
    }

    /// Decoding what a well-formed box is written as gives the box back.
    #[verifier::rlimit(50)]
    pub proof fn lemma_round_trip(self)
        requires
            self.well_formed(),
        ensures
            self.bytes().len() == self.size(),
            BoxHeader::spec_read(self.bytes(), 0) == Ok::<BoxHeader, ErrorKind>(
                BoxHeader { name: BoxType::VmhdBox, size: 20, header_len: 8 },
            ),
            VmhdBox::read(payload(self.bytes().skip(8), 20)) == Ok::<
                VmhdBox,
                ErrorKind,
            >(self),
    {
        let b = self.bytes();
        let p = payload(b.skip(8), 20);
        lemma_full_header(BoxType::VmhdBox, 20, self.version, self.flags, 0, b.skip(12));
        assert(b =~= full_header_bytes(BoxType::VmhdBox, 20, self.version, self.flags) + b.skip(
            12,
        ));
        let e = ext_bytes(self.version, self.flags);
        let g = u16_be(self.graphics_mode);
        let c1 = u16_be(self.op_color.red);
        let c2 = u16_be(self.op_color.green);
        let c3 = u16_be(self.op_color.blue);
        assert(p =~= e + g + c1 + c2 + c3);
        lemma_u16_round_trip(self.graphics_mode, e, c1 + c2 + c3);
        assert(p =~= e + g + (c1 + c2 + c3));
        lemma_u16_round_trip(self.op_color.red, e + g, c2 + c3);
        assert(p =~= (e + g) + c1 + (c2 + c3));
        lemma_u16_round_trip(self.op_color.green, e + g + c1, c3);
        lemma_u16_round_trip(self.op_color.blue, e + g + c1 + c2, Seq::empty());
        assert(p =~= (e + g + c1 + c2) + c3 + Seq::empty());
    }
}

} // verus!

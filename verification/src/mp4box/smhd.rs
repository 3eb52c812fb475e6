//! The sound media header box.

use crate::codec::{be_u16, get_u16, lemma_u16_round_trip, put_u16, put_zeros, saturate, u16_be,
    zeros};
use crate::error::{Error, ErrorKind};
use crate::mp4box::header::{
    decoded, ext_bytes, full_header_bytes, lemma_add_empty, lemma_assoc, lemma_full_header,
    payload, payload_of, read_full_header, spec_full_header, write_box_header_ext, BoxHeader,
};
use crate::mp4box::BoxType;
use vstd::prelude::*;

verus! {

/// The sound media header box.
#[derive(Debug, Clone, Copy, PartialEq, Eq, Default, Structural)]
pub struct SmhdBox {
    pub version: u8,
    pub flags: u32,
    /// The stereo balance, in 8.8 fixed point.
    pub balance: u16,
}

impl View for SmhdBox {
    type V = SmhdBox;

    open spec fn view(&self) -> SmhdBox {
        *self
    }
}

impl SmhdBox {
    /// The number of bytes that the box is written as.
    pub open spec fn size(self) -> nat {
        16
    }

    /// The box can be written: its version is defined, its flags fit 24
    /// bits, and under version 0 its times fit 32 bits.
    pub open spec fn well_formed(self) -> bool {
        &&& self.version <= 0
        &&& self.flags < 0x100_0000
    }

    /// The box as it is written, header included.
    pub open spec fn bytes(self) -> Seq<u8> {
        full_header_bytes(BoxType::SmhdBox, self.size() as u64, self.version, self.flags)
            + u16_be(self.balance) + zeros(2)
    }

    /// The box that the payload `p` holds.
    pub open spec fn read(p: Seq<u8>) -> Result<SmhdBox, ErrorKind> {
        match spec_full_header(p, BoxType::SmhdBox, 0) {
            Err(e) => Err(e),
            Ok(vf) => if p.len() < 8 {
                Err(ErrorKind::IoError)
            } else {
                Ok(SmhdBox {
                    version: vf.0,
                    flags: vf.1,
                    balance: be_u16(p, 4),
                })
            },
        }
    }

    pub fn get_type(&self) -> (r: BoxType)
        ensures
            r == BoxType::SmhdBox,
    {
        BoxType::SmhdBox
    }

    pub fn get_size(&self) -> (r: u64)
        ensures
            r == self.size(),
            r == saturate(self.size() as int),
    {
        16
    }

    /// Decodes the box of declared size `size` whose payload starts `src`.
    #[verifier::rlimit(50)]
    pub fn read_box(src: &[u8], size: u64) -> (r: Result<SmhdBox, Error>)
        ensures
            decoded(r) == SmhdBox::read(payload(src@, size)),
    {
        let p = payload_of(src, size);
        let (version, flags) = match read_full_header(p, BoxType::SmhdBox, 0) {
            Ok(vf) => vf,
            Err(e) => {
                return Err(e);
            },
        };
        if p.len() < 8 {
            return Err(Error::IoError);
        }
        Ok(SmhdBox {
            version: version,
            flags: flags,
            balance: get_u16(p, 4),
        })
    }

    /// Appends the box to `out` and returns the number of bytes written;
    /// a box that is not well formed is refused and `out` left as it was.
    #[verifier::rlimit(50)]
    pub fn write_box(&self, out: &mut Vec<u8>) -> (r: Result<u64, Error>)
        ensures
            r is Ok <==> self.well_formed(),
            r is Ok ==> r.unwrap() == self.size() && final(out)@ == old(out)@ + self.bytes()
                && self.bytes().len() == self.size(),
            r is Err ==> r.unwrap_err().spec_kind() == ErrorKind::InvalidData && final(out)@
                == old(out)@,
    {
        if self.version > 0 || self.flags >= 0x100_0000 {
            return Err(Error::InvalidData("smhd box cannot be written"));
        }
        let size: u64 = self.get_size();
        BoxHeader::new(self.get_type(), size).write(out);
        write_box_header_ext(out, self.version, self.flags);
        let ghost h = full_header_bytes(BoxType::SmhdBox, size, self.version, self.flags);
        assert(out@ =~= old(out)@ + h);
        let ghost c0 = out@;
        let ghost l0 = h;
        put_u16(out, self.balance);
        let ghost c1 = out@;
        let ghost l1 = l0 + u16_be(self.balance);
        proof {
            lemma_assoc(old(out)@, l0, u16_be(self.balance));
            assert(c1 == old(out)@ + l1);
        }
        put_zeros(out, 2);
        let ghost c2 = out@;
        let ghost l2 = l1 + zeros(2);
        proof {
            lemma_assoc(old(out)@, l1, zeros(2));
            assert(c2 == old(out)@ + l2);
        }
        proof {
            self.lemma_round_trip();
        }
        Ok(size)
    }

    /// Decoding what a well-formed box is written as gives the box back.
    #[verifier::rlimit(50)]
    pub proof fn lemma_round_trip(self)
        requires
            self.well_formed(),
        ensures
            self.bytes().len() == self.size(),
            BoxHeader::spec_read(self.bytes(), 0) == Ok::<BoxHeader, ErrorKind>(
                BoxHeader { name: BoxType::SmhdBox, size: self.size() as u64, header_len: 8 },
            ),
            SmhdBox::read(payload(self.bytes().skip(8), self.size() as u64)) == Ok::<
                SmhdBox,
                ErrorKind,
            >(self),
    {
        let b = self.bytes();
        let size = self.size() as u64;
        let p = payload(b.skip(8), size);
        let h = full_header_bytes(BoxType::SmhdBox, size, self.version, self.flags);
        let e = ext_bytes(self.version, self.flags);
        let w0 = u16_be(self.balance);
        let w1 = zeros(2);
        let l0 = h;
        let l1 = l0 + w0;
        let l2 = l1 + w1;
        let z2 = Seq::<u8>::empty();
        let z1 = w1 + z2;
        let z0 = w0 + z1;
        assert(b == l2);
        lemma_add_empty(l2);
        lemma_assoc(l1, w1, z2);
        assert(b == l1 + z1);
        lemma_assoc(l0, w0, z1);
        assert(b == l0 + z0);
        lemma_full_header(BoxType::SmhdBox, size, self.version, self.flags, 0, z0);
        let a0 = e;
        assert(p == a0 + z0);
        let a1 = a0 + w0;
        lemma_assoc(a0, w0, z1);
        assert(p == a1 + z1);
        lemma_u16_round_trip(self.balance, a0, z1);
        let a2 = a1 + w1;
        lemma_assoc(a1, w1, z2);
        assert(p == a2 + z2);
    }
}

} // verus!

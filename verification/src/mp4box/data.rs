//! The value box of a metadata item.

use crate::codec::{add_size, be_u32, get_u32, put_bytes, put_u32, saturate, u32_be, zeros};
use crate::codec::put_zeros;
use crate::error::{Error, ErrorKind};
use crate::codec::lemma_u32_round_trip;
use crate::mp4box::header::{
    decoded, header_bytes, lemma_assoc, lemma_plain_header, payload, payload_of, BoxHeader,
};
use crate::mp4box::BoxType;
use vstd::prelude::*;
use vstd::slice::{slice_subrange, slice_to_vec};

verus! {

/// What kind of value a metadata item holds.
#[derive(Debug, Clone, Copy, PartialEq, Eq, Structural, Default)]
pub enum DataType {
    #[default]
    Binary,
    Text,
    Image,
    TempoCpil,
}

impl DataType {
    /// The number that stands for the kind in the file.
    pub open spec fn spec_code(self) -> u32 {
        match self {
            DataType::Binary => 0x00,
            DataType::Text => 0x01,
            DataType::Image => 0x0D,
            DataType::TempoCpil => 0x15,
        }
    }

    /// The kind that `code` stands for, if any.
    pub open spec fn spec_from_code(code: u32) -> Option<DataType> {
        if code == 0x00 {
            Some(DataType::Binary)
        } else if code == 0x01 {
            Some(DataType::Text)
        } else if code == 0x0D {
            Some(DataType::Image)
        } else if code == 0x15 {
            Some(DataType::TempoCpil)
        } else {
            None
        }
    }

    /// The number that stands for the kind in the file.
    pub fn code(self) -> (r: u32)
        ensures
            r == self.spec_code(),
            DataType::spec_from_code(r) == Some(self),
    {
        match self {
            DataType::Binary => 0x00,
            DataType::Text => 0x01,
            DataType::Image => 0x0D,
            DataType::TempoCpil => 0x15,
        }
    }

    /// The kind that `code` stands for, if any.
    pub fn from_code(code: u32) -> (r: Option<DataType>)
        ensures
            r == DataType::spec_from_code(code),
    {
        if code == 0x00 {
            Some(DataType::Binary)
        } else if code == 0x01 {
            Some(DataType::Text)
        } else if code == 0x0D {
            Some(DataType::Image)
        } else if code == 0x15 {
            Some(DataType::TempoCpil)
        } else {
            None
        }
    }
}

/// The value of a metadata item: its kind and its bytes.
#[derive(Debug, Clone, PartialEq, Eq, Default)]
pub struct DataBox {
    pub data_type: DataType,
    pub data: Vec<u8>,
}

/// What a [`DataBox`] holds.
pub struct DataView {
    pub data_type: DataType,
    pub data: Seq<u8>,
}

impl View for DataBox {
    type V = DataView;

    open spec fn view(&self) -> DataView {
        DataView { data_type: self.data_type, data: self.data@ }
    }
}

impl DataView {
    /// The number of bytes that the box is written as.
    pub open spec fn size(self) -> nat {
        16 + self.data.len()
    }

    /// The box can be written: its size fits 32 bits.
    pub open spec fn well_formed(self) -> bool {
        self.size() <= u32::MAX
    }

    /// The box as it is written, header included: the kind, four zero
    /// bytes, the value.
    pub open spec fn bytes(self) -> Seq<u8> {
        header_bytes(BoxType::DataBox, self.size() as u64) + u32_be(self.data_type.spec_code())
            + zeros(4) + self.data
    }

    /// The box that the payload `p` holds: a kind that this library
    /// names, four bytes passed over, and the value up to the end.
    pub open spec fn read(p: Seq<u8>) -> Result<DataView, ErrorKind> {
        if p.len() < 8 {
            Err(ErrorKind::IoError)
        } else {
            match DataType::spec_from_code(be_u32(p, 0)) {
                None => Err(ErrorKind::InvalidData),
                Some(t) => Ok(DataView { data_type: t, data: p.skip(8) }),
            }
        }
    }

    /// Decoding what a well-formed box is written as gives the box back.
    #[verifier::rlimit(50)]
    pub proof fn lemma_round_trip(self)
        requires
            self.well_formed(),
        ensures
            self.bytes().len() == self.size(),
            BoxHeader::spec_read(self.bytes(), 0) == Ok::<BoxHeader, ErrorKind>(
                BoxHeader { name: BoxType::DataBox, size: self.size() as u64, header_len: 8 },
            ),
            DataView::read(self.bytes().skip(8)) == Ok::<DataView, ErrorKind>(self),
    {
        let size = self.size() as u64;
        let h = header_bytes(BoxType::DataBox, size);
        let c = u32_be(self.data_type.spec_code());
        let z = zeros(4);
        lemma_assoc(h, c, z);
        lemma_assoc(h, c + z, self.data);
        let rest = (c + z) + self.data;
        assert(self.bytes() == h + rest);
        lemma_plain_header(BoxType::DataBox, size, rest);
        lemma_u32_round_trip(self.data_type.spec_code(), Seq::empty(), z + self.data);
        assert(rest =~= Seq::empty() + c + (z + self.data));
        assert(rest.skip(8) =~= self.data);
    }
}

impl DataBox {
    pub fn get_type(&self) -> (r: BoxType)
        ensures
            r == BoxType::DataBox,
    {
        BoxType::DataBox
    }

    /// The size of the box as written, saturating at `u64::MAX`.
    pub fn get_size(&self) -> (r: u64)
        ensures
            r == saturate(self@.size() as int),
    {
        add_size(16, self.data.len() as u64)
    }

    /// Decodes the box of declared size `size` whose payload starts `src`.
    #[verifier::rlimit(50)]
    pub fn read_box(src: &[u8], size: u64) -> (r: Result<DataBox, Error>)
        ensures
            decoded(r) == DataView::read(payload(src@, size)),
    {
        let p = payload_of(src, size);
        if p.len() < 8 {
            return Err(Error::IoError);
        }
        let data_type = match DataType::from_code(get_u32(p, 0)) {
            Some(t) => t,
            None => {
                return Err(Error::InvalidData("invalid data type"));
            },
        };
        let data: Vec<u8> = slice_to_vec(slice_subrange(p, 8, p.len()));
        assert(data@ =~= p@.skip(8));
        Ok(DataBox { data_type, data })
    }

    /// Appends the box to `out` and returns the number of bytes written;
    /// a box that is not well formed is refused and `out` left as it was.
    #[verifier::rlimit(50)]
    pub fn write_box(&self, out: &mut Vec<u8>) -> (r: Result<u64, Error>)
        ensures
            r is Ok <==> self@.well_formed(),
            r is Ok ==> r.unwrap() == self@.size() && final(out)@ == old(out)@ + self@.bytes()
                && self@.bytes().len() == self@.size(),
            r is Err ==> r.unwrap_err().spec_kind() == ErrorKind::InvalidData && final(out)@
                == old(out)@,
    {
        let size: u64 = self.get_size();
        if size > 0xFFFF_FFFF {
            return Err(Error::InvalidData("data box cannot be written"));
        }
        BoxHeader::new(self.get_type(), size).write(out);
        put_u32(out, self.data_type.code());
        put_zeros(out, 4);
        put_bytes(out, self.data.as_slice());
        assert(out@ =~= old(out)@ + self@.bytes());
        Ok(size)
    }
}

} // verus!

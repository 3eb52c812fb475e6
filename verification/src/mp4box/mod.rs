//! The box header codec and the box types.

use crate::codec::{be_u32, get_u32, put_u32, u32_be};
use crate::error::{Error, ErrorKind};
use vstd::prelude::*;
use vstd::string::StringSliceAdditionalSpecFns;

pub mod co64;
pub mod covr;
pub mod ctts;
pub mod data;
pub mod day;
pub mod desc;
pub mod edts;
pub mod elst;
pub mod ftyp;
pub mod hdlr;
pub mod header;
pub mod ilst;
pub mod matrix;
pub mod mdhd;
pub mod mdia;
pub mod mehd;
pub mod meta;
pub mod metadata;
pub mod mfhd;
pub mod minf;
pub mod moof;
pub mod moov;
pub mod mvex;
pub mod mvhd;
pub mod name;
pub mod smhd;
pub mod stbl;
pub mod stco;
pub mod stsc;
pub mod stsd;
pub mod stss;
pub mod stsz;
pub mod stts;
pub mod table;
pub mod tfdt;
pub mod tfhd;
pub mod tkhd;
pub mod traf;
pub mod trak;
pub mod trex;
pub mod trun;
pub mod udta;
pub mod vmhd;

verus! {

/// The length of a box header with a 32-bit size.
pub const HEADER_SIZE: u64 = 8;

/// The length of the version and flags word of a full box.
pub const HEADER_EXT_SIZE: u64 = 4;

/// A four-character code, held as the big-endian number of its four bytes.
#[derive(Debug, Clone, Copy, PartialEq, Eq, Structural, Hash)]
pub struct FourCC {
    pub value: u32,
}

impl FourCC {
    /// The code whose four bytes, read big-endian, are `value`.
    pub fn from_u32(value: u32) -> (r: FourCC)
        ensures
            r.value == value,
    {
        FourCC { value }
    }

    /// The code made of the four bytes of `text`; `None` where `text` is
    /// not exactly four bytes long.
    pub fn parse(text: &str) -> (r: Option<FourCC>)
        ensures
            r is Some <==> text.spec_bytes().len() == 4,
            r is Some ==> r.unwrap().value == be_u32(text.spec_bytes(), 0),
    {
        let bytes = text.as_bytes();
        if bytes.len() == 4 {
            Some(FourCC { value: get_u32(bytes, 0) })
        } else {
            None
        }
    }

    /// The four bytes of the code, in order.
    pub fn to_bytes(&self) -> (r: Vec<u8>)
        ensures
            r@ == u32_be(self.value),
    {
        let mut out: Vec<u8> = Vec::new();
        put_u32(&mut out, self.value);
        out
    }
}

impl core::str::FromStr for FourCC {
    type Err = Error;

    /// The code made of the four bytes of `text`; a text that is not
    /// exactly four bytes long is refused as invalid data.
    fn from_str(text: &str) -> (r: Result<FourCC, Error>)
        ensures
            r is Ok <==> text.spec_bytes().len() == 4,
            r is Ok ==> r.unwrap().value == be_u32(text.spec_bytes(), 0),
            r is Err ==> r.unwrap_err().spec_kind() == ErrorKind::InvalidData,
    {
        match FourCC::parse(text) {
            Some(code) => Ok(code),
            None => Err(Error::InvalidData("expected exactly four bytes in string")),
        }
    }
}

impl Default for FourCC {
    fn default() -> (r: FourCC)
        ensures
            r.value == 0,
    {
        FourCC { value: 0 }
    }
}

/// The types of box that this library knows by name; any other code is
/// carried in `UnknownBox`.
#[derive(Debug, Clone, Copy, PartialEq, Eq, Structural, Hash)]
pub enum BoxType {
    /// `ftyp`
    FtypBox,
    /// `mvhd`
    MvhdBox,
    /// `mfhd`
    MfhdBox,
    /// `free`
    FreeBox,
    /// `mdat`
    MdatBox,
    /// `moov`
    MoovBox,
    /// `mvex`
    MvexBox,
    /// `mehd`
    MehdBox,
    /// `trex`
    TrexBox,
    /// `emsg`
    EmsgBox,
    /// `moof`
    MoofBox,
    /// `tkhd`
    TkhdBox,
    /// `tfhd`
    TfhdBox,
    /// `tfdt`
    TfdtBox,
    /// `edts`
    EdtsBox,
    /// `mdia`
    MdiaBox,
    /// `elst`
    ElstBox,
    /// `mdhd`
    MdhdBox,
    /// `hdlr`
    HdlrBox,
    /// `minf`
    MinfBox,
    /// `vmhd`
    VmhdBox,
    /// `stbl`
    StblBox,
    /// `stsd`
    StsdBox,
    /// `stts`
    SttsBox,
    /// `ctts`
    CttsBox,
    /// `stss`
    StssBox,
    /// `stsc`
    StscBox,
    /// `stsz`
    StszBox,
    /// `stco`
    StcoBox,
    /// `co64`
    Co64Box,
    /// `trak`
    TrakBox,
    /// `traf`
    TrafBox,
    /// `trun`
    TrunBox,
    /// `udta`
    UdtaBox,
    /// `meta`
    MetaBox,
    /// `dinf`
    DinfBox,
    /// `dref`
    DrefBox,
    /// `url `
    UrlBox,
    /// `smhd`
    SmhdBox,
    /// `avc1`
    Avc1Box,
    /// `avcC`
    AvcCBox,
    /// `hev1`
    Hev1Box,
    /// `hvcC`
    HvcCBox,
    /// `mp4a`
    Mp4aBox,
    /// `esds`
    EsdsBox,
    /// `tx3g`
    Tx3gBox,
    /// `vpcC`
    VpccBox,
    /// `vp09`
    Vp09Box,
    /// `data`
    DataBox,
    /// `ilst`
    IlstBox,
    /// `a96e616d`
    NameBox,
    /// `a9646179`
    DayBox,
    /// `covr`
    CovrBox,
    /// `desc`
    DescBox,
    /// `skip`
    SkipBox,
    /// Any other code.
    UnknownBox(u32),
}

impl BoxType {
    /// The box type that the code `v` names.
    pub open spec fn spec_from_u32(v: u32) -> BoxType {
        if v == 0x66747970 {
            BoxType::FtypBox
        } else         if v == 0x6d766864 {
            BoxType::MvhdBox
        } else         if v == 0x6d666864 {
            BoxType::MfhdBox
        } else         if v == 0x66726565 {
            BoxType::FreeBox
        } else         if v == 0x6d646174 {
            BoxType::MdatBox
        } else         if v == 0x6d6f6f76 {
            BoxType::MoovBox
        } else         if v == 0x6d766578 {
            BoxType::MvexBox
        } else         if v == 0x6d656864 {
            BoxType::MehdBox
        } else         if v == 0x74726578 {
            BoxType::TrexBox
        } else         if v == 0x656d7367 {
            BoxType::EmsgBox
        } else         if v == 0x6d6f6f66 {
            BoxType::MoofBox
        } else         if v == 0x746b6864 {
            BoxType::TkhdBox
        } else         if v == 0x74666864 {
            BoxType::TfhdBox
        } else         if v == 0x74666474 {
            BoxType::TfdtBox
        } else         if v == 0x65647473 {
            BoxType::EdtsBox
        } else         if v == 0x6d646961 {
            BoxType::MdiaBox
        } else         if v == 0x656c7374 {
            BoxType::ElstBox
        } else         if v == 0x6d646864 {
            BoxType::MdhdBox
        } else         if v == 0x68646c72 {
            BoxType::HdlrBox
        } else         if v == 0x6d696e66 {
            BoxType::MinfBox
        } else         if v == 0x766d6864 {
            BoxType::VmhdBox
        } else         if v == 0x7374626c {
            BoxType::StblBox
        } else         if v == 0x73747364 {
            BoxType::StsdBox
        } else         if v == 0x73747473 {
            BoxType::SttsBox
        } else         if v == 0x63747473 {
            BoxType::CttsBox
        } else         if v == 0x73747373 {
            BoxType::StssBox
        } else         if v == 0x73747363 {
            BoxType::StscBox
        } else         if v == 0x7374737a {
            BoxType::StszBox
        } else         if v == 0x7374636f {
            BoxType::StcoBox
        } else         if v == 0x636f3634 {
            BoxType::Co64Box
        } else         if v == 0x7472616b {
            BoxType::TrakBox
        } else         if v == 0x74726166 {
            BoxType::TrafBox
        } else         if v == 0x7472756e {
            BoxType::TrunBox
        } else         if v == 0x75647461 {
            BoxType::UdtaBox
        } else         if v == 0x6d657461 {
            BoxType::MetaBox
        } else         if v == 0x64696e66 {
            BoxType::DinfBox
        } else         if v == 0x64726566 {
            BoxType::DrefBox
        } else         if v == 0x75726c20 {
            BoxType::UrlBox
        } else         if v == 0x736d6864 {
            BoxType::SmhdBox
        } else         if v == 0x61766331 {
            BoxType::Avc1Box
        } else         if v == 0x61766343 {
            BoxType::AvcCBox
        } else         if v == 0x68657631 {
            BoxType::Hev1Box
        } else         if v == 0x68766343 {
            BoxType::HvcCBox
        } else         if v == 0x6d703461 {
            BoxType::Mp4aBox
        } else         if v == 0x65736473 {
            BoxType::EsdsBox
        } else         if v == 0x74783367 {
            BoxType::Tx3gBox
        } else         if v == 0x76706343 {
            BoxType::VpccBox
        } else         if v == 0x76703039 {
            BoxType::Vp09Box
        } else         if v == 0x64617461 {
            BoxType::DataBox
        } else         if v == 0x696c7374 {
            BoxType::IlstBox
        } else         if v == 0xa96e616d {
            BoxType::NameBox
        } else         if v == 0xa9646179 {
            BoxType::DayBox
        } else         if v == 0x636f7672 {
            BoxType::CovrBox
        } else         if v == 0x64657363 {
            BoxType::DescBox
        } else         if v == 0x736b6970 {
            BoxType::SkipBox
        } else {
            BoxType::UnknownBox(v)
        }
    }

    /// The code of this box type.
    pub open spec fn spec_to_u32(self) -> u32 {
        match self {
            BoxType::FtypBox => 0x66747970,
            BoxType::MvhdBox => 0x6d766864,
            BoxType::MfhdBox => 0x6d666864,
            BoxType::FreeBox => 0x66726565,
            BoxType::MdatBox => 0x6d646174,
            BoxType::MoovBox => 0x6d6f6f76,
            BoxType::MvexBox => 0x6d766578,
            BoxType::MehdBox => 0x6d656864,
            BoxType::TrexBox => 0x74726578,
            BoxType::EmsgBox => 0x656d7367,
            BoxType::MoofBox => 0x6d6f6f66,
            BoxType::TkhdBox => 0x746b6864,
            BoxType::TfhdBox => 0x74666864,
            BoxType::TfdtBox => 0x74666474,
            BoxType::EdtsBox => 0x65647473,
            BoxType::MdiaBox => 0x6d646961,
            BoxType::ElstBox => 0x656c7374,
            BoxType::MdhdBox => 0x6d646864,
            BoxType::HdlrBox => 0x68646c72,
            BoxType::MinfBox => 0x6d696e66,
            BoxType::VmhdBox => 0x766d6864,
            BoxType::StblBox => 0x7374626c,
            BoxType::StsdBox => 0x73747364,
            BoxType::SttsBox => 0x73747473,
            BoxType::CttsBox => 0x63747473,
            BoxType::StssBox => 0x73747373,
            BoxType::StscBox => 0x73747363,
            BoxType::StszBox => 0x7374737a,
            BoxType::StcoBox => 0x7374636f,
            BoxType::Co64Box => 0x636f3634,
            BoxType::TrakBox => 0x7472616b,
            BoxType::TrafBox => 0x74726166,
            BoxType::TrunBox => 0x7472756e,
            BoxType::UdtaBox => 0x75647461,
            BoxType::MetaBox => 0x6d657461,
            BoxType::DinfBox => 0x64696e66,
            BoxType::DrefBox => 0x64726566,
            BoxType::UrlBox => 0x75726c20,
            BoxType::SmhdBox => 0x736d6864,
            BoxType::Avc1Box => 0x61766331,
            BoxType::AvcCBox => 0x61766343,
            BoxType::Hev1Box => 0x68657631,
            BoxType::HvcCBox => 0x68766343,
            BoxType::Mp4aBox => 0x6d703461,
            BoxType::EsdsBox => 0x65736473,
            BoxType::Tx3gBox => 0x74783367,
            BoxType::VpccBox => 0x76706343,
            BoxType::Vp09Box => 0x76703039,
            BoxType::DataBox => 0x64617461,
            BoxType::IlstBox => 0x696c7374,
            BoxType::NameBox => 0xa96e616d,
            BoxType::DayBox => 0xa9646179,
            BoxType::CovrBox => 0x636f7672,
            BoxType::DescBox => 0x64657363,
            BoxType::SkipBox => 0x736b6970,
            BoxType::UnknownBox(v) => v,
        }
    }

    /// Whether this value is the one that decoding its own code gives: a
    /// named type, or an unknown code that no named type has.
    pub open spec fn canonical(self) -> bool {
        BoxType::spec_from_u32(self.spec_to_u32()) == self
    }

    /// The box type that the code `v` names.
    #[verifier::when_used_as_spec(spec_from_u32)]
    pub fn from_u32(v: u32) -> (r: BoxType)
        ensures
            r == BoxType::spec_from_u32(v),
            r.spec_to_u32() == v,
    {
        if v == 0x66747970 {
            BoxType::FtypBox
        } else         if v == 0x6d766864 {
            BoxType::MvhdBox
        } else         if v == 0x6d666864 {
            BoxType::MfhdBox
        } else         if v == 0x66726565 {
            BoxType::FreeBox
        } else         if v == 0x6d646174 {
            BoxType::MdatBox
        } else         if v == 0x6d6f6f76 {
            BoxType::MoovBox
        } else         if v == 0x6d766578 {
            BoxType::MvexBox
        } else         if v == 0x6d656864 {
            BoxType::MehdBox
        } else         if v == 0x74726578 {
            BoxType::TrexBox
        } else         if v == 0x656d7367 {
            BoxType::EmsgBox
        } else         if v == 0x6d6f6f66 {
            BoxType::MoofBox
        } else         if v == 0x746b6864 {
            BoxType::TkhdBox
        } else         if v == 0x74666864 {
            BoxType::TfhdBox
        } else         if v == 0x74666474 {
            BoxType::TfdtBox
        } else         if v == 0x65647473 {
            BoxType::EdtsBox
        } else         if v == 0x6d646961 {
            BoxType::MdiaBox
        } else         if v == 0x656c7374 {
            BoxType::ElstBox
        } else         if v == 0x6d646864 {
            BoxType::MdhdBox
        } else         if v == 0x68646c72 {
            BoxType::HdlrBox
        } else         if v == 0x6d696e66 {
            BoxType::MinfBox
        } else         if v == 0x766d6864 {
            BoxType::VmhdBox
        } else         if v == 0x7374626c {
            BoxType::StblBox
        } else         if v == 0x73747364 {
            BoxType::StsdBox
        } else         if v == 0x73747473 {
            BoxType::SttsBox
        } else         if v == 0x63747473 {
            BoxType::CttsBox
        } else         if v == 0x73747373 {
            BoxType::StssBox
        } else         if v == 0x73747363 {
            BoxType::StscBox
        } else         if v == 0x7374737a {
            BoxType::StszBox
        } else         if v == 0x7374636f {
            BoxType::StcoBox
        } else         if v == 0x636f3634 {
            BoxType::Co64Box
        } else         if v == 0x7472616b {
            BoxType::TrakBox
        } else         if v == 0x74726166 {
            BoxType::TrafBox
        } else         if v == 0x7472756e {
            BoxType::TrunBox
        } else         if v == 0x75647461 {
            BoxType::UdtaBox
        } else         if v == 0x6d657461 {
            BoxType::MetaBox
        } else         if v == 0x64696e66 {
            BoxType::DinfBox
        } else         if v == 0x64726566 {
            BoxType::DrefBox
        } else         if v == 0x75726c20 {
            BoxType::UrlBox
        } else         if v == 0x736d6864 {
            BoxType::SmhdBox
        } else         if v == 0x61766331 {
            BoxType::Avc1Box
        } else         if v == 0x61766343 {
            BoxType::AvcCBox
        } else         if v == 0x68657631 {
            BoxType::Hev1Box
        } else         if v == 0x68766343 {
            BoxType::HvcCBox
        } else         if v == 0x6d703461 {
            BoxType::Mp4aBox
        } else         if v == 0x65736473 {
            BoxType::EsdsBox
        } else         if v == 0x74783367 {
            BoxType::Tx3gBox
        } else         if v == 0x76706343 {
            BoxType::VpccBox
        } else         if v == 0x76703039 {
            BoxType::Vp09Box
        } else         if v == 0x64617461 {
            BoxType::DataBox
        } else         if v == 0x696c7374 {
            BoxType::IlstBox
        } else         if v == 0xa96e616d {
            BoxType::NameBox
        } else         if v == 0xa9646179 {
            BoxType::DayBox
        } else         if v == 0x636f7672 {
            BoxType::CovrBox
        } else         if v == 0x64657363 {
            BoxType::DescBox
        } else         if v == 0x736b6970 {
            BoxType::SkipBox
        } else {
            BoxType::UnknownBox(v)
        }
    }

    /// The code of this box type.
    #[verifier::when_used_as_spec(spec_to_u32)]
    pub fn to_u32(self) -> (r: u32)
        ensures
            r == self.spec_to_u32(),
    {
        match self {
            BoxType::FtypBox => 0x66747970,
            BoxType::MvhdBox => 0x6d766864,
            BoxType::MfhdBox => 0x6d666864,
            BoxType::FreeBox => 0x66726565,
            BoxType::MdatBox => 0x6d646174,
            BoxType::MoovBox => 0x6d6f6f76,
            BoxType::MvexBox => 0x6d766578,
            BoxType::MehdBox => 0x6d656864,
            BoxType::TrexBox => 0x74726578,
            BoxType::EmsgBox => 0x656d7367,
            BoxType::MoofBox => 0x6d6f6f66,
            BoxType::TkhdBox => 0x746b6864,
            BoxType::TfhdBox => 0x74666864,
            BoxType::TfdtBox => 0x74666474,
            BoxType::EdtsBox => 0x65647473,
            BoxType::MdiaBox => 0x6d646961,
            BoxType::ElstBox => 0x656c7374,
            BoxType::MdhdBox => 0x6d646864,
            BoxType::HdlrBox => 0x68646c72,
            BoxType::MinfBox => 0x6d696e66,
            BoxType::VmhdBox => 0x766d6864,
            BoxType::StblBox => 0x7374626c,
            BoxType::StsdBox => 0x73747364,
            BoxType::SttsBox => 0x73747473,
            BoxType::CttsBox => 0x63747473,
            BoxType::StssBox => 0x73747373,
            BoxType::StscBox => 0x73747363,
            BoxType::StszBox => 0x7374737a,
            BoxType::StcoBox => 0x7374636f,
            BoxType::Co64Box => 0x636f3634,
            BoxType::TrakBox => 0x7472616b,
            BoxType::TrafBox => 0x74726166,
            BoxType::TrunBox => 0x7472756e,
            BoxType::UdtaBox => 0x75647461,
            BoxType::MetaBox => 0x6d657461,
            BoxType::DinfBox => 0x64696e66,
            BoxType::DrefBox => 0x64726566,
            BoxType::UrlBox => 0x75726c20,
            BoxType::SmhdBox => 0x736d6864,
            BoxType::Avc1Box => 0x61766331,
            BoxType::AvcCBox => 0x61766343,
            BoxType::Hev1Box => 0x68657631,
            BoxType::HvcCBox => 0x68766343,
            BoxType::Mp4aBox => 0x6d703461,
            BoxType::EsdsBox => 0x65736473,
            BoxType::Tx3gBox => 0x74783367,
            BoxType::VpccBox => 0x76706343,
            BoxType::Vp09Box => 0x76703039,
            BoxType::DataBox => 0x64617461,
            BoxType::IlstBox => 0x696c7374,
            BoxType::NameBox => 0xa96e616d,
            BoxType::DayBox => 0xa9646179,
            BoxType::CovrBox => 0x636f7672,
            BoxType::DescBox => 0x64657363,
            BoxType::SkipBox => 0x736b6970,
            BoxType::UnknownBox(v) => v,
        }
    }
}

/// Every code names a type whose code it is, and every named type is
/// canonical.
pub proof fn lemma_box_type_round_trip(v: u32, t: BoxType)
    ensures
        BoxType::spec_from_u32(v).spec_to_u32() == v,
        BoxType::spec_from_u32(v).canonical(),
        !(t is UnknownBox) ==> t.canonical(),
{
}

} // verus!

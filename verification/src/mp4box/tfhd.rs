//! The track fragment header box.

use crate::codec::{
    be_u32, be_u64, get_u32, get_u64, lemma_u32_round_trip, lemma_u64_round_trip, put_u32,
    put_u64, u32_be, u64_be,
};
use crate::codec::saturate;
use crate::error::{Error, ErrorKind};
use crate::mp4box::header::{
    decoded, ext_bytes, full_header_bytes, lemma_add_empty, lemma_assoc, lemma_full_header,
    payload, payload_of, read_full_header, spec_full_header, write_box_header_ext, BoxHeader,
};
use crate::mp4box::BoxType;
use vstd::prelude::*;

verus! {

/// Whether `flags` has a bit of `mask` set.
pub open spec fn spec_flag_set(flags: u32, mask: u32) -> bool {
    flags & mask != 0
}

/// Whether `flags` has a bit of `mask` set.
#[verifier::when_used_as_spec(spec_flag_set)]
pub fn flag_set(flags: u32, mask: u32) -> (r: bool)
    ensures
        r == spec_flag_set(flags, mask),
{
    flags & mask != 0
}

/// The bytes of an optional 32-bit field: none where it is absent.
pub open spec fn opt_u32_be(v: Option<u32>) -> Seq<u8> {
    match v {
        Some(x) => u32_be(x),
        None => Seq::empty(),
    }
}

/// The bytes of an optional 64-bit field: none where it is absent.
pub open spec fn opt_u64_be(v: Option<u64>) -> Seq<u8> {
    match v {
        Some(x) => u64_be(x),
        None => Seq::empty(),
    }
}

/// Appends an optional 32-bit field: nothing where it is absent.
pub fn put_opt_u32(out: &mut Vec<u8>, v: Option<u32>)
    ensures
        final(out)@ == old(out)@ + opt_u32_be(v),
        opt_u32_be(v).len() == if v.is_some() {
            4int
        } else {
            0int
        },
{
    if let Some(x) = v {
        put_u32(out, x);
    }
    assert(out@ =~= old(out)@ + opt_u32_be(v));
}

/// Appends an optional 64-bit field: nothing where it is absent.
pub fn put_opt_u64(out: &mut Vec<u8>, v: Option<u64>)
    ensures
        final(out)@ == old(out)@ + opt_u64_be(v),
        opt_u64_be(v).len() == if v.is_some() {
            8int
        } else {
            0int
        },
{
    if let Some(x) = v {
        put_u64(out, x);
    }
    assert(out@ =~= old(out)@ + opt_u64_be(v));
}

/// The header of a track fragment: the track it extends and the defaults
/// of its samples. The flags say which of the optional fields are present.
#[derive(Debug, Clone, Copy, PartialEq, Eq, Default, Structural)]
pub struct TfhdBox {
    pub version: u8,
    pub flags: u32,
    pub track_id: u32,
    pub base_data_offset: Option<u64>,
    pub sample_description_index: Option<u32>,
    pub default_sample_duration: Option<u32>,
    pub default_sample_size: Option<u32>,
    pub default_sample_flags: Option<u32>,
}

impl View for TfhdBox {
    type V = TfhdBox;

    open spec fn view(&self) -> TfhdBox {
        *self
    }
}

pub const FLAG_BASE_DATA_OFFSET: u32 = 0x01;

pub const FLAG_SAMPLE_DESCRIPTION_INDEX: u32 = 0x02;

pub const FLAG_DEFAULT_SAMPLE_DURATION: u32 = 0x08;

pub const FLAG_DEFAULT_SAMPLE_SIZE: u32 = 0x10;

pub const FLAG_DEFAULT_SAMPLE_FLAGS: u32 = 0x20;

pub const FLAG_DURATION_IS_EMPTY: u32 = 0x1_0000;

pub const FLAG_DEFAULT_BASE_IS_MOOF: u32 = 0x2_0000;

impl TfhdBox {
    /// Where the sample description index stands in the payload.
    pub open spec fn at_index(flags: u32) -> int {
        8 + if spec_flag_set(flags, FLAG_BASE_DATA_OFFSET) {
            8int
        } else {
            0int
        }
    }

    /// Where the default sample duration stands in the payload.
    pub open spec fn at_duration(flags: u32) -> int {
        TfhdBox::at_index(flags) + if spec_flag_set(flags, FLAG_SAMPLE_DESCRIPTION_INDEX) {
            4int
        } else {
            0int
        }
    }

    /// Where the default sample size stands in the payload.
    pub open spec fn at_size(flags: u32) -> int {
        TfhdBox::at_duration(flags) + if spec_flag_set(flags, FLAG_DEFAULT_SAMPLE_DURATION) {
            4int
        } else {
            0int
        }
    }

    /// Where the default sample flags stand in the payload.
    pub open spec fn at_flags(flags: u32) -> int {
        TfhdBox::at_size(flags) + if spec_flag_set(flags, FLAG_DEFAULT_SAMPLE_SIZE) {
            4int
        } else {
            0int
        }
    }

    /// The length of the payload that the flags announce.
    pub open spec fn payload_len(flags: u32) -> int {
        TfhdBox::at_flags(flags) + if spec_flag_set(flags, FLAG_DEFAULT_SAMPLE_FLAGS) {
            4int
        } else {
            0int
        }
    }

    /// The number of bytes that the box is written as.
    pub open spec fn size(self) -> nat {
        (16 + opt_u64_be(self.base_data_offset).len() + opt_u32_be(
            self.sample_description_index,
        ).len() + opt_u32_be(self.default_sample_duration).len() + opt_u32_be(
            self.default_sample_size,
        ).len() + opt_u32_be(self.default_sample_flags).len()) as nat
    }

    /// The box can be written: version 0, flags of 24 bits.
    pub open spec fn well_formed(self) -> bool {
        self.version == 0 && self.flags < 0x100_0000
    }

    /// The flags announce exactly the optional fields that are present.
    pub open spec fn flags_agree(self) -> bool {
        &&& spec_flag_set(self.flags, FLAG_BASE_DATA_OFFSET) == self.base_data_offset.is_some()
        &&& spec_flag_set(self.flags, FLAG_SAMPLE_DESCRIPTION_INDEX)
            == self.sample_description_index.is_some()
        &&& spec_flag_set(self.flags, FLAG_DEFAULT_SAMPLE_DURATION)
            == self.default_sample_duration.is_some()
        &&& spec_flag_set(self.flags, FLAG_DEFAULT_SAMPLE_SIZE)
            == self.default_sample_size.is_some()
        &&& spec_flag_set(self.flags, FLAG_DEFAULT_SAMPLE_FLAGS)
            == self.default_sample_flags.is_some()
    }

    /// The box as it is written, header included: each optional field that
    /// is present, in order.
    pub open spec fn bytes(self) -> Seq<u8> {
        full_header_bytes(BoxType::TfhdBox, self.size() as u64, self.version, self.flags)
            + u32_be(self.track_id) + opt_u64_be(self.base_data_offset) + opt_u32_be(
            self.sample_description_index,
        ) + opt_u32_be(self.default_sample_duration) + opt_u32_be(self.default_sample_size)
            + opt_u32_be(self.default_sample_flags)
    }

    /// The box that the payload `p` holds: the track id, then the optional
    /// fields that the flags announce.
    pub open spec fn read(p: Seq<u8>) -> Result<TfhdBox, ErrorKind> {
        match spec_full_header(p, BoxType::TfhdBox, 0) {
            Err(e) => Err(e),
            Ok(vf) => if p.len() < TfhdBox::payload_len(vf.1) {
                Err(ErrorKind::IoError)
            } else {
                Ok(
                    TfhdBox {
                        version: vf.0,
                        flags: vf.1,
                        track_id: be_u32(p, 4),
                        base_data_offset: if spec_flag_set(vf.1, FLAG_BASE_DATA_OFFSET) {
                            Some(be_u64(p, 8))
                        } else {
                            None
                        },
                        sample_description_index: if spec_flag_set(
                            vf.1,
                            FLAG_SAMPLE_DESCRIPTION_INDEX,
                        ) {
                            Some(be_u32(p, TfhdBox::at_index(vf.1)))
                        } else {
                            None
                        },
                        default_sample_duration: if spec_flag_set(vf.1,
                            FLAG_DEFAULT_SAMPLE_DURATION) {
                            Some(be_u32(p, TfhdBox::at_duration(vf.1)))
                        } else {
                            None
                        },
                        default_sample_size: if spec_flag_set(vf.1, FLAG_DEFAULT_SAMPLE_SIZE) {
                            Some(be_u32(p, TfhdBox::at_size(vf.1)))
                        } else {
                            None
                        },
                        default_sample_flags: if spec_flag_set(vf.1, FLAG_DEFAULT_SAMPLE_FLAGS) {
                            Some(be_u32(p, TfhdBox::at_flags(vf.1)))
                        } else {
                            None
                        },
                    },
                )
            },
        }
    }

    pub fn get_type(&self) -> (r: BoxType)
        ensures
            r == BoxType::TfhdBox,
    {
        BoxType::TfhdBox
    }

    pub fn get_size(&self) -> (r: u64)
        ensures
            r == self.size(),
            r == saturate(self.size() as int),
            r <= 40,
    {
        let mut sum: u64 = 16;
        if self.base_data_offset.is_some() {
            sum += 8;
        }
        if self.sample_description_index.is_some() {
            sum += 4;
        }
        if self.default_sample_duration.is_some() {
            sum += 4;
        }
        if self.default_sample_size.is_some() {
            sum += 4;
        }
        if self.default_sample_flags.is_some() {
            sum += 4;
        }
        sum
    }

    /// Decodes the box of declared size `size` whose payload starts `src`.
    #[verifier::rlimit(50)]
    pub fn read_box(src: &[u8], size: u64) -> (r: Result<TfhdBox, Error>)
        ensures
            decoded(r) == TfhdBox::read(payload(src@, size)),
    {
        let p = payload_of(src, size);
        let (version, flags) = match read_full_header(p, BoxType::TfhdBox, 0) {
            Ok(vf) => vf,
            Err(e) => {
                return Err(e);
            },
        };
        let mut need: usize = 8;
        if flag_set(flags, FLAG_BASE_DATA_OFFSET) {
            need += 8;
        }
        if flag_set(flags, FLAG_SAMPLE_DESCRIPTION_INDEX) {
            need += 4;
        }
        if flag_set(flags, FLAG_DEFAULT_SAMPLE_DURATION) {
            need += 4;
        }
        if flag_set(flags, FLAG_DEFAULT_SAMPLE_SIZE) {
            need += 4;
        }
        if flag_set(flags, FLAG_DEFAULT_SAMPLE_FLAGS) {
            need += 4;
        }
        if p.len() < need {
            return Err(Error::IoError);
        }
        let track_id: u32 = get_u32(p, 4);
        let mut pos: usize = 8;
        let base_data_offset = if flag_set(flags, FLAG_BASE_DATA_OFFSET) {
            pos += 8;
            Some(get_u64(p, 8))
        } else {
            None
        };
        let sample_description_index = if flag_set(flags, FLAG_SAMPLE_DESCRIPTION_INDEX) {
            pos += 4;
            Some(get_u32(p, pos - 4))
        } else {
            None
        };
        let default_sample_duration = if flag_set(flags, FLAG_DEFAULT_SAMPLE_DURATION) {
            pos += 4;
            Some(get_u32(p, pos - 4))
        } else {
            None
        };
        let default_sample_size = if flag_set(flags, FLAG_DEFAULT_SAMPLE_SIZE) {
            pos += 4;
            Some(get_u32(p, pos - 4))
        } else {
            None
        };
        let default_sample_flags = if flag_set(flags, FLAG_DEFAULT_SAMPLE_FLAGS) {
            pos += 4;
            Some(get_u32(p, pos - 4))
        } else {
            None
        };
        Ok(
            TfhdBox {
                version,
                flags,
                track_id,
                base_data_offset,
                sample_description_index,
                default_sample_duration,
                default_sample_size,
                default_sample_flags,
            },
        )
    }

    /// Appends the box to `out` and returns the number of bytes written;
    /// a box that is not well formed is refused and `out` left as it was.
    #[verifier::rlimit(50)]
    pub fn write_box(&self, out: &mut Vec<u8>) -> (r: Result<u64, Error>)
        ensures
            r is Ok <==> self.well_formed(),
            r is Ok ==> r.unwrap() == self.size() && final(out)@ == old(out)@
                + self.bytes() && self.bytes().len() == self.size(),
            r is Err ==> r.unwrap_err().spec_kind() == ErrorKind::InvalidData && final(out)@
                == old(out)@,
    {
        if self.version != 0 || self.flags >= 0x100_0000 {
            return Err(Error::InvalidData("tfhd box cannot be written"));
        }
        let size: u64 = self.get_size();
        BoxHeader::new(self.get_type(), size).write(out);
        write_box_header_ext(out, self.version, self.flags);
        put_u32(out, self.track_id);
        let ghost s0 = out@;
        assert(s0 =~= old(out)@ + (full_header_bytes(
            BoxType::TfhdBox,
            size,
            self.version,
            self.flags,
        ) + u32_be(self.track_id)));
        put_opt_u64(out, self.base_data_offset);
        put_opt_u32(out, self.sample_description_index);
        put_opt_u32(out, self.default_sample_duration);
        put_opt_u32(out, self.default_sample_size);
        put_opt_u32(out, self.default_sample_flags);
        assert(out@ =~= old(out)@ + self.bytes());
        Ok(size)
    }
    /// Decoding what a well-formed box is written as gives the box back,
    /// where its flags announce the optional fields that it has.
    #[verifier::rlimit(50)]
    pub proof fn lemma_round_trip(self)
        requires
            self.well_formed(),
            self.flags_agree(),
        ensures
            self.bytes().len() == self.size(),
            BoxHeader::spec_read(self.bytes(), 0) == Ok::<BoxHeader, ErrorKind>(
                BoxHeader { name: BoxType::TfhdBox, size: self.size() as u64, header_len: 8 },
            ),
            TfhdBox::read(payload(self.bytes().skip(8), self.size() as u64)) == Ok::<
                TfhdBox,
                ErrorKind,
            >(self),
    {
        let b = self.bytes();
        let size = self.size() as u64;
        let p = payload(b.skip(8), size);
        let h = full_header_bytes(BoxType::TfhdBox, size, self.version, self.flags);
        let e = ext_bytes(self.version, self.flags);
        let w0 = u32_be(self.track_id);
        let w1 = opt_u64_be(self.base_data_offset);
        let w2 = opt_u32_be(self.sample_description_index);
        let w3 = opt_u32_be(self.default_sample_duration);
        let w4 = opt_u32_be(self.default_sample_size);
        let w5 = opt_u32_be(self.default_sample_flags);
        let l0 = h;
        let l1 = l0 + w0;
        let l2 = l1 + w1;
        let l3 = l2 + w2;
        let l4 = l3 + w3;
        let l5 = l4 + w4;
        let l6 = l5 + w5;
        let z6 = Seq::<u8>::empty();
        let z5 = w5 + z6;
        let z4 = w4 + z5;
        let z3 = w3 + z4;
        let z2 = w2 + z3;
        let z1 = w1 + z2;
        let z0 = w0 + z1;
        assert(b == l6);
        lemma_add_empty(l6);
        lemma_assoc(l5, w5, z6);
        lemma_assoc(l4, w4, z5);
        lemma_assoc(l3, w3, z4);
        lemma_assoc(l2, w2, z3);
        lemma_assoc(l1, w1, z2);
        lemma_assoc(l0, w0, z1);
        assert(b == l0 + z0);
        lemma_full_header(BoxType::TfhdBox, size, self.version, self.flags, 0, z0);
        let a0 = e;
        assert(p == a0 + z0);
        let a1 = a0 + w0;
        lemma_assoc(a0, w0, z1);
        lemma_u32_round_trip(self.track_id, a0, z1);
        let a2 = a1 + w1;
        lemma_assoc(a1, w1, z2);
        assert(p == a2 + z2);
        if let Some(v) = self.base_data_offset {
            lemma_u64_round_trip(v, a1, z2);
        }
        let a3 = a2 + w2;
        lemma_assoc(a2, w2, z3);
        assert(p == a3 + z3);
        if let Some(v) = self.sample_description_index {
            lemma_u32_round_trip(v, a2, z3);
        }
        let a4 = a3 + w3;
        lemma_assoc(a3, w3, z4);
        assert(p == a4 + z4);
        if let Some(v) = self.default_sample_duration {
            lemma_u32_round_trip(v, a3, z4);
        }
        let a5 = a4 + w4;
        lemma_assoc(a4, w4, z5);
        assert(p == a5 + z5);
        if let Some(v) = self.default_sample_size {
            lemma_u32_round_trip(v, a4, z5);
        }
        let a6 = a5 + w5;
        lemma_assoc(a5, w5, z6);
        assert(p == a6 + z6);
        if let Some(v) = self.default_sample_flags {
            lemma_u32_round_trip(v, a5, z6);
        }
    }
}

} // verus!

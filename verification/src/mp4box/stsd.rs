//! The sample description box.

use crate::codec::{add_size, lemma_u32_round_trip, put_bytes, put_u32, saturate, u32_be};
use crate::error::{Error, ErrorKind};
use crate::mp4box::header::{
    decoded, ext_bytes, full_header_bytes, header_bytes, lemma_add_empty, lemma_assoc,
    lemma_child_at, lemma_full_header, lemma_plain_header, lemma_window, opt_view, payload,
    payload_of, read_full_header, spec_full_header, write_box_header_ext, BoxHeader, Child,
};
use crate::mp4box::BoxType;
use vstd::prelude::*;
use vstd::slice::slice_to_vec;

verus! {

/// A sample entry: the codec that the track's samples are coded with, by
/// the type of the entry's box, and the codec's configuration as it stands
/// in the file.
#[derive(Debug, Clone, PartialEq, Eq)]
pub struct SampleEntry {
    pub name: BoxType,
    pub data: Vec<u8>,
}

/// What a [`SampleEntry`] holds.
pub struct SampleEntryView {
    pub name: BoxType,
    pub data: Seq<u8>,
}

impl View for SampleEntry {
    type V = SampleEntryView;

    open spec fn view(&self) -> SampleEntryView {
        SampleEntryView { name: self.name, data: self.data@ }
    }
}

impl SampleEntryView {
    /// The entry as it is written: a box of its type around its data.
    pub open spec fn bytes(self) -> Seq<u8> {
        header_bytes(self.name, (8 + self.data.len()) as u64) + self.data
    }
}

/// The description of a track's samples: one sample entry, of a codec
/// that this library names (`avc1`, `hev1`, `vp09`, `mp4a`, `tx3g`) or of
/// any other.
#[derive(Debug, Clone, PartialEq, Eq, Default)]
pub struct StsdBox {
    pub version: u8,
    pub flags: u32,
    pub entry: Option<SampleEntry>,
}

/// What a [`StsdBox`] holds.
pub struct StsdView {
    pub version: u8,
    pub flags: u32,
    pub entry: Option<SampleEntryView>,
}

impl View for StsdBox {
    type V = StsdView;

    open spec fn view(&self) -> StsdView {
        StsdView { version: self.version, flags: self.flags, entry: opt_view(self.entry) }
    }
}

impl StsdView {
    /// The written bytes of the entry: none where there is no entry.
    pub open spec fn entry_bytes(self) -> Seq<u8> {
        match self.entry {
            Some(e) => e.bytes(),
            None => Seq::empty(),
        }
    }

    /// The number of bytes that the box is written as.
    pub open spec fn size(self) -> nat {
        match self.entry {
            Some(e) => 24 + e.data.len(),
            None => 16,
        }
    }

    /// The box can be written: version 0, flags of 24 bits and a size of
    /// 32 bits.
    pub open spec fn well_formed(self) -> bool {
        self.version == 0 && self.flags < 0x100_0000 && self.size() <= u32::MAX
    }

    /// The box as it is written, header included: the entry count is
    /// written as one.
    pub open spec fn bytes(self) -> Seq<u8> {
        full_header_bytes(BoxType::StsdBox, self.size() as u64, self.version, self.flags) + u32_be(
            1,
        ) + self.entry_bytes()
    }

    /// The box that the payload `p` holds: the entry count is passed over
    /// and the first entry kept, whatever its type; a payload that ends
    /// after the count has no entry.
    pub open spec fn read(p: Seq<u8>) -> Result<StsdView, ErrorKind> {
        match spec_full_header(p, BoxType::StsdBox, 0) {
            Err(e) => Err(e),
            Ok(vf) => if p.len() < 8 {
                Err(ErrorKind::IoError)
            } else if p.len() == 8 {
                Ok(StsdView { version: vf.0, flags: vf.1, entry: None })
            } else {
                match Child::spec_next(p, 8) {
                    Err(e) => Err(e),
                    Ok(ch) => Ok(
                        StsdView {
                            version: vf.0,
                            flags: vf.1,
                            entry: Some(SampleEntryView { name: ch.name, data: ch.bytes(p) }),
                        },
                    ),
                }
            },
        }
    }

    /// Decoding what a well-formed box is written as gives the box back,
    /// where the type of its entry is the one that its own code names.
    #[verifier::rlimit(50)]
    pub proof fn lemma_round_trip(self)
        requires
            self.well_formed(),
            self.entry is Some ==> self.entry.unwrap().name.canonical(),
        ensures
            self.bytes().len() == self.size(),
            BoxHeader::spec_read(self.bytes(), 0) == Ok::<BoxHeader, ErrorKind>(
                BoxHeader { name: BoxType::StsdBox, size: self.size() as u64, header_len: 8 },
            ),
            StsdView::read(self.bytes().skip(8)) == Ok::<StsdView, ErrorKind>(self),
    {
        let size = self.size() as u64;
        let h = full_header_bytes(BoxType::StsdBox, size, self.version, self.flags);
        let e = ext_bytes(self.version, self.flags);
        let n = u32_be(1);
        let w = self.entry_bytes();
        lemma_assoc(h, n, w);
        assert(self.bytes() == h + (n + w));
        lemma_full_header(BoxType::StsdBox, size, self.version, self.flags, 0, n + w);
        let p = self.bytes().skip(8);
        assert(p == e + (n + w));
        lemma_u32_round_trip(1, e, w);
        lemma_assoc(e, n, w);
        if let Some(entry) = self.entry {
            let inner = (8 + entry.data.len()) as u64;
            lemma_plain_header(entry.name, inner, entry.data);
            lemma_window(e + n, w, Seq::empty());
            lemma_add_empty((e + n) + w);
            lemma_child_at(p, 8, w, entry.name, inner);
        } else {
            lemma_add_empty(e + n);
        }
    }
}

impl StsdBox {
    pub fn get_type(&self) -> (r: BoxType)
        ensures
            r == BoxType::StsdBox,
    {
        BoxType::StsdBox
    }

    /// The size of the box as written, saturating at `u64::MAX`.
    pub fn get_size(&self) -> (r: u64)
        ensures
            r == saturate(self@.size() as int),
    {
        match &self.entry {
            Some(e) => add_size(24, e.data.len() as u64),
            None => 16,
        }
    }

    /// Decodes the box of declared size `size` whose payload starts `src`.
    #[verifier::rlimit(50)]
    pub fn read_box(src: &[u8], size: u64) -> (r: Result<StsdBox, Error>)
        ensures
            decoded(r) == StsdView::read(payload(src@, size)),
    {
        let p = payload_of(src, size);
        let (version, flags) = match read_full_header(p, BoxType::StsdBox, 0) {
            Ok(vf) => vf,
            Err(e) => {
                return Err(e);
            },
        };
        if p.len() < 8 {
            return Err(Error::IoError);
        }
        if p.len() == 8 {
            return Ok(StsdBox { version, flags, entry: None });
        }
        let ch = match Child::next_child(p, 8) {
            Ok(c) => c,
            Err(e) => {
                return Err(e);
            },
        };
        let data: Vec<u8> = slice_to_vec(ch.bytes(p));
        Ok(StsdBox { version, flags, entry: Some(SampleEntry { name: ch.name, data }) })
    }

    /// Appends the box to `out` and returns the number of bytes written;
    /// a box that is not well formed is refused and `out` left as it was.
    #[verifier::rlimit(50)]
    pub fn write_box(&self, out: &mut Vec<u8>) -> (r: Result<u64, Error>)
        ensures
            r is Ok <==> self@.well_formed(),
            r is Ok ==> r.unwrap() == self@.size() && final(out)@ == old(out)@ + self@.bytes()
                && self@.bytes().len() == self@.size(),
            r is Err ==> r.unwrap_err().spec_kind() == ErrorKind::InvalidData && final(out)@
                == old(out)@,
    {
        let size: u64 = self.get_size();
        if self.version != 0 || self.flags >= 0x100_0000 || size > 0xFFFF_FFFF {
            return Err(Error::InvalidData("stsd box cannot be written"));
        }
        BoxHeader::new(self.get_type(), size).write(out);
        write_box_header_ext(out, self.version, self.flags);
        put_u32(out, 1);
        if let Some(e) = &self.entry {
            BoxHeader::new(e.name, 8 + e.data.len() as u64).write(out);
            put_bytes(out, e.data.as_slice());
        }
        assert(out@ =~= old(out)@ + self@.bytes());
        Ok(size)
    }
}

} // verus!

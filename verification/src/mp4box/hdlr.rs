//! The handler reference box.

use crate::codec::{
    add_size, be_u32, get_u32, lemma_u32_round_trip, put_bytes, put_u32, put_zeros, saturate,
    u32_be, utf8_text, zeros,
};
use crate::error::{Error, ErrorKind};
use crate::mp4box::header::{
    decoded, full_header_bytes, lemma_full_header, payload, payload_of, read_full_header,
    spec_full_header, write_box_header_ext, BoxHeader,
};
use crate::mp4box::{BoxType, FourCC};
use vstd::prelude::*;
use vstd::slice::{slice_subrange, slice_to_vec};
use vstd::utf8::{
    decode_utf8, encode_utf8, encode_utf8_decode_utf8, encode_utf8_valid_utf8, valid_utf8,
};

verus! {

/// `k` is where the text of `s` ends: at its first zero byte, or at its
/// end where it has none.
pub open spec fn is_cut(s: Seq<u8>, k: int) -> bool {
    &&& 0 <= k <= s.len()
    &&& forall|j: int| 0 <= j < k ==> s[j] != 0
    &&& k < s.len() ==> s[k] == 0
}

/// The length of the text of `s`: the number of bytes before its first
/// zero byte.
pub open spec fn text_len(s: Seq<u8>) -> int {
    choose|k: int| is_cut(s, k)
}

/// The text of `s` ends in one place only.
pub proof fn lemma_cut_unique(s: Seq<u8>, k: int)
    requires
        is_cut(s, k),
    ensures
        text_len(s) == k,
{
    let c = text_len(s);
    assert(is_cut(s, c));
    if c < k {
        assert(s[c] != 0);
    }
    if k < c {
        assert(s[k] != 0);
    }
}

/// The number of bytes of `s` before its first zero byte.
pub fn find_text_len(s: &[u8]) -> (k: usize)
    ensures
        k == text_len(s@),
        k <= s@.len(),
{
    let mut i: usize = 0;
    while i < s.len() && s[i] != 0
        invariant
            i <= s@.len(),
            forall|j: int| 0 <= j < i ==> s@[j] != 0,
        decreases s@.len() - i,
    {
        i += 1;
    }
    proof {
        lemma_cut_unique(s@, i as int);
    }
    i
}

/// The handler of a track's media: its kind and a name for people.
#[derive(Debug, Clone, PartialEq, Eq, Default)]
pub struct HdlrBox {
    pub version: u8,
    pub flags: u32,
    pub handler_type: FourCC,
    pub name: String,
}

/// What a [`HdlrBox`] holds.
pub struct HdlrView {
    pub version: u8,
    pub flags: u32,
    pub handler_type: FourCC,
    pub name: Seq<char>,
}

impl View for HdlrBox {
    type V = HdlrView;

    open spec fn view(&self) -> HdlrView {
        HdlrView {
            version: self.version,
            flags: self.flags,
            handler_type: self.handler_type,
            name: self.name@,
        }
    }
}

impl HdlrView {
    /// The number of bytes that the box is written as.
    pub open spec fn size(self) -> nat {
        33 + encode_utf8(self.name).len()
    }

    /// The box can be written: version 0, flags of 24 bits and a size of
    /// 32 bits.
    pub open spec fn well_formed(self) -> bool {
        self.version == 0 && self.flags < 0x100_0000 && self.size() <= u32::MAX
    }

    /// The name holds no zero byte, so that it is read back whole.
    pub open spec fn plain_name(self) -> bool {
        forall|i: int| 0 <= i < encode_utf8(self.name).len() ==> encode_utf8(self.name)[i] != 0
    }

    /// The box as it is written, header included: the name ends with one
    /// zero byte.
    pub open spec fn bytes(self) -> Seq<u8> {
        full_header_bytes(BoxType::HdlrBox, self.size() as u64, self.version, self.flags) + u32_be(
            0,
        ) + u32_be(self.handler_type.value) + zeros(12) + encode_utf8(self.name) + seq![0u8]
    }

    /// The name that the bytes `raw` hold: the text before the first zero
    /// byte, or the empty name where that is no valid UTF-8.
    pub open spec fn read_name(raw: Seq<u8>) -> Seq<char> {
        let cut = raw.take(text_len(raw));
        if valid_utf8(cut) {
            decode_utf8(cut)
        } else {
            Seq::empty()
        }
    }

    /// The box that the payload `p` holds: 24 bytes, then the name.
    pub open spec fn read(p: Seq<u8>) -> Result<HdlrView, ErrorKind> {
        match spec_full_header(p, BoxType::HdlrBox, 0) {
            Err(e) => Err(e),
            Ok(vf) => if p.len() < 24 {
                Err(ErrorKind::IoError)
            } else {
                Ok(
                    HdlrView {
                        version: vf.0,
                        flags: vf.1,
                        handler_type: FourCC { value: be_u32(p, 8) },
                        name: HdlrView::read_name(p.skip(24)),
                    },
                )
            },
        }
    }

    /// Decoding what a well-formed box with a plain name is written as
    /// gives the box back.
    #[verifier::rlimit(50)]
    pub proof fn lemma_round_trip(self)
        requires
            self.well_formed(),
            self.plain_name(),
        ensures
            self.bytes().len() == self.size(),
            BoxHeader::spec_read(self.bytes(), 0) == Ok::<BoxHeader, ErrorKind>(
                BoxHeader { name: BoxType::HdlrBox, size: self.size() as u64, header_len: 8 },
            ),
            HdlrView::read(payload(self.bytes().skip(8), self.size() as u64)) == Ok::<
                HdlrView,
                ErrorKind,
            >(self),
    {
        self.lemma_len();
        let b = self.bytes();
        let size = self.size() as u64;
        let p = payload(b.skip(8), size);
        let h = full_header_bytes(BoxType::HdlrBox, size, self.version, self.flags);
        let z = u32_be(0);
        let t = u32_be(self.handler_type.value);
        let text = encode_utf8(self.name);
        let tail = zeros(12) + text + seq![0u8];
        assert(b =~= h + (z + t + tail));
        assert(p =~= h.skip(8) + z + t + tail);
        lemma_u32_round_trip(self.handler_type.value, h.skip(8) + z, tail);
        assert(p =~= (h.skip(8) + z) + t + tail);
        let raw = p.skip(24);
        assert(raw =~= text + seq![0u8]);
        assert(is_cut(raw, text.len() as int));
        lemma_cut_unique(raw, text.len() as int);
        assert(raw.take(text.len() as int) =~= text);
        encode_utf8_valid_utf8(self.name);
        encode_utf8_decode_utf8(self.name);
    }

    /// The written box has the length that `size` gives, and reads back
    /// with its header, version and flags.
    pub proof fn lemma_len(self)
        requires
            self.well_formed(),
        ensures
            self.bytes().len() == self.size(),
            BoxHeader::spec_read(self.bytes(), 0) == Ok::<BoxHeader, ErrorKind>(
                BoxHeader { name: BoxType::HdlrBox, size: self.size() as u64, header_len: 8 },
            ),
            spec_full_header(self.bytes().skip(8), BoxType::HdlrBox, 0) == Ok::<
                (u8, u32),
                ErrorKind,
            >((self.version, self.flags)),
    {
        let b = self.bytes();
        let size = self.size() as u64;
        let h = full_header_bytes(BoxType::HdlrBox, size, self.version, self.flags);
        let rest = u32_be(0) + u32_be(self.handler_type.value) + zeros(12) + encode_utf8(self.name)
            + seq![0u8];
        lemma_full_header(BoxType::HdlrBox, size, self.version, self.flags, 0, rest);
        assert(b =~= h + rest);
    }
}

impl HdlrBox {
    pub fn get_type(&self) -> (r: BoxType)
        ensures
            r == BoxType::HdlrBox,
    {
        BoxType::HdlrBox
    }

    /// The size of the box as written, saturating at `u64::MAX`.
    pub fn get_size(&self) -> (r: u64)
        ensures
            r == saturate(self@.size() as int),
    {
        add_size(33, self.name.as_str().as_bytes().len() as u64)
    }

    /// Decodes the box of declared size `size` whose payload starts `src`.
    /// The name is cut at its first zero byte; a name that is no valid
    /// UTF-8 is read as empty.
    #[verifier::rlimit(50)]
    pub fn read_box(src: &[u8], size: u64) -> (r: Result<HdlrBox, Error>)
        ensures
            decoded(r) == HdlrView::read(payload(src@, size)),
    {
        let p = payload_of(src, size);
        let (version, flags) = match read_full_header(p, BoxType::HdlrBox, 0) {
            Ok(vf) => vf,
            Err(e) => {
                return Err(e);
            },
        };
        if p.len() < 24 {
            return Err(Error::IoError);
        }
        let handler: u32 = get_u32(p, 8);
        let raw = slice_subrange(p, 24, p.len());
        let k: usize = find_text_len(raw);
        let cut: Vec<u8> = slice_to_vec(slice_subrange(raw, 0, k));
        assert(raw@ =~= p@.skip(24));
        let name = match utf8_text(cut) {
            Some(text) => text,
            None => String::new(),
        };
        Ok(HdlrBox { version, flags, handler_type: FourCC::from_u32(handler), name })
    }

    /// Appends the box to `out` and returns the number of bytes written;
    /// a box that is not well formed is refused and `out` left as it was.
    #[verifier::rlimit(50)]
    pub fn write_box(&self, out: &mut Vec<u8>) -> (r: Result<u64, Error>)
        ensures
            r is Ok <==> self@.well_formed(),
            r is Ok ==> r.unwrap() == self@.size() && final(out)@ == old(out)@ + self@.bytes()
                && self@.bytes().len() == self@.size(),
            r is Err ==> r.unwrap_err().spec_kind() == ErrorKind::InvalidData && final(out)@
                == old(out)@,
    {
        let size: u64 = self.get_size();
        if self.version != 0 || self.flags >= 0x100_0000 || size > 0xFFFF_FFFF {
            return Err(Error::InvalidData("hdlr box cannot be written"));
        }
        BoxHeader::new(self.get_type(), size).write(out);
        write_box_header_ext(out, self.version, self.flags);
        put_u32(out, 0);
        put_u32(out, self.handler_type.value);
        put_zeros(out, 12);
        put_bytes(out, self.name.as_str().as_bytes());
        out.push(0u8);
        proof {
            assert(out@ =~= old(out)@ + self@.bytes());
            self@.lemma_len();
        }
        Ok(size)
    }
}

} // verus!

//! The file type box.

use crate::codec::{be_u32, get_u32, lemma_u32_round_trip, put_u32, saturate, table_size, u32_be};
use crate::error::{Error, ErrorKind};
use crate::mp4box::header::{
    decoded, header_bytes, lemma_plain_header, payload, payload_of, BoxHeader,
};
use crate::mp4box::table::{concat, inverse, lemma_concat_take, lemma_table_round_trip, table};
use crate::mp4box::{BoxType, FourCC};
use vstd::prelude::*;

verus! {

/// The brand of the file and the brands it is compatible with.
#[derive(Debug, Clone, PartialEq, Eq, Default)]
pub struct FtypBox {
    pub major_brand: FourCC,
    pub minor_version: u32,
    pub compatible_brands: Vec<FourCC>,
}

/// What a [`FtypBox`] holds.
pub struct FtypView {
    pub major_brand: FourCC,
    pub minor_version: u32,
    pub compatible_brands: Seq<FourCC>,
}

impl View for FtypBox {
    type V = FtypView;

    open spec fn view(&self) -> FtypView {
        FtypView {
            major_brand: self.major_brand,
            minor_version: self.minor_version,
            compatible_brands: self.compatible_brands@,
        }
    }
}

impl FtypView {
    /// The four bytes of a brand.
    pub open spec fn enc() -> spec_fn(FourCC) -> Seq<u8> {
        |e: FourCC| u32_be(e.value)
    }

    /// The brand held at `p[i..i + 4]`.
    pub open spec fn dec() -> spec_fn(Seq<u8>, int) -> FourCC {
        |p: Seq<u8>, i: int| FourCC { value: be_u32(p, i) }
    }

    /// A brand reads back as it was written.
    pub proof fn lemma_inverse()
        ensures
            inverse(FtypView::enc(), FtypView::dec(), 4),
    {
        let enc = FtypView::enc();
        let dec = FtypView::dec();
        assert forall|e: FourCC, a: Seq<u8>, b: Seq<u8>| #[trigger]
            dec(a + enc(e) + b, a.len() as int) == e by {
            lemma_u32_round_trip(e.value, a, b);
        }
        assert forall|e: FourCC| (#[trigger] enc(e)).len() == 4 by {
            lemma_u32_round_trip(e.value, Seq::empty(), Seq::empty());
        }
    }

    /// The number of bytes that the box is written as.
    pub open spec fn size(self) -> nat {
        (16 + 4 * self.compatible_brands.len()) as nat
    }

    /// The box can be written: its size fits 32 bits.
    pub open spec fn well_formed(self) -> bool {
        self.size() <= u32::MAX
    }

    /// The box as it is written, header included.
    pub open spec fn bytes(self) -> Seq<u8> {
        header_bytes(BoxType::FtypBox, self.size() as u64) + u32_be(self.major_brand.value)
            + u32_be(self.minor_version) + concat(self.compatible_brands, FtypView::enc())
    }

    /// The box that the payload `p` holds: two words, then whole brands up
    /// to the end of the payload.
    pub open spec fn read(p: Seq<u8>) -> Result<FtypView, ErrorKind> {
        if p.len() < 8 {
            Err(ErrorKind::IoError)
        } else if p.len() % 4 != 0 {
            Err(ErrorKind::InvalidData)
        } else {
            Ok(
                FtypView {
                    major_brand: FourCC { value: be_u32(p, 0) },
                    minor_version: be_u32(p, 4),
                    compatible_brands: table(
                        p,
                        8,
                        4,
                        ((p.len() - 8) / 4) as nat,
                        FtypView::dec(),
                    ),
                },
            )
        }
    }

    /// Decoding what a well-formed box is written as gives the box back.
    #[verifier::rlimit(50)]
    pub proof fn lemma_round_trip(self)
        requires
            self.well_formed(),
        ensures
            self.bytes().len() == self.size(),
            BoxHeader::spec_read(self.bytes(), 0) == Ok::<BoxHeader, ErrorKind>(
                BoxHeader { name: BoxType::FtypBox, size: self.size() as u64, header_len: 8 },
            ),
            FtypView::read(payload(self.bytes().skip(8), self.size() as u64)) == Ok::<
                FtypView,
                ErrorKind,
            >(self),
    {
        let b = self.bytes();
        let size = self.size() as u64;
        let p = payload(b.skip(8), size);
        let h = header_bytes(BoxType::FtypBox, size);
        let m = u32_be(self.major_brand.value);
        let n = u32_be(self.minor_version);
        let body = concat(self.compatible_brands, FtypView::enc());
        FtypView::lemma_inverse();
        lemma_table_round_trip(
            self.compatible_brands,
            FtypView::enc(),
            FtypView::dec(),
            4,
            m + n,
            Seq::empty(),
        );
        lemma_plain_header(BoxType::FtypBox, size, m + n + body);
        assert(b =~= h + (m + n + body));
        assert(p == m + n + body);
        assert(p =~= (m + n) + body + Seq::empty());
        lemma_u32_round_trip(self.major_brand.value, Seq::empty(), n + body);
        assert(p =~= Seq::empty() + m + (n + body));
        lemma_u32_round_trip(self.minor_version, m, body);
        assert(FtypView::read(p).unwrap().compatible_brands == self.compatible_brands);
    }
}

impl FtypBox {
    pub fn get_type(&self) -> (r: BoxType)
        ensures
            r == BoxType::FtypBox,
    {
        BoxType::FtypBox
    }

    /// The size of the box as written, saturating at `u64::MAX`.
    pub fn get_size(&self) -> (r: u64)
        ensures
            r == saturate(self@.size() as int),
    {
        table_size(16, 4, self.compatible_brands.len())
    }

    /// Decodes the box of declared size `size` whose payload starts `src`.
    #[verifier::rlimit(50)]
    pub fn read_box(src: &[u8], size: u64) -> (r: Result<FtypBox, Error>)
        ensures
            decoded(r) == FtypView::read(payload(src@, size)),
    {
        let p = payload_of(src, size);
        if p.len() < 8 {
            return Err(Error::IoError);
        }
        if p.len() % 4 != 0 {
            return Err(Error::InvalidData("ftyp size too small or not aligned"));
        }
        let major: u32 = get_u32(p, 0);
        let minor_version: u32 = get_u32(p, 4);
        let count: usize = (p.len() - 8) / 4;
        let mut compatible_brands: Vec<FourCC> = Vec::with_capacity(count);
        let mut i: usize = 0;
        while i < count
            invariant
                i <= count,
                8 + 4 * count <= p.len(),
                compatible_brands@ == table(p@, 8, 4, i as nat, FtypView::dec()),
            decreases count - i,
        {
            let brand = FourCC { value: get_u32(p, 8 + 4 * i) };
            compatible_brands.push(brand);
            i += 1;
            assert(compatible_brands@ =~= table(p@, 8, 4, i as nat, FtypView::dec()));
        }
        Ok(FtypBox { major_brand: FourCC { value: major }, minor_version, compatible_brands })
    }

    /// Appends the box to `out` and returns the number of bytes written;
    /// a box that is not well formed is refused and `out` left as it was.
    #[verifier::rlimit(50)]
    pub fn write_box(&self, out: &mut Vec<u8>) -> (r: Result<u64, Error>)
        ensures
            r is Ok <==> self@.well_formed(),
            r is Ok ==> r.unwrap() == self@.size() && final(out)@ == old(out)@ + self@.bytes()
                && self@.bytes().len() == self@.size(),
            r is Err ==> r.unwrap_err().spec_kind() == ErrorKind::InvalidData && final(out)@
                == old(out)@,
    {
        let size: u64 = self.get_size();
        if size > 0xFFFF_FFFF {
            return Err(Error::InvalidData("ftyp box cannot be written"));
        }
        BoxHeader::new(self.get_type(), size).write(out);
        put_u32(out, self.major_brand.value);
        put_u32(out, self.minor_version);
        let ghost head = out@;
        assert(head =~= old(out)@ + (header_bytes(BoxType::FtypBox, size) + u32_be(
            self.major_brand.value,
        ) + u32_be(self.minor_version)));
        let mut i: usize = 0;
        while i < self.compatible_brands.len()
            invariant
                i <= self.compatible_brands@.len(),
                out@ == head + concat(self.compatible_brands@.take(i as int), FtypView::enc()),
            decreases self.compatible_brands@.len() - i,
        {
            let brand: FourCC = self.compatible_brands[i];
            put_u32(out, brand.value);
            proof {
                lemma_concat_take(self.compatible_brands@, i as int, FtypView::enc());
                assert(out@ =~= head + concat(
                    self.compatible_brands@.take(i + 1),
                    FtypView::enc(),
                ));
            }
            i += 1;
        }
        proof {
            assert(self.compatible_brands@.take(i as int) =~= self.compatible_brands@);
            assert(out@ =~= old(out)@ + self@.bytes());
            self@.lemma_round_trip();
        }
        Ok(size)
    }
}

} // verus!

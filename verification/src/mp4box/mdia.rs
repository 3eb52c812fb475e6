//! The media box: the header, handler and media information of a track.

use crate::codec::{add_size, put_bytes, saturate};
use crate::error::{Error, ErrorKind};
use crate::mp4box::header::{
    children_total, decoded, header_bytes, lemma_add_empty, lemma_assoc, lemma_child_at,
    lemma_children_tile, lemma_empty_add, lemma_plain_header, lemma_window, opt_view, payload,
    payload_of, BoxHeader, Child,
};
use crate::mp4box::hdlr::{HdlrBox, HdlrView};
use crate::mp4box::mdhd::MdhdBox;
use crate::mp4box::minf::{MinfBox, MinfView};
use crate::mp4box::BoxType;
use vstd::prelude::*;

verus! {

/// The media box: the header, handler and media information of a track.
#[derive(Debug, Clone, PartialEq, Eq, Default)]
pub struct MdiaBox {
    pub mdhd: MdhdBox,
    pub hdlr: HdlrBox,
    pub minf: MinfBox,
}

/// What a [`MdiaBox`] holds.
pub struct MdiaView {
    pub mdhd: MdhdBox,
    pub hdlr: HdlrView,
    pub minf: MinfView,
}

/// The children of a `mdia` box found so far in a walk over its payload.
pub struct MdiaParts {
    pub mdhd: Option<MdhdBox>,
    pub hdlr: Option<HdlrView>,
    pub minf: Option<MinfView>,
}

impl View for MdiaBox {
    type V = MdiaView;

    open spec fn view(&self) -> MdiaView {
        MdiaView { mdhd: self.mdhd@, hdlr: self.hdlr@, minf: self.minf@ }
    }
}

impl MdiaView {
    /// No child found yet.
    pub open spec fn nothing() -> MdiaParts {
        MdiaParts { mdhd: None, hdlr: None, minf: None }
    }

    /// The walk over the children of the payload `p` from `cur` on, with
    /// `acc` found before: a child of a type that the box names is decoded
    /// and kept, the last of a type winning; any other child is skipped.
    pub open spec fn scan(p: Seq<u8>, cur: int, acc: MdiaParts) -> Result<MdiaParts, ErrorKind>
        decreases p.len() - cur,
    {
        if cur < 0 || cur >= p.len() {
            Ok(acc)
        } else {
            match Child::spec_next(p, cur) {
                Err(e) => Err(e),
                Ok(ch) => if ch.name == BoxType::MdhdBox {
                    match MdhdBox::read(ch.bytes(p)) {
                        Err(e) => Err(e),
                        Ok(b) => MdiaView::scan(p, ch.next, MdiaParts { mdhd: Some(b), ..acc }),
                    }
                } else if ch.name == BoxType::HdlrBox {
                    match HdlrView::read(ch.bytes(p)) {
                        Err(e) => Err(e),
                        Ok(b) => MdiaView::scan(p, ch.next, MdiaParts { hdlr: Some(b), ..acc }),
                    }
                } else if ch.name == BoxType::MinfBox {
                    match MinfView::read(ch.bytes(p)) {
                        Err(e) => Err(e),
                        Ok(b) => MdiaView::scan(p, ch.next, MdiaParts { minf: Some(b), ..acc }),
                    }
                } else {
                    MdiaView::scan(p, ch.next, acc)
                },
            }
        }
    }

    /// Whether the walk keeps children of the type `name`.
    pub open spec fn names(name: BoxType) -> bool {
        name == BoxType::MdhdBox || name == BoxType::HdlrBox || name == BoxType::MinfBox
    }

    /// A child of a type that the box does not name is skipped: the walk
    /// goes on behind it with what was found before.
    pub proof fn lemma_unknown_child_skipped(p: Seq<u8>, cur: int, acc: MdiaParts)
        requires
            0 <= cur < p.len(),
            Child::spec_next(p, cur) is Ok,
            !MdiaView::names(Child::spec_next(p, cur).unwrap().name),
        ensures
            MdiaView::scan(p, cur, acc) == MdiaView::scan(p, Child::spec_next(p,
                cur).unwrap().next, acc),
    {
    }

    /// Where the walk succeeds, the children tile the payload: their
    /// declared sizes add up to its length.
    pub proof fn lemma_children_tile(p: Seq<u8>, cur: int, acc: MdiaParts)
        requires
            0 <= cur <= p.len(),
            MdiaView::scan(p, cur, acc) is Ok,
        ensures
            children_total(p, cur) == Some(p.len() - cur),
        decreases p.len() - cur,
    {
        if cur < p.len() {
            let ch = Child::spec_next(p, cur).unwrap();
            if ch.name == BoxType::MdhdBox {
                let b = MdhdBox::read(ch.bytes(p)).unwrap();
                MdiaView::lemma_children_tile(p, ch.next, MdiaParts { mdhd: Some(b), ..acc });
            } else if ch.name == BoxType::HdlrBox {
                let b = HdlrView::read(ch.bytes(p)).unwrap();
                MdiaView::lemma_children_tile(p, ch.next, MdiaParts { hdlr: Some(b), ..acc });
            } else if ch.name == BoxType::MinfBox {
                let b = MinfView::read(ch.bytes(p)).unwrap();
                MdiaView::lemma_children_tile(p, ch.next, MdiaParts { minf: Some(b), ..acc });
            } else {
                MdiaView::lemma_children_tile(p, ch.next, acc);
            }
            lemma_children_tile(p, cur);
        }
    }

    /// The box that the payload `p` holds.
    pub open spec fn read(p: Seq<u8>) -> Result<MdiaView, ErrorKind> {
        match MdiaView::scan(p, 0, MdiaView::nothing()) {
            Err(e) => Err(e),
            Ok(parts) => if parts.mdhd is None {
                Err(ErrorKind::BoxNotFound(BoxType::MdhdBox))
            } else if parts.hdlr is None {
                Err(ErrorKind::BoxNotFound(BoxType::HdlrBox))
            } else if parts.minf is None {
                Err(ErrorKind::BoxNotFound(BoxType::MinfBox))
            } else {
                Ok(
                    MdiaView {
                        mdhd: parts.mdhd.unwrap(),
                        hdlr: parts.hdlr.unwrap(),
                        minf: parts.minf.unwrap(),
                    },
                )
            },
        }
    }

    /// The number of bytes that the box is written as.
    #[verifier::opaque]
    pub open spec fn size(self) -> nat {
        8 + self.mdhd.size() + self.hdlr.size() + self.minf.size()
    }

    /// The box can be written: each child can, and the size fits 32 bits.
    #[verifier::opaque]
    pub open spec fn well_formed(self) -> bool {
        &&& self.mdhd.well_formed()
        &&& self.hdlr.well_formed()
        &&& self.minf.well_formed()
        &&& self.size() <= u32::MAX
    }

    /// The box as it is written: its header, then its children in order.
    #[verifier::opaque]
    pub open spec fn bytes(self) -> Seq<u8> {
        header_bytes(BoxType::MdiaBox, self.size() as u64) + self.mdhd.bytes()
            + self.hdlr.bytes() + self.minf.bytes()
    }

    /// Each child of the box reads back from what it is written as.
    pub open spec fn children_read_back(self) -> bool {
        &&& self.mdhd.bytes().len() == self.mdhd.size() && BoxHeader::spec_read(self.mdhd.bytes(),
            0) == Ok::<BoxHeader, ErrorKind>(BoxHeader { name: BoxType::MdhdBox,
            size: self.mdhd.size() as u64, header_len: 8 })
            && MdhdBox::read(self.mdhd.bytes().skip(8)) == Ok::<MdhdBox, ErrorKind>(self.mdhd)
        &&& self.hdlr.bytes().len() == self.hdlr.size() && BoxHeader::spec_read(self.hdlr.bytes(),
            0) == Ok::<BoxHeader, ErrorKind>(BoxHeader { name: BoxType::HdlrBox,
            size: self.hdlr.size() as u64, header_len: 8 })
            && HdlrView::read(self.hdlr.bytes().skip(8)) == Ok::<HdlrView, ErrorKind>(self.hdlr)
        &&& self.minf.bytes().len() == self.minf.size() && BoxHeader::spec_read(self.minf.bytes(),
            0) == Ok::<BoxHeader, ErrorKind>(BoxHeader { name: BoxType::MinfBox,
            size: self.minf.size() as u64, header_len: 8 })
            && MinfView::read(self.minf.bytes().skip(8)) == Ok::<MinfView, ErrorKind>(self.minf)
    }

    /// Decoding what a well-formed box is written as gives the box back,
    /// where each of its children reads back.
    #[verifier::rlimit(50)]
    pub proof fn lemma_round_trip(self)
        requires
            self.well_formed(),
            self.children_read_back(),
        ensures
            self.bytes().len() == self.size(),
            BoxHeader::spec_read(self.bytes(), 0) == Ok::<BoxHeader, ErrorKind>(
                BoxHeader { name: BoxType::MdiaBox, size: self.size() as u64, header_len: 8 },
            ),
            MdiaView::read(self.bytes().skip(8)) == Ok::<MdiaView, ErrorKind>(self),
    {
        reveal(MdiaView::size);
        reveal(MdiaView::bytes);
        reveal(MdiaView::well_formed);
        let b = self.bytes();
        let size = self.size() as u64;
        let h = header_bytes(BoxType::MdiaBox, size);
        let w0 = self.mdhd.bytes();
        let w1 = self.hdlr.bytes();
        let w2 = self.minf.bytes();
        let l0 = h;
        let l1 = l0 + w0;
        let l2 = l1 + w1;
        let l3 = l2 + w2;
        let z3 = Seq::<u8>::empty();
        let z2 = w2 + z3;
        let z1 = w1 + z2;
        let z0 = w0 + z1;
        assert(b == l3);
        lemma_add_empty(l3);
        lemma_assoc(l2, w2, z3);
        assert(b == l2 + z2);
        lemma_assoc(l1, w1, z2);
        assert(b == l1 + z1);
        lemma_assoc(l0, w0, z1);
        assert(b == l0 + z0);
        let a0 = Seq::<u8>::empty();
        let acc0 = MdiaView::nothing();
        lemma_empty_add(z0);
        let a1 = a0 + w0;
        lemma_assoc(a0, w0, z1);
        lemma_window(a0, w0, z1);
        let acc1 = MdiaParts { mdhd: Some(self.mdhd), ..acc0 };
        lemma_child_at(z0, a0.len() as int, w0, BoxType::MdhdBox, self.mdhd.size() as u64);
        assert(MdiaView::scan(z0, a0.len() as int, acc0) == MdiaView::scan(z0, a1.len() as int,
            acc1));
        let a2 = a1 + w1;
        lemma_assoc(a1, w1, z2);
        lemma_window(a1, w1, z2);
        let acc2 = MdiaParts { hdlr: Some(self.hdlr), ..acc1 };
        lemma_child_at(z0, a1.len() as int, w1, BoxType::HdlrBox, self.hdlr.size() as u64);
        assert(MdiaView::scan(z0, a1.len() as int, acc1) == MdiaView::scan(z0, a2.len() as int,
            acc2));
        let a3 = a2 + w2;
        lemma_assoc(a2, w2, z3);
        lemma_window(a2, w2, z3);
        let acc3 = MdiaParts { minf: Some(self.minf), ..acc2 };
        lemma_child_at(z0, a2.len() as int, w2, BoxType::MinfBox, self.minf.size() as u64);
        assert(MdiaView::scan(z0, a2.len() as int, acc2) == MdiaView::scan(z0, a3.len() as int,
            acc3));
        lemma_add_empty(a3);
        assert(z0 == a3);
        assert(MdiaView::scan(z0, 0, acc0) == Ok::<MdiaParts,
            ErrorKind>(MdiaParts { mdhd: Some(self.mdhd), hdlr: Some(self.hdlr),
            minf: Some(self.minf) }));
        lemma_plain_header(BoxType::MdiaBox, size, z0);
    }
}

impl MdiaBox {
    pub fn get_type(&self) -> (r: BoxType)
        ensures
            r == BoxType::MdiaBox,
    {
        BoxType::MdiaBox
    }

    /// The size of the box as written, saturating at `u64::MAX`.
    pub fn get_size(&self) -> (r: u64)
        ensures
            r == saturate(self@.size() as int),
    {
        reveal(MdiaView::size);
        let mut total: u64 = 8;
        total = add_size(total, self.mdhd.get_size());
        total = add_size(total, self.hdlr.get_size());
        total = add_size(total, self.minf.get_size());
        total
    }

    /// Decodes the box of declared size `size` whose payload starts `src`.
    #[verifier::rlimit(50)]
    pub fn read_box(src: &[u8], size: u64) -> (r: Result<MdiaBox, Error>)
        ensures
            decoded(r) == MdiaView::read(payload(src@, size)),
    {
        let p = payload_of(src, size);
        let mut mdhd: Option<MdhdBox> = None;
        let mut hdlr: Option<HdlrBox> = None;
        let mut minf: Option<MinfBox> = None;
        let mut cur: usize = 0;

        while cur < p.len()
            invariant
                cur <= p@.len(),
                p@ == payload(src@, size),
                MdiaView::scan(p@, cur as int, MdiaParts { mdhd: opt_view(mdhd),
                    hdlr: opt_view(hdlr), minf: opt_view(minf) }) == MdiaView::scan(p@, 0,
                    MdiaView::nothing()),
            decreases p@.len() - cur,
        {
            let ch = match Child::next_child(p, cur) {
                Ok(c) => c,
                Err(e) => {
                    return Err(e);
                },
            };
            let body = ch.bytes(p);
            match ch.name {
                BoxType::MdhdBox => {
                    match MdhdBox::read_box(body, ch.size) {
                        Ok(b) => {
                            mdhd = Some(b);
                        },
                        Err(e) => {
                            return Err(e);
                        },
                    }
                },
                BoxType::HdlrBox => {
                    match HdlrBox::read_box(body, ch.size) {
                        Ok(b) => {
                            hdlr = Some(b);
                        },
                        Err(e) => {
                            return Err(e);
                        },
                    }
                },
                BoxType::MinfBox => {
                    match MinfBox::read_box(body, ch.size) {
                        Ok(b) => {
                            minf = Some(b);
                        },
                        Err(e) => {
                            return Err(e);
                        },
                    }
                },
                _ => {},
            }
            cur = ch.next;
        }
        let mdhd = match mdhd {
            Some(b) => b,
            None => {
                return Err(Error::BoxNotFound(BoxType::MdhdBox));
            },
        };
        let hdlr = match hdlr {
            Some(b) => b,
            None => {
                return Err(Error::BoxNotFound(BoxType::HdlrBox));
            },
        };
        let minf = match minf {
            Some(b) => b,
            None => {
                return Err(Error::BoxNotFound(BoxType::MinfBox));
            },
        };
        let made = MdiaBox { mdhd, hdlr, minf };
        assert(decoded(Ok::<MdiaBox, Error>(made)) == MdiaView::read(p@)) by {
            assert(made@ =~= MdiaView::read(p@).unwrap());
        }
        Ok(made)
    }

    /// Appends the box to `out` and returns the number of bytes written;
    /// a box that is not well formed is refused and `out` left as it was.
    #[verifier::rlimit(50)]
    pub fn write_box(&self, out: &mut Vec<u8>) -> (r: Result<u64, Error>)
        ensures
            r is Ok <==> self@.well_formed(),
            r is Ok ==> r.unwrap() == self@.size() && final(out)@ == old(out)@ + self@.bytes()
                && self@.bytes().len() == self@.size(),
            r is Err ==> r.unwrap_err().spec_kind() == ErrorKind::InvalidData && final(out)@
                == old(out)@,
    {
        reveal(MdiaView::size);
        reveal(MdiaView::bytes);
        reveal(MdiaView::well_formed);
        let mut body: Vec<u8> = Vec::new();
        match self.mdhd.write_box(&mut body) {
            Ok(_) => {},
            Err(e) => {
                return Err(e);
            },
        }
        let ghost b_mdhd = body@;
        assert(b_mdhd =~= Seq::<u8>::empty() + self@.mdhd.bytes());
        match self.hdlr.write_box(&mut body) {
            Ok(_) => {},
            Err(e) => {
                return Err(e);
            },
        }
        let ghost b_hdlr = body@;
        assert(b_hdlr =~= b_mdhd + self@.hdlr.bytes());
        match self.minf.write_box(&mut body) {
            Ok(_) => {},
            Err(e) => {
                return Err(e);
            },
        }
        let ghost b_minf = body@;
        assert(b_minf =~= b_hdlr + self@.minf.bytes());
        if body.len() > 0xFFFF_FFF7 {
            return Err(Error::InvalidData("mdia box cannot be written"));
        }
        let size: u64 = 8 + body.len() as u64;
        BoxHeader::new(BoxType::MdiaBox, size).write(out);
        put_bytes(out, body.as_slice());
        proof {
            let h = header_bytes(BoxType::MdiaBox, size);
            lemma_add_empty(h);
            let l_0 = h;
            lemma_assoc(h, Seq::<u8>::empty(), self@.mdhd.bytes());
            let l_1 = l_0 + self@.mdhd.bytes();
            assert(h + b_mdhd == l_1);
            lemma_assoc(h, b_mdhd, self@.hdlr.bytes());
            let l_2 = l_1 + self@.hdlr.bytes();
            assert(h + b_hdlr == l_2);
            lemma_assoc(h, b_hdlr, self@.minf.bytes());
            let l_3 = l_2 + self@.minf.bytes();
            assert(h + b_minf == l_3);
            lemma_assoc(old(out)@, h, body@);
        }
        Ok(size)
    }
}

} // verus!

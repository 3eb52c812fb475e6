//! The track box: one timeline of the movie.

use crate::codec::{add_size, put_bytes, saturate};
use crate::error::{Error, ErrorKind};
use crate::mp4box::header::{
    children_total, decoded, header_bytes, lemma_add_empty, lemma_assoc, lemma_child_at,
    lemma_children_tile, lemma_empty_add, lemma_plain_header, lemma_window, opt_bytes, opt_size,
    opt_view, payload, payload_of, BoxHeader, Child,
};
use crate::mp4box::edts::{EdtsBox, EdtsView};
use crate::mp4box::mdia::{MdiaBox, MdiaView};
use crate::mp4box::tkhd::TkhdBox;
use crate::mp4box::BoxType;
use vstd::prelude::*;

verus! {

/// The track box: one timeline of the movie.
#[derive(Debug, Clone, PartialEq, Eq, Default)]
pub struct TrakBox {
    pub tkhd: TkhdBox,
    pub edts: Option<EdtsBox>,
    pub mdia: MdiaBox,
}

/// What a [`TrakBox`] holds.
pub struct TrakView {
    pub tkhd: TkhdBox,
    pub edts: Option<EdtsView>,
    pub mdia: MdiaView,
}

/// The children of a `trak` box found so far in a walk over its payload.
pub struct TrakParts {
    pub tkhd: Option<TkhdBox>,
    pub edts: Option<EdtsView>,
    pub mdia: Option<MdiaView>,
}

impl View for TrakBox {
    type V = TrakView;

    open spec fn view(&self) -> TrakView {
        TrakView { tkhd: self.tkhd@, edts: opt_view(self.edts), mdia: self.mdia@ }
    }
}

impl TrakView {
    /// No child found yet.
    pub open spec fn nothing() -> TrakParts {
        TrakParts { tkhd: None, edts: None, mdia: None }
    }

    /// The walk over the children of the payload `p` from `cur` on, with
    /// `acc` found before: a child of a type that the box names is decoded
    /// and kept, the last of a type winning; any other child is skipped.
    pub open spec fn scan(p: Seq<u8>, cur: int, acc: TrakParts) -> Result<TrakParts, ErrorKind>
        decreases p.len() - cur,
    {
        if cur < 0 || cur >= p.len() {
            Ok(acc)
        } else {
            match Child::spec_next(p, cur) {
                Err(e) => Err(e),
                Ok(ch) => if ch.name == BoxType::TkhdBox {
                    match TkhdBox::read(ch.bytes(p)) {
                        Err(e) => Err(e),
                        Ok(b) => TrakView::scan(p, ch.next, TrakParts { tkhd: Some(b), ..acc }),
                    }
                } else if ch.name == BoxType::EdtsBox {
                    match EdtsView::read(ch.bytes(p)) {
                        Err(e) => Err(e),
                        Ok(b) => TrakView::scan(p, ch.next, TrakParts { edts: Some(b), ..acc }),
                    }
                } else if ch.name == BoxType::MdiaBox {
                    match MdiaView::read(ch.bytes(p)) {
                        Err(e) => Err(e),
                        Ok(b) => TrakView::scan(p, ch.next, TrakParts { mdia: Some(b), ..acc }),
                    }
                } else {
                    TrakView::scan(p, ch.next, acc)
                },
            }
        }
    }

    /// Whether the walk keeps children of the type `name`.
    pub open spec fn names(name: BoxType) -> bool {
        name == BoxType::TkhdBox || name == BoxType::EdtsBox || name == BoxType::MdiaBox
    }

    /// A child of a type that the box does not name is skipped: the walk
    /// goes on behind it with what was found before.
    pub proof fn lemma_unknown_child_skipped(p: Seq<u8>, cur: int, acc: TrakParts)
        requires
            0 <= cur < p.len(),
            Child::spec_next(p, cur) is Ok,
            !TrakView::names(Child::spec_next(p, cur).unwrap().name),
        ensures
            TrakView::scan(p, cur, acc) == TrakView::scan(p, Child::spec_next(p,
                cur).unwrap().next, acc),
    {
    }

    /// Where the walk succeeds, the children tile the payload: their
    /// declared sizes add up to its length.
    pub proof fn lemma_children_tile(p: Seq<u8>, cur: int, acc: TrakParts)
        requires
            0 <= cur <= p.len(),
            TrakView::scan(p, cur, acc) is Ok,
        ensures
            children_total(p, cur) == Some(p.len() - cur),
        decreases p.len() - cur,
    {
        if cur < p.len() {
            let ch = Child::spec_next(p, cur).unwrap();
            if ch.name == BoxType::TkhdBox {
                let b = TkhdBox::read(ch.bytes(p)).unwrap();
                TrakView::lemma_children_tile(p, ch.next, TrakParts { tkhd: Some(b), ..acc });
            } else if ch.name == BoxType::EdtsBox {
                let b = EdtsView::read(ch.bytes(p)).unwrap();
                TrakView::lemma_children_tile(p, ch.next, TrakParts { edts: Some(b), ..acc });
            } else if ch.name == BoxType::MdiaBox {
                let b = MdiaView::read(ch.bytes(p)).unwrap();
                TrakView::lemma_children_tile(p, ch.next, TrakParts { mdia: Some(b), ..acc });
            } else {
                TrakView::lemma_children_tile(p, ch.next, acc);
            }
            lemma_children_tile(p, cur);
        }
    }

    /// The box that the payload `p` holds.
    pub open spec fn read(p: Seq<u8>) -> Result<TrakView, ErrorKind> {
        match TrakView::scan(p, 0, TrakView::nothing()) {
            Err(e) => Err(e),
            Ok(parts) => if parts.tkhd is None {
                Err(ErrorKind::BoxNotFound(BoxType::TkhdBox))
            } else if parts.mdia is None {
                Err(ErrorKind::BoxNotFound(BoxType::MdiaBox))
            } else {
                Ok(
                    TrakView {
                        tkhd: parts.tkhd.unwrap(),
                        edts: parts.edts,
                        mdia: parts.mdia.unwrap(),
                    },
                )
            },
        }
    }

    /// The written size of a `edts` child.
    pub open spec fn edts_size() -> spec_fn(EdtsView) -> nat {
        |c: EdtsView| c.size()
    }

    /// The written bytes of a `edts` child.
    pub open spec fn edts_bytes() -> spec_fn(EdtsView) -> Seq<u8> {
        |c: EdtsView| c.bytes()
    }

    /// The number of bytes that the box is written as.
    #[verifier::opaque]
    pub open spec fn size(self) -> nat {
        8 + self.tkhd.size() + opt_size(self.edts, TrakView::edts_size()) + self.mdia.size()
    }

    /// The box can be written: each child can, and the size fits 32 bits.
    #[verifier::opaque]
    pub open spec fn well_formed(self) -> bool {
        &&& self.tkhd.well_formed()
        &&& self.edts is Some ==> self.edts.unwrap().well_formed()
        &&& self.mdia.well_formed()
        &&& self.size() <= u32::MAX
    }

    /// The box as it is written: its header, then its children in order.
    #[verifier::opaque]
    pub open spec fn bytes(self) -> Seq<u8> {
        header_bytes(BoxType::TrakBox, self.size() as u64) + self.tkhd.bytes()
            + opt_bytes(self.edts, TrakView::edts_bytes()) + self.mdia.bytes()
    }

    /// Each child of the box reads back from what it is written as.
    pub open spec fn children_read_back(self) -> bool {
        &&& self.tkhd.bytes().len() == self.tkhd.size() && BoxHeader::spec_read(self.tkhd.bytes(),
            0) == Ok::<BoxHeader, ErrorKind>(BoxHeader { name: BoxType::TkhdBox,
            size: self.tkhd.size() as u64, header_len: 8 })
            && TkhdBox::read(self.tkhd.bytes().skip(8)) == Ok::<TkhdBox, ErrorKind>(self.tkhd)
        &&& self.edts is Some ==> self.edts.unwrap().bytes().len() == self.edts.unwrap().size()
            && BoxHeader::spec_read(self.edts.unwrap().bytes(), 0) == Ok::<BoxHeader,
            ErrorKind>(BoxHeader { name: BoxType::EdtsBox, size: self.edts.unwrap().size() as u64,
            header_len: 8 }) && EdtsView::read(self.edts.unwrap().bytes().skip(8))
            == Ok::<EdtsView, ErrorKind>(self.edts.unwrap())
        &&& self.mdia.bytes().len() == self.mdia.size() && BoxHeader::spec_read(self.mdia.bytes(),
            0) == Ok::<BoxHeader, ErrorKind>(BoxHeader { name: BoxType::MdiaBox,
            size: self.mdia.size() as u64, header_len: 8 })
            && MdiaView::read(self.mdia.bytes().skip(8)) == Ok::<MdiaView, ErrorKind>(self.mdia)
    }

    /// Decoding what a well-formed box is written as gives the box back,
    /// where each of its children reads back.
    #[verifier::rlimit(50)]
    pub proof fn lemma_round_trip(self)
        requires
            self.well_formed(),
            self.children_read_back(),
        ensures
            self.bytes().len() == self.size(),
            BoxHeader::spec_read(self.bytes(), 0) == Ok::<BoxHeader, ErrorKind>(
                BoxHeader { name: BoxType::TrakBox, size: self.size() as u64, header_len: 8 },
            ),
            TrakView::read(self.bytes().skip(8)) == Ok::<TrakView, ErrorKind>(self),
    {
        reveal(TrakView::size);
        reveal(TrakView::bytes);
        reveal(TrakView::well_formed);
        let b = self.bytes();
        let size = self.size() as u64;
        let h = header_bytes(BoxType::TrakBox, size);
        let w0 = self.tkhd.bytes();
        let w1 = opt_bytes(self.edts, TrakView::edts_bytes());
        let w2 = self.mdia.bytes();
        let l0 = h;
        let l1 = l0 + w0;
        let l2 = l1 + w1;
        let l3 = l2 + w2;
        let z3 = Seq::<u8>::empty();
        let z2 = w2 + z3;
        let z1 = w1 + z2;
        let z0 = w0 + z1;
        assert(b == l3);
        lemma_add_empty(l3);
        lemma_assoc(l2, w2, z3);
        assert(b == l2 + z2);
        lemma_assoc(l1, w1, z2);
        assert(b == l1 + z1);
        lemma_assoc(l0, w0, z1);
        assert(b == l0 + z0);
        let a0 = Seq::<u8>::empty();
        let acc0 = TrakView::nothing();
        lemma_empty_add(z0);
        let a1 = a0 + w0;
        lemma_assoc(a0, w0, z1);
        lemma_window(a0, w0, z1);
        let acc1 = TrakParts { tkhd: Some(self.tkhd), ..acc0 };
        lemma_child_at(z0, a0.len() as int, w0, BoxType::TkhdBox, self.tkhd.size() as u64);
        assert(TrakView::scan(z0, a0.len() as int, acc0) == TrakView::scan(z0, a1.len() as int,
            acc1));
        let a2 = a1 + w1;
        lemma_assoc(a1, w1, z2);
        lemma_window(a1, w1, z2);
        let acc2 = TrakParts { edts: self.edts, ..acc1 };
        if self.edts is Some {
            lemma_child_at(z0, a1.len() as int, w1, BoxType::EdtsBox,
                self.edts.unwrap().size() as u64);
        } else {
            lemma_add_empty(a1);
            assert(acc2 == acc1);
        }
        assert(TrakView::scan(z0, a1.len() as int, acc1) == TrakView::scan(z0, a2.len() as int,
            acc2));
        let a3 = a2 + w2;
        lemma_assoc(a2, w2, z3);
        lemma_window(a2, w2, z3);
        let acc3 = TrakParts { mdia: Some(self.mdia), ..acc2 };
        lemma_child_at(z0, a2.len() as int, w2, BoxType::MdiaBox, self.mdia.size() as u64);
        assert(TrakView::scan(z0, a2.len() as int, acc2) == TrakView::scan(z0, a3.len() as int,
            acc3));
        lemma_add_empty(a3);
        assert(z0 == a3);
        assert(TrakView::scan(z0, 0, acc0) == Ok::<TrakParts,
            ErrorKind>(TrakParts { tkhd: Some(self.tkhd), edts: self.edts,
            mdia: Some(self.mdia) }));
        lemma_plain_header(BoxType::TrakBox, size, z0);
    }
}

impl TrakBox {
    pub fn get_type(&self) -> (r: BoxType)
        ensures
            r == BoxType::TrakBox,
    {
        BoxType::TrakBox
    }

    /// The size of the box as written, saturating at `u64::MAX`.
    pub fn get_size(&self) -> (r: u64)
        ensures
            r == saturate(self@.size() as int),
    {
        reveal(TrakView::size);
        let mut total: u64 = 8;
        total = add_size(total, self.tkhd.get_size());
        if let Some(c) = &self.edts {
            total = add_size(total, c.get_size());
        }
        total = add_size(total, self.mdia.get_size());
        total
    }

    /// Decodes the box of declared size `size` whose payload starts `src`.
    #[verifier::rlimit(50)]
    pub fn read_box(src: &[u8], size: u64) -> (r: Result<TrakBox, Error>)
        ensures
            decoded(r) == TrakView::read(payload(src@, size)),
    {
        let p = payload_of(src, size);
        let mut tkhd: Option<TkhdBox> = None;
        let mut edts: Option<EdtsBox> = None;
        let mut mdia: Option<MdiaBox> = None;
        let mut cur: usize = 0;

        while cur < p.len()
            invariant
                cur <= p@.len(),
                p@ == payload(src@, size),
                TrakView::scan(p@, cur as int, TrakParts { tkhd: opt_view(tkhd),
                    edts: opt_view(edts), mdia: opt_view(mdia) }) == TrakView::scan(p@, 0,
                    TrakView::nothing()),
            decreases p@.len() - cur,
        {
            let ch = match Child::next_child(p, cur) {
                Ok(c) => c,
                Err(e) => {
                    return Err(e);
                },
            };
            let body = ch.bytes(p);
            match ch.name {
                BoxType::TkhdBox => {
                    match TkhdBox::read_box(body, ch.size) {
                        Ok(b) => {
                            tkhd = Some(b);
                        },
                        Err(e) => {
                            return Err(e);
                        },
                    }
                },
                BoxType::EdtsBox => {
                    match EdtsBox::read_box(body, ch.size) {
                        Ok(b) => {
                            edts = Some(b);
                        },
                        Err(e) => {
                            return Err(e);
                        },
                    }
                },
                BoxType::MdiaBox => {
                    match MdiaBox::read_box(body, ch.size) {
                        Ok(b) => {
                            mdia = Some(b);
                        },
                        Err(e) => {
                            return Err(e);
                        },
                    }
                },
                _ => {},
            }
            cur = ch.next;
        }
        let tkhd = match tkhd {
            Some(b) => b,
            None => {
                return Err(Error::BoxNotFound(BoxType::TkhdBox));
            },
        };
        let mdia = match mdia {
            Some(b) => b,
            None => {
                return Err(Error::BoxNotFound(BoxType::MdiaBox));
            },
        };
        let made = TrakBox { tkhd, edts, mdia };
        assert(decoded(Ok::<TrakBox, Error>(made)) == TrakView::read(p@)) by {
            assert(made@ =~= TrakView::read(p@).unwrap());
        }
        Ok(made)
    }

    /// Appends the box to `out` and returns the number of bytes written;
    /// a box that is not well formed is refused and `out` left as it was.
    #[verifier::rlimit(50)]
    pub fn write_box(&self, out: &mut Vec<u8>) -> (r: Result<u64, Error>)
        ensures
            r is Ok <==> self@.well_formed(),
            r is Ok ==> r.unwrap() == self@.size() && final(out)@ == old(out)@ + self@.bytes()
                && self@.bytes().len() == self@.size(),
            r is Err ==> r.unwrap_err().spec_kind() == ErrorKind::InvalidData && final(out)@
                == old(out)@,
    {
        reveal(TrakView::size);
        reveal(TrakView::bytes);
        reveal(TrakView::well_formed);
        let mut body: Vec<u8> = Vec::new();
        match self.tkhd.write_box(&mut body) {
            Ok(_) => {},
            Err(e) => {
                return Err(e);
            },
        }
        let ghost b_tkhd = body@;
        assert(b_tkhd =~= Seq::<u8>::empty() + self@.tkhd.bytes());
        if let Some(c) = &self.edts {
            match c.write_box(&mut body) {
                Ok(_) => {},
                Err(e) => {
                    return Err(e);
                },
            }
        }
        let ghost b_edts = body@;
        assert(b_edts =~= b_tkhd + opt_bytes(self@.edts, TrakView::edts_bytes()));
        match self.mdia.write_box(&mut body) {
            Ok(_) => {},
            Err(e) => {
                return Err(e);
            },
        }
        let ghost b_mdia = body@;
        assert(b_mdia =~= b_edts + self@.mdia.bytes());
        if body.len() > 0xFFFF_FFF7 {
            return Err(Error::InvalidData("trak box cannot be written"));
        }
        let size: u64 = 8 + body.len() as u64;
        BoxHeader::new(BoxType::TrakBox, size).write(out);
        put_bytes(out, body.as_slice());
        proof {
            let h = header_bytes(BoxType::TrakBox, size);
            lemma_add_empty(h);
            let l_0 = h;
            lemma_assoc(h, Seq::<u8>::empty(), self@.tkhd.bytes());
            let l_1 = l_0 + self@.tkhd.bytes();
            assert(h + b_tkhd == l_1);
            lemma_assoc(h, b_tkhd, opt_bytes(self@.edts, TrakView::edts_bytes()));
            let l_2 = l_1 + opt_bytes(self@.edts, TrakView::edts_bytes());
            assert(h + b_edts == l_2);
            lemma_assoc(h, b_edts, self@.mdia.bytes());
            let l_3 = l_2 + self@.mdia.bytes();
            assert(h + b_mdia == l_3);
            lemma_assoc(old(out)@, h, body@);
        }
        Ok(size)
    }
}

} // verus!

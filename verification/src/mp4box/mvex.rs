//! The movie extends box: it announces that fragments follow, and gives their defaults.

use crate::codec::{add_size, put_bytes, saturate};
use crate::error::{Error, ErrorKind};
use crate::mp4box::header::{
    children_total, decoded, header_bytes, lemma_add_empty, lemma_assoc, lemma_child_at,
    lemma_children_tile, lemma_empty_add, lemma_plain_header, lemma_window, opt_bytes, opt_size,
    opt_view, payload, payload_of, BoxHeader, Child,
};
use crate::mp4box::mehd::MehdBox;
use crate::mp4box::trex::TrexBox;
use crate::mp4box::BoxType;
use vstd::prelude::*;

verus! {

/// The movie extends box: it announces that fragments follow, and gives their defaults.
#[derive(Debug, Clone, PartialEq, Eq, Default)]
pub struct MvexBox {
    pub mehd: Option<MehdBox>,
    pub trex: TrexBox,
}

/// What a [`MvexBox`] holds.
pub struct MvexView {
    pub mehd: Option<MehdBox>,
    pub trex: TrexBox,
}

/// The children of a `mvex` box found so far in a walk over its payload.
pub struct MvexParts {
    pub mehd: Option<MehdBox>,
    pub trex: Option<TrexBox>,
}

impl View for MvexBox {
    type V = MvexView;

    open spec fn view(&self) -> MvexView {
        MvexView { mehd: opt_view(self.mehd), trex: self.trex@ }
    }
}

impl MvexView {
    /// No child found yet.
    pub open spec fn nothing() -> MvexParts {
        MvexParts { mehd: None, trex: None }
    }

    /// The walk over the children of the payload `p` from `cur` on, with
    /// `acc` found before: a child of a type that the box names is decoded
    /// and kept, the last of a type winning; any other child is skipped.
    pub open spec fn scan(p: Seq<u8>, cur: int, acc: MvexParts) -> Result<MvexParts, ErrorKind>
        decreases p.len() - cur,
    {
        if cur < 0 || cur >= p.len() {
            Ok(acc)
        } else {
            match Child::spec_next(p, cur) {
                Err(e) => Err(e),
                Ok(ch) => if ch.name == BoxType::MehdBox {
                    match MehdBox::read(ch.bytes(p)) {
                        Err(e) => Err(e),
                        Ok(b) => MvexView::scan(p, ch.next, MvexParts { mehd: Some(b), ..acc }),
                    }
                } else if ch.name == BoxType::TrexBox {
                    match TrexBox::read(ch.bytes(p)) {
                        Err(e) => Err(e),
                        Ok(b) => MvexView::scan(p, ch.next, MvexParts { trex: Some(b), ..acc }),
                    }
                } else {
                    MvexView::scan(p, ch.next, acc)
                },
            }
        }
    }

    /// Whether the walk keeps children of the type `name`.
    pub open spec fn names(name: BoxType) -> bool {
        name == BoxType::MehdBox || name == BoxType::TrexBox
    }

    /// A child of a type that the box does not name is skipped: the walk
    /// goes on behind it with what was found before.
    pub proof fn lemma_unknown_child_skipped(p: Seq<u8>, cur: int, acc: MvexParts)
        requires
            0 <= cur < p.len(),
            Child::spec_next(p, cur) is Ok,
            !MvexView::names(Child::spec_next(p, cur).unwrap().name),
        ensures
            MvexView::scan(p, cur, acc) == MvexView::scan(p, Child::spec_next(p,
                cur).unwrap().next, acc),
    {
    }

    /// Where the walk succeeds, the children tile the payload: their
    /// declared sizes add up to its length.
    pub proof fn lemma_children_tile(p: Seq<u8>, cur: int, acc: MvexParts)
        requires
            0 <= cur <= p.len(),
            MvexView::scan(p, cur, acc) is Ok,
        ensures
            children_total(p, cur) == Some(p.len() - cur),
        decreases p.len() - cur,
    {
        if cur < p.len() {
            let ch = Child::spec_next(p, cur).unwrap();
            if ch.name == BoxType::MehdBox {
                let b = MehdBox::read(ch.bytes(p)).unwrap();
                MvexView::lemma_children_tile(p, ch.next, MvexParts { mehd: Some(b), ..acc });
            } else if ch.name == BoxType::TrexBox {
                let b = TrexBox::read(ch.bytes(p)).unwrap();
                MvexView::lemma_children_tile(p, ch.next, MvexParts { trex: Some(b), ..acc });
            } else {
                MvexView::lemma_children_tile(p, ch.next, acc);
            }
            lemma_children_tile(p, cur);
        }
    }

    /// The box that the payload `p` holds.
    pub open spec fn read(p: Seq<u8>) -> Result<MvexView, ErrorKind> {
        match MvexView::scan(p, 0, MvexView::nothing()) {
            Err(e) => Err(e),
            Ok(parts) => if parts.trex is None {
                Err(ErrorKind::BoxNotFound(BoxType::TrexBox))
            } else {
                Ok(
                    MvexView {
                        mehd: parts.mehd,
                        trex: parts.trex.unwrap(),
                    },
                )
            },
        }
    }

    /// The written size of a `mehd` child.
    pub open spec fn mehd_size() -> spec_fn(MehdBox) -> nat {
        |c: MehdBox| c.size()
    }

    /// The written bytes of a `mehd` child.
    pub open spec fn mehd_bytes() -> spec_fn(MehdBox) -> Seq<u8> {
        |c: MehdBox| c.bytes()
    }

    /// The number of bytes that the box is written as.
    #[verifier::opaque]
    pub open spec fn size(self) -> nat {
        8 + opt_size(self.mehd, MvexView::mehd_size()) + self.trex.size()
    }

    /// The box can be written: each child can, and the size fits 32 bits.
    #[verifier::opaque]
    pub open spec fn well_formed(self) -> bool {
        &&& self.mehd is Some ==> self.mehd.unwrap().well_formed()
        &&& self.trex.well_formed()
        &&& self.size() <= u32::MAX
    }

    /// The box as it is written: its header, then its children in order.
    #[verifier::opaque]
    pub open spec fn bytes(self) -> Seq<u8> {
        header_bytes(BoxType::MvexBox, self.size() as u64) + opt_bytes(self.mehd,
            MvexView::mehd_bytes()) + self.trex.bytes()
    }

    /// Each child of the box reads back from what it is written as.
    pub open spec fn children_read_back(self) -> bool {
        &&& self.mehd is Some ==> self.mehd.unwrap().bytes().len() == self.mehd.unwrap().size()
            && BoxHeader::spec_read(self.mehd.unwrap().bytes(), 0) == Ok::<BoxHeader,
            ErrorKind>(BoxHeader { name: BoxType::MehdBox, size: self.mehd.unwrap().size() as u64,
            header_len: 8 }) && MehdBox::read(self.mehd.unwrap().bytes().skip(8)) == Ok::<MehdBox,
            ErrorKind>(self.mehd.unwrap())
        &&& self.trex.bytes().len() == self.trex.size() && BoxHeader::spec_read(self.trex.bytes(),
            0) == Ok::<BoxHeader, ErrorKind>(BoxHeader { name: BoxType::TrexBox,
            size: self.trex.size() as u64, header_len: 8 })
            && TrexBox::read(self.trex.bytes().skip(8)) == Ok::<TrexBox, ErrorKind>(self.trex)
    }

    /// Decoding what a well-formed box is written as gives the box back,
    /// where each of its children reads back.
    #[verifier::rlimit(50)]
    pub proof fn lemma_round_trip(self)
        requires
            self.well_formed(),
            self.children_read_back(),
        ensures
            self.bytes().len() == self.size(),
            BoxHeader::spec_read(self.bytes(), 0) == Ok::<BoxHeader, ErrorKind>(
                BoxHeader { name: BoxType::MvexBox, size: self.size() as u64, header_len: 8 },
            ),
            MvexView::read(self.bytes().skip(8)) == Ok::<MvexView, ErrorKind>(self),
    {
        reveal(MvexView::size);
        reveal(MvexView::bytes);
        reveal(MvexView::well_formed);
        let b = self.bytes();
        let size = self.size() as u64;
        let h = header_bytes(BoxType::MvexBox, size);
        let w0 = opt_bytes(self.mehd, MvexView::mehd_bytes());
        let w1 = self.trex.bytes();
        let l0 = h;
        let l1 = l0 + w0;
        let l2 = l1 + w1;
        let z2 = Seq::<u8>::empty();
        let z1 = w1 + z2;
        let z0 = w0 + z1;
        assert(b == l2);
        lemma_add_empty(l2);
        lemma_assoc(l1, w1, z2);
        assert(b == l1 + z1);
        lemma_assoc(l0, w0, z1);
        assert(b == l0 + z0);
        let a0 = Seq::<u8>::empty();
        let acc0 = MvexView::nothing();
        lemma_empty_add(z0);
        let a1 = a0 + w0;
        lemma_assoc(a0, w0, z1);
        lemma_window(a0, w0, z1);
        let acc1 = MvexParts { mehd: self.mehd, ..acc0 };
        if self.mehd is Some {
            lemma_child_at(z0, a0.len() as int, w0, BoxType::MehdBox,
                self.mehd.unwrap().size() as u64);
        } else {
            lemma_add_empty(a0);
            assert(acc1 == acc0);
        }
        assert(MvexView::scan(z0, a0.len() as int, acc0) == MvexView::scan(z0, a1.len() as int,
            acc1));
        let a2 = a1 + w1;
        lemma_assoc(a1, w1, z2);
        lemma_window(a1, w1, z2);
        let acc2 = MvexParts { trex: Some(self.trex), ..acc1 };
        lemma_child_at(z0, a1.len() as int, w1, BoxType::TrexBox, self.trex.size() as u64);
        assert(MvexView::scan(z0, a1.len() as int, acc1) == MvexView::scan(z0, a2.len() as int,
            acc2));
        lemma_add_empty(a2);
        assert(z0 == a2);
        assert(MvexView::scan(z0, 0, acc0) == Ok::<MvexParts,
            ErrorKind>(MvexParts { mehd: self.mehd, trex: Some(self.trex) }));
        lemma_plain_header(BoxType::MvexBox, size, z0);
    }
}

impl MvexBox {
    pub fn get_type(&self) -> (r: BoxType)
        ensures
            r == BoxType::MvexBox,
    {
        BoxType::MvexBox
    }

    /// The size of the box as written, saturating at `u64::MAX`.
    pub fn get_size(&self) -> (r: u64)
        ensures
            r == saturate(self@.size() as int),
    {
        reveal(MvexView::size);
        let mut total: u64 = 8;
        if let Some(c) = &self.mehd {
            total = add_size(total, c.get_size());
        }
        total = add_size(total, self.trex.get_size());
        total
    }

    /// Decodes the box of declared size `size` whose payload starts `src`.
    #[verifier::rlimit(50)]
    pub fn read_box(src: &[u8], size: u64) -> (r: Result<MvexBox, Error>)
        ensures
            decoded(r) == MvexView::read(payload(src@, size)),
    {
        let p = payload_of(src, size);
        let mut mehd: Option<MehdBox> = None;
        let mut trex: Option<TrexBox> = None;
        let mut cur: usize = 0;

        while cur < p.len()
            invariant
                cur <= p@.len(),
                p@ == payload(src@, size),
                MvexView::scan(p@, cur as int, MvexParts { mehd: opt_view(mehd),
                    trex: opt_view(trex) }) == MvexView::scan(p@, 0, MvexView::nothing()),
            decreases p@.len() - cur,
        {
            let ch = match Child::next_child(p, cur) {
                Ok(c) => c,
                Err(e) => {
                    return Err(e);
                },
            };
            let body = ch.bytes(p);
            match ch.name {
                BoxType::MehdBox => {
                    match MehdBox::read_box(body, ch.size) {
                        Ok(b) => {
                            mehd = Some(b);
                        },
                        Err(e) => {
                            return Err(e);
                        },
                    }
                },
                BoxType::TrexBox => {
                    match TrexBox::read_box(body, ch.size) {
                        Ok(b) => {
                            trex = Some(b);
                        },
                        Err(e) => {
                            return Err(e);
                        },
                    }
                },
                _ => {},
            }
            cur = ch.next;
        }
        let trex = match trex {
            Some(b) => b,
            None => {
                return Err(Error::BoxNotFound(BoxType::TrexBox));
            },
        };
        let made = MvexBox { mehd, trex };
        assert(decoded(Ok::<MvexBox, Error>(made)) == MvexView::read(p@)) by {
            assert(made@ =~= MvexView::read(p@).unwrap());
        }
        Ok(made)
    }

    /// Appends the box to `out` and returns the number of bytes written;
    /// a box that is not well formed is refused and `out` left as it was.
    #[verifier::rlimit(50)]
    pub fn write_box(&self, out: &mut Vec<u8>) -> (r: Result<u64, Error>)
        ensures
            r is Ok <==> self@.well_formed(),
            r is Ok ==> r.unwrap() == self@.size() && final(out)@ == old(out)@ + self@.bytes()
                && self@.bytes().len() == self@.size(),
            r is Err ==> r.unwrap_err().spec_kind() == ErrorKind::InvalidData && final(out)@
                == old(out)@,
    {
        reveal(MvexView::size);
        reveal(MvexView::bytes);
        reveal(MvexView::well_formed);
        let mut body: Vec<u8> = Vec::new();
        if let Some(c) = &self.mehd {
            match c.write_box(&mut body) {
                Ok(_) => {},
                Err(e) => {
                    return Err(e);
                },
            }
        }
        let ghost b_mehd = body@;
        assert(b_mehd =~= Seq::<u8>::empty() + opt_bytes(self@.mehd, MvexView::mehd_bytes()));
        match self.trex.write_box(&mut body) {
            Ok(_) => {},
            Err(e) => {
                return Err(e);
            },
        }
        let ghost b_trex = body@;
        assert(b_trex =~= b_mehd + self@.trex.bytes());
        if body.len() > 0xFFFF_FFF7 {
            return Err(Error::InvalidData("mvex box cannot be written"));
        }
        let size: u64 = 8 + body.len() as u64;
        BoxHeader::new(BoxType::MvexBox, size).write(out);
        put_bytes(out, body.as_slice());
        proof {
            let h = header_bytes(BoxType::MvexBox, size);
            lemma_add_empty(h);
            let l_0 = h;
            lemma_assoc(h, Seq::<u8>::empty(), opt_bytes(self@.mehd, MvexView::mehd_bytes()));
            let l_1 = l_0 + opt_bytes(self@.mehd, MvexView::mehd_bytes());
            assert(h + b_mehd == l_1);
            lemma_assoc(h, b_mehd, self@.trex.bytes());
            let l_2 = l_1 + self@.trex.bytes();
            assert(h + b_trex == l_2);
            lemma_assoc(old(out)@, h, body@);
        }
        Ok(size)
    }
}

} // verus!

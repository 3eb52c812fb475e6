//! The track fragment box: the header, decode time and sample run of one track
//! within a movie fragment.

use crate::codec::{add_size, put_bytes, saturate};
use crate::error::{Error, ErrorKind};
use crate::mp4box::header::{
    children_total, decoded, header_bytes, lemma_add_empty, lemma_assoc, lemma_child_at,
    lemma_children_tile, lemma_empty_add, lemma_plain_header, lemma_window, opt_bytes, opt_size,
    opt_view, payload, payload_of, BoxHeader, Child,
};
use crate::mp4box::tfdt::TfdtBox;
use crate::mp4box::tfhd::TfhdBox;
use crate::mp4box::trun::{TrunBox, TrunView};
use crate::mp4box::BoxType;
use vstd::prelude::*;

verus! {

/// The track fragment box: the header, decode time and sample run of one track
/// within a movie fragment.
#[derive(Debug, Clone, PartialEq, Eq, Default)]
pub struct TrafBox {
    pub tfhd: TfhdBox,
    pub tfdt: Option<TfdtBox>,
    pub trun: Option<TrunBox>,
}

/// What a [`TrafBox`] holds.
pub struct TrafView {
    pub tfhd: TfhdBox,
    pub tfdt: Option<TfdtBox>,
    pub trun: Option<TrunView>,
}

/// The children of a `traf` box found so far in a walk over its payload.
pub struct TrafParts {
    pub tfhd: Option<TfhdBox>,
    pub tfdt: Option<TfdtBox>,
    pub trun: Option<TrunView>,
}

impl View for TrafBox {
    type V = TrafView;

    open spec fn view(&self) -> TrafView {
        TrafView { tfhd: self.tfhd@, tfdt: opt_view(self.tfdt), trun: opt_view(self.trun) }
    }
}

impl TrafView {
    /// No child found yet.
    pub open spec fn nothing() -> TrafParts {
        TrafParts { tfhd: None, tfdt: None, trun: None }
    }

    /// The walk over the children of the payload `p` from `cur` on, with
    /// `acc` found before: a child of a type that the box names is decoded
    /// and kept, the last of a type winning; any other child is skipped.
    pub open spec fn scan(p: Seq<u8>, cur: int, acc: TrafParts) -> Result<TrafParts, ErrorKind>
        decreases p.len() - cur,
    {
        if cur < 0 || cur >= p.len() {
            Ok(acc)
        } else {
            match Child::spec_next(p, cur) {
                Err(e) => Err(e),
                Ok(ch) => if ch.name == BoxType::TfhdBox {
                    match TfhdBox::read(ch.bytes(p)) {
                        Err(e) => Err(e),
                        Ok(b) => TrafView::scan(p, ch.next, TrafParts { tfhd: Some(b), ..acc }),
                    }
                } else if ch.name == BoxType::TfdtBox {
                    match TfdtBox::read(ch.bytes(p)) {
                        Err(e) => Err(e),
                        Ok(b) => TrafView::scan(p, ch.next, TrafParts { tfdt: Some(b), ..acc }),
                    }
                } else if ch.name == BoxType::TrunBox {
                    match TrunView::read(ch.bytes(p)) {
                        Err(e) => Err(e),
                        Ok(b) => TrafView::scan(p, ch.next, TrafParts { trun: Some(b), ..acc }),
                    }
                } else {
                    TrafView::scan(p, ch.next, acc)
                },
            }
        }
    }

    /// Whether the walk keeps children of the type `name`.
    pub open spec fn names(name: BoxType) -> bool {
        name == BoxType::TfhdBox || name == BoxType::TfdtBox || name == BoxType::TrunBox
    }

    /// A child of a type that the box does not name is skipped: the walk
    /// goes on behind it with what was found before.
    pub proof fn lemma_unknown_child_skipped(p: Seq<u8>, cur: int, acc: TrafParts)
        requires
            0 <= cur < p.len(),
            Child::spec_next(p, cur) is Ok,
            !TrafView::names(Child::spec_next(p, cur).unwrap().name),
        ensures
            TrafView::scan(p, cur, acc) == TrafView::scan(p, Child::spec_next(p,
                cur).unwrap().next, acc),
    {
    }

    /// Where the walk succeeds, the children tile the payload: their
    /// declared sizes add up to its length.
    pub proof fn lemma_children_tile(p: Seq<u8>, cur: int, acc: TrafParts)
        requires
            0 <= cur <= p.len(),
            TrafView::scan(p, cur, acc) is Ok,
        ensures
            children_total(p, cur) == Some(p.len() - cur),
        decreases p.len() - cur,
    {
        if cur < p.len() {
            let ch = Child::spec_next(p, cur).unwrap();
            if ch.name == BoxType::TfhdBox {
                let b = TfhdBox::read(ch.bytes(p)).unwrap();
                TrafView::lemma_children_tile(p, ch.next, TrafParts { tfhd: Some(b), ..acc });
            } else if ch.name == BoxType::TfdtBox {
                let b = TfdtBox::read(ch.bytes(p)).unwrap();
                TrafView::lemma_children_tile(p, ch.next, TrafParts { tfdt: Some(b), ..acc });
            } else if ch.name == BoxType::TrunBox {
                let b = TrunView::read(ch.bytes(p)).unwrap();
                TrafView::lemma_children_tile(p, ch.next, TrafParts { trun: Some(b), ..acc });
            } else {
                TrafView::lemma_children_tile(p, ch.next, acc);
            }
            lemma_children_tile(p, cur);
        }
    }

    /// The box that the payload `p` holds.
    pub open spec fn read(p: Seq<u8>) -> Result<TrafView, ErrorKind> {
        match TrafView::scan(p, 0, TrafView::nothing()) {
            Err(e) => Err(e),
            Ok(parts) => if parts.tfhd is None {
                Err(ErrorKind::BoxNotFound(BoxType::TfhdBox))
            } else {
                Ok(
                    TrafView {
                        tfhd: parts.tfhd.unwrap(),
                        tfdt: parts.tfdt,
                        trun: parts.trun,
                    },
                )
            },
        }
    }

    /// The written size of a `tfdt` child.
    pub open spec fn tfdt_size() -> spec_fn(TfdtBox) -> nat {
        |c: TfdtBox| c.size()
    }

    /// The written bytes of a `tfdt` child.
    pub open spec fn tfdt_bytes() -> spec_fn(TfdtBox) -> Seq<u8> {
        |c: TfdtBox| c.bytes()
    }

    /// The written size of a `trun` child.
    pub open spec fn trun_size() -> spec_fn(TrunView) -> nat {
        |c: TrunView| c.size()
    }

    /// The written bytes of a `trun` child.
    pub open spec fn trun_bytes() -> spec_fn(TrunView) -> Seq<u8> {
        |c: TrunView| c.bytes()
    }

    /// The number of bytes that the box is written as.
    #[verifier::opaque]
    pub open spec fn size(self) -> nat {
        8 + self.tfhd.size() + opt_size(self.tfdt, TrafView::tfdt_size()) + opt_size(self.trun,
            TrafView::trun_size())
    }

    /// The box can be written: each child can, and the size fits 32 bits.
    #[verifier::opaque]
    pub open spec fn well_formed(self) -> bool {
        &&& self.tfhd.well_formed()
        &&& self.tfdt is Some ==> self.tfdt.unwrap().well_formed()
        &&& self.trun is Some ==> self.trun.unwrap().well_formed()
        &&& self.size() <= u32::MAX
    }

    /// The box as it is written: its header, then its children in order.
    #[verifier::opaque]
    pub open spec fn bytes(self) -> Seq<u8> {
        header_bytes(BoxType::TrafBox, self.size() as u64) + self.tfhd.bytes()
            + opt_bytes(self.tfdt, TrafView::tfdt_bytes()) + opt_bytes(self.trun,
            TrafView::trun_bytes())
    }

    /// Each child of the box reads back from what it is written as.
    pub open spec fn children_read_back(self) -> bool {
        &&& self.tfhd.bytes().len() == self.tfhd.size() && BoxHeader::spec_read(self.tfhd.bytes(),
            0) == Ok::<BoxHeader, ErrorKind>(BoxHeader { name: BoxType::TfhdBox,
            size: self.tfhd.size() as u64, header_len: 8 })
            && TfhdBox::read(self.tfhd.bytes().skip(8)) == Ok::<TfhdBox, ErrorKind>(self.tfhd)
        &&& self.tfdt is Some ==> self.tfdt.unwrap().bytes().len() == self.tfdt.unwrap().size()
            && BoxHeader::spec_read(self.tfdt.unwrap().bytes(), 0) == Ok::<BoxHeader,
            ErrorKind>(BoxHeader { name: BoxType::TfdtBox, size: self.tfdt.unwrap().size() as u64,
            header_len: 8 }) && TfdtBox::read(self.tfdt.unwrap().bytes().skip(8)) == Ok::<TfdtBox,
            ErrorKind>(self.tfdt.unwrap())
        &&& self.trun is Some ==> self.trun.unwrap().bytes().len() == self.trun.unwrap().size()
            && BoxHeader::spec_read(self.trun.unwrap().bytes(), 0) == Ok::<BoxHeader,
            ErrorKind>(BoxHeader { name: BoxType::TrunBox, size: self.trun.unwrap().size() as u64,
            header_len: 8 }) && TrunView::read(self.trun.unwrap().bytes().skip(8))
            == Ok::<TrunView, ErrorKind>(self.trun.unwrap())
    }

    /// Decoding what a well-formed box is written as gives the box back,
    /// where each of its children reads back.
    #[verifier::rlimit(50)]
    pub proof fn lemma_round_trip(self)
        requires
            self.well_formed(),
            self.children_read_back(),
        ensures
            self.bytes().len() == self.size(),
            BoxHeader::spec_read(self.bytes(), 0) == Ok::<BoxHeader, ErrorKind>(
                BoxHeader { name: BoxType::TrafBox, size: self.size() as u64, header_len: 8 },
            ),
            TrafView::read(self.bytes().skip(8)) == Ok::<TrafView, ErrorKind>(self),
    {
        reveal(TrafView::size);
        reveal(TrafView::bytes);
        reveal(TrafView::well_formed);
        let b = self.bytes();
        let size = self.size() as u64;
        let h = header_bytes(BoxType::TrafBox, size);
        let w0 = self.tfhd.bytes();
        let w1 = opt_bytes(self.tfdt, TrafView::tfdt_bytes());
        let w2 = opt_bytes(self.trun, TrafView::trun_bytes());
        let l0 = h;
        let l1 = l0 + w0;
        let l2 = l1 + w1;
        let l3 = l2 + w2;
        let z3 = Seq::<u8>::empty();
        let z2 = w2 + z3;
        let z1 = w1 + z2;
        let z0 = w0 + z1;
        assert(b == l3);
        lemma_add_empty(l3);
        lemma_assoc(l2, w2, z3);
        assert(b == l2 + z2);
        lemma_assoc(l1, w1, z2);
        assert(b == l1 + z1);
        lemma_assoc(l0, w0, z1);
        assert(b == l0 + z0);
        let a0 = Seq::<u8>::empty();
        let acc0 = TrafView::nothing();
        lemma_empty_add(z0);
        let a1 = a0 + w0;
        lemma_assoc(a0, w0, z1);
        lemma_window(a0, w0, z1);
        let acc1 = TrafParts { tfhd: Some(self.tfhd), ..acc0 };
        lemma_child_at(z0, a0.len() as int, w0, BoxType::TfhdBox, self.tfhd.size() as u64);
        assert(TrafView::scan(z0, a0.len() as int, acc0) == TrafView::scan(z0, a1.len() as int,
            acc1));
        let a2 = a1 + w1;
        lemma_assoc(a1, w1, z2);
        lemma_window(a1, w1, z2);
        let acc2 = TrafParts { tfdt: self.tfdt, ..acc1 };
        if self.tfdt is Some {
            lemma_child_at(z0, a1.len() as int, w1, BoxType::TfdtBox,
                self.tfdt.unwrap().size() as u64);
        } else {
            lemma_add_empty(a1);
            assert(acc2 == acc1);
        }
        assert(TrafView::scan(z0, a1.len() as int, acc1) == TrafView::scan(z0, a2.len() as int,
            acc2));
        let a3 = a2 + w2;
        lemma_assoc(a2, w2, z3);
        lemma_window(a2, w2, z3);
        let acc3 = TrafParts { trun: self.trun, ..acc2 };
        if self.trun is Some {
            lemma_child_at(z0, a2.len() as int, w2, BoxType::TrunBox,
                self.trun.unwrap().size() as u64);
        } else {
            lemma_add_empty(a2);
            assert(acc3 == acc2);
        }
        assert(TrafView::scan(z0, a2.len() as int, acc2) == TrafView::scan(z0, a3.len() as int,
            acc3));
        lemma_add_empty(a3);
        assert(z0 == a3);
        assert(TrafView::scan(z0, 0, acc0) == Ok::<TrafParts,
            ErrorKind>(TrafParts { tfhd: Some(self.tfhd), tfdt: self.tfdt, trun: self.trun }));
        lemma_plain_header(BoxType::TrafBox, size, z0);
    }
}

impl TrafBox {
    pub fn get_type(&self) -> (r: BoxType)
        ensures
            r == BoxType::TrafBox,
    {
        BoxType::TrafBox
    }

    /// The size of the box as written, saturating at `u64::MAX`.
    pub fn get_size(&self) -> (r: u64)
        ensures
            r == saturate(self@.size() as int),
    {
        reveal(TrafView::size);
        let mut total: u64 = 8;
        total = add_size(total, self.tfhd.get_size());
        if let Some(c) = &self.tfdt {
            total = add_size(total, c.get_size());
        }
        if let Some(c) = &self.trun {
            total = add_size(total, c.get_size());
        }
        total
    }

    /// Decodes the box of declared size `size` whose payload starts `src`.
    #[verifier::rlimit(50)]
    pub fn read_box(src: &[u8], size: u64) -> (r: Result<TrafBox, Error>)
        ensures
            decoded(r) == TrafView::read(payload(src@, size)),
    {
        let p = payload_of(src, size);
        let mut tfhd: Option<TfhdBox> = None;
        let mut tfdt: Option<TfdtBox> = None;
        let mut trun: Option<TrunBox> = None;
        let mut cur: usize = 0;

        while cur < p.len()
            invariant
                cur <= p@.len(),
                p@ == payload(src@, size),
                TrafView::scan(p@, cur as int, TrafParts { tfhd: opt_view(tfhd),
                    tfdt: opt_view(tfdt), trun: opt_view(trun) }) == TrafView::scan(p@, 0,
                    TrafView::nothing()),
            decreases p@.len() - cur,
        {
            let ch = match Child::next_child(p, cur) {
                Ok(c) => c,
                Err(e) => {
                    return Err(e);
                },
            };
            let body = ch.bytes(p);
            match ch.name {
                BoxType::TfhdBox => {
                    match TfhdBox::read_box(body, ch.size) {
                        Ok(b) => {
                            tfhd = Some(b);
                        },
                        Err(e) => {
                            return Err(e);
                        },
                    }
                },
                BoxType::TfdtBox => {
                    match TfdtBox::read_box(body, ch.size) {
                        Ok(b) => {
                            tfdt = Some(b);
                        },
                        Err(e) => {
                            return Err(e);
                        },
                    }
                },
                BoxType::TrunBox => {
                    match TrunBox::read_box(body, ch.size) {
                        Ok(b) => {
                            trun = Some(b);
                        },
                        Err(e) => {
                            return Err(e);
                        },
                    }
                },
                _ => {},
            }
            cur = ch.next;
        }
        let tfhd = match tfhd {
            Some(b) => b,
            None => {
                return Err(Error::BoxNotFound(BoxType::TfhdBox));
            },
        };
        let made = TrafBox { tfhd, tfdt, trun };
        assert(decoded(Ok::<TrafBox, Error>(made)) == TrafView::read(p@)) by {
            assert(made@ =~= TrafView::read(p@).unwrap());
        }
        Ok(made)
    }

    /// Appends the box to `out` and returns the number of bytes written;
    /// a box that is not well formed is refused and `out` left as it was.
    #[verifier::rlimit(50)]
    pub fn write_box(&self, out: &mut Vec<u8>) -> (r: Result<u64, Error>)
        ensures
            r is Ok <==> self@.well_formed(),
            r is Ok ==> r.unwrap() == self@.size() && final(out)@ == old(out)@ + self@.bytes()
                && self@.bytes().len() == self@.size(),
            r is Err ==> r.unwrap_err().spec_kind() == ErrorKind::InvalidData && final(out)@
                == old(out)@,
    {
        reveal(TrafView::size);
        reveal(TrafView::bytes);
        reveal(TrafView::well_formed);
        let mut body: Vec<u8> = Vec::new();
        match self.tfhd.write_box(&mut body) {
            Ok(_) => {},
            Err(e) => {
                return Err(e);
            },
        }
        let ghost b_tfhd = body@;
        assert(b_tfhd =~= Seq::<u8>::empty() + self@.tfhd.bytes());
        if let Some(c) = &self.tfdt {
            match c.write_box(&mut body) {
                Ok(_) => {},
                Err(e) => {
                    return Err(e);
                },
            }
        }
        let ghost b_tfdt = body@;
        assert(b_tfdt =~= b_tfhd + opt_bytes(self@.tfdt, TrafView::tfdt_bytes()));
        if let Some(c) = &self.trun {
            match c.write_box(&mut body) {
                Ok(_) => {},
                Err(e) => {
                    return Err(e);
                },
            }
        }
        let ghost b_trun = body@;
        assert(b_trun =~= b_tfdt + opt_bytes(self@.trun, TrafView::trun_bytes()));
        if body.len() > 0xFFFF_FFF7 {
            return Err(Error::InvalidData("traf box cannot be written"));
        }
        let size: u64 = 8 + body.len() as u64;
        BoxHeader::new(BoxType::TrafBox, size).write(out);
        put_bytes(out, body.as_slice());
        proof {
            let h = header_bytes(BoxType::TrafBox, size);
            lemma_add_empty(h);
            let l_0 = h;
            lemma_assoc(h, Seq::<u8>::empty(), self@.tfhd.bytes());
            let l_1 = l_0 + self@.tfhd.bytes();
            assert(h + b_tfhd == l_1);
            lemma_assoc(h, b_tfhd, opt_bytes(self@.tfdt, TrafView::tfdt_bytes()));
            let l_2 = l_1 + opt_bytes(self@.tfdt, TrafView::tfdt_bytes());
            assert(h + b_tfdt == l_2);
            lemma_assoc(h, b_tfdt, opt_bytes(self@.trun, TrafView::trun_bytes()));
            let l_3 = l_2 + opt_bytes(self@.trun, TrafView::trun_bytes());
            assert(h + b_trun == l_3);
            lemma_assoc(old(out)@, h, body@);
        }
        Ok(size)
    }
}

} // verus!

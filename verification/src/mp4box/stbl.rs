//! The sample table box: the tables that locate and time a track's samples.

use crate::codec::{add_size, put_bytes, saturate};
use crate::error::{Error, ErrorKind};
use crate::mp4box::header::{
    children_total, decoded, header_bytes, lemma_add_empty, lemma_assoc, lemma_children_tile,
    opt_bytes, opt_size, opt_view, payload, payload_of, BoxHeader, Child,
};
use crate::mp4box::co64::{Co64Box, Co64View};
use crate::mp4box::ctts::{CttsBox, CttsView};
use crate::mp4box::stco::{StcoBox, StcoView};
use crate::mp4box::stsc::{StscBox, StscView};
use crate::mp4box::stsd::{StsdBox, StsdView};
use crate::mp4box::stss::{StssBox, StssView};
use crate::mp4box::stsz::{StszBox, StszView};
use crate::mp4box::stts::{SttsBox, SttsView};
use crate::mp4box::BoxType;
use vstd::prelude::*;

verus! {

/// The sample table box: the tables that locate and time a track's samples.
#[derive(Debug, Clone, PartialEq, Eq, Default)]
pub struct StblBox {
    pub stsd: StsdBox,
    pub stts: SttsBox,
    pub ctts: Option<CttsBox>,
    pub stss: Option<StssBox>,
    pub stsc: StscBox,
    pub stsz: StszBox,
    pub stco: Option<StcoBox>,
    pub co64: Option<Co64Box>,
}

/// What a [`StblBox`] holds.
pub struct StblView {
    pub stsd: StsdView,
    pub stts: SttsView,
    pub ctts: Option<CttsView>,
    pub stss: Option<StssView>,
    pub stsc: StscView,
    pub stsz: StszView,
    pub stco: Option<StcoView>,
    pub co64: Option<Co64View>,
}

/// The children of a `stbl` box found so far in a walk over its payload.
pub struct StblParts {
    pub stsd: Option<StsdView>,
    pub stts: Option<SttsView>,
    pub ctts: Option<CttsView>,
    pub stss: Option<StssView>,
    pub stsc: Option<StscView>,
    pub stsz: Option<StszView>,
    pub stco: Option<StcoView>,
    pub co64: Option<Co64View>,
}

impl View for StblBox {
    type V = StblView;

    open spec fn view(&self) -> StblView {
        StblView { stsd: self.stsd@, stts: self.stts@, ctts: opt_view(self.ctts),
            stss: opt_view(self.stss), stsc: self.stsc@, stsz: self.stsz@,
            stco: opt_view(self.stco), co64: opt_view(self.co64) }
    }
}

impl StblView {
    /// No child found yet.
    pub open spec fn nothing() -> StblParts {
        StblParts { stsd: None, stts: None, ctts: None, stss: None, stsc: None, stsz: None,
            stco: None, co64: None }
    }

    /// The walk over the children of the payload `p` from `cur` on, with
    /// `acc` found before: a child of a type that the box names is decoded
    /// and kept, the last of a type winning; any other child is skipped.
    pub open spec fn scan(p: Seq<u8>, cur: int, acc: StblParts) -> Result<StblParts, ErrorKind>
        decreases p.len() - cur,
    {
        if cur < 0 || cur >= p.len() {
            Ok(acc)
        } else {
            match Child::spec_next(p, cur) {
                Err(e) => Err(e),
                Ok(ch) => if ch.name == BoxType::StsdBox {
                    match StsdView::read(ch.bytes(p)) {
                        Err(e) => Err(e),
                        Ok(b) => StblView::scan(p, ch.next, StblParts { stsd: Some(b), ..acc }),
                    }
                } else if ch.name == BoxType::SttsBox {
                    match SttsView::read(ch.bytes(p)) {
                        Err(e) => Err(e),
                        Ok(b) => StblView::scan(p, ch.next, StblParts { stts: Some(b), ..acc }),
                    }
                } else if ch.name == BoxType::CttsBox {
                    match CttsView::read(ch.bytes(p)) {
                        Err(e) => Err(e),
                        Ok(b) => StblView::scan(p, ch.next, StblParts { ctts: Some(b), ..acc }),
                    }
                } else if ch.name == BoxType::StssBox {
                    match StssView::read(ch.bytes(p)) {
                        Err(e) => Err(e),
                        Ok(b) => StblView::scan(p, ch.next, StblParts { stss: Some(b), ..acc }),
                    }
                } else if ch.name == BoxType::StscBox {
                    match StscView::read(ch.bytes(p)) {
                        Err(e) => Err(e),
                        Ok(b) => StblView::scan(p, ch.next, StblParts { stsc: Some(b), ..acc }),
                    }
                } else if ch.name == BoxType::StszBox {
                    match StszView::read(ch.bytes(p)) {
                        Err(e) => Err(e),
                        Ok(b) => StblView::scan(p, ch.next, StblParts { stsz: Some(b), ..acc }),
                    }
                } else if ch.name == BoxType::StcoBox {
                    match StcoView::read(ch.bytes(p)) {
                        Err(e) => Err(e),
                        Ok(b) => StblView::scan(p, ch.next, StblParts { stco: Some(b), ..acc }),
                    }
                } else if ch.name == BoxType::Co64Box {
                    match Co64View::read(ch.bytes(p)) {
                        Err(e) => Err(e),
                        Ok(b) => StblView::scan(p, ch.next, StblParts { co64: Some(b), ..acc }),
                    }
                } else {
                    StblView::scan(p, ch.next, acc)
                },
            }
        }
    }

    /// Whether the walk keeps children of the type `name`.
    pub open spec fn names(name: BoxType) -> bool {
        name == BoxType::StsdBox || name == BoxType::SttsBox || name == BoxType::CttsBox || name
            == BoxType::StssBox || name == BoxType::StscBox || name == BoxType::StszBox || name
            == BoxType::StcoBox || name == BoxType::Co64Box
    }

    /// A child of a type that the box does not name is skipped: the walk
    /// goes on behind it with what was found before.
    pub proof fn lemma_unknown_child_skipped(p: Seq<u8>, cur: int, acc: StblParts)
        requires
            0 <= cur < p.len(),
            Child::spec_next(p, cur) is Ok,
            !StblView::names(Child::spec_next(p, cur).unwrap().name),
        ensures
            StblView::scan(p, cur, acc) == StblView::scan(p, Child::spec_next(p,
                cur).unwrap().next, acc),
    {
    }

    /// Where the walk succeeds, the children tile the payload: their
    /// declared sizes add up to its length.
    pub proof fn lemma_children_tile(p: Seq<u8>, cur: int, acc: StblParts)
        requires
            0 <= cur <= p.len(),
            StblView::scan(p, cur, acc) is Ok,
        ensures
            children_total(p, cur) == Some(p.len() - cur),
        decreases p.len() - cur,
    {
        if cur < p.len() {
            let ch = Child::spec_next(p, cur).unwrap();
            if ch.name == BoxType::StsdBox {
                let b = StsdView::read(ch.bytes(p)).unwrap();
                StblView::lemma_children_tile(p, ch.next, StblParts { stsd: Some(b), ..acc });
            } else if ch.name == BoxType::SttsBox {
                let b = SttsView::read(ch.bytes(p)).unwrap();
                StblView::lemma_children_tile(p, ch.next, StblParts { stts: Some(b), ..acc });
            } else if ch.name == BoxType::CttsBox {
                let b = CttsView::read(ch.bytes(p)).unwrap();
                StblView::lemma_children_tile(p, ch.next, StblParts { ctts: Some(b), ..acc });
            } else if ch.name == BoxType::StssBox {
                let b = StssView::read(ch.bytes(p)).unwrap();
                StblView::lemma_children_tile(p, ch.next, StblParts { stss: Some(b), ..acc });
            } else if ch.name == BoxType::StscBox {
                let b = StscView::read(ch.bytes(p)).unwrap();
                StblView::lemma_children_tile(p, ch.next, StblParts { stsc: Some(b), ..acc });
            } else if ch.name == BoxType::StszBox {
                let b = StszView::read(ch.bytes(p)).unwrap();
                StblView::lemma_children_tile(p, ch.next, StblParts { stsz: Some(b), ..acc });
            } else if ch.name == BoxType::StcoBox {
                let b = StcoView::read(ch.bytes(p)).unwrap();
                StblView::lemma_children_tile(p, ch.next, StblParts { stco: Some(b), ..acc });
            } else if ch.name == BoxType::Co64Box {
                let b = Co64View::read(ch.bytes(p)).unwrap();
                StblView::lemma_children_tile(p, ch.next, StblParts { co64: Some(b), ..acc });
            } else {
                StblView::lemma_children_tile(p, ch.next, acc);
            }
            lemma_children_tile(p, cur);
        }
    }

    /// The box that the payload `p` holds.
    pub open spec fn read(p: Seq<u8>) -> Result<StblView, ErrorKind> {
        match StblView::scan(p, 0, StblView::nothing()) {
            Err(e) => Err(e),
            Ok(parts) => if parts.stsd is None {
                Err(ErrorKind::BoxNotFound(BoxType::StsdBox))
            } else if parts.stts is None {
                Err(ErrorKind::BoxNotFound(BoxType::SttsBox))
            } else if parts.stsc is None {
                Err(ErrorKind::BoxNotFound(BoxType::StscBox))
            } else if parts.stsz is None {
                Err(ErrorKind::BoxNotFound(BoxType::StszBox))
            } else if parts.stco is None && parts.co64 is None {
                Err(ErrorKind::Box2NotFound(BoxType::StcoBox, BoxType::Co64Box))
            } else {
                Ok(
                    StblView {
                        stsd: parts.stsd.unwrap(),
                        stts: parts.stts.unwrap(),
                        ctts: parts.ctts,
                        stss: parts.stss,
                        stsc: parts.stsc.unwrap(),
                        stsz: parts.stsz.unwrap(),
                        stco: parts.stco,
                        co64: parts.co64,
                    },
                )
            },
        }
    }

    /// The written size of a `ctts` child.
    pub open spec fn ctts_size() -> spec_fn(CttsView) -> nat {
        |c: CttsView| c.size()
    }

    /// The written bytes of a `ctts` child.
    pub open spec fn ctts_bytes() -> spec_fn(CttsView) -> Seq<u8> {
        |c: CttsView| c.bytes()
    }

    /// The written size of a `stss` child.
    pub open spec fn stss_size() -> spec_fn(StssView) -> nat {
        |c: StssView| c.size()
    }

    /// The written bytes of a `stss` child.
    pub open spec fn stss_bytes() -> spec_fn(StssView) -> Seq<u8> {
        |c: StssView| c.bytes()
    }

    /// The written size of a `stco` child.
    pub open spec fn stco_size() -> spec_fn(StcoView) -> nat {
        |c: StcoView| c.size()
    }

    /// The written bytes of a `stco` child.
    pub open spec fn stco_bytes() -> spec_fn(StcoView) -> Seq<u8> {
        |c: StcoView| c.bytes()
    }

    /// The written size of a `co64` child.
    pub open spec fn co64_size() -> spec_fn(Co64View) -> nat {
        |c: Co64View| c.size()
    }

    /// The written bytes of a `co64` child.
    pub open spec fn co64_bytes() -> spec_fn(Co64View) -> Seq<u8> {
        |c: Co64View| c.bytes()
    }

    /// The number of bytes that the box is written as.
    #[verifier::opaque]
    pub open spec fn size(self) -> nat {
        8 + self.stsd.size() + self.stts.size() + opt_size(self.ctts, StblView::ctts_size())
            + opt_size(self.stss, StblView::stss_size()) + self.stsc.size() + self.stsz.size()
            + opt_size(self.stco, StblView::stco_size()) + opt_size(self.co64,
            StblView::co64_size())
    }

    /// The box can be written: each child can, and the size fits 32 bits.
    #[verifier::opaque]
    pub open spec fn well_formed(self) -> bool {
        &&& self.stsd.well_formed()
        &&& self.stts.well_formed()
        &&& self.ctts is Some ==> self.ctts.unwrap().well_formed()
        &&& self.stss is Some ==> self.stss.unwrap().well_formed()
        &&& self.stsc.well_formed()
        &&& self.stsz.well_formed()
        &&& self.stco is Some ==> self.stco.unwrap().well_formed()
        &&& self.co64 is Some ==> self.co64.unwrap().well_formed()
        &&& self.size() <= u32::MAX
    }

    /// The box as it is written: its header, then its children in order.
    #[verifier::opaque]
    pub open spec fn bytes(self) -> Seq<u8> {
        header_bytes(BoxType::StblBox, self.size() as u64) + self.stsd.bytes()
            + self.stts.bytes() + opt_bytes(self.ctts, StblView::ctts_bytes())
            + opt_bytes(self.stss, StblView::stss_bytes()) + self.stsc.bytes()
            + self.stsz.bytes() + opt_bytes(self.stco, StblView::stco_bytes())
            + opt_bytes(self.co64, StblView::co64_bytes())
    }
}

impl StblBox {
    pub fn get_type(&self) -> (r: BoxType)
        ensures
            r == BoxType::StblBox,
    {
        BoxType::StblBox
    }

    /// The size of the box as written, saturating at `u64::MAX`.
    pub fn get_size(&self) -> (r: u64)
        ensures
            r == saturate(self@.size() as int),
    {
        reveal(StblView::size);
        let mut total: u64 = 8;
        total = add_size(total, self.stsd.get_size());
        total = add_size(total, self.stts.get_size());
        if let Some(c) = &self.ctts {
            total = add_size(total, c.get_size());
        }
        if let Some(c) = &self.stss {
            total = add_size(total, c.get_size());
        }
        total = add_size(total, self.stsc.get_size());
        total = add_size(total, self.stsz.get_size());
        if let Some(c) = &self.stco {
            total = add_size(total, c.get_size());
        }
        if let Some(c) = &self.co64 {
            total = add_size(total, c.get_size());
        }
        total
    }

    /// Decodes the box of declared size `size` whose payload starts `src`.
    #[verifier::rlimit(50)]
    pub fn read_box(src: &[u8], size: u64) -> (r: Result<StblBox, Error>)
        ensures
            decoded(r) == StblView::read(payload(src@, size)),
    {
        let p = payload_of(src, size);
        let mut stsd: Option<StsdBox> = None;
        let mut stts: Option<SttsBox> = None;
        let mut ctts: Option<CttsBox> = None;
        let mut stss: Option<StssBox> = None;
        let mut stsc: Option<StscBox> = None;
        let mut stsz: Option<StszBox> = None;
        let mut stco: Option<StcoBox> = None;
        let mut co64: Option<Co64Box> = None;
        let mut cur: usize = 0;

        while cur < p.len()
            invariant
                cur <= p@.len(),
                p@ == payload(src@, size),
                StblView::scan(p@, cur as int, StblParts { stsd: opt_view(stsd),
                    stts: opt_view(stts), ctts: opt_view(ctts), stss: opt_view(stss),
                    stsc: opt_view(stsc), stsz: opt_view(stsz), stco: opt_view(stco),
                    co64: opt_view(co64) }) == StblView::scan(p@, 0, StblView::nothing()),
            decreases p@.len() - cur,
        {
            let ch = match Child::next_child(p, cur) {
                Ok(c) => c,
                Err(e) => {
                    return Err(e);
                },
            };
            let body = ch.bytes(p);
            match ch.name {
                BoxType::StsdBox => {
                    match StsdBox::read_box(body, ch.size) {
                        Ok(b) => {
                            stsd = Some(b);
                        },
                        Err(e) => {
                            return Err(e);
                        },
                    }
                },
                BoxType::SttsBox => {
                    match SttsBox::read_box(body, ch.size) {
                        Ok(b) => {
                            stts = Some(b);
                        },
                        Err(e) => {
                            return Err(e);
                        },
                    }
                },
                BoxType::CttsBox => {
                    match CttsBox::read_box(body, ch.size) {
                        Ok(b) => {
                            ctts = Some(b);
                        },
                        Err(e) => {
                            return Err(e);
                        },
                    }
                },
                BoxType::StssBox => {
                    match StssBox::read_box(body, ch.size) {
                        Ok(b) => {
                            stss = Some(b);
                        },
                        Err(e) => {
                            return Err(e);
                        },
                    }
                },
                BoxType::StscBox => {
                    match StscBox::read_box(body, ch.size) {
                        Ok(b) => {
                            stsc = Some(b);
                        },
                        Err(e) => {
                            return Err(e);
                        },
                    }
                },
                BoxType::StszBox => {
                    match StszBox::read_box(body, ch.size) {
                        Ok(b) => {
                            stsz = Some(b);
                        },
                        Err(e) => {
                            return Err(e);
                        },
                    }
                },
                BoxType::StcoBox => {
                    match StcoBox::read_box(body, ch.size) {
                        Ok(b) => {
                            stco = Some(b);
                        },
                        Err(e) => {
                            return Err(e);
                        },
                    }
                },
                BoxType::Co64Box => {
                    match Co64Box::read_box(body, ch.size) {
                        Ok(b) => {
                            co64 = Some(b);
                        },
                        Err(e) => {
                            return Err(e);
                        },
                    }
                },
                _ => {},
            }
            cur = ch.next;
        }
        let stsd = match stsd {
            Some(b) => b,
            None => {
                return Err(Error::BoxNotFound(BoxType::StsdBox));
            },
        };
        let stts = match stts {
            Some(b) => b,
            None => {
                return Err(Error::BoxNotFound(BoxType::SttsBox));
            },
        };
        let stsc = match stsc {
            Some(b) => b,
            None => {
                return Err(Error::BoxNotFound(BoxType::StscBox));
            },
        };
        let stsz = match stsz {
            Some(b) => b,
            None => {
                return Err(Error::BoxNotFound(BoxType::StszBox));
            },
        };
        if stco.is_none() && co64.is_none() {
            return Err(Error::Box2NotFound(BoxType::StcoBox, BoxType::Co64Box));
        }
        let made = StblBox { stsd, stts, ctts, stss, stsc, stsz, stco, co64 };
        assert(decoded(Ok::<StblBox, Error>(made)) == StblView::read(p@)) by {
            assert(made@ =~= StblView::read(p@).unwrap());
        }
        Ok(made)
    }

    /// Appends the box to `out` and returns the number of bytes written;
    /// a box that is not well formed is refused and `out` left as it was.
    #[verifier::rlimit(50)]
    pub fn write_box(&self, out: &mut Vec<u8>) -> (r: Result<u64, Error>)
        ensures
            r is Ok <==> self@.well_formed(),
            r is Ok ==> r.unwrap() == self@.size() && final(out)@ == old(out)@ + self@.bytes()
                && self@.bytes().len() == self@.size(),
            r is Err ==> r.unwrap_err().spec_kind() == ErrorKind::InvalidData && final(out)@
                == old(out)@,
    {
        reveal(StblView::size);
        reveal(StblView::bytes);
        reveal(StblView::well_formed);
        let mut body: Vec<u8> = Vec::new();
        match self.stsd.write_box(&mut body) {
            Ok(_) => {},
            Err(e) => {
                return Err(e);
            },
        }
        let ghost b_stsd = body@;
        assert(b_stsd =~= Seq::<u8>::empty() + self@.stsd.bytes());
        match self.stts.write_box(&mut body) {
            Ok(_) => {},
            Err(e) => {
                return Err(e);
            },
        }
        let ghost b_stts = body@;
        assert(b_stts =~= b_stsd + self@.stts.bytes());
        if let Some(c) = &self.ctts {
            match c.write_box(&mut body) {
                Ok(_) => {},
                Err(e) => {
                    return Err(e);
                },
            }
        }
        let ghost b_ctts = body@;
        assert(b_ctts =~= b_stts + opt_bytes(self@.ctts, StblView::ctts_bytes()));
        if let Some(c) = &self.stss {
            match c.write_box(&mut body) {
                Ok(_) => {},
                Err(e) => {
                    return Err(e);
                },
            }
        }
        let ghost b_stss = body@;
        assert(b_stss =~= b_ctts + opt_bytes(self@.stss, StblView::stss_bytes()));
        match self.stsc.write_box(&mut body) {
            Ok(_) => {},
            Err(e) => {
                return Err(e);
            },
        }
        let ghost b_stsc = body@;
        assert(b_stsc =~= b_stss + self@.stsc.bytes());
        match self.stsz.write_box(&mut body) {
            Ok(_) => {},
            Err(e) => {
                return Err(e);
            },
        }
        let ghost b_stsz = body@;
        assert(b_stsz =~= b_stsc + self@.stsz.bytes());
        if let Some(c) = &self.stco {
            match c.write_box(&mut body) {
                Ok(_) => {},
                Err(e) => {
                    return Err(e);
                },
            }
        }
        let ghost b_stco = body@;
        assert(b_stco =~= b_stsz + opt_bytes(self@.stco, StblView::stco_bytes()));
        if let Some(c) = &self.co64 {
            match c.write_box(&mut body) {
                Ok(_) => {},
                Err(e) => {
                    return Err(e);
                },
            }
        }
        let ghost b_co64 = body@;
        assert(b_co64 =~= b_stco + opt_bytes(self@.co64, StblView::co64_bytes()));
        if body.len() > 0xFFFF_FFF7 {
            return Err(Error::InvalidData("stbl box cannot be written"));
        }
        let size: u64 = 8 + body.len() as u64;
        BoxHeader::new(BoxType::StblBox, size).write(out);
        put_bytes(out, body.as_slice());
        proof {
            let h = header_bytes(BoxType::StblBox, size);
            lemma_add_empty(h);
            let l_0 = h;
            lemma_assoc(h, Seq::<u8>::empty(), self@.stsd.bytes());
            let l_1 = l_0 + self@.stsd.bytes();
            assert(h + b_stsd == l_1);
            lemma_assoc(h, b_stsd, self@.stts.bytes());
            let l_2 = l_1 + self@.stts.bytes();
            assert(h + b_stts == l_2);
            lemma_assoc(h, b_stts, opt_bytes(self@.ctts, StblView::ctts_bytes()));
            let l_3 = l_2 + opt_bytes(self@.ctts, StblView::ctts_bytes());
            assert(h + b_ctts == l_3);
            lemma_assoc(h, b_ctts, opt_bytes(self@.stss, StblView::stss_bytes()));
            let l_4 = l_3 + opt_bytes(self@.stss, StblView::stss_bytes());
            assert(h + b_stss == l_4);
            lemma_assoc(h, b_stss, self@.stsc.bytes());
            let l_5 = l_4 + self@.stsc.bytes();
            assert(h + b_stsc == l_5);
            lemma_assoc(h, b_stsc, self@.stsz.bytes());
            let l_6 = l_5 + self@.stsz.bytes();
            assert(h + b_stsz == l_6);
            lemma_assoc(h, b_stsz, opt_bytes(self@.stco, StblView::stco_bytes()));
            let l_7 = l_6 + opt_bytes(self@.stco, StblView::stco_bytes());
            assert(h + b_stco == l_7);
            lemma_assoc(h, b_stco, opt_bytes(self@.co64, StblView::co64_bytes()));
            let l_8 = l_7 + opt_bytes(self@.co64, StblView::co64_bytes());
            assert(h + b_co64 == l_8);
            lemma_assoc(old(out)@, h, body@);
        }
        Ok(size)
    }
}

} // verus!

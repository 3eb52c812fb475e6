//! The media information box: the media header of a track and its sample table.

use crate::codec::{add_size, put_bytes, saturate};
use crate::error::{Error, ErrorKind};
use crate::mp4box::header::{
    children_total, decoded, header_bytes, lemma_add_empty, lemma_assoc, lemma_child_at,
    lemma_children_tile, lemma_empty_add, lemma_plain_header, lemma_window, opt_bytes, opt_size,
    opt_view, payload, payload_of, BoxHeader, Child,
};
use crate::mp4box::smhd::SmhdBox;
use crate::mp4box::stbl::{StblBox, StblView};
use crate::mp4box::vmhd::VmhdBox;
use crate::mp4box::BoxType;
use vstd::prelude::*;

verus! {

/// The media information box: the media header of a track and its sample table.
#[derive(Debug, Clone, PartialEq, Eq, Default)]
pub struct MinfBox {
    pub vmhd: Option<VmhdBox>,
    pub smhd: Option<SmhdBox>,
    pub stbl: StblBox,
}

/// What a [`MinfBox`] holds.
pub struct MinfView {
    pub vmhd: Option<VmhdBox>,
    pub smhd: Option<SmhdBox>,
    pub stbl: StblView,
}

/// The children of a `minf` box found so far in a walk over its payload.
pub struct MinfParts {
    pub vmhd: Option<VmhdBox>,
    pub smhd: Option<SmhdBox>,
    pub stbl: Option<StblView>,
}

impl View for MinfBox {
    type V = MinfView;

    open spec fn view(&self) -> MinfView {
        MinfView { vmhd: opt_view(self.vmhd), smhd: opt_view(self.smhd), stbl: self.stbl@ }
    }
}

impl MinfView {
    /// No child found yet.
    pub open spec fn nothing() -> MinfParts {
        MinfParts { vmhd: None, smhd: None, stbl: None }
    }

    /// The walk over the children of the payload `p` from `cur` on, with
    /// `acc` found before: a child of a type that the box names is decoded
    /// and kept, the last of a type winning; any other child is skipped.
    pub open spec fn scan(p: Seq<u8>, cur: int, acc: MinfParts) -> Result<MinfParts, ErrorKind>
        decreases p.len() - cur,
    {
        if cur < 0 || cur >= p.len() {
            Ok(acc)
        } else {
            match Child::spec_next(p, cur) {
                Err(e) => Err(e),
                Ok(ch) => if ch.name == BoxType::VmhdBox {
                    match VmhdBox::read(ch.bytes(p)) {
                        Err(e) => Err(e),
                        Ok(b) => MinfView::scan(p, ch.next, MinfParts { vmhd: Some(b), ..acc }),
                    }
                } else if ch.name == BoxType::SmhdBox {
                    match SmhdBox::read(ch.bytes(p)) {
                        Err(e) => Err(e),
                        Ok(b) => MinfView::scan(p, ch.next, MinfParts { smhd: Some(b), ..acc }),
                    }
                } else if ch.name == BoxType::StblBox {
                    match StblView::read(ch.bytes(p)) {
                        Err(e) => Err(e),
                        Ok(b) => MinfView::scan(p, ch.next, MinfParts { stbl: Some(b), ..acc }),
                    }
                } else {
                    MinfView::scan(p, ch.next, acc)
                },
            }
        }
    }

    /// Whether the walk keeps children of the type `name`.
    pub open spec fn names(name: BoxType) -> bool {
        name == BoxType::VmhdBox || name == BoxType::SmhdBox || name == BoxType::StblBox
    }

    /// A child of a type that the box does not name is skipped: the walk
    /// goes on behind it with what was found before.
    pub proof fn lemma_unknown_child_skipped(p: Seq<u8>, cur: int, acc: MinfParts)
        requires
            0 <= cur < p.len(),
            Child::spec_next(p, cur) is Ok,
            !MinfView::names(Child::spec_next(p, cur).unwrap().name),
        ensures
            MinfView::scan(p, cur, acc) == MinfView::scan(p, Child::spec_next(p,
                cur).unwrap().next, acc),
    {
    }

    /// Where the walk succeeds, the children tile the payload: their
    /// declared sizes add up to its length.
    pub proof fn lemma_children_tile(p: Seq<u8>, cur: int, acc: MinfParts)
        requires
            0 <= cur <= p.len(),
            MinfView::scan(p, cur, acc) is Ok,
        ensures
            children_total(p, cur) == Some(p.len() - cur),
        decreases p.len() - cur,
    {
        if cur < p.len() {
            let ch = Child::spec_next(p, cur).unwrap();
            if ch.name == BoxType::VmhdBox {
                let b = VmhdBox::read(ch.bytes(p)).unwrap();
                MinfView::lemma_children_tile(p, ch.next, MinfParts { vmhd: Some(b), ..acc });
            } else if ch.name == BoxType::SmhdBox {
                let b = SmhdBox::read(ch.bytes(p)).unwrap();
                MinfView::lemma_children_tile(p, ch.next, MinfParts { smhd: Some(b), ..acc });
            } else if ch.name == BoxType::StblBox {
                let b = StblView::read(ch.bytes(p)).unwrap();
                MinfView::lemma_children_tile(p, ch.next, MinfParts { stbl: Some(b), ..acc });
            } else {
                MinfView::lemma_children_tile(p, ch.next, acc);
            }
            lemma_children_tile(p, cur);
        }
    }

    /// The box that the payload `p` holds.
    pub open spec fn read(p: Seq<u8>) -> Result<MinfView, ErrorKind> {
        match MinfView::scan(p, 0, MinfView::nothing()) {
            Err(e) => Err(e),
            Ok(parts) => if parts.stbl is None {
                Err(ErrorKind::BoxNotFound(BoxType::StblBox))
            } else {
                Ok(
                    MinfView {
                        vmhd: parts.vmhd,
                        smhd: parts.smhd,
                        stbl: parts.stbl.unwrap(),
                    },
                )
            },
        }
    }

    /// The written size of a `vmhd` child.
    pub open spec fn vmhd_size() -> spec_fn(VmhdBox) -> nat {
        |c: VmhdBox| c.size()
    }

    /// The written bytes of a `vmhd` child.
    pub open spec fn vmhd_bytes() -> spec_fn(VmhdBox) -> Seq<u8> {
        |c: VmhdBox| c.bytes()
    }

    /// The written size of a `smhd` child.
    pub open spec fn smhd_size() -> spec_fn(SmhdBox) -> nat {
        |c: SmhdBox| c.size()
    }

    /// The written bytes of a `smhd` child.
    pub open spec fn smhd_bytes() -> spec_fn(SmhdBox) -> Seq<u8> {
        |c: SmhdBox| c.bytes()
    }

    /// The number of bytes that the box is written as.
    #[verifier::opaque]
    pub open spec fn size(self) -> nat {
        8 + opt_size(self.vmhd, MinfView::vmhd_size()) + opt_size(self.smhd,
            MinfView::smhd_size()) + self.stbl.size()
    }

    /// The box can be written: each child can, and the size fits 32 bits.
    #[verifier::opaque]
    pub open spec fn well_formed(self) -> bool {
        &&& self.vmhd is Some ==> self.vmhd.unwrap().well_formed()
        &&& self.smhd is Some ==> self.smhd.unwrap().well_formed()
        &&& self.stbl.well_formed()
        &&& self.size() <= u32::MAX
    }

    /// The box as it is written: its header, then its children in order.
    #[verifier::opaque]
    pub open spec fn bytes(self) -> Seq<u8> {
        header_bytes(BoxType::MinfBox, self.size() as u64) + opt_bytes(self.vmhd,
            MinfView::vmhd_bytes()) + opt_bytes(self.smhd, MinfView::smhd_bytes())
            + self.stbl.bytes()
    }

    /// Each child of the box reads back from what it is written as.
    pub open spec fn children_read_back(self) -> bool {
        &&& self.vmhd is Some ==> self.vmhd.unwrap().bytes().len() == self.vmhd.unwrap().size()
            && BoxHeader::spec_read(self.vmhd.unwrap().bytes(), 0) == Ok::<BoxHeader,
            ErrorKind>(BoxHeader { name: BoxType::VmhdBox, size: self.vmhd.unwrap().size() as u64,
            header_len: 8 }) && VmhdBox::read(self.vmhd.unwrap().bytes().skip(8)) == Ok::<VmhdBox,
            ErrorKind>(self.vmhd.unwrap())
        &&& self.smhd is Some ==> self.smhd.unwrap().bytes().len() == self.smhd.unwrap().size()
            && BoxHeader::spec_read(self.smhd.unwrap().bytes(), 0) == Ok::<BoxHeader,
            ErrorKind>(BoxHeader { name: BoxType::SmhdBox, size: self.smhd.unwrap().size() as u64,
            header_len: 8 }) && SmhdBox::read(self.smhd.unwrap().bytes().skip(8)) == Ok::<SmhdBox,
            ErrorKind>(self.smhd.unwrap())
        &&& self.stbl.bytes().len() == self.stbl.size() && BoxHeader::spec_read(self.stbl.bytes(),
            0) == Ok::<BoxHeader, ErrorKind>(BoxHeader { name: BoxType::StblBox,
            size: self.stbl.size() as u64, header_len: 8 })
            && StblView::read(self.stbl.bytes().skip(8)) == Ok::<StblView, ErrorKind>(self.stbl)
    }

    /// Decoding what a well-formed box is written as gives the box back,
    /// where each of its children reads back.
    #[verifier::rlimit(50)]
    pub proof fn lemma_round_trip(self)
        requires
            self.well_formed(),
            self.children_read_back(),
        ensures
            self.bytes().len() == self.size(),
            BoxHeader::spec_read(self.bytes(), 0) == Ok::<BoxHeader, ErrorKind>(
                BoxHeader { name: BoxType::MinfBox, size: self.size() as u64, header_len: 8 },
            ),
            MinfView::read(self.bytes().skip(8)) == Ok::<MinfView, ErrorKind>(self),
    {
        reveal(MinfView::size);
        reveal(MinfView::bytes);
        reveal(MinfView::well_formed);
        let b = self.bytes();
        let size = self.size() as u64;
        let h = header_bytes(BoxType::MinfBox, size);
        let w0 = opt_bytes(self.vmhd, MinfView::vmhd_bytes());
        let w1 = opt_bytes(self.smhd, MinfView::smhd_bytes());
        let w2 = self.stbl.bytes();
        let l0 = h;
        let l1 = l0 + w0;
        let l2 = l1 + w1;
        let l3 = l2 + w2;
        let z3 = Seq::<u8>::empty();
        let z2 = w2 + z3;
        let z1 = w1 + z2;
        let z0 = w0 + z1;
        assert(b == l3);
        lemma_add_empty(l3);
        lemma_assoc(l2, w2, z3);
        assert(b == l2 + z2);
        lemma_assoc(l1, w1, z2);
        assert(b == l1 + z1);
        lemma_assoc(l0, w0, z1);
        assert(b == l0 + z0);
        let a0 = Seq::<u8>::empty();
        let acc0 = MinfView::nothing();
        lemma_empty_add(z0);
        let a1 = a0 + w0;
        lemma_assoc(a0, w0, z1);
        lemma_window(a0, w0, z1);
        let acc1 = MinfParts { vmhd: self.vmhd, ..acc0 };
        if self.vmhd is Some {
            lemma_child_at(z0, a0.len() as int, w0, BoxType::VmhdBox,
                self.vmhd.unwrap().size() as u64);
        } else {
            lemma_add_empty(a0);
            assert(acc1 == acc0);
        }
        assert(MinfView::scan(z0, a0.len() as int, acc0) == MinfView::scan(z0, a1.len() as int,
            acc1));
        let a2 = a1 + w1;
        lemma_assoc(a1, w1, z2);
        lemma_window(a1, w1, z2);
        let acc2 = MinfParts { smhd: self.smhd, ..acc1 };
        if self.smhd is Some {
            lemma_child_at(z0, a1.len() as int, w1, BoxType::SmhdBox,
                self.smhd.unwrap().size() as u64);
        } else {
            lemma_add_empty(a1);
            assert(acc2 == acc1);
        }
        assert(MinfView::scan(z0, a1.len() as int, acc1) == MinfView::scan(z0, a2.len() as int,
            acc2));
        let a3 = a2 + w2;
        lemma_assoc(a2, w2, z3);
        lemma_window(a2, w2, z3);
        let acc3 = MinfParts { stbl: Some(self.stbl), ..acc2 };
        lemma_child_at(z0, a2.len() as int, w2, BoxType::StblBox, self.stbl.size() as u64);
        assert(MinfView::scan(z0, a2.len() as int, acc2) == MinfView::scan(z0, a3.len() as int,
            acc3));
        lemma_add_empty(a3);
        assert(z0 == a3);
        assert(MinfView::scan(z0, 0, acc0) == Ok::<MinfParts,
            ErrorKind>(MinfParts { vmhd: self.vmhd, smhd: self.smhd, stbl: Some(self.stbl) }));
        lemma_plain_header(BoxType::MinfBox, size, z0);
    }
}

impl MinfBox {
    pub fn get_type(&self) -> (r: BoxType)
        ensures
            r == BoxType::MinfBox,
    {
        BoxType::MinfBox
    }

    /// The size of the box as written, saturating at `u64::MAX`.
    pub fn get_size(&self) -> (r: u64)
        ensures
            r == saturate(self@.size() as int),
    {
        reveal(MinfView::size);
        let mut total: u64 = 8;
        if let Some(c) = &self.vmhd {
            total = add_size(total, c.get_size());
        }
        if let Some(c) = &self.smhd {
            total = add_size(total, c.get_size());
        }
        total = add_size(total, self.stbl.get_size());
        total
    }

    /// Decodes the box of declared size `size` whose payload starts `src`.
    #[verifier::rlimit(50)]
    pub fn read_box(src: &[u8], size: u64) -> (r: Result<MinfBox, Error>)
        ensures
            decoded(r) == MinfView::read(payload(src@, size)),
    {
        let p = payload_of(src, size);
        let mut vmhd: Option<VmhdBox> = None;
        let mut smhd: Option<SmhdBox> = None;
        let mut stbl: Option<StblBox> = None;
        let mut cur: usize = 0;

        while cur < p.len()
            invariant
                cur <= p@.len(),
                p@ == payload(src@, size),
                MinfView::scan(p@, cur as int, MinfParts { vmhd: opt_view(vmhd),
                    smhd: opt_view(smhd), stbl: opt_view(stbl) }) == MinfView::scan(p@, 0,
                    MinfView::nothing()),
            decreases p@.len() - cur,
        {
            let ch = match Child::next_child(p, cur) {
                Ok(c) => c,
                Err(e) => {
                    return Err(e);
                },
            };
            let body = ch.bytes(p);
            match ch.name {
                BoxType::VmhdBox => {
                    match VmhdBox::read_box(body, ch.size) {
                        Ok(b) => {
                            vmhd = Some(b);
                        },
                        Err(e) => {
                            return Err(e);
                        },
                    }
                },
                BoxType::SmhdBox => {
                    match SmhdBox::read_box(body, ch.size) {
                        Ok(b) => {
                            smhd = Some(b);
                        },
                        Err(e) => {
                            return Err(e);
                        },
                    }
                },
                BoxType::StblBox => {
                    match StblBox::read_box(body, ch.size) {
                        Ok(b) => {
                            stbl = Some(b);
                        },
                        Err(e) => {
                            return Err(e);
                        },
                    }
                },
                _ => {},
            }
            cur = ch.next;
        }
        let stbl = match stbl {
            Some(b) => b,
            None => {
                return Err(Error::BoxNotFound(BoxType::StblBox));
            },
        };
        let made = MinfBox { vmhd, smhd, stbl };
        assert(decoded(Ok::<MinfBox, Error>(made)) == MinfView::read(p@)) by {
            assert(made@ =~= MinfView::read(p@).unwrap());
        }
        Ok(made)
    }

    /// Appends the box to `out` and returns the number of bytes written;
    /// a box that is not well formed is refused and `out` left as it was.
    #[verifier::rlimit(50)]
    pub fn write_box(&self, out: &mut Vec<u8>) -> (r: Result<u64, Error>)
        ensures
            r is Ok <==> self@.well_formed(),
            r is Ok ==> r.unwrap() == self@.size() && final(out)@ == old(out)@ + self@.bytes()
                && self@.bytes().len() == self@.size(),
            r is Err ==> r.unwrap_err().spec_kind() == ErrorKind::InvalidData && final(out)@
                == old(out)@,
    {
        reveal(MinfView::size);
        reveal(MinfView::bytes);
        reveal(MinfView::well_formed);
        let mut body: Vec<u8> = Vec::new();
        if let Some(c) = &self.vmhd {
            match c.write_box(&mut body) {
                Ok(_) => {},
                Err(e) => {
                    return Err(e);
                },
            }
        }
        let ghost b_vmhd = body@;
        assert(b_vmhd =~= Seq::<u8>::empty() + opt_bytes(self@.vmhd, MinfView::vmhd_bytes()));
        if let Some(c) = &self.smhd {
            match c.write_box(&mut body) {
                Ok(_) => {},
                Err(e) => {
                    return Err(e);
                },
            }
        }
        let ghost b_smhd = body@;
        assert(b_smhd =~= b_vmhd + opt_bytes(self@.smhd, MinfView::smhd_bytes()));
        match self.stbl.write_box(&mut body) {
            Ok(_) => {},
            Err(e) => {
                return Err(e);
            },
        }
        let ghost b_stbl = body@;
        assert(b_stbl =~= b_smhd + self@.stbl.bytes());
        if body.len() > 0xFFFF_FFF7 {
            return Err(Error::InvalidData("minf box cannot be written"));
        }
        let size: u64 = 8 + body.len() as u64;
        BoxHeader::new(BoxType::MinfBox, size).write(out);
        put_bytes(out, body.as_slice());
        proof {
            let h = header_bytes(BoxType::MinfBox, size);
            lemma_add_empty(h);
            let l_0 = h;
            lemma_assoc(h, Seq::<u8>::empty(), opt_bytes(self@.vmhd, MinfView::vmhd_bytes()));
            let l_1 = l_0 + opt_bytes(self@.vmhd, MinfView::vmhd_bytes());
            assert(h + b_vmhd == l_1);
            lemma_assoc(h, b_vmhd, opt_bytes(self@.smhd, MinfView::smhd_bytes()));
            let l_2 = l_1 + opt_bytes(self@.smhd, MinfView::smhd_bytes());
            assert(h + b_smhd == l_2);
            lemma_assoc(h, b_smhd, self@.stbl.bytes());
            let l_3 = l_2 + self@.stbl.bytes();
            assert(h + b_stbl == l_3);
            lemma_assoc(old(out)@, h, body@);
        }
        Ok(size)
    }
}

} // verus!

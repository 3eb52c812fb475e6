//! The cover picture item of a metadata list.

use crate::codec::{add_size, put_bytes, saturate};
use crate::error::{Error, ErrorKind};
use crate::mp4box::header::{
    children_total, decoded, header_bytes, lemma_add_empty, lemma_assoc, lemma_child_at,
    lemma_children_tile, lemma_empty_add, lemma_plain_header, lemma_window, opt_view, payload,
    payload_of, BoxHeader, Child,
};
use crate::mp4box::data::{DataBox, DataView};
use crate::mp4box::BoxType;
use vstd::prelude::*;

verus! {

/// The cover picture item of a metadata list.
#[derive(Debug, Clone, PartialEq, Eq, Default)]
pub struct CovrBox {
    pub data: DataBox,
}

/// What a [`CovrBox`] holds.
pub struct CovrView {
    pub data: DataView,
}

/// The children of a `covr` box found so far in a walk over its payload.
pub struct CovrParts {
    pub data: Option<DataView>,
}

impl View for CovrBox {
    type V = CovrView;

    open spec fn view(&self) -> CovrView {
        CovrView { data: self.data@ }
    }
}

impl CovrView {
    /// No child found yet.
    pub open spec fn nothing() -> CovrParts {
        CovrParts { data: None }
    }

    /// The walk over the children of the payload `p` from `cur` on, with
    /// `acc` found before: a child of a type that the box names is decoded
    /// and kept, the last of a type winning; any other child is skipped.
    pub open spec fn scan(p: Seq<u8>, cur: int, acc: CovrParts) -> Result<CovrParts, ErrorKind>
        decreases p.len() - cur,
    {
        if cur < 0 || cur >= p.len() {
            Ok(acc)
        } else {
            match Child::spec_next(p, cur) {
                Err(e) => Err(e),
                Ok(ch) => if ch.name == BoxType::DataBox {
                    match DataView::read(ch.bytes(p)) {
                        Err(e) => Err(e),
                        Ok(b) => CovrView::scan(p, ch.next, CovrParts { data: Some(b), ..acc }),
                    }
                } else {
                    CovrView::scan(p, ch.next, acc)
                },
            }
        }
    }

    /// Whether the walk keeps children of the type `name`.
    pub open spec fn names(name: BoxType) -> bool {
        name == BoxType::DataBox
    }

    /// A child of a type that the box does not name is skipped: the walk
    /// goes on behind it with what was found before.
    pub proof fn lemma_unknown_child_skipped(p: Seq<u8>, cur: int, acc: CovrParts)
        requires
            0 <= cur < p.len(),
            Child::spec_next(p, cur) is Ok,
            !CovrView::names(Child::spec_next(p, cur).unwrap().name),
        ensures
            CovrView::scan(p, cur, acc) == CovrView::scan(p, Child::spec_next(p,
                cur).unwrap().next, acc),
    {
    }

    /// Where the walk succeeds, the children tile the payload: their
    /// declared sizes add up to its length.
    pub proof fn lemma_children_tile(p: Seq<u8>, cur: int, acc: CovrParts)
        requires
            0 <= cur <= p.len(),
            CovrView::scan(p, cur, acc) is Ok,
        ensures
            children_total(p, cur) == Some(p.len() - cur),
        decreases p.len() - cur,
    {
        if cur < p.len() {
            let ch = Child::spec_next(p, cur).unwrap();
            if ch.name == BoxType::DataBox {
                let b = DataView::read(ch.bytes(p)).unwrap();
                CovrView::lemma_children_tile(p, ch.next, CovrParts { data: Some(b), ..acc });
            } else {
                CovrView::lemma_children_tile(p, ch.next, acc);
            }
            lemma_children_tile(p, cur);
        }
    }

    /// The box that the payload `p` holds.
    pub open spec fn read(p: Seq<u8>) -> Result<CovrView, ErrorKind> {
        match CovrView::scan(p, 0, CovrView::nothing()) {
            Err(e) => Err(e),
            Ok(parts) => if parts.data is None {
                Err(ErrorKind::BoxNotFound(BoxType::DataBox))
            } else {
                Ok(
                    CovrView {
                        data: parts.data.unwrap(),
                    },
                )
            },
        }
    }

    /// The number of bytes that the box is written as.
    #[verifier::opaque]
    pub open spec fn size(self) -> nat {
        8 + self.data.size()
    }

    /// The box can be written: each child can, and the size fits 32 bits.
    #[verifier::opaque]
    pub open spec fn well_formed(self) -> bool {
        &&& self.data.well_formed()
        &&& self.size() <= u32::MAX
    }

    /// The box as it is written: its header, then its children in order.
    #[verifier::opaque]
    pub open spec fn bytes(self) -> Seq<u8> {
        header_bytes(BoxType::CovrBox, self.size() as u64) + self.data.bytes()
    }

    /// Each child of the box reads back from what it is written as.
    pub open spec fn children_read_back(self) -> bool {
        &&& self.data.bytes().len() == self.data.size() && BoxHeader::spec_read(self.data.bytes(),
            0) == Ok::<BoxHeader, ErrorKind>(BoxHeader { name: BoxType::DataBox,
            size: self.data.size() as u64, header_len: 8 })
            && DataView::read(self.data.bytes().skip(8)) == Ok::<DataView, ErrorKind>(self.data)
    }

    /// Decoding what a well-formed box is written as gives the box back,
    /// where each of its children reads back.
    #[verifier::rlimit(50)]
    pub proof fn lemma_round_trip(self)
        requires
            self.well_formed(),
            self.children_read_back(),
        ensures
            self.bytes().len() == self.size(),
            BoxHeader::spec_read(self.bytes(), 0) == Ok::<BoxHeader, ErrorKind>(
                BoxHeader { name: BoxType::CovrBox, size: self.size() as u64, header_len: 8 },
            ),
            CovrView::read(self.bytes().skip(8)) == Ok::<CovrView, ErrorKind>(self),
    {
        reveal(CovrView::size);
        reveal(CovrView::bytes);
        reveal(CovrView::well_formed);
        let b = self.bytes();
        let size = self.size() as u64;
        let h = header_bytes(BoxType::CovrBox, size);
        let w0 = self.data.bytes();
        let l0 = h;
        let l1 = l0 + w0;
        let z1 = Seq::<u8>::empty();
        let z0 = w0 + z1;
        assert(b == l1);
        lemma_add_empty(l1);
        lemma_assoc(l0, w0, z1);
        assert(b == l0 + z0);
        let a0 = Seq::<u8>::empty();
        let acc0 = CovrView::nothing();
        lemma_empty_add(z0);
        let a1 = a0 + w0;
        lemma_assoc(a0, w0, z1);
        lemma_window(a0, w0, z1);
        let acc1 = CovrParts { data: Some(self.data), ..acc0 };
        lemma_child_at(z0, a0.len() as int, w0, BoxType::DataBox, self.data.size() as u64);
        assert(CovrView::scan(z0, a0.len() as int, acc0) == CovrView::scan(z0, a1.len() as int,
            acc1));
        lemma_add_empty(a1);
        assert(z0 == a1);
        assert(CovrView::scan(z0, 0, acc0) == Ok::<CovrParts,
            ErrorKind>(CovrParts { data: Some(self.data) }));
        lemma_plain_header(BoxType::CovrBox, size, z0);
    }
}

impl CovrBox {
    pub fn get_type(&self) -> (r: BoxType)
        ensures
            r == BoxType::CovrBox,
    {
        BoxType::CovrBox
    }

    /// The size of the box as written, saturating at `u64::MAX`.
    pub fn get_size(&self) -> (r: u64)
        ensures
            r == saturate(self@.size() as int),
    {
        reveal(CovrView::size);
        let mut total: u64 = 8;
        total = add_size(total, self.data.get_size());
        total
    }

    /// Decodes the box of declared size `size` whose payload starts `src`.
    #[verifier::rlimit(50)]
    pub fn read_box(src: &[u8], size: u64) -> (r: Result<CovrBox, Error>)
        ensures
            decoded(r) == CovrView::read(payload(src@, size)),
    {
        let p = payload_of(src, size);
        let mut data: Option<DataBox> = None;
        let mut cur: usize = 0;

        while cur < p.len()
            invariant
                cur <= p@.len(),
                p@ == payload(src@, size),
                CovrView::scan(p@, cur as int, CovrParts { data: opt_view(data) })
                    == CovrView::scan(p@, 0, CovrView::nothing()),
            decreases p@.len() - cur,
        {
            let ch = match Child::next_child(p, cur) {
                Ok(c) => c,
                Err(e) => {
                    return Err(e);
                },
            };
            let body = ch.bytes(p);
            match ch.name {
                BoxType::DataBox => {
                    match DataBox::read_box(body, ch.size) {
                        Ok(b) => {
                            data = Some(b);
                        },
                        Err(e) => {
                            return Err(e);
                        },
                    }
                },
                _ => {},
            }
            cur = ch.next;
        }
        let data = match data {
            Some(b) => b,
            None => {
                return Err(Error::BoxNotFound(BoxType::DataBox));
            },
        };
        let made = CovrBox { data };
        assert(decoded(Ok::<CovrBox, Error>(made)) == CovrView::read(p@)) by {
            assert(made@ =~= CovrView::read(p@).unwrap());
        }
        Ok(made)
    }

    /// Appends the box to `out` and returns the number of bytes written;
    /// a box that is not well formed is refused and `out` left as it was.
    #[verifier::rlimit(50)]
    pub fn write_box(&self, out: &mut Vec<u8>) -> (r: Result<u64, Error>)
        ensures
            r is Ok <==> self@.well_formed(),
            r is Ok ==> r.unwrap() == self@.size() && final(out)@ == old(out)@ + self@.bytes()
                && self@.bytes().len() == self@.size(),
            r is Err ==> r.unwrap_err().spec_kind() == ErrorKind::InvalidData && final(out)@
                == old(out)@,
    {
        reveal(CovrView::size);
        reveal(CovrView::bytes);
        reveal(CovrView::well_formed);
        let mut body: Vec<u8> = Vec::new();
        match self.data.write_box(&mut body) {
            Ok(_) => {},
            Err(e) => {
                return Err(e);
            },
        }
        let ghost b_data = body@;
        assert(b_data =~= Seq::<u8>::empty() + self@.data.bytes());
        if body.len() > 0xFFFF_FFF7 {
            return Err(Error::InvalidData("covr box cannot be written"));
        }
        let size: u64 = 8 + body.len() as u64;
        BoxHeader::new(BoxType::CovrBox, size).write(out);
        put_bytes(out, body.as_slice());
        proof {
            let h = header_bytes(BoxType::CovrBox, size);
            lemma_add_empty(h);
            let l_0 = h;
            lemma_assoc(h, Seq::<u8>::empty(), self@.data.bytes());
            let l_1 = l_0 + self@.data.bytes();
            assert(h + b_data == l_1);
            lemma_assoc(old(out)@, h, body@);
        }
        Ok(size)
    }
}

} // verus!

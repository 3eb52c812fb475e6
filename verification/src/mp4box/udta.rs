//! The user data box: the container of a movie's metadata.

use crate::codec::{add_size, put_bytes, saturate};
use crate::error::{Error, ErrorKind};
use crate::mp4box::header::{
    children_total, decoded, header_bytes, lemma_add_empty, lemma_assoc, lemma_child_at,
    lemma_children_tile, lemma_empty_add, lemma_plain_header, lemma_window, opt_bytes, opt_size,
    opt_view, payload, payload_of, BoxHeader, Child,
};
use crate::mp4box::meta::{MetaBox, MetaView};
use crate::mp4box::BoxType;
use vstd::prelude::*;

verus! {

/// The user data box: the container of a movie's metadata.
#[derive(Debug, Clone, PartialEq, Eq, Default)]
pub struct UdtaBox {
    pub meta: Option<MetaBox>,
}

/// What a [`UdtaBox`] holds.
pub struct UdtaView {
    pub meta: Option<MetaView>,
}

/// The children of a `udta` box found so far in a walk over its payload.
pub struct UdtaParts {
    pub meta: Option<MetaView>,
}

impl View for UdtaBox {
    type V = UdtaView;

    open spec fn view(&self) -> UdtaView {
        UdtaView { meta: opt_view(self.meta) }
    }
}

impl UdtaView {
    /// No child found yet.
    pub open spec fn nothing() -> UdtaParts {
        UdtaParts { meta: None }
    }

    /// The walk over the children of the payload `p` from `cur` on, with
    /// `acc` found before: a child of a type that the box names is decoded
    /// and kept, the last of a type winning; any other child is skipped.
    pub open spec fn scan(p: Seq<u8>, cur: int, acc: UdtaParts) -> Result<UdtaParts, ErrorKind>
        decreases p.len() - cur,
    {
        if cur < 0 || cur >= p.len() {
            Ok(acc)
        } else {
            match Child::spec_next(p, cur) {
                Err(e) => Err(e),
                Ok(ch) => if ch.name == BoxType::MetaBox {
                    match MetaView::read(ch.bytes(p)) {
                        Err(e) => Err(e),
                        Ok(b) => UdtaView::scan(p, ch.next, UdtaParts { meta: Some(b), ..acc }),
                    }
                } else {
                    UdtaView::scan(p, ch.next, acc)
                },
            }
        }
    }

    /// Whether the walk keeps children of the type `name`.
    pub open spec fn names(name: BoxType) -> bool {
        name == BoxType::MetaBox
    }

    /// A child of a type that the box does not name is skipped: the walk
    /// goes on behind it with what was found before.
    pub proof fn lemma_unknown_child_skipped(p: Seq<u8>, cur: int, acc: UdtaParts)
        requires
            0 <= cur < p.len(),
            Child::spec_next(p, cur) is Ok,
            !UdtaView::names(Child::spec_next(p, cur).unwrap().name),
        ensures
            UdtaView::scan(p, cur, acc) == UdtaView::scan(p, Child::spec_next(p,
                cur).unwrap().next, acc),
    {
    }

    /// Where the walk succeeds, the children tile the payload: their
    /// declared sizes add up to its length.
    pub proof fn lemma_children_tile(p: Seq<u8>, cur: int, acc: UdtaParts)
        requires
            0 <= cur <= p.len(),
            UdtaView::scan(p, cur, acc) is Ok,
        ensures
            children_total(p, cur) == Some(p.len() - cur),
        decreases p.len() - cur,
    {
        if cur < p.len() {
            let ch = Child::spec_next(p, cur).unwrap();
            if ch.name == BoxType::MetaBox {
                let b = MetaView::read(ch.bytes(p)).unwrap();
                UdtaView::lemma_children_tile(p, ch.next, UdtaParts { meta: Some(b), ..acc });
            } else {
                UdtaView::lemma_children_tile(p, ch.next, acc);
            }
            lemma_children_tile(p, cur);
        }
    }

    /// The box that the payload `p` holds.
    pub open spec fn read(p: Seq<u8>) -> Result<UdtaView, ErrorKind> {
        match UdtaView::scan(p, 0, UdtaView::nothing()) {
            Err(e) => Err(e),
            Ok(parts) => {
                Ok(
                    UdtaView {
                        meta: parts.meta,
                    },
                )
            },
        }
    }

    /// The written size of a `meta` child.
    pub open spec fn meta_size() -> spec_fn(MetaView) -> nat {
        |c: MetaView| c.size()
    }

    /// The written bytes of a `meta` child.
    pub open spec fn meta_bytes() -> spec_fn(MetaView) -> Seq<u8> {
        |c: MetaView| c.bytes()
    }

    /// The number of bytes that the box is written as.
    #[verifier::opaque]
    pub open spec fn size(self) -> nat {
        8 + opt_size(self.meta, UdtaView::meta_size())
    }

    /// The box can be written: each child can, and the size fits 32 bits.
    #[verifier::opaque]
    pub open spec fn well_formed(self) -> bool {
        &&& self.meta is Some ==> self.meta.unwrap().well_formed()
        &&& self.size() <= u32::MAX
    }

    /// The box as it is written: its header, then its children in order.
    #[verifier::opaque]
    pub open spec fn bytes(self) -> Seq<u8> {
        header_bytes(BoxType::UdtaBox, self.size() as u64) + opt_bytes(self.meta,
            UdtaView::meta_bytes())
    }

    /// Each child of the box reads back from what it is written as.
    pub open spec fn children_read_back(self) -> bool {
        &&& self.meta is Some ==> self.meta.unwrap().bytes().len() == self.meta.unwrap().size()
            && BoxHeader::spec_read(self.meta.unwrap().bytes(), 0) == Ok::<BoxHeader,
            ErrorKind>(BoxHeader { name: BoxType::MetaBox, size: self.meta.unwrap().size() as u64,
            header_len: 8 }) && MetaView::read(self.meta.unwrap().bytes().skip(8))
            == Ok::<MetaView, ErrorKind>(self.meta.unwrap())
    }

    /// Decoding what a well-formed box is written as gives the box back,
    /// where each of its children reads back.
    #[verifier::rlimit(50)]
    pub proof fn lemma_round_trip(self)
        requires
            self.well_formed(),
            self.children_read_back(),
        ensures
            self.bytes().len() == self.size(),
            BoxHeader::spec_read(self.bytes(), 0) == Ok::<BoxHeader, ErrorKind>(
                BoxHeader { name: BoxType::UdtaBox, size: self.size() as u64, header_len: 8 },
            ),
            UdtaView::read(self.bytes().skip(8)) == Ok::<UdtaView, ErrorKind>(self),
    {
        reveal(UdtaView::size);
        reveal(UdtaView::bytes);
        reveal(UdtaView::well_formed);
        let b = self.bytes();
        let size = self.size() as u64;
        let h = header_bytes(BoxType::UdtaBox, size);
        let w0 = opt_bytes(self.meta, UdtaView::meta_bytes());
        let l0 = h;
        let l1 = l0 + w0;
        let z1 = Seq::<u8>::empty();
        let z0 = w0 + z1;
        assert(b == l1);
        lemma_add_empty(l1);
        lemma_assoc(l0, w0, z1);
        assert(b == l0 + z0);
        let a0 = Seq::<u8>::empty();
        let acc0 = UdtaView::nothing();
        lemma_empty_add(z0);
        let a1 = a0 + w0;
        lemma_assoc(a0, w0, z1);
        lemma_window(a0, w0, z1);
        let acc1 = UdtaParts { meta: self.meta, ..acc0 };
        if self.meta is Some {
            lemma_child_at(z0, a0.len() as int, w0, BoxType::MetaBox,
                self.meta.unwrap().size() as u64);
        } else {
            lemma_add_empty(a0);
            assert(acc1 == acc0);
        }
        assert(UdtaView::scan(z0, a0.len() as int, acc0) == UdtaView::scan(z0, a1.len() as int,
            acc1));
        lemma_add_empty(a1);
        assert(z0 == a1);
        assert(UdtaView::scan(z0, 0, acc0) == Ok::<UdtaParts,
            ErrorKind>(UdtaParts { meta: self.meta }));
        lemma_plain_header(BoxType::UdtaBox, size, z0);
    }
}

impl UdtaBox {
    pub fn get_type(&self) -> (r: BoxType)
        ensures
            r == BoxType::UdtaBox,
    {
        BoxType::UdtaBox
    }

    /// The size of the box as written, saturating at `u64::MAX`.
    pub fn get_size(&self) -> (r: u64)
        ensures
            r == saturate(self@.size() as int),
    {
        reveal(UdtaView::size);
        let mut total: u64 = 8;
        if let Some(c) = &self.meta {
            total = add_size(total, c.get_size());
        }
        total
    }

    /// Decodes the box of declared size `size` whose payload starts `src`.
    #[verifier::rlimit(50)]
    pub fn read_box(src: &[u8], size: u64) -> (r: Result<UdtaBox, Error>)
        ensures
            decoded(r) == UdtaView::read(payload(src@, size)),
    {
        let p = payload_of(src, size);
        let mut meta: Option<MetaBox> = None;
        let mut cur: usize = 0;

        while cur < p.len()
            invariant
                cur <= p@.len(),
                p@ == payload(src@, size),
                UdtaView::scan(p@, cur as int, UdtaParts { meta: opt_view(meta) })
                    == UdtaView::scan(p@, 0, UdtaView::nothing()),
            decreases p@.len() - cur,
        {
            let ch = match Child::next_child(p, cur) {
                Ok(c) => c,
                Err(e) => {
                    return Err(e);
                },
            };
            let body = ch.bytes(p);
            match ch.name {
                BoxType::MetaBox => {
                    match MetaBox::read_box(body, ch.size) {
                        Ok(b) => {
                            meta = Some(b);
                        },
                        Err(e) => {
                            return Err(e);
                        },
                    }
                },
                _ => {},
            }
            cur = ch.next;
        }

        let made = UdtaBox { meta };
        assert(decoded(Ok::<UdtaBox, Error>(made)) == UdtaView::read(p@)) by {
            assert(made@ =~= UdtaView::read(p@).unwrap());
        }
        Ok(made)
    }

    /// Appends the box to `out` and returns the number of bytes written;
    /// a box that is not well formed is refused and `out` left as it was.
    #[verifier::rlimit(50)]
    pub fn write_box(&self, out: &mut Vec<u8>) -> (r: Result<u64, Error>)
        ensures
            r is Ok <==> self@.well_formed(),
            r is Ok ==> r.unwrap() == self@.size() && final(out)@ == old(out)@ + self@.bytes()
                && self@.bytes().len() == self@.size(),
            r is Err ==> r.unwrap_err().spec_kind() == ErrorKind::InvalidData && final(out)@
                == old(out)@,
    {
        reveal(UdtaView::size);
        reveal(UdtaView::bytes);
        reveal(UdtaView::well_formed);
        let mut body: Vec<u8> = Vec::new();
        if let Some(c) = &self.meta {
            match c.write_box(&mut body) {
                Ok(_) => {},
                Err(e) => {
                    return Err(e);
                },
            }
        }
        let ghost b_meta = body@;
        assert(b_meta =~= Seq::<u8>::empty() + opt_bytes(self@.meta, UdtaView::meta_bytes()));
        if body.len() > 0xFFFF_FFF7 {
            return Err(Error::InvalidData("udta box cannot be written"));
        }
        let size: u64 = 8 + body.len() as u64;
        BoxHeader::new(BoxType::UdtaBox, size).write(out);
        put_bytes(out, body.as_slice());
        proof {
            let h = header_bytes(BoxType::UdtaBox, size);
            lemma_add_empty(h);
            let l_0 = h;
            lemma_assoc(h, Seq::<u8>::empty(), opt_bytes(self@.meta, UdtaView::meta_bytes()));
            let l_1 = l_0 + opt_bytes(self@.meta, UdtaView::meta_bytes());
            assert(h + b_meta == l_1);
            lemma_assoc(old(out)@, h, body@);
        }
        Ok(size)
    }
}

} // verus!

//! The movie box: the header of the movie, its tracks, and what extends them.

use crate::codec::{add_size, put_bytes, saturate};
use crate::error::{Error, ErrorKind};
use crate::mp4box::header::{
    children_total, decoded, header_bytes, lemma_add_empty, lemma_assoc, lemma_child_at,
    lemma_children_tile, lemma_plain_header, lemma_sum_take, opt_bytes, opt_size, opt_view,
    payload, payload_of, sum_sizes, views, BoxHeader, Child,
};
use crate::mp4box::table::{concat, lemma_concat_front, lemma_concat_take};
use crate::mp4box::mvex::{MvexBox, MvexView};
use crate::mp4box::mvhd::MvhdBox;
use crate::mp4box::trak::{TrakBox, TrakView};
use crate::mp4box::udta::{UdtaBox, UdtaView};
use crate::mp4box::BoxType;
use vstd::prelude::*;

verus! {

/// The movie box: the header of the movie, its tracks, and what extends them.
#[derive(Debug, Clone, PartialEq, Eq, Default)]
pub struct MoovBox {
    pub mvhd: MvhdBox,
    pub traks: Vec<TrakBox>,
    pub mvex: Option<MvexBox>,
    pub udta: Option<UdtaBox>,
}

/// What a [`MoovBox`] holds.
pub struct MoovView {
    pub mvhd: MvhdBox,
    pub traks: Seq<TrakView>,
    pub mvex: Option<MvexView>,
    pub udta: Option<UdtaView>,
}

/// The children of a `moov` box found so far in a walk over its payload.
pub struct MoovParts {
    pub mvhd: Option<MvhdBox>,
    pub traks: Seq<TrakView>,
    pub mvex: Option<MvexView>,
    pub udta: Option<UdtaView>,
}

impl View for MoovBox {
    type V = MoovView;

    open spec fn view(&self) -> MoovView {
        MoovView { mvhd: self.mvhd@, traks: views(self.traks@), mvex: opt_view(self.mvex),
            udta: opt_view(self.udta) }
    }
}

impl MoovView {
    /// No child found yet.
    pub open spec fn nothing() -> MoovParts {
        MoovParts { mvhd: None, traks: Seq::empty(), mvex: None, udta: None }
    }

    /// The walk over the children of the payload `p` from `cur` on, with
    /// `acc` found before: a child of a type that the box names is decoded
    /// and kept, the last of a type winning; any other child is skipped.
    pub open spec fn scan(p: Seq<u8>, cur: int, acc: MoovParts) -> Result<MoovParts, ErrorKind>
        decreases p.len() - cur,
    {
        if cur < 0 || cur >= p.len() {
            Ok(acc)
        } else {
            match Child::spec_next(p, cur) {
                Err(e) => Err(e),
                Ok(ch) => if ch.name == BoxType::MvhdBox {
                    match MvhdBox::read(ch.bytes(p)) {
                        Err(e) => Err(e),
                        Ok(b) => MoovView::scan(p, ch.next, MoovParts { mvhd: Some(b), ..acc }),
                    }
                } else if ch.name == BoxType::TrakBox {
                    match TrakView::read(ch.bytes(p)) {
                        Err(e) => Err(e),
                        Ok(b) => MoovView::scan(p, ch.next, MoovParts { traks: acc.traks.push(b),
                            ..acc }),
                    }
                } else if ch.name == BoxType::MvexBox {
                    match MvexView::read(ch.bytes(p)) {
                        Err(e) => Err(e),
                        Ok(b) => MoovView::scan(p, ch.next, MoovParts { mvex: Some(b), ..acc }),
                    }
                } else if ch.name == BoxType::UdtaBox {
                    match UdtaView::read(ch.bytes(p)) {
                        Err(e) => Err(e),
                        Ok(b) => MoovView::scan(p, ch.next, MoovParts { udta: Some(b), ..acc }),
                    }
                } else {
                    MoovView::scan(p, ch.next, acc)
                },
            }
        }
    }

    /// Whether the walk keeps children of the type `name`.
    pub open spec fn names(name: BoxType) -> bool {
        name == BoxType::MvhdBox || name == BoxType::TrakBox || name == BoxType::MvexBox || name
            == BoxType::UdtaBox
    }

    /// A child of a type that the box does not name is skipped: the walk
    /// goes on behind it with what was found before.
    pub proof fn lemma_unknown_child_skipped(p: Seq<u8>, cur: int, acc: MoovParts)
        requires
            0 <= cur < p.len(),
            Child::spec_next(p, cur) is Ok,
            !MoovView::names(Child::spec_next(p, cur).unwrap().name),
        ensures
            MoovView::scan(p, cur, acc) == MoovView::scan(p, Child::spec_next(p,
                cur).unwrap().next, acc),
    {
    }

    /// Where the walk succeeds, the children tile the payload: their
    /// declared sizes add up to its length.
    pub proof fn lemma_children_tile(p: Seq<u8>, cur: int, acc: MoovParts)
        requires
            0 <= cur <= p.len(),
            MoovView::scan(p, cur, acc) is Ok,
        ensures
            children_total(p, cur) == Some(p.len() - cur),
        decreases p.len() - cur,
    {
        if cur < p.len() {
            let ch = Child::spec_next(p, cur).unwrap();
            if ch.name == BoxType::MvhdBox {
                let b = MvhdBox::read(ch.bytes(p)).unwrap();
                MoovView::lemma_children_tile(p, ch.next, MoovParts { mvhd: Some(b), ..acc });
            } else if ch.name == BoxType::TrakBox {
                let b = TrakView::read(ch.bytes(p)).unwrap();
                MoovView::lemma_children_tile(p, ch.next, MoovParts { traks: acc.traks.push(b),
                    ..acc });
            } else if ch.name == BoxType::MvexBox {
                let b = MvexView::read(ch.bytes(p)).unwrap();
                MoovView::lemma_children_tile(p, ch.next, MoovParts { mvex: Some(b), ..acc });
            } else if ch.name == BoxType::UdtaBox {
                let b = UdtaView::read(ch.bytes(p)).unwrap();
                MoovView::lemma_children_tile(p, ch.next, MoovParts { udta: Some(b), ..acc });
            } else {
                MoovView::lemma_children_tile(p, ch.next, acc);
            }
            lemma_children_tile(p, cur);
        }
    }

    /// The box that the payload `p` holds.
    pub open spec fn read(p: Seq<u8>) -> Result<MoovView, ErrorKind> {
        match MoovView::scan(p, 0, MoovView::nothing()) {
            Err(e) => Err(e),
            Ok(parts) => if parts.mvhd is None {
                Err(ErrorKind::BoxNotFound(BoxType::MvhdBox))
            } else {
                Ok(
                    MoovView {
                        mvhd: parts.mvhd.unwrap(),
                        traks: parts.traks,
                        mvex: parts.mvex,
                        udta: parts.udta,
                    },
                )
            },
        }
    }

    /// The written size of a `traks` child.
    pub open spec fn traks_size() -> spec_fn(TrakView) -> nat {
        |c: TrakView| c.size()
    }

    /// The written bytes of a `traks` child.
    pub open spec fn traks_bytes() -> spec_fn(TrakView) -> Seq<u8> {
        |c: TrakView| c.bytes()
    }

    /// The written size of a `mvex` child.
    pub open spec fn mvex_size() -> spec_fn(MvexView) -> nat {
        |c: MvexView| c.size()
    }

    /// The written bytes of a `mvex` child.
    pub open spec fn mvex_bytes() -> spec_fn(MvexView) -> Seq<u8> {
        |c: MvexView| c.bytes()
    }

    /// The written size of a `udta` child.
    pub open spec fn udta_size() -> spec_fn(UdtaView) -> nat {
        |c: UdtaView| c.size()
    }

    /// The written bytes of a `udta` child.
    pub open spec fn udta_bytes() -> spec_fn(UdtaView) -> Seq<u8> {
        |c: UdtaView| c.bytes()
    }

    /// The number of bytes that the box is written as.
    #[verifier::opaque]
    pub open spec fn size(self) -> nat {
        8 + self.mvhd.size() + sum_sizes(self.traks, MoovView::traks_size()) + opt_size(self.mvex,
            MoovView::mvex_size()) + opt_size(self.udta, MoovView::udta_size())
    }

    /// The box can be written: each child can, and the size fits 32 bits.
    #[verifier::opaque]
    pub open spec fn well_formed(self) -> bool {
        &&& self.mvhd.well_formed()
        &&& forall|i: int| 0 <= i < self.traks.len() ==> (#[trigger] self.traks[i]).well_formed()
        &&& self.mvex is Some ==> self.mvex.unwrap().well_formed()
        &&& self.udta is Some ==> self.udta.unwrap().well_formed()
        &&& self.size() <= u32::MAX
    }

    /// The box as it is written: its header, then its children in order.
    #[verifier::opaque]
    pub open spec fn bytes(self) -> Seq<u8> {
        header_bytes(BoxType::MoovBox, self.size() as u64) + self.mvhd.bytes() + concat(self.traks,
            MoovView::traks_bytes()) + opt_bytes(self.mvex, MoovView::mvex_bytes())
            + opt_bytes(self.udta, MoovView::udta_bytes())
    }

    /// The track `c` reads back from what it is written as.
    pub open spec fn trak_reads_back(c: TrakView) -> bool {
        &&& c.bytes().len() == c.size()
        &&& BoxHeader::spec_read(c.bytes(), 0) == Ok::<BoxHeader, ErrorKind>(
            BoxHeader { name: BoxType::TrakBox, size: c.size() as u64, header_len: 8 },
        )
        &&& TrakView::read(c.bytes().skip(8)) == Ok::<TrakView, ErrorKind>(c)
    }

    /// Each child of the box reads back from what it is written as.
    pub open spec fn children_read_back(self) -> bool {
        &&& self.mvhd.bytes().len() == self.mvhd.size()
        &&& BoxHeader::spec_read(self.mvhd.bytes(), 0) == Ok::<BoxHeader, ErrorKind>(
            BoxHeader { name: BoxType::MvhdBox, size: self.mvhd.size() as u64, header_len: 8 },
        )
        &&& MvhdBox::read(self.mvhd.bytes().skip(8)) == Ok::<MvhdBox, ErrorKind>(self.mvhd)
        &&& forall|i: int|
            0 <= i < self.traks.len() ==> MoovView::trak_reads_back(#[trigger] self.traks[i])
        &&& self.mvex is Some ==> {
            let c = self.mvex.unwrap();
            &&& c.bytes().len() == c.size()
            &&& BoxHeader::spec_read(c.bytes(), 0) == Ok::<BoxHeader, ErrorKind>(
                BoxHeader { name: BoxType::MvexBox, size: c.size() as u64, header_len: 8 },
            )
            &&& MvexView::read(c.bytes().skip(8)) == Ok::<MvexView, ErrorKind>(c)
        }
        &&& self.udta is Some ==> {
            let c = self.udta.unwrap();
            &&& c.bytes().len() == c.size()
            &&& BoxHeader::spec_read(c.bytes(), 0) == Ok::<BoxHeader, ErrorKind>(
                BoxHeader { name: BoxType::UdtaBox, size: c.size() as u64, header_len: 8 },
            )
            &&& UdtaView::read(c.bytes().skip(8)) == Ok::<UdtaView, ErrorKind>(c)
        }
    }

    /// The walk keeps a run of tracks that stand whole in the payload, one
    /// after another, and goes on behind the last.
    #[verifier::rlimit(100)]
    pub proof fn lemma_scan_traks(p: Seq<u8>, cur: int, acc: MoovParts, s: Seq<TrakView>, i: int)
        requires
            0 <= cur,
            0 <= i <= s.len(),
            p.len() <= u32::MAX,
            forall|j: int| 0 <= j < s.len() ==> MoovView::trak_reads_back(#[trigger] s[j]),
            cur + concat(s.skip(i), MoovView::traks_bytes()).len() <= p.len(),
            p.subrange(cur, cur + concat(s.skip(i), MoovView::traks_bytes()).len()) == concat(
                s.skip(i),
                MoovView::traks_bytes(),
            ),
            acc.traks == s.take(i),
        ensures
            MoovView::scan(p, cur, acc) == MoovView::scan(
                p,
                cur + concat(s.skip(i), MoovView::traks_bytes()).len(),
                MoovParts { traks: s, ..acc },
            ),
        decreases s.len() - i,
    {
        let rest = s.skip(i);
        let all = concat(rest, MoovView::traks_bytes());
        if i == s.len() {
            assert(rest =~= Seq::<TrakView>::empty());
            assert(s.take(i) =~= s);
        } else {
            lemma_concat_front(rest, MoovView::traks_bytes());
            let c = s[i].bytes();
            assert(rest[0] == s[i]);
            assert(rest.skip(1) =~= s.skip(i + 1));
            let tail = concat(s.skip(i + 1), MoovView::traks_bytes());
            assert(all == c + tail);
            assert(MoovView::trak_reads_back(s[i]));
            assert(p.subrange(cur, cur + c.len()) =~= c);
            let held = p.subrange(cur, cur + all.len());
            assert forall|k: int| 0 <= k < tail.len() implies p[cur + c.len() + k]
                == tail[k] by {
                assert(held[c.len() + k] == tail[k]);
            }
            assert(p.subrange(cur + c.len(), cur + c.len() + tail.len()) =~= tail);
            lemma_child_at(p, cur, c, BoxType::TrakBox, s[i].size() as u64);
            let kept = MoovParts { traks: acc.traks.push(s[i]), ..acc };
            assert(kept.traks =~= s.take(i + 1));
            MoovView::lemma_scan_traks(p, cur + c.len(), kept, s, i + 1);
            assert(MoovView::scan(p, cur, acc) == MoovView::scan(p, cur + c.len(), kept));
        }
    }

    /// A run of tracks that read back is as long as their sizes added up.
    pub proof fn lemma_run_len(s: Seq<TrakView>)
        requires
            forall|j: int| 0 <= j < s.len() ==> MoovView::trak_reads_back(#[trigger] s[j]),
        ensures
            concat(s, MoovView::traks_bytes()).len() == sum_sizes(s, MoovView::traks_size()),
        decreases s.len(),
    {
        if s.len() > 0 {
            assert(MoovView::trak_reads_back(s[s.len() - 1]));
            MoovView::lemma_run_len(s.drop_last());
        }
    }

    /// Decoding what a well-formed box is written as gives the box back,
    /// where each of its children reads back.
    #[verifier::rlimit(50)]
    pub proof fn lemma_round_trip(self)
        requires
            self.well_formed(),
            self.children_read_back(),
        ensures
            self.bytes().len() == self.size(),
            BoxHeader::spec_read(self.bytes(), 0) == Ok::<BoxHeader, ErrorKind>(
                BoxHeader { name: BoxType::MoovBox, size: self.size() as u64, header_len: 8 },
            ),
            MoovView::read(self.bytes().skip(8)) == Ok::<MoovView, ErrorKind>(self),
    {
        reveal(MoovView::size);
        reveal(MoovView::bytes);
        reveal(MoovView::well_formed);
        let size = self.size() as u64;
        let h = header_bytes(BoxType::MoovBox, size);
        let w0 = self.mvhd.bytes();
        let w1 = concat(self.traks, MoovView::traks_bytes());
        let w2 = opt_bytes(self.mvex, MoovView::mvex_bytes());
        let w3 = opt_bytes(self.udta, MoovView::udta_bytes());
        MoovView::lemma_run_len(self.traks);
        lemma_assoc(h, w0, w1);
        lemma_assoc(h, w0 + w1, w2);
        lemma_assoc(h, (w0 + w1) + w2, w3);
        let p = ((w0 + w1) + w2) + w3;
        assert(self.bytes() == h + p);
        lemma_plain_header(BoxType::MoovBox, size, p);
        let a1 = w0.len() as int;
        let a2 = a1 + w1.len();
        let a3 = a2 + w2.len();
        assert(p.len() == a3 + w3.len());
        assert(p.subrange(0, a1) =~= w0);
        assert(p.subrange(a1, a2) =~= w1);
        assert(p.subrange(a2, a3) =~= w2);
        assert(p.subrange(a3, a3 + w3.len()) =~= w3);
        let acc0 = MoovView::nothing();
        lemma_child_at(p, 0, w0, BoxType::MvhdBox, self.mvhd.size() as u64);
        let acc1 = MoovParts { mvhd: Some(self.mvhd), ..acc0 };
        assert(MoovView::scan(p, 0, acc0) == MoovView::scan(p, a1, acc1));
        assert(self.traks.skip(0) =~= self.traks);
        assert(self.traks.take(0) =~= Seq::<TrakView>::empty());
        MoovView::lemma_scan_traks(p, a1, acc1, self.traks, 0);
        let acc2 = MoovParts { traks: self.traks, ..acc1 };
        assert(MoovView::scan(p, a1, acc1) == MoovView::scan(p, a2, acc2));
        let acc3 = MoovParts { mvex: self.mvex, ..acc2 };
        if self.mvex is Some {
            lemma_child_at(p, a2, w2, BoxType::MvexBox, self.mvex.unwrap().size() as u64);
        } else {
            assert(acc3 == acc2);
        }
        assert(MoovView::scan(p, a2, acc2) == MoovView::scan(p, a3, acc3));
        let acc4 = MoovParts { udta: self.udta, ..acc3 };
        if self.udta is Some {
            lemma_child_at(p, a3, w3, BoxType::UdtaBox, self.udta.unwrap().size() as u64);
        } else {
            assert(acc4 == acc3);
        }
        assert(MoovView::scan(p, a3, acc3) == MoovView::scan(p, p.len() as int, acc4));
        assert(MoovView::scan(p, 0, acc0) == Ok::<MoovParts, ErrorKind>(acc4));
    }
}

impl MoovBox {
    pub fn get_type(&self) -> (r: BoxType)
        ensures
            r == BoxType::MoovBox,
    {
        BoxType::MoovBox
    }

    /// The size of the box as written, saturating at `u64::MAX`.
    pub fn get_size(&self) -> (r: u64)
        ensures
            r == saturate(self@.size() as int),
    {
        reveal(MoovView::size);
        let mut total: u64 = 8;
        total = add_size(total, self.mvhd.get_size());
        let ghost base: int = (8 + self@.mvhd.size()) as int;
        let mut i: usize = 0;
        while i < self.traks.len()
            invariant
                i <= self.traks@.len(),
                base >= 0,
                total == saturate(
                    base + sum_sizes(views(self.traks@).take(i as int), MoovView::traks_size()),
                ),
            decreases self.traks@.len() - i,
        {
            proof {
                lemma_sum_take(views(self.traks@), i as int, MoovView::traks_size());
            }
            total = add_size(total, self.traks[i].get_size());
            i += 1;
        }
        proof {
            assert(views(self.traks@).take(i as int) =~= views(self.traks@));
        }
        if let Some(c) = &self.mvex {
            total = add_size(total, c.get_size());
        }
        if let Some(c) = &self.udta {
            total = add_size(total, c.get_size());
        }
        total
    }

    /// Decodes the box of declared size `size` whose payload starts `src`.
    #[verifier::rlimit(50)]
    pub fn read_box(src: &[u8], size: u64) -> (r: Result<MoovBox, Error>)
        ensures
            decoded(r) == MoovView::read(payload(src@, size)),
    {
        let p = payload_of(src, size);
        let mut mvhd: Option<MvhdBox> = None;
        let mut traks: Vec<TrakBox> = Vec::new();
        let mut mvex: Option<MvexBox> = None;
        let mut udta: Option<UdtaBox> = None;
        let mut cur: usize = 0;
        assert(views(traks@) =~= Seq::<TrakView>::empty());
        while cur < p.len()
            invariant
                cur <= p@.len(),
                p@ == payload(src@, size),
                MoovView::scan(p@, cur as int, MoovParts { mvhd: opt_view(mvhd),
                    traks: views(traks@), mvex: opt_view(mvex), udta: opt_view(udta) })
                    == MoovView::scan(p@, 0, MoovView::nothing()),
            decreases p@.len() - cur,
        {
            let ch = match Child::next_child(p, cur) {
                Ok(c) => c,
                Err(e) => {
                    return Err(e);
                },
            };
            let body = ch.bytes(p);
            match ch.name {
                BoxType::MvhdBox => {
                    match MvhdBox::read_box(body, ch.size) {
                        Ok(b) => {
                            mvhd = Some(b);
                        },
                        Err(e) => {
                            return Err(e);
                        },
                    }
                },
                BoxType::TrakBox => {
                    let ghost old_traks = traks@;
                    match TrakBox::read_box(body, ch.size) {
                        Ok(b) => {
                            traks.push(b);
                            assert(views(traks@) =~= views(old_traks).push(b@));
                        },
                        Err(e) => {
                            return Err(e);
                        },
                    }
                },
                BoxType::MvexBox => {
                    match MvexBox::read_box(body, ch.size) {
                        Ok(b) => {
                            mvex = Some(b);
                        },
                        Err(e) => {
                            return Err(e);
                        },
                    }
                },
                BoxType::UdtaBox => {
                    match UdtaBox::read_box(body, ch.size) {
                        Ok(b) => {
                            udta = Some(b);
                        },
                        Err(e) => {
                            return Err(e);
                        },
                    }
                },
                _ => {},
            }
            cur = ch.next;
        }
        let mvhd = match mvhd {
            Some(b) => b,
            None => {
                return Err(Error::BoxNotFound(BoxType::MvhdBox));
            },
        };
        let made = MoovBox { mvhd, traks, mvex, udta };
        assert(decoded(Ok::<MoovBox, Error>(made)) == MoovView::read(p@)) by {
            assert(made@ =~= MoovView::read(p@).unwrap());
        }
        Ok(made)
    }

    /// Appends the box to `out` and returns the number of bytes written;
    /// a box that is not well formed is refused and `out` left as it was.
    #[verifier::rlimit(50)]
    pub fn write_box(&self, out: &mut Vec<u8>) -> (r: Result<u64, Error>)
        ensures
            r is Ok <==> self@.well_formed(),
            r is Ok ==> r.unwrap() == self@.size() && final(out)@ == old(out)@ + self@.bytes()
                && self@.bytes().len() == self@.size(),
            r is Err ==> r.unwrap_err().spec_kind() == ErrorKind::InvalidData && final(out)@
                == old(out)@,
    {
        reveal(MoovView::size);
        reveal(MoovView::bytes);
        reveal(MoovView::well_formed);
        let mut body: Vec<u8> = Vec::new();
        match self.mvhd.write_box(&mut body) {
            Ok(_) => {},
            Err(e) => {
                return Err(e);
            },
        }
        let ghost b_mvhd = body@;
        assert(b_mvhd =~= Seq::<u8>::empty() + self@.mvhd.bytes());
        let ghost pre = body@;
        let mut i: usize = 0;
        while i < self.traks.len()
            invariant
                i <= self.traks@.len(),
                body@ == pre + concat(views(self.traks@).take(i as int), MoovView::traks_bytes()),
                concat(views(self.traks@).take(i as int), MoovView::traks_bytes()).len()
                    == sum_sizes(
                    views(self.traks@).take(i as int),
                    MoovView::traks_size(),
                ),
                forall|j: int| 0 <= j < i ==> (#[trigger] views(self.traks@)[j]).well_formed(),
            decreases self.traks@.len() - i,
        {
            proof {
                reveal(MoovView::well_formed);
                lemma_sum_take(views(self.traks@), i as int, MoovView::traks_size());
                lemma_concat_take(views(self.traks@), i as int, MoovView::traks_bytes());
            }
            let ghost before = body@;
            match self.traks[i].write_box(&mut body) {
                Ok(_) => {},
                Err(e) => {
                    proof {
                        reveal(MoovView::well_formed);
                        assert(!(self@.traks[i as int]).well_formed());
                        assert(!self@.well_formed());
                    }
                    return Err(e);
                },
            }
            proof {
                let piece = views(self.traks@)[i as int].bytes();
                lemma_assoc(pre, concat(views(self.traks@).take(i as int),
                    MoovView::traks_bytes()), piece);
                assert(body@ == pre + concat(views(self.traks@).take(i + 1),
                    MoovView::traks_bytes()));
            }
            i += 1;
        }
        proof {
            assert(views(self.traks@).take(i as int) =~= views(self.traks@));
        }
        let ghost b_traks = body@;
        assert(b_traks =~= b_mvhd + concat(self@.traks, MoovView::traks_bytes()));
        if let Some(c) = &self.mvex {
            match c.write_box(&mut body) {
                Ok(_) => {},
                Err(e) => {
                    return Err(e);
                },
            }
        }
        let ghost b_mvex = body@;
        assert(b_mvex =~= b_traks + opt_bytes(self@.mvex, MoovView::mvex_bytes()));
        if let Some(c) = &self.udta {
            match c.write_box(&mut body) {
                Ok(_) => {},
                Err(e) => {
                    return Err(e);
                },
            }
        }
        let ghost b_udta = body@;
        assert(b_udta =~= b_mvex + opt_bytes(self@.udta, MoovView::udta_bytes()));
        if body.len() > 0xFFFF_FFF7 {
            return Err(Error::InvalidData("moov box cannot be written"));
        }
        let size: u64 = 8 + body.len() as u64;
        BoxHeader::new(BoxType::MoovBox, size).write(out);
        put_bytes(out, body.as_slice());
        proof {
            let h = header_bytes(BoxType::MoovBox, size);
            lemma_add_empty(h);
            let l_0 = h;
            lemma_assoc(h, Seq::<u8>::empty(), self@.mvhd.bytes());
            let l_1 = l_0 + self@.mvhd.bytes();
            assert(h + b_mvhd == l_1);
            lemma_assoc(h, b_mvhd, concat(self@.traks, MoovView::traks_bytes()));
            let l_2 = l_1 + concat(self@.traks, MoovView::traks_bytes());
            assert(h + b_traks == l_2);
            lemma_assoc(h, b_traks, opt_bytes(self@.mvex, MoovView::mvex_bytes()));
            let l_3 = l_2 + opt_bytes(self@.mvex, MoovView::mvex_bytes());
            assert(h + b_mvex == l_3);
            lemma_assoc(h, b_mvex, opt_bytes(self@.udta, MoovView::udta_bytes()));
            let l_4 = l_3 + opt_bytes(self@.udta, MoovView::udta_bytes());
            assert(h + b_udta == l_4);
            lemma_assoc(old(out)@, h, body@);
        }
        Ok(size)
    }
}

} // verus!

//! The movie fragment box: a header and the track fragments that add samples
//! to the tracks.

use crate::codec::{add_size, put_bytes, saturate};
use crate::error::{Error, ErrorKind};
use crate::mp4box::header::{
    children_total, decoded, header_bytes, lemma_add_empty, lemma_assoc, lemma_child_at,
    lemma_children_tile, lemma_empty_add, lemma_plain_header, lemma_sum_take, lemma_window,
    opt_view, payload, payload_of, sum_sizes, views, BoxHeader, Child,
};
use crate::mp4box::table::{concat, lemma_concat_front, lemma_concat_take};
use crate::mp4box::mfhd::MfhdBox;
use crate::mp4box::traf::{TrafBox, TrafView};
use crate::mp4box::BoxType;
use vstd::prelude::*;

verus! {

/// The movie fragment box: a header and the track fragments that add samples to the tracks.
#[derive(Debug, Clone, PartialEq, Eq, Default)]
pub struct MoofBox {
    pub mfhd: MfhdBox,
    pub trafs: Vec<TrafBox>,
}

/// What a [`MoofBox`] holds.
pub struct MoofView {
    pub mfhd: MfhdBox,
    pub trafs: Seq<TrafView>,
}

/// The children of a `moof` box found so far in a walk over its payload.
pub struct MoofParts {
    pub mfhd: Option<MfhdBox>,
    pub trafs: Seq<TrafView>,
}

impl View for MoofBox {
    type V = MoofView;

    open spec fn view(&self) -> MoofView {
        MoofView { mfhd: self.mfhd@, trafs: views(self.trafs@) }
    }
}

impl MoofView {
    /// No child found yet.
    pub open spec fn nothing() -> MoofParts {
        MoofParts { mfhd: None, trafs: Seq::empty() }
    }

    /// The walk over the children of the payload `p` from `cur` on, with
    /// `acc` found before: a child of a type that the box names is decoded
    /// and kept, the last of a type winning; any other child is skipped.
    pub open spec fn scan(p: Seq<u8>, cur: int, acc: MoofParts) -> Result<MoofParts, ErrorKind>
        decreases p.len() - cur,
    {
        if cur < 0 || cur >= p.len() {
            Ok(acc)
        } else {
            match Child::spec_next(p, cur) {
                Err(e) => Err(e),
                Ok(ch) => if ch.name == BoxType::MfhdBox {
                    match MfhdBox::read(ch.bytes(p)) {
                        Err(e) => Err(e),
                        Ok(b) => MoofView::scan(p, ch.next, MoofParts { mfhd: Some(b), ..acc }),
                    }
                } else if ch.name == BoxType::TrafBox {
                    match TrafView::read(ch.bytes(p)) {
                        Err(e) => Err(e),
                        Ok(b) => MoofView::scan(p, ch.next, MoofParts { trafs: acc.trafs.push(b),
                            ..acc }),
                    }
                } else {
                    MoofView::scan(p, ch.next, acc)
                },
            }
        }
    }

    /// Whether the walk keeps children of the type `name`.
    pub open spec fn names(name: BoxType) -> bool {
        name == BoxType::MfhdBox || name == BoxType::TrafBox
    }

    /// A child of a type that the box does not name is skipped: the walk
    /// goes on behind it with what was found before.
    pub proof fn lemma_unknown_child_skipped(p: Seq<u8>, cur: int, acc: MoofParts)
        requires
            0 <= cur < p.len(),
            Child::spec_next(p, cur) is Ok,
            !MoofView::names(Child::spec_next(p, cur).unwrap().name),
        ensures
            MoofView::scan(p, cur, acc) == MoofView::scan(p, Child::spec_next(p,
                cur).unwrap().next, acc),
    {
    }

    /// Where the walk succeeds, the children tile the payload: their
    /// declared sizes add up to its length.
    pub proof fn lemma_children_tile(p: Seq<u8>, cur: int, acc: MoofParts)
        requires
            0 <= cur <= p.len(),
            MoofView::scan(p, cur, acc) is Ok,
        ensures
            children_total(p, cur) == Some(p.len() - cur),
        decreases p.len() - cur,
    {
        if cur < p.len() {
            let ch = Child::spec_next(p, cur).unwrap();
            if ch.name == BoxType::MfhdBox {
                let b = MfhdBox::read(ch.bytes(p)).unwrap();
                MoofView::lemma_children_tile(p, ch.next, MoofParts { mfhd: Some(b), ..acc });
            } else if ch.name == BoxType::TrafBox {
                let b = TrafView::read(ch.bytes(p)).unwrap();
                MoofView::lemma_children_tile(p, ch.next, MoofParts { trafs: acc.trafs.push(b),
                    ..acc });
            } else {
                MoofView::lemma_children_tile(p, ch.next, acc);
            }
            lemma_children_tile(p, cur);
        }
    }

    /// The box that the payload `p` holds.
    pub open spec fn read(p: Seq<u8>) -> Result<MoofView, ErrorKind> {
        match MoofView::scan(p, 0, MoofView::nothing()) {
            Err(e) => Err(e),
            Ok(parts) => if parts.mfhd is None {
                Err(ErrorKind::BoxNotFound(BoxType::MfhdBox))
            } else {
                Ok(
                    MoofView {
                        mfhd: parts.mfhd.unwrap(),
                        trafs: parts.trafs,
                    },
                )
            },
        }
    }

    /// The written size of a `trafs` child.
    pub open spec fn trafs_size() -> spec_fn(TrafView) -> nat {
        |c: TrafView| c.size()
    }

    /// The written bytes of a `trafs` child.
    pub open spec fn trafs_bytes() -> spec_fn(TrafView) -> Seq<u8> {
        |c: TrafView| c.bytes()
    }

    /// The number of bytes that the box is written as.
    #[verifier::opaque]
    pub open spec fn size(self) -> nat {
        8 + self.mfhd.size() + sum_sizes(self.trafs, MoofView::trafs_size())
    }

    /// The box can be written: each child can, and the size fits 32 bits.
    #[verifier::opaque]
    pub open spec fn well_formed(self) -> bool {
        &&& self.mfhd.well_formed()
        &&& forall|i: int| 0 <= i < self.trafs.len() ==> (#[trigger] self.trafs[i]).well_formed()
        &&& self.size() <= u32::MAX
    }

    /// The box as it is written: its header, then its children in order.
    #[verifier::opaque]
    pub open spec fn bytes(self) -> Seq<u8> {
        header_bytes(BoxType::MoofBox, self.size() as u64) + self.mfhd.bytes() + concat(self.trafs,
            MoofView::trafs_bytes())
    }

    /// The track fragment `c` reads back from what it is written as.
    pub open spec fn traf_reads_back(c: TrafView) -> bool {
        &&& c.bytes().len() == c.size()
        &&& BoxHeader::spec_read(c.bytes(), 0) == Ok::<BoxHeader, ErrorKind>(
            BoxHeader { name: BoxType::TrafBox, size: c.size() as u64, header_len: 8 },
        )
        &&& TrafView::read(c.bytes().skip(8)) == Ok::<TrafView, ErrorKind>(c)
    }

    /// Each child of the box reads back from what it is written as.
    pub open spec fn children_read_back(self) -> bool {
        &&& self.mfhd.bytes().len() == self.mfhd.size()
        &&& BoxHeader::spec_read(self.mfhd.bytes(), 0) == Ok::<BoxHeader, ErrorKind>(
            BoxHeader { name: BoxType::MfhdBox, size: self.mfhd.size() as u64, header_len: 8 },
        )
        &&& MfhdBox::read(self.mfhd.bytes().skip(8)) == Ok::<MfhdBox, ErrorKind>(self.mfhd)
        &&& forall|i: int|
            0 <= i < self.trafs.len() ==> MoofView::traf_reads_back(#[trigger] self.trafs[i])
    }

    /// The walk keeps a run of track fragments that stand whole in the
    /// payload, one after another, and goes on behind the last.
    pub proof fn lemma_scan_trafs(p: Seq<u8>, cur: int, acc: MoofParts, s: Seq<TrafView>, i: int)
        requires
            0 <= cur,
            0 <= i <= s.len(),
            p.len() <= u32::MAX,
            forall|j: int| 0 <= j < s.len() ==> MoofView::traf_reads_back(#[trigger] s[j]),
            cur + concat(s.skip(i), MoofView::trafs_bytes()).len() <= p.len(),
            p.subrange(cur, cur + concat(s.skip(i), MoofView::trafs_bytes()).len()) == concat(
                s.skip(i),
                MoofView::trafs_bytes(),
            ),
            acc.trafs == s.take(i),
        ensures
            MoofView::scan(p, cur, acc) == MoofView::scan(
                p,
                cur + concat(s.skip(i), MoofView::trafs_bytes()).len(),
                MoofParts { trafs: s, ..acc },
            ),
        decreases s.len() - i,
    {
        let rest = s.skip(i);
        let all = concat(rest, MoofView::trafs_bytes());
        if i == s.len() {
            assert(rest =~= Seq::<TrafView>::empty());
            assert(s.take(i) =~= s);
        } else {
            lemma_concat_front(rest, MoofView::trafs_bytes());
            let c = s[i].bytes();
            assert(rest[0] == s[i]);
            assert(rest.skip(1) =~= s.skip(i + 1));
            let tail = concat(s.skip(i + 1), MoofView::trafs_bytes());
            assert(all == c + tail);
            assert(MoofView::traf_reads_back(s[i]));
            assert(p.subrange(cur, cur + c.len()) =~= c);
            let held = p.subrange(cur, cur + all.len());
            assert forall|k: int| 0 <= k < tail.len() implies p[cur + c.len() + k]
                == tail[k] by {
                assert(held[c.len() + k] == tail[k]);
            }
            assert(p.subrange(cur + c.len(), cur + c.len() + tail.len()) =~= tail);
            lemma_child_at(p, cur, c, BoxType::TrafBox, s[i].size() as u64);
            let kept = MoofParts { trafs: acc.trafs.push(s[i]), ..acc };
            assert(kept.trafs =~= s.take(i + 1));
            MoofView::lemma_scan_trafs(p, cur + c.len(), kept, s, i + 1);
            assert(MoofView::scan(p, cur, acc) == MoofView::scan(p, cur + c.len(), kept));
        }
    }

    /// Decoding what a well-formed box is written as gives the box back,
    /// where each of its children reads back.
    #[verifier::rlimit(50)]
    pub proof fn lemma_round_trip(self)
        requires
            self.well_formed(),
            self.children_read_back(),
        ensures
            self.bytes().len() == self.size(),
            BoxHeader::spec_read(self.bytes(), 0) == Ok::<BoxHeader, ErrorKind>(
                BoxHeader { name: BoxType::MoofBox, size: self.size() as u64, header_len: 8 },
            ),
            MoofView::read(self.bytes().skip(8)) == Ok::<MoofView, ErrorKind>(self),
    {
        reveal(MoofView::size);
        reveal(MoofView::bytes);
        reveal(MoofView::well_formed);
        let size = self.size() as u64;
        let h = header_bytes(BoxType::MoofBox, size);
        let w0 = self.mfhd.bytes();
        let w1 = concat(self.trafs, MoofView::trafs_bytes());
        MoofView::lemma_run_len(self.trafs);
        lemma_assoc(h, w0, w1);
        let p = w0 + w1;
        assert(self.bytes() == h + p);
        lemma_plain_header(BoxType::MoofBox, size, p);
        lemma_empty_add(w0);
        lemma_window(Seq::empty(), w0, w1);
        lemma_child_at(p, 0, w0, BoxType::MfhdBox, self.mfhd.size() as u64);
        let acc1 = MoofParts { mfhd: Some(self.mfhd), ..MoofView::nothing() };
        assert(MoofView::scan(p, 0, MoofView::nothing()) == MoofView::scan(
            p,
            w0.len() as int,
            acc1,
        ));
        assert(self.trafs.skip(0) =~= self.trafs);
        assert(self.trafs.take(0) =~= Seq::<TrafView>::empty());
        assert(p.subrange(w0.len() as int, (w0.len() + w1.len()) as int) =~= w1);
        MoofView::lemma_scan_trafs(p, w0.len() as int, acc1, self.trafs, 0);
    }

    /// A run of track fragments that read back is as long as their sizes
    /// added up.
    pub proof fn lemma_run_len(s: Seq<TrafView>)
        requires
            forall|j: int| 0 <= j < s.len() ==> MoofView::traf_reads_back(#[trigger] s[j]),
        ensures
            concat(s, MoofView::trafs_bytes()).len() == sum_sizes(s, MoofView::trafs_size()),
        decreases s.len(),
    {
        if s.len() > 0 {
            assert(MoofView::traf_reads_back(s[s.len() - 1]));
            MoofView::lemma_run_len(s.drop_last());
        }
    }
}

impl MoofBox {
    pub fn get_type(&self) -> (r: BoxType)
        ensures
            r == BoxType::MoofBox,
    {
        BoxType::MoofBox
    }

    /// The size of the box as written, saturating at `u64::MAX`.
    pub fn get_size(&self) -> (r: u64)
        ensures
            r == saturate(self@.size() as int),
    {
        reveal(MoofView::size);
        let mut total: u64 = 8;
        total = add_size(total, self.mfhd.get_size());
        let ghost base: int = (8 + self@.mfhd.size()) as int;
        let mut i: usize = 0;
        while i < self.trafs.len()
            invariant
                i <= self.trafs@.len(),
                base >= 0,
                total == saturate(
                    base + sum_sizes(views(self.trafs@).take(i as int), MoofView::trafs_size()),
                ),
            decreases self.trafs@.len() - i,
        {
            proof {
                lemma_sum_take(views(self.trafs@), i as int, MoofView::trafs_size());
            }
            total = add_size(total, self.trafs[i].get_size());
            i += 1;
        }
        proof {
            assert(views(self.trafs@).take(i as int) =~= views(self.trafs@));
        }
        total
    }

    /// Decodes the box of declared size `size` whose payload starts `src`.
    #[verifier::rlimit(50)]
    pub fn read_box(src: &[u8], size: u64) -> (r: Result<MoofBox, Error>)
        ensures
            decoded(r) == MoofView::read(payload(src@, size)),
    {
        let p = payload_of(src, size);
        let mut mfhd: Option<MfhdBox> = None;
        let mut trafs: Vec<TrafBox> = Vec::new();
        let mut cur: usize = 0;
        assert(views(trafs@) =~= Seq::<TrafView>::empty());
        while cur < p.len()
            invariant
                cur <= p@.len(),
                p@ == payload(src@, size),
                MoofView::scan(p@, cur as int, MoofParts { mfhd: opt_view(mfhd),
                    trafs: views(trafs@) }) == MoofView::scan(p@, 0, MoofView::nothing()),
            decreases p@.len() - cur,
        {
            let ch = match Child::next_child(p, cur) {
                Ok(c) => c,
                Err(e) => {
                    return Err(e);
                },
            };
            let body = ch.bytes(p);
            match ch.name {
                BoxType::MfhdBox => {
                    match MfhdBox::read_box(body, ch.size) {
                        Ok(b) => {
                            mfhd = Some(b);
                        },
                        Err(e) => {
                            return Err(e);
                        },
                    }
                },
                BoxType::TrafBox => {
                    let ghost old_trafs = trafs@;
                    match TrafBox::read_box(body, ch.size) {
                        Ok(b) => {
                            trafs.push(b);
                            assert(views(trafs@) =~= views(old_trafs).push(b@));
                        },
                        Err(e) => {
                            return Err(e);
                        },
                    }
                },
                _ => {},
            }
            cur = ch.next;
        }
        let mfhd = match mfhd {
            Some(b) => b,
            None => {
                return Err(Error::BoxNotFound(BoxType::MfhdBox));
            },
        };
        let made = MoofBox { mfhd, trafs };
        assert(decoded(Ok::<MoofBox, Error>(made)) == MoofView::read(p@)) by {
            assert(made@ =~= MoofView::read(p@).unwrap());
        }
        Ok(made)
    }

    /// Appends the box to `out` and returns the number of bytes written;
    /// a box that is not well formed is refused and `out` left as it was.
    #[verifier::rlimit(50)]
    pub fn write_box(&self, out: &mut Vec<u8>) -> (r: Result<u64, Error>)
        ensures
            r is Ok <==> self@.well_formed(),
            r is Ok ==> r.unwrap() == self@.size() && final(out)@ == old(out)@ + self@.bytes()
                && self@.bytes().len() == self@.size(),
            r is Err ==> r.unwrap_err().spec_kind() == ErrorKind::InvalidData && final(out)@
                == old(out)@,
    {
        reveal(MoofView::size);
        reveal(MoofView::bytes);
        reveal(MoofView::well_formed);
        let mut body: Vec<u8> = Vec::new();
        match self.mfhd.write_box(&mut body) {
            Ok(_) => {},
            Err(e) => {
                return Err(e);
            },
        }
        let ghost b_mfhd = body@;
        assert(b_mfhd =~= Seq::<u8>::empty() + self@.mfhd.bytes());
        let ghost pre = body@;
        let mut i: usize = 0;
        while i < self.trafs.len()
            invariant
                i <= self.trafs@.len(),
                body@ == pre + concat(views(self.trafs@).take(i as int), MoofView::trafs_bytes()),
                concat(views(self.trafs@).take(i as int), MoofView::trafs_bytes()).len()
                    == sum_sizes(
                    views(self.trafs@).take(i as int),
                    MoofView::trafs_size(),
                ),
                forall|j: int| 0 <= j < i ==> (#[trigger] views(self.trafs@)[j]).well_formed(),
            decreases self.trafs@.len() - i,
        {
            proof {
                reveal(MoofView::well_formed);
                lemma_sum_take(views(self.trafs@), i as int, MoofView::trafs_size());
                lemma_concat_take(views(self.trafs@), i as int, MoofView::trafs_bytes());
            }
            let ghost before = body@;
            match self.trafs[i].write_box(&mut body) {
                Ok(_) => {},
                Err(e) => {
                    proof {
                        reveal(MoofView::well_formed);
                        assert(!(self@.trafs[i as int]).well_formed());
                        assert(!self@.well_formed());
                    }
                    return Err(e);
                },
            }
            proof {
                let piece = views(self.trafs@)[i as int].bytes();
                lemma_assoc(pre, concat(views(self.trafs@).take(i as int),
                    MoofView::trafs_bytes()), piece);
                assert(body@ == pre + concat(views(self.trafs@).take(i + 1),
                    MoofView::trafs_bytes()));
            }
            i += 1;
        }
        proof {
            assert(views(self.trafs@).take(i as int) =~= views(self.trafs@));
        }
        let ghost b_trafs = body@;
        assert(b_trafs =~= b_mfhd + concat(self@.trafs, MoofView::trafs_bytes()));
        if body.len() > 0xFFFF_FFF7 {
            return Err(Error::InvalidData("moof box cannot be written"));
        }
        let size: u64 = 8 + body.len() as u64;
        BoxHeader::new(BoxType::MoofBox, size).write(out);
        put_bytes(out, body.as_slice());
        proof {
            let h = header_bytes(BoxType::MoofBox, size);
            lemma_add_empty(h);
            let l_0 = h;
            lemma_assoc(h, Seq::<u8>::empty(), self@.mfhd.bytes());
            let l_1 = l_0 + self@.mfhd.bytes();
            assert(h + b_mfhd == l_1);
            lemma_assoc(h, b_mfhd, concat(self@.trafs, MoofView::trafs_bytes()));
            let l_2 = l_1 + concat(self@.trafs, MoofView::trafs_bytes());
            assert(h + b_trafs == l_2);
            lemma_assoc(old(out)@, h, body@);
        }
        Ok(size)
    }
}

} // verus!

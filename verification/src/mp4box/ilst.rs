//! The metadata item list box: the title, release date, cover picture and
//! description of a movie, as far as each is given.

use crate::codec::{add_size, put_bytes, saturate};
use crate::error::{Error, ErrorKind};
use crate::mp4box::header::{
    children_total, decoded, header_bytes, lemma_add_empty, lemma_assoc, lemma_children_tile,
    opt_bytes, opt_size, opt_view, payload, payload_of, BoxHeader, Child,
};
use crate::mp4box::covr::{CovrBox, CovrView};
use crate::mp4box::day::{DayBox, DayView};
use crate::mp4box::desc::{DescBox, DescView};
use crate::mp4box::name::{NameBox, NameView};
use crate::mp4box::BoxType;
use vstd::prelude::*;

verus! {

/// The metadata item list box: the title, release date, cover picture and
/// description of a movie, as far as each is given.
#[derive(Debug, Clone, PartialEq, Eq, Default)]
pub struct IlstBox {
    pub title: Option<NameBox>,
    pub year: Option<DayBox>,
    pub poster: Option<CovrBox>,
    pub summary: Option<DescBox>,
}

/// What a [`IlstBox`] holds.
pub struct IlstView {
    pub title: Option<NameView>,
    pub year: Option<DayView>,
    pub poster: Option<CovrView>,
    pub summary: Option<DescView>,
}

/// The children of a `ilst` box found so far in a walk over its payload.
pub struct IlstParts {
    pub title: Option<NameView>,
    pub year: Option<DayView>,
    pub poster: Option<CovrView>,
    pub summary: Option<DescView>,
}

impl View for IlstBox {
    type V = IlstView;

    open spec fn view(&self) -> IlstView {
        IlstView { title: opt_view(self.title), year: opt_view(self.year),
            poster: opt_view(self.poster), summary: opt_view(self.summary) }
    }
}

impl IlstView {
    /// No child found yet.
    pub open spec fn nothing() -> IlstParts {
        IlstParts { title: None, year: None, poster: None, summary: None }
    }

    /// The walk over the children of the payload `p` from `cur` on, with
    /// `acc` found before: a child of a type that the box names is decoded
    /// and kept, the last of a type winning; any other child is skipped.
    pub open spec fn scan(p: Seq<u8>, cur: int, acc: IlstParts) -> Result<IlstParts, ErrorKind>
        decreases p.len() - cur,
    {
        if cur < 0 || cur >= p.len() {
            Ok(acc)
        } else {
            match Child::spec_next(p, cur) {
                Err(e) => Err(e),
                Ok(ch) => if ch.name == BoxType::NameBox {
                    match NameView::read(ch.bytes(p)) {
                        Err(e) => Err(e),
                        Ok(b) => IlstView::scan(p, ch.next, IlstParts { title: Some(b), ..acc }),
                    }
                } else if ch.name == BoxType::DayBox {
                    match DayView::read(ch.bytes(p)) {
                        Err(e) => Err(e),
                        Ok(b) => IlstView::scan(p, ch.next, IlstParts { year: Some(b), ..acc }),
                    }
                } else if ch.name == BoxType::CovrBox {
                    match CovrView::read(ch.bytes(p)) {
                        Err(e) => Err(e),
                        Ok(b) => IlstView::scan(p, ch.next, IlstParts { poster: Some(b), ..acc }),
                    }
                } else if ch.name == BoxType::DescBox {
                    match DescView::read(ch.bytes(p)) {
                        Err(e) => Err(e),
                        Ok(b) => IlstView::scan(p, ch.next, IlstParts { summary: Some(b), ..acc }),
                    }
                } else {
                    IlstView::scan(p, ch.next, acc)
                },
            }
        }
    }

    /// Whether the walk keeps children of the type `name`.
    pub open spec fn names(name: BoxType) -> bool {
        name == BoxType::NameBox || name == BoxType::DayBox || name == BoxType::CovrBox || name
            == BoxType::DescBox
    }

    /// A child of a type that the box does not name is skipped: the walk
    /// goes on behind it with what was found before.
    pub proof fn lemma_unknown_child_skipped(p: Seq<u8>, cur: int, acc: IlstParts)
        requires
            0 <= cur < p.len(),
            Child::spec_next(p, cur) is Ok,
            !IlstView::names(Child::spec_next(p, cur).unwrap().name),
        ensures
            IlstView::scan(p, cur, acc) == IlstView::scan(p, Child::spec_next(p,
                cur).unwrap().next, acc),
    {
    }

    /// Where the walk succeeds, the children tile the payload: their
    /// declared sizes add up to its length.
    pub proof fn lemma_children_tile(p: Seq<u8>, cur: int, acc: IlstParts)
        requires
            0 <= cur <= p.len(),
            IlstView::scan(p, cur, acc) is Ok,
        ensures
            children_total(p, cur) == Some(p.len() - cur),
        decreases p.len() - cur,
    {
        if cur < p.len() {
            let ch = Child::spec_next(p, cur).unwrap();
            if ch.name == BoxType::NameBox {
                let b = NameView::read(ch.bytes(p)).unwrap();
                IlstView::lemma_children_tile(p, ch.next, IlstParts { title: Some(b), ..acc });
            } else if ch.name == BoxType::DayBox {
                let b = DayView::read(ch.bytes(p)).unwrap();
                IlstView::lemma_children_tile(p, ch.next, IlstParts { year: Some(b), ..acc });
            } else if ch.name == BoxType::CovrBox {
                let b = CovrView::read(ch.bytes(p)).unwrap();
                IlstView::lemma_children_tile(p, ch.next, IlstParts { poster: Some(b), ..acc });
            } else if ch.name == BoxType::DescBox {
                let b = DescView::read(ch.bytes(p)).unwrap();
                IlstView::lemma_children_tile(p, ch.next, IlstParts { summary: Some(b), ..acc });
            } else {
                IlstView::lemma_children_tile(p, ch.next, acc);
            }
            lemma_children_tile(p, cur);
        }
    }

    /// The box that the payload `p` holds.
    pub open spec fn read(p: Seq<u8>) -> Result<IlstView, ErrorKind> {
        match IlstView::scan(p, 0, IlstView::nothing()) {
            Err(e) => Err(e),
            Ok(parts) => {
                Ok(
                    IlstView {
                        title: parts.title,
                        year: parts.year,
                        poster: parts.poster,
                        summary: parts.summary,
                    },
                )
            },
        }
    }

    /// The written size of a `title` child.
    pub open spec fn title_size() -> spec_fn(NameView) -> nat {
        |c: NameView| c.size()
    }

    /// The written bytes of a `title` child.
    pub open spec fn title_bytes() -> spec_fn(NameView) -> Seq<u8> {
        |c: NameView| c.bytes()
    }

    /// The written size of a `year` child.
    pub open spec fn year_size() -> spec_fn(DayView) -> nat {
        |c: DayView| c.size()
    }

    /// The written bytes of a `year` child.
    pub open spec fn year_bytes() -> spec_fn(DayView) -> Seq<u8> {
        |c: DayView| c.bytes()
    }

    /// The written size of a `poster` child.
    pub open spec fn poster_size() -> spec_fn(CovrView) -> nat {
        |c: CovrView| c.size()
    }

    /// The written bytes of a `poster` child.
    pub open spec fn poster_bytes() -> spec_fn(CovrView) -> Seq<u8> {
        |c: CovrView| c.bytes()
    }

    /// The written size of a `summary` child.
    pub open spec fn summary_size() -> spec_fn(DescView) -> nat {
        |c: DescView| c.size()
    }

    /// The written bytes of a `summary` child.
    pub open spec fn summary_bytes() -> spec_fn(DescView) -> Seq<u8> {
        |c: DescView| c.bytes()
    }

    /// The number of bytes that the box is written as.
    #[verifier::opaque]
    pub open spec fn size(self) -> nat {
        8 + opt_size(self.title, IlstView::title_size()) + opt_size(self.year,
            IlstView::year_size()) + opt_size(self.poster, IlstView::poster_size())
            + opt_size(self.summary, IlstView::summary_size())
    }

    /// The box can be written: each child can, and the size fits 32 bits.
    #[verifier::opaque]
    pub open spec fn well_formed(self) -> bool {
        &&& self.title is Some ==> self.title.unwrap().well_formed()
        &&& self.year is Some ==> self.year.unwrap().well_formed()
        &&& self.poster is Some ==> self.poster.unwrap().well_formed()
        &&& self.summary is Some ==> self.summary.unwrap().well_formed()
        &&& self.size() <= u32::MAX
    }

    /// The box as it is written: its header, then its children in order.
    #[verifier::opaque]
    pub open spec fn bytes(self) -> Seq<u8> {
        header_bytes(BoxType::IlstBox, self.size() as u64) + opt_bytes(self.title,
            IlstView::title_bytes()) + opt_bytes(self.year, IlstView::year_bytes())
            + opt_bytes(self.poster, IlstView::poster_bytes()) + opt_bytes(self.summary,
            IlstView::summary_bytes())
    }
}

impl IlstBox {
    pub fn get_type(&self) -> (r: BoxType)
        ensures
            r == BoxType::IlstBox,
    {
        BoxType::IlstBox
    }

    /// The size of the box as written, saturating at `u64::MAX`.
    pub fn get_size(&self) -> (r: u64)
        ensures
            r == saturate(self@.size() as int),
    {
        reveal(IlstView::size);
        let mut total: u64 = 8;
        if let Some(c) = &self.title {
            total = add_size(total, c.get_size());
        }
        if let Some(c) = &self.year {
            total = add_size(total, c.get_size());
        }
        if let Some(c) = &self.poster {
            total = add_size(total, c.get_size());
        }
        if let Some(c) = &self.summary {
            total = add_size(total, c.get_size());
        }
        total
    }

    /// Decodes the box of declared size `size` whose payload starts `src`.
    #[verifier::rlimit(50)]
    pub fn read_box(src: &[u8], size: u64) -> (r: Result<IlstBox, Error>)
        ensures
            decoded(r) == IlstView::read(payload(src@, size)),
    {
        let p = payload_of(src, size);
        let mut title: Option<NameBox> = None;
        let mut year: Option<DayBox> = None;
        let mut poster: Option<CovrBox> = None;
        let mut summary: Option<DescBox> = None;
        let mut cur: usize = 0;

        while cur < p.len()
            invariant
                cur <= p@.len(),
                p@ == payload(src@, size),
                IlstView::scan(p@, cur as int, IlstParts { title: opt_view(title),
                    year: opt_view(year), poster: opt_view(poster),
                    summary: opt_view(summary) }) == IlstView::scan(p@, 0, IlstView::nothing()),
            decreases p@.len() - cur,
        {
            let ch = match Child::next_child(p, cur) {
                Ok(c) => c,
                Err(e) => {
                    return Err(e);
                },
            };
            let body = ch.bytes(p);
            match ch.name {
                BoxType::NameBox => {
                    match NameBox::read_box(body, ch.size) {
                        Ok(b) => {
                            title = Some(b);
                        },
                        Err(e) => {
                            return Err(e);
                        },
                    }
                },
                BoxType::DayBox => {
                    match DayBox::read_box(body, ch.size) {
                        Ok(b) => {
                            year = Some(b);
                        },
                        Err(e) => {
                            return Err(e);
                        },
                    }
                },
                BoxType::CovrBox => {
                    match CovrBox::read_box(body, ch.size) {
                        Ok(b) => {
                            poster = Some(b);
                        },
                        Err(e) => {
                            return Err(e);
                        },
                    }
                },
                BoxType::DescBox => {
                    match DescBox::read_box(body, ch.size) {
                        Ok(b) => {
                            summary = Some(b);
                        },
                        Err(e) => {
                            return Err(e);
                        },
                    }
                },
                _ => {},
            }
            cur = ch.next;
        }

        let made = IlstBox { title, year, poster, summary };
        assert(decoded(Ok::<IlstBox, Error>(made)) == IlstView::read(p@)) by {
            assert(made@ =~= IlstView::read(p@).unwrap());
        }
        Ok(made)
    }

    /// Appends the box to `out` and returns the number of bytes written;
    /// a box that is not well formed is refused and `out` left as it was.
    #[verifier::rlimit(50)]
    pub fn write_box(&self, out: &mut Vec<u8>) -> (r: Result<u64, Error>)
        ensures
            r is Ok <==> self@.well_formed(),
            r is Ok ==> r.unwrap() == self@.size() && final(out)@ == old(out)@ + self@.bytes()
                && self@.bytes().len() == self@.size(),
            r is Err ==> r.unwrap_err().spec_kind() == ErrorKind::InvalidData && final(out)@
                == old(out)@,
    {
        reveal(IlstView::size);
        reveal(IlstView::bytes);
        reveal(IlstView::well_formed);
        let mut body: Vec<u8> = Vec::new();
        if let Some(c) = &self.title {
            match c.write_box(&mut body) {
                Ok(_) => {},
                Err(e) => {
                    return Err(e);
                },
            }
        }
        let ghost b_title = body@;
        assert(b_title =~= Seq::<u8>::empty() + opt_bytes(self@.title, IlstView::title_bytes()));
        if let Some(c) = &self.year {
            match c.write_box(&mut body) {
                Ok(_) => {},
                Err(e) => {
                    return Err(e);
                },
            }
        }
        let ghost b_year = body@;
        assert(b_year =~= b_title + opt_bytes(self@.year, IlstView::year_bytes()));
        if let Some(c) = &self.poster {
            match c.write_box(&mut body) {
                Ok(_) => {},
                Err(e) => {
                    return Err(e);
                },
            }
        }
        let ghost b_poster = body@;
        assert(b_poster =~= b_year + opt_bytes(self@.poster, IlstView::poster_bytes()));
        if let Some(c) = &self.summary {
            match c.write_box(&mut body) {
                Ok(_) => {},
                Err(e) => {
                    return Err(e);
                },
            }
        }
        let ghost b_summary = body@;
        assert(b_summary =~= b_poster + opt_bytes(self@.summary, IlstView::summary_bytes()));
        if body.len() > 0xFFFF_FFF7 {
            return Err(Error::InvalidData("ilst box cannot be written"));
        }
        let size: u64 = 8 + body.len() as u64;
        BoxHeader::new(BoxType::IlstBox, size).write(out);
        put_bytes(out, body.as_slice());
        proof {
            let h = header_bytes(BoxType::IlstBox, size);
            lemma_add_empty(h);
            let l_0 = h;
            lemma_assoc(h, Seq::<u8>::empty(), opt_bytes(self@.title, IlstView::title_bytes()));
            let l_1 = l_0 + opt_bytes(self@.title, IlstView::title_bytes());
            assert(h + b_title == l_1);
            lemma_assoc(h, b_title, opt_bytes(self@.year, IlstView::year_bytes()));
            let l_2 = l_1 + opt_bytes(self@.year, IlstView::year_bytes());
            assert(h + b_year == l_2);
            lemma_assoc(h, b_year, opt_bytes(self@.poster, IlstView::poster_bytes()));
            let l_3 = l_2 + opt_bytes(self@.poster, IlstView::poster_bytes());
            assert(h + b_poster == l_3);
            lemma_assoc(h, b_poster, opt_bytes(self@.summary, IlstView::summary_bytes()));
            let l_4 = l_3 + opt_bytes(self@.summary, IlstView::summary_bytes());
            assert(h + b_summary == l_4);
            lemma_assoc(old(out)@, h, body@);
        }
        Ok(size)
    }
}

} // verus!

//! The metadata box.

use crate::codec::{add_size, be_u32, get_u32, put_bytes, saturate};
use crate::error::{Error, ErrorKind};
use crate::mp4box::hdlr::{HdlrBox, HdlrView};
use crate::mp4box::header::{
    decoded, full_header_bytes, header_bytes, lemma_assoc, lemma_sum_take, opt_bytes, opt_size,
    opt_view, payload, payload_of, spec_version, sum_sizes, views, write_box_header_ext, BoxHeader,
    Child,
};
use crate::mp4box::ilst::{IlstBox, IlstView};
use crate::mp4box::table::{concat, lemma_concat_take};
use crate::mp4box::{BoxType, FourCC};
use vstd::prelude::*;
use vstd::slice::slice_to_vec;

verus! {

/// The handler type of metadata kept as a list of items.
pub const MDIR: u32 = 0x6d64_6972;

/// A box kept as it stands in the file: its type and its payload.
#[derive(Debug, Clone, PartialEq, Eq)]
pub struct RawBox {
    pub name: BoxType,
    pub data: Vec<u8>,
}

/// What a [`RawBox`] holds.
pub struct RawView {
    pub name: BoxType,
    pub data: Seq<u8>,
}

impl View for RawBox {
    type V = RawView;

    open spec fn view(&self) -> RawView {
        RawView { name: self.name, data: self.data@ }
    }
}

impl RawView {
    /// The number of bytes that the box is written as.
    pub open spec fn size(self) -> nat {
        8 + self.data.len()
    }

    /// The box as it is written.
    pub open spec fn bytes(self) -> Seq<u8> {
        header_bytes(self.name, self.size() as u64) + self.data
    }
}

/// The metadata of a movie. Its handler decides what it holds: under the
/// handler `mdir` a list of items, under any other the children as they
/// stand in the file.
#[derive(Debug, Clone, PartialEq, Eq)]
pub enum MetaBox {
    Mdir { ilst: Option<IlstBox> },
    Unknown { hdlr: HdlrBox, data: Vec<RawBox> },
}

/// What a [`MetaBox`] holds.
pub enum MetaView {
    Mdir { ilst: Option<IlstView> },
    Unknown { hdlr: HdlrView, data: Seq<RawView> },
}

impl View for MetaBox {
    type V = MetaView;

    open spec fn view(&self) -> MetaView {
        match *self {
            MetaBox::Mdir { ilst } => MetaView::Mdir { ilst: opt_view(ilst) },
            MetaBox::Unknown { hdlr, data } => MetaView::Unknown { hdlr: hdlr@,
                data: views(data@) },
        }
    }
}

impl Default for MetaBox {
    /// Metadata of no handler and no children.
    fn default() -> (r: MetaBox)
        ensures
            r@ == (MetaView::Unknown {
                hdlr: HdlrView {
                    version: 0,
                    flags: 0,
                    handler_type: FourCC { value: 0 },
                    name: Seq::empty(),
                },
                data: Seq::empty(),
            }),
    {
        let r = MetaBox::Unknown {
            hdlr: HdlrBox {
                version: 0,
                flags: 0,
                handler_type: FourCC { value: 0 },
                name: String::new(),
            },
            data: Vec::new(),
        };
        assert(views(Seq::<RawBox>::empty()) =~= Seq::<RawView>::empty());
        r
    }
}

impl MetaView {
    /// The handler that is written for a list of items.
    pub open spec fn mdir_hdlr() -> HdlrView {
        HdlrView {
            version: 0,
            flags: 0,
            handler_type: FourCC { value: MDIR },
            name: Seq::empty(),
        }
    }

    /// The walk over the children of `p` from `cur` on for the handler:
    /// the last `hdlr` child, with `acc` found before.
    pub open spec fn find_hdlr(p: Seq<u8>, cur: int, acc: Option<HdlrView>) -> Result<
        Option<HdlrView>,
        ErrorKind,
    >
        decreases p.len() - cur,
    {
        if cur < 0 || cur >= p.len() {
            Ok(acc)
        } else {
            match Child::spec_next(p, cur) {
                Err(e) => Err(e),
                Ok(ch) => if ch.name == BoxType::HdlrBox {
                    match HdlrView::read(ch.bytes(p)) {
                        Err(e) => Err(e),
                        Ok(b) => MetaView::find_hdlr(p, ch.next, Some(b)),
                    }
                } else {
                    MetaView::find_hdlr(p, ch.next, acc)
                },
            }
        }
    }

    /// The walk over the children of `p` from `cur` on for the item list:
    /// the last `ilst` child, with `acc` found before.
    pub open spec fn find_ilst(p: Seq<u8>, cur: int, acc: Option<IlstView>) -> Result<
        Option<IlstView>,
        ErrorKind,
    >
        decreases p.len() - cur,
    {
        if cur < 0 || cur >= p.len() {
            Ok(acc)
        } else {
            match Child::spec_next(p, cur) {
                Err(e) => Err(e),
                Ok(ch) => if ch.name == BoxType::IlstBox {
                    match IlstView::read(ch.bytes(p)) {
                        Err(e) => Err(e),
                        Ok(b) => MetaView::find_ilst(p, ch.next, Some(b)),
                    }
                } else {
                    MetaView::find_ilst(p, ch.next, acc)
                },
            }
        }
    }

    /// The walk over the children of `p` from `cur` on that keeps every
    /// child but the handler as it stands, after `acc` found before.
    pub open spec fn collect(p: Seq<u8>, cur: int, acc: Seq<RawView>) -> Result<
        Seq<RawView>,
        ErrorKind,
    >
        decreases p.len() - cur,
    {
        if cur < 0 || cur >= p.len() {
            Ok(acc)
        } else {
            match Child::spec_next(p, cur) {
                Err(e) => Err(e),
                Ok(ch) => if ch.name == BoxType::HdlrBox {
                    MetaView::collect(p, ch.next, acc)
                } else {
                    MetaView::collect(
                        p,
                        ch.next,
                        acc.push(RawView { name: ch.name, data: ch.bytes(p) }),
                    )
                },
            }
        }
    }

    /// The box that the payload `p` holds: a version and flags word of
    /// zero, then the children, among them the handler.
    pub open spec fn read(p: Seq<u8>) -> Result<MetaView, ErrorKind> {
        if p.len() < 4 {
            Err(ErrorKind::IoError)
        } else if be_u32(p, 0) != 0 {
            Err(ErrorKind::UnsupportedBoxVersion(BoxType::MetaBox, spec_version(p)))
        } else {
            match MetaView::find_hdlr(p, 4, None) {
                Err(e) => Err(e),
                Ok(None) => Err(ErrorKind::BoxNotFound(BoxType::HdlrBox)),
                Ok(Some(h)) => if h.handler_type.value == MDIR {
                    match MetaView::find_ilst(p, 4, None) {
                        Err(e) => Err(e),
                        Ok(i) => Ok(MetaView::Mdir { ilst: i }),
                    }
                } else {
                    match MetaView::collect(p, 4, Seq::empty()) {
                        Err(e) => Err(e),
                        Ok(d) => Ok(MetaView::Unknown { hdlr: h, data: d }),
                    }
                },
            }
        }
    }

    /// The written size of a kept child.
    pub open spec fn raw_size() -> spec_fn(RawView) -> nat {
        |c: RawView| c.size()
    }

    /// The written bytes of a kept child.
    pub open spec fn raw_bytes() -> spec_fn(RawView) -> Seq<u8> {
        |c: RawView| c.bytes()
    }

    /// The written size of an item list.
    pub open spec fn ilst_size() -> spec_fn(IlstView) -> nat {
        |c: IlstView| c.size()
    }

    /// The written bytes of an item list.
    pub open spec fn ilst_bytes() -> spec_fn(IlstView) -> Seq<u8> {
        |c: IlstView| c.bytes()
    }

    /// The number of bytes that the box is written as.
    pub open spec fn size(self) -> nat {
        match self {
            MetaView::Mdir { ilst } => 12 + MetaView::mdir_hdlr().size() + opt_size(
                ilst,
                MetaView::ilst_size(),
            ),
            MetaView::Unknown { hdlr, data } => 12 + hdlr.size() + sum_sizes(
                data,
                MetaView::raw_size(),
            ),
        }
    }

    /// The box can be written: what it holds can, and the sizes fit 32
    /// bits.
    pub open spec fn well_formed(self) -> bool {
        &&& self.size() <= u32::MAX
        &&& match self {
            MetaView::Mdir { ilst } => ilst is Some ==> ilst.unwrap().well_formed(),
            MetaView::Unknown { hdlr, data } => hdlr.well_formed() && forall|i: int|
                0 <= i < data.len() ==> (#[trigger] data[i]).size() <= u32::MAX,
        }
    }

    /// What follows the version and flags word in the written box.
    pub open spec fn body(self) -> Seq<u8> {
        match self {
            MetaView::Mdir { ilst } => MetaView::mdir_hdlr().bytes() + opt_bytes(
                ilst,
                MetaView::ilst_bytes(),
            ),
            MetaView::Unknown { hdlr, data } => hdlr.bytes() + concat(data, MetaView::raw_bytes()),
        }
    }

    /// The box as it is written: a header with a version and flags word
    /// of zero, the handler, and what the handler stands for.
    pub open spec fn bytes(self) -> Seq<u8> {
        full_header_bytes(BoxType::MetaBox, self.size() as u64, 0, 0) + self.body()
    }
}

impl MetaBox {
    pub fn get_type(&self) -> (r: BoxType)
        ensures
            r == BoxType::MetaBox,
    {
        BoxType::MetaBox
    }

    /// The size of the box as written, saturating at `u64::MAX`.
    pub fn get_size(&self) -> (r: u64)
        ensures
            r == saturate(self@.size() as int),
    {
        match self {
            MetaBox::Mdir { ilst } => {
                let mut total: u64 = 45;
                assert(vstd::utf8::encode_utf8(Seq::<char>::empty()).len() == 0);
                if let Some(c) = ilst {
                    total = add_size(total, c.get_size());
                }
                total
            },
            MetaBox::Unknown { hdlr, data } => {
                let mut total: u64 = add_size(12, hdlr.get_size());
                let ghost base: int = (12 + hdlr@.size()) as int;
                let mut i: usize = 0;
                while i < data.len()
                    invariant
                        i <= data@.len(),
                        base >= 0,
                        total == saturate(
                            base + sum_sizes(views(data@).take(i as int), MetaView::raw_size()),
                        ),
                    decreases data@.len() - i,
                {
                    proof {
                        lemma_sum_take(views(data@), i as int, MetaView::raw_size());
                    }
                    total = add_size(total, add_size(8, data[i].data.len() as u64));
                    i += 1;
                }
                proof {
                    assert(views(data@).take(i as int) =~= views(data@));
                }
                total
            },
        }
    }

    /// Reads the last `hdlr` child of `p`, from offset 4 on.
    fn read_hdlr(p: &[u8]) -> (r: Result<Option<HdlrBox>, Error>)
        requires
            p@.len() >= 4,
        ensures
            match r {
                Ok(h) => MetaView::find_hdlr(p@, 4, None) == Ok::<Option<HdlrView>, ErrorKind>(
                    opt_view(h),
                ),
                Err(e) => MetaView::find_hdlr(p@, 4, None) == Err::<Option<HdlrView>, ErrorKind>(
                    e.spec_kind(),
                ),
            },
    {
        let mut hdlr: Option<HdlrBox> = None;
        let mut cur: usize = 4;
        while cur < p.len()
            invariant
                4 <= cur <= p@.len(),
                MetaView::find_hdlr(p@, cur as int, opt_view(hdlr)) == MetaView::find_hdlr(
                    p@,
                    4,
                    None,
                ),
            decreases p@.len() - cur,
        {
            let ch = match Child::next_child(p, cur) {
                Ok(c) => c,
                Err(e) => {
                    return Err(e);
                },
            };
            let body = ch.bytes(p);
            match ch.name {
                BoxType::HdlrBox => {
                    match HdlrBox::read_box(body, ch.size) {
                        Ok(b) => {
                            hdlr = Some(b);
                        },
                        Err(e) => {
                            return Err(e);
                        },
                    }
                },
                _ => {},
            }
            cur = ch.next;
        }
        Ok(hdlr)
    }

    /// Reads the last `ilst` child of `p`, from offset 4 on.
    fn read_ilst(p: &[u8]) -> (r: Result<Option<IlstBox>, Error>)
        requires
            p@.len() >= 4,
        ensures
            match r {
                Ok(h) => MetaView::find_ilst(p@, 4, None) == Ok::<Option<IlstView>, ErrorKind>(
                    opt_view(h),
                ),
                Err(e) => MetaView::find_ilst(p@, 4, None) == Err::<Option<IlstView>, ErrorKind>(
                    e.spec_kind(),
                ),
            },
    {
        let mut ilst: Option<IlstBox> = None;
        let mut cur: usize = 4;
        while cur < p.len()
            invariant
                4 <= cur <= p@.len(),
                MetaView::find_ilst(p@, cur as int, opt_view(ilst)) == MetaView::find_ilst(
                    p@,
                    4,
                    None,
                ),
            decreases p@.len() - cur,
        {
            let ch = match Child::next_child(p, cur) {
                Ok(c) => c,
                Err(e) => {
                    return Err(e);
                },
            };
            let body = ch.bytes(p);
            match ch.name {
                BoxType::IlstBox => {
                    match IlstBox::read_box(body, ch.size) {
                        Ok(b) => {
                            ilst = Some(b);
                        },
                        Err(e) => {
                            return Err(e);
                        },
                    }
                },
                _ => {},
            }
            cur = ch.next;
        }
        Ok(ilst)
    }

    /// Copies every child of `p` but the handler, from offset 4 on.
    fn read_raw(p: &[u8]) -> (r: Result<Vec<RawBox>, Error>)
        requires
            p@.len() >= 4,
        ensures
            match r {
                Ok(d) => MetaView::collect(p@, 4, Seq::empty()) == Ok::<Seq<RawView>, ErrorKind>(
                    views(d@),
                ),
                Err(e) => MetaView::collect(p@, 4, Seq::empty()) == Err::<
                    Seq<RawView>,
                    ErrorKind,
                >(e.spec_kind()),
            },
    {
        let mut data: Vec<RawBox> = Vec::new();
        let mut cur: usize = 4;
        assert(views(data@) =~= Seq::<RawView>::empty());
        while cur < p.len()
            invariant
                4 <= cur <= p@.len(),
                MetaView::collect(p@, cur as int, views(data@)) == MetaView::collect(
                    p@,
                    4,
                    Seq::empty(),
                ),
            decreases p@.len() - cur,
        {
            let ch = match Child::next_child(p, cur) {
                Ok(c) => c,
                Err(e) => {
                    return Err(e);
                },
            };
            match ch.name {
                BoxType::HdlrBox => {},
                _ => {
                    let ghost before = data@;
                    let raw = RawBox { name: ch.name, data: slice_to_vec(ch.bytes(p)) };
                    data.push(raw);
                    assert(views(data@) =~= views(before).push(raw@));
                },
            }
            cur = ch.next;
        }
        Ok(data)
    }

    /// Decodes the box of declared size `size` whose payload starts `src`.
    #[verifier::rlimit(50)]
    pub fn read_box(src: &[u8], size: u64) -> (r: Result<MetaBox, Error>)
        ensures
            decoded(r) == MetaView::read(payload(src@, size)),
    {
        let p = payload_of(src, size);
        if p.len() < 4 {
            return Err(Error::IoError);
        }
        if get_u32(p, 0) != 0 {
            return Err(Error::UnsupportedBoxVersion(BoxType::MetaBox, p[0]));
        }
        let hdlr = match MetaBox::read_hdlr(p) {
            Ok(Some(h)) => h,
            Ok(None) => {
                return Err(Error::BoxNotFound(BoxType::HdlrBox));
            },
            Err(e) => {
                return Err(e);
            },
        };
        if hdlr.handler_type.value == MDIR {
            match MetaBox::read_ilst(p) {
                Ok(ilst) => Ok(MetaBox::Mdir { ilst }),
                Err(e) => Err(e),
            }
        } else {
            match MetaBox::read_raw(p) {
                Ok(data) => Ok(MetaBox::Unknown { hdlr, data }),
                Err(e) => Err(e),
            }
        }
    }

    /// Writes what follows the version and flags word into `body`.
    #[verifier::rlimit(50)]
    fn write_body(&self, body: &mut Vec<u8>) -> (r: Result<(), Error>)
        requires
            old(body)@.len() == 0,
        ensures
            r is Ok ==> final(body)@ == self@.body() && (self@.size() == 12 + final(body)@.len())
                && (self@.size() <= u32::MAX ==> self@.well_formed()),
            r is Err ==> !self@.well_formed() && r.unwrap_err().spec_kind()
                == ErrorKind::InvalidData,
    {
        match self {
            MetaBox::Mdir { ilst } => {
                let hdlr = HdlrBox {
                    version: 0,
                    flags: 0,
                    handler_type: FourCC { value: MDIR },
                    name: String::new(),
                };
                assert(vstd::utf8::encode_utf8(Seq::<char>::empty()).len() == 0);
                match hdlr.write_box(body) {
                    Ok(_) => {},
                    Err(e) => {
                        return Err(e);
                    },
                }
                let ghost b0 = body@;
                assert(b0 =~= MetaView::mdir_hdlr().bytes());
                if let Some(c) = ilst {
                    match c.write_box(body) {
                        Ok(_) => {},
                        Err(e) => {
                            return Err(e);
                        },
                    }
                }
                assert(body@ =~= b0 + opt_bytes(opt_view(*ilst), MetaView::ilst_bytes()));
                Ok(())
            },
            MetaBox::Unknown { hdlr, data } => {
                match hdlr.write_box(body) {
                    Ok(_) => {},
                    Err(e) => {
                        return Err(e);
                    },
                }
                let ghost pre = body@;
                assert(pre =~= hdlr@.bytes());
                let mut i: usize = 0;
                while i < data.len()
                    invariant
                        i <= data@.len(),
                        body@ == pre + concat(views(data@).take(i as int), MetaView::raw_bytes()),
                        concat(views(data@).take(i as int), MetaView::raw_bytes()).len()
                            == sum_sizes(views(data@).take(i as int), MetaView::raw_size()),
                        forall|j: int|
                            0 <= j < i ==> (#[trigger] views(data@)[j]).size() <= u32::MAX,
                        self@ == (MetaView::Unknown { hdlr: hdlr@, data: views(data@) }),
                    decreases data@.len() - i,
                {
                    proof {
                        lemma_sum_take(views(data@), i as int, MetaView::raw_size());
                        lemma_concat_take(views(data@), i as int, MetaView::raw_bytes());
                    }
                    let raw = &data[i];
                    if raw.data.len() > 0xFFFF_FFF7 {
                        assert(views(data@)[i as int].size() > u32::MAX);
                        return Err(Error::InvalidData("meta box cannot be written"));
                    }
                    let ghost before = body@;
                    BoxHeader::new(raw.name, 8 + raw.data.len() as u64).write(body);
                    put_bytes(body, raw.data.as_slice());
                    assert(body@ =~= before + raw@.bytes());
                    proof {
                        lemma_assoc(
                            pre,
                            concat(views(data@).take(i as int), MetaView::raw_bytes()),
                            raw@.bytes(),
                        );
                    }
                    i += 1;
                }
                proof {
                    assert(views(data@).take(i as int) =~= views(data@));
                }
                Ok(())
            },
        }
    }

    /// Appends the box to `out` and returns the number of bytes written;
    /// a box that is not well formed is refused and `out` left as it was.
    #[verifier::rlimit(50)]
    pub fn write_box(&self, out: &mut Vec<u8>) -> (r: Result<u64, Error>)
        ensures
            r is Ok <==> self@.well_formed(),
            r is Ok ==> r.unwrap() == self@.size() && final(out)@ == old(out)@ + self@.bytes()
                && self@.bytes().len() == self@.size(),
            r is Err ==> r.unwrap_err().spec_kind() == ErrorKind::InvalidData && final(out)@
                == old(out)@,
    {
        let mut body: Vec<u8> = Vec::new();
        match self.write_body(&mut body) {
            Ok(_) => {},
            Err(e) => {
                return Err(e);
            },
        }
        if body.len() > 0xFFFF_FFF3 {
            return Err(Error::InvalidData("meta box cannot be written"));
        }
        let size: u64 = 12 + body.len() as u64;
        BoxHeader::new(BoxType::MetaBox, size).write(out);
        write_box_header_ext(out, 0, 0);
        put_bytes(out, body.as_slice());
        proof {
            let h = full_header_bytes(BoxType::MetaBox, size, 0, 0);
            assert(out@ =~= (old(out)@ + h) + body@);
            lemma_assoc(old(out)@, h, body@);
        }
        Ok(size)
    }
}

} // verus!

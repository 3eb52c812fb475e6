//! The reader of a whole file: the walk over its top-level boxes, the
//! tracks, and sample access.

use crate::codec::saturate;
use crate::error::{Error, ErrorKind};
use crate::mp4box::ftyp::{FtypBox, FtypView};
use crate::mp4box::header::{opt_view, views, BoxHeader};
use crate::mp4box::ilst::IlstBox;
use crate::mp4box::meta::{MetaBox, RawBox, RawView};
use crate::mp4box::moof::{MoofBox, MoofView};
use crate::mp4box::moov::{MoovBox, MoovView};
use crate::mp4box::traf::TrafView;
use crate::mp4box::trak::TrakView;
use crate::mp4box::{BoxType, FourCC};
use crate::track::{Mp4Track, RunView, SampleInfo, TrackView};
use vstd::prelude::*;
use vstd::slice::{slice_subrange, slice_to_vec};

verus! {

/// A sample: when it plays, and its bytes.
#[derive(Debug, Clone, PartialEq, Eq)]
pub struct Mp4Sample {
    pub start_time: u64,
    pub duration: u32,
    pub rendering_offset: i32,
    pub is_sync: bool,
    pub bytes: Vec<u8>,
}

/// A parsed file: its boxes, its tracks, and the bytes it was parsed from.
#[derive(Debug)]
pub struct Mp4Reader {
    /// The bytes that the reader was made from.
    pub data: Vec<u8>,
    pub ftyp: FtypBox,
    pub moov: MoovBox,
    pub moofs: Vec<MoofBox>,
    pub emsgs: Vec<RawBox>,
    /// The tracks, in the order of their `trak` boxes.
    pub tracks: Vec<Mp4Track>,
    /// The number of bytes that the walk over the file covered.
    pub size: u64,
}

/// What a [`Mp4Reader`] holds, but for the bytes.
pub struct ReaderView {
    pub ftyp: FtypView,
    pub moov: MoovView,
    pub moofs: Seq<MoofView>,
    pub emsgs: Seq<RawView>,
    pub tracks: Seq<TrackView>,
    pub size: u64,
}

/// The top-level boxes found so far in a walk over a file.
pub struct TopParts {
    pub ftyp: Option<FtypView>,
    pub moov: Option<MoovView>,
    pub moofs: Seq<MoofView>,
    /// For each movie fragment, the file offset at which its box starts.
    pub moof_offsets: Seq<u64>,
    pub emsgs: Seq<RawView>,
    /// Where the walk ended.
    pub end: u64,
}

/// No top-level box found yet.
pub open spec fn no_parts() -> TopParts {
    TopParts {
        ftyp: None,
        moov: None,
        moofs: Seq::empty(),
        moof_offsets: Seq::empty(),
        emsgs: Seq::empty(),
        end: 0,
    }
}

/// The top-level boxes found after the box of header `h` at `cur` has been
/// seen: `ftyp`, `moov` and `emsg` are decoded and kept where `whole` is
/// set, `moof` always, and each of them must lie within `data`; any other
/// box leaves what was found as it is.
pub open spec fn keep(data: Seq<u8>, cur: int, h: BoxHeader, whole: bool, acc: TopParts) -> Result<
    TopParts,
    ErrorKind,
> {
    let next = cur + h.size;
    let body = data.subrange(cur + h.header_len, next);
    if h.name == BoxType::MoofBox {
        if next > data.len() {
            Err(ErrorKind::IoError)
        } else {
            match MoofView::read(body) {
                Err(e) => Err(e),
                Ok(b) => Ok(
                    TopParts {
                        moofs: acc.moofs.push(b),
                        moof_offsets: acc.moof_offsets.push(cur as u64),
                        ..acc
                    },
                ),
            }
        }
    } else if whole && h.name == BoxType::FtypBox {
        if next > data.len() {
            Err(ErrorKind::IoError)
        } else {
            match FtypView::read(body) {
                Err(e) => Err(e),
                Ok(b) => Ok(TopParts { ftyp: Some(b), ..acc }),
            }
        }
    } else if whole && h.name == BoxType::MoovBox {
        if next > data.len() {
            Err(ErrorKind::IoError)
        } else {
            match MoovView::read(body) {
                Err(e) => Err(e),
                Ok(b) => Ok(TopParts { moov: Some(b), ..acc }),
            }
        }
    } else if whole && h.name == BoxType::EmsgBox {
        if next > data.len() {
            Err(ErrorKind::IoError)
        } else {
            Ok(TopParts { emsgs: acc.emsgs.push(RawView { name: h.name, data: body }), ..acc })
        }
    } else {
        Ok(acc)
    }
}

/// How far the walk at `cur` is from `limit`.
pub open spec fn room(cur: int, limit: u64) -> int {
    if cur < limit {
        limit - cur
    } else {
        0
    }
}

/// The walk over the top-level boxes of `data` from `cur` up to `limit`,
/// with `acc` found before. A box larger than `limit`, or smaller than
/// its own header, is refused; a header of size zero ends the walk.
pub open spec fn top_scan(data: Seq<u8>, cur: int, limit: u64, whole: bool, acc: TopParts)
    -> Result<TopParts, ErrorKind>
    decreases room(cur, limit),
{
    if cur < 0 || cur >= limit {
        Ok(TopParts { end: cur as u64, ..acc })
    } else {
        match BoxHeader::spec_read(data, cur) {
            Err(e) => Err(e),
            Ok(h) => if h.size > limit {
                Err(ErrorKind::InvalidData)
            } else if h.size == 0 {
                Ok(TopParts { end: cur as u64, ..acc })
            } else if h.size < h.header_len || cur + h.size > u64::MAX {
                Err(ErrorKind::InvalidData)
            } else {
                match keep(data, cur, h, whole, acc) {
                    Err(e) => Err(e),
                    Ok(found) => top_scan(data, cur + h.size, limit, whole, found),
                }
            },
        }
    }
}

/// The index of the last of the first `n` tracks that has the id `id`.
pub open spec fn find_last(tracks: Seq<TrackView>, n: int, id: u32) -> Option<int>
    decreases n,
{
    if n <= 0 {
        None
    } else if tracks[n - 1].track_id == id {
        Some(n - 1)
    } else {
        find_last(tracks, n - 1, id)
    }
}

/// The defaults that the movie gives to the samples of its fragments:
/// duration, size and flags, or zeros where it has no `mvex`.
pub open spec fn fragment_defaults(moov: MoovView) -> (u32, u32, u32) {
    match moov.mvex {
        Some(m) => (
            m.trex.default_sample_duration,
            m.trex.default_sample_size,
            m.trex.default_sample_flags,
        ),
        None => (0, 0, 0),
    }
}

/// The tracks after the track fragments `trafs[j..]` of the movie
/// fragment at `offset` have been attached, each to the last track of its
/// id; a fragment of an id that no track has is an error.
pub open spec fn attach_trafs(
    tracks: Seq<TrackView>,
    trafs: Seq<TrafView>,
    j: int,
    offset: u64,
    defaults: (u32, u32, u32),
) -> Result<Seq<TrackView>, ErrorKind>
    decreases trafs.len() - j,
{
    if j < 0 || j >= trafs.len() {
        Ok(tracks)
    } else {
        match find_last(tracks, tracks.len() as int, trafs[j].tfhd.track_id) {
            None => Err(ErrorKind::TrakNotFound(trafs[j].tfhd.track_id)),
            Some(i) => attach_trafs(
                tracks.update(
                    i,
                    tracks[i].with_run(
                        RunView {
                            moof_offset: offset,
                            tfhd: trafs[j].tfhd,
                            tfdt: trafs[j].tfdt,
                            trun: trafs[j].trun,
                        },
                        defaults,
                    ),
                ),
                trafs,
                j + 1,
                offset,
                defaults,
            ),
        }
    }
}

/// The tracks after the movie fragments `moofs[m..]` have been attached.
pub open spec fn attach_moofs(
    tracks: Seq<TrackView>,
    moofs: Seq<MoofView>,
    offsets: Seq<u64>,
    m: int,
    defaults: (u32, u32, u32),
) -> Result<Seq<TrackView>, ErrorKind>
    decreases moofs.len() - m,
{
    if m < 0 || m >= moofs.len() {
        Ok(tracks)
    } else {
        match attach_trafs(tracks, moofs[m].trafs, 0, offsets[m], defaults) {
            Err(e) => Err(e),
            Ok(next) => attach_moofs(next, moofs, offsets, m + 1, defaults),
        }
    }
}

/// The tracks of a movie before any fragment is attached: one for each
/// `trak`, in order.
pub open spec fn base_tracks(traks: Seq<TrakView>) -> Seq<TrackView> {
    Seq::new(traks.len(), |i: int| TrackView::of_trak(traks[i]))
}

/// Whether one of the tracks has the id zero, which no track may have.
pub open spec fn has_track_zero(traks: Seq<TrakView>) -> bool {
    exists|i: int| 0 <= i < traks.len() && (#[trigger] traks[i]).tkhd.track_id == 0
}

/// What reading a whole file of the bytes `data`, up to `limit`, gives:
/// the file must hold an `ftyp` and a `moov`, no track of id zero, and no
/// track fragment of a track it does not have.
pub open spec fn spec_read_header(data: Seq<u8>, limit: u64) -> Result<ReaderView, ErrorKind> {
    match top_scan(data, 0, limit, true, no_parts()) {
        Err(e) => Err(e),
        Ok(parts) => if parts.ftyp is None {
            Err(ErrorKind::BoxNotFound(BoxType::FtypBox))
        } else if parts.moov is None {
            Err(ErrorKind::BoxNotFound(BoxType::MoovBox))
        } else if has_track_zero(parts.moov.unwrap().traks) {
            Err(ErrorKind::InvalidData)
        } else {
            let moov = parts.moov.unwrap();
            match attach_moofs(
                base_tracks(moov.traks),
                parts.moofs,
                parts.moof_offsets,
                0,
                fragment_defaults(moov),
            ) {
                Err(e) => Err(e),
                Ok(tracks) => Ok(
                    ReaderView {
                        ftyp: parts.ftyp.unwrap(),
                        moov,
                        moofs: parts.moofs,
                        emsgs: parts.emsgs,
                        tracks,
                        size: parts.end,
                    },
                ),
            }
        },
    }
}

/// What reading a media segment of the bytes `data`, up to `limit`, gives
/// against the initialisation segment `init`: the segment must hold a
/// movie fragment, and no track fragment of a track that `init` lacks.
pub open spec fn spec_read_fragment_header(init: ReaderView, data: Seq<u8>, limit: u64) -> Result<
    ReaderView,
    ErrorKind,
> {
    match top_scan(data, 0, limit, false, no_parts()) {
        Err(e) => Err(e),
        Ok(parts) => if parts.moofs.len() == 0 {
            Err(ErrorKind::BoxNotFound(BoxType::MoofBox))
        } else {
            match attach_moofs(
                base_tracks(init.moov.traks),
                parts.moofs,
                parts.moof_offsets,
                0,
                fragment_defaults(init.moov),
            ) {
                Err(e) => Err(e),
                Ok(tracks) => Ok(
                    ReaderView {
                        ftyp: init.ftyp,
                        moov: init.moov,
                        moofs: parts.moofs,
                        emsgs: Seq::empty(),
                        tracks,
                        size: parts.end,
                    },
                ),
            }
        },
    }
}

/// The top-level boxes that a walk has collected.
struct Collected {
    ftyp: Option<FtypBox>,
    moov: Option<MoovBox>,
    moofs: Vec<MoofBox>,
    moof_offsets: Vec<u64>,
    emsgs: Vec<RawBox>,
    end: u64,
}

impl View for Collected {
    type V = TopParts;

    closed spec fn view(&self) -> TopParts {
        TopParts {
            ftyp: opt_view(self.ftyp),
            moov: opt_view(self.moov),
            moofs: views(self.moofs@),
            moof_offsets: self.moof_offsets@,
            emsgs: views(self.emsgs@),
            end: self.end,
        }
    }
}

/// Decodes and keeps the top-level box of header `h` at `cur`, where it
/// is one that the walk keeps.
#[verifier::rlimit(50)]
fn keep_box(c: Collected, data: &[u8], cur: u64, h: BoxHeader, whole: bool) -> (r: Result<
    Collected,
    Error,
>)
    requires
        cur <= data@.len(),
        h.header_len <= h.size,
        h.header_len == 8 || h.header_len == 16,
        cur + h.size <= u64::MAX,
    ensures
        match r {
            Ok(kept) => keep(data@, cur as int, h, whole, c@) == Ok::<TopParts, ErrorKind>(kept@),
            Err(e) => keep(data@, cur as int, h, whole, c@) == Err::<TopParts, ErrorKind>(
                e.spec_kind(),
            ),
        },
{
    let mut c = c;
    let next: u64 = cur + h.size;
    let known: bool = h.name == BoxType::MoofBox || (whole && (h.name == BoxType::FtypBox || h.name
        == BoxType::MoovBox || h.name == BoxType::EmsgBox));
    if !known {
        return Ok(c);
    }
    if next > data.len() as u64 {
        return Err(Error::IoError);
    }
    let body = slice_subrange(data, (cur + h.header_len) as usize, next as usize);
    let inner: u64 = h.size - h.header_len + 8;
    if h.name == BoxType::MoofBox {
        let ghost before = c.moofs@;
        match MoofBox::read_box(body, inner) {
            Ok(b) => {
                c.moofs.push(b);
                c.moof_offsets.push(cur);
                assert(views(c.moofs@) =~= views(before).push(b@));
                Ok(c)
            },
            Err(e) => Err(e),
        }
    } else if h.name == BoxType::FtypBox {
        match FtypBox::read_box(body, inner) {
            Ok(b) => {
                c.ftyp = Some(b);
                Ok(c)
            },
            Err(e) => Err(e),
        }
    } else if h.name == BoxType::MoovBox {
        match MoovBox::read_box(body, inner) {
            Ok(b) => {
                c.moov = Some(b);
                Ok(c)
            },
            Err(e) => Err(e),
        }
    } else {
        let ghost before = c.emsgs@;
        let raw = RawBox { name: h.name, data: slice_to_vec(body) };
        c.emsgs.push(raw);
        assert(views(c.emsgs@) =~= views(before).push(raw@));
        Ok(c)
    }
}

/// Walks over the top-level boxes of `data` up to `limit`.
#[verifier::rlimit(50)]
fn collect(data: &[u8], limit: u64, whole: bool) -> (r: Result<Collected, Error>)
    ensures
        match r {
            Ok(c) => top_scan(data@, 0, limit, whole, no_parts()) == Ok::<TopParts, ErrorKind>(c@),
            Err(e) => top_scan(data@, 0, limit, whole, no_parts()) == Err::<TopParts, ErrorKind>(
                e.spec_kind(),
            ),
        },
{
    let mut c = Collected {
        ftyp: None,
        moov: None,
        moofs: Vec::new(),
        moof_offsets: Vec::new(),
        emsgs: Vec::new(),
        end: 0,
    };
    assert(views(c.moofs@) =~= Seq::<MoofView>::empty());
    assert(views(c.emsgs@) =~= Seq::<RawView>::empty());
    let mut cur: u64 = 0;
    let mut stop: bool = false;
    while !stop && cur < limit
        invariant
            c.end == 0,
            stop ==> top_scan(data@, 0, limit, whole, no_parts()) == Ok::<TopParts, ErrorKind>(
                TopParts { end: cur, ..c@ },
            ),
            !stop ==> top_scan(data@, cur as int, limit, whole, c@) == top_scan(
                data@,
                0,
                limit,
                whole,
                no_parts(),
            ),
        decreases (if stop { 0int } else { 1int }), room(cur as int, limit),
    {
        if cur > data.len() as u64 {
            return Err(Error::IoError);
        }
        let h = match BoxHeader::read_at(data, cur as usize) {
            Ok(h) => h,
            Err(e) => {
                return Err(e);
            },
        };
        if h.size > limit {
            return Err(
                Error::InvalidData("file contains a box with a larger size than it"),
            );
        }
        if h.size == 0 {
            stop = true;
        } else {
            if h.size < h.header_len {
                return Err(Error::InvalidData("box smaller than its header"));
            }
            let next: u64 = match cur.checked_add(h.size) {
                Some(n) => n,
                None => {
                    return Err(Error::InvalidData("box reaches past the end of the file"));
                },
            };
            c = match keep_box(c, data, cur, h, whole) {
                Ok(kept) => kept,
                Err(e) => {
                    return Err(e);
                },
            };
            cur = next;
        }
    }
    c.end = cur;
    Ok(c)
}

/// Finds the last track that has the id `id`.
fn find_track(tracks: &Vec<Mp4Track>, id: u32) -> (r: Option<usize>)
    ensures
        match r {
            Some(i) => find_last(views(tracks@), tracks@.len() as int, id) == Some(i as int) && i
                < tracks@.len() && tracks@[i as int].track_id == id,
            None => find_last(views(tracks@), tracks@.len() as int, id) is None,
        },
{
    let mut n: usize = tracks.len();
    while n > 0
        invariant
            n <= tracks@.len(),
            find_last(views(tracks@), n as int, id) == find_last(
                views(tracks@),
                tracks@.len() as int,
                id,
            ),
        decreases n,
    {
        if tracks[n - 1].track_id == id {
            return Some(n - 1);
        }
        n -= 1;
    }
    None
}

/// Builds the tracks of a movie and attaches the movie fragments.
#[verifier::rlimit(50)]
fn build_tracks(moov: &MoovBox, moofs: &Vec<MoofBox>, offsets: &Vec<u64>) -> (r: Result<
    Vec<Mp4Track>,
    Error,
>)
    requires
        moofs@.len() == offsets@.len(),
    ensures
        match r {
            Ok(t) => attach_moofs(
                base_tracks(moov@.traks),
                views(moofs@),
                offsets@,
                0,
                fragment_defaults(moov@),
            ) == Ok::<Seq<TrackView>, ErrorKind>(views(t@)),
            Err(e) => attach_moofs(
                base_tracks(moov@.traks),
                views(moofs@),
                offsets@,
                0,
                fragment_defaults(moov@),
            ) == Err::<Seq<TrackView>, ErrorKind>(e.spec_kind()),
        },
{
    let mut tracks: Vec<Mp4Track> = Vec::new();
    let mut i: usize = 0;
    while i < moov.traks.len()
        invariant
            i <= moov.traks@.len(),
            views(tracks@) == Seq::new(i as nat, |k: int| TrackView::of_trak(moov@.traks[k])),
        decreases moov.traks@.len() - i,
    {
        let ghost before = views(tracks@);
        let t = Mp4Track::from_trak(&moov.traks[i]);
        tracks.push(t);
        assert(views(tracks@) =~= before.push(t@));
        assert(moov@.traks[i as int] == moov.traks@[i as int]@);
        i += 1;
        assert(views(tracks@) =~= Seq::new(i as nat, |k: int| TrackView::of_trak(moov@.traks[k])));
    }
    assert(views(tracks@) =~= base_tracks(moov@.traks));
    let defaults: (u32, u32, u32) = match &moov.mvex {
        Some(m) => (
            m.trex.default_sample_duration,
            m.trex.default_sample_size,
            m.trex.default_sample_flags,
        ),
        None => (0, 0, 0),
    };
    let ghost goal = attach_moofs(
        base_tracks(moov@.traks),
        views(moofs@),
        offsets@,
        0,
        fragment_defaults(moov@),
    );
    let mut m: usize = 0;
    while m < moofs.len()
        invariant
            m <= moofs@.len(),
            moofs@.len() == offsets@.len(),
            defaults == fragment_defaults(moov@),
            goal == attach_moofs(
                base_tracks(moov@.traks),
                views(moofs@),
                offsets@,
                0,
                fragment_defaults(moov@),
            ),
            attach_moofs(views(tracks@), views(moofs@), offsets@, m as int, defaults) == goal,
        decreases moofs@.len() - m,
    {
        let moof = &moofs[m];
        let offset: u64 = offsets[m];
        let ghost step = attach_trafs(views(tracks@), moof@.trafs, 0, offset, defaults);
        assert(views(moofs@)[m as int] == moof@);
        let mut j: usize = 0;
        while j < moof.trafs.len()
            invariant
                j <= moof.trafs@.len(),
                m < moofs@.len(),
                goal == attach_moofs(
                    base_tracks(moov@.traks),
                    views(moofs@),
                    offsets@,
                    0,
                    fragment_defaults(moov@),
                ),
                attach_trafs(views(tracks@), moof@.trafs, j as int, offset, defaults) == step,
                match step {
                    Err(e) => goal == Err::<Seq<TrackView>, ErrorKind>(e),
                    Ok(next) => attach_moofs(
                        next,
                        views(moofs@),
                        offsets@,
                        m as int + 1,
                        defaults,
                    ) == goal,
                },
            decreases moof.trafs@.len() - j,
        {
            let traf = &moof.trafs[j];
            let id: u32 = traf.tfhd.track_id;
            assert(moof@.trafs[j as int] == traf@);
            match find_track(&tracks, id) {
                None => {
                    return Err(Error::TrakNotFound(id));
                },
                Some(at) => {
                    let ghost before = views(tracks@);
                    let mut t = tracks.remove(at);
                    t.attach(traf, offset, defaults);
                    tracks.insert(at, t);
                    assert(views(tracks@) =~= before.update(
                        at as int,
                        before[at as int].with_run(
                            RunView {
                                moof_offset: offset,
                                tfhd: traf@.tfhd,
                                tfdt: traf@.tfdt,
                                trun: traf@.trun,
                            },
                            defaults,
                        ),
                    ));
                },
            }
            j += 1;
        }
        m += 1;
    }
    Ok(tracks)
}

/// Whether one of the tracks of the movie has the id zero.
fn any_track_zero(moov: &MoovBox) -> (r: bool)
    ensures
        r == has_track_zero(moov@.traks),
{
    let mut i: usize = 0;
    while i < moov.traks.len()
        invariant
            i <= moov.traks@.len(),
            forall|k: int| 0 <= k < i ==> (#[trigger] moov@.traks[k]).tkhd.track_id != 0,
        decreases moov.traks@.len() - i,
    {
        if moov.traks[i].tkhd.track_id == 0 {
            assert(moov@.traks[i as int].tkhd.track_id == 0);
            return true;
        }
        i += 1;
    }
    false
}

impl View for Mp4Reader {
    type V = ReaderView;

    open spec fn view(&self) -> ReaderView {
        ReaderView {
            ftyp: self.ftyp@,
            moov: self.moov@,
            moofs: views(self.moofs@),
            emsgs: views(self.emsgs@),
            tracks: views(self.tracks@),
            size: self.size,
        }
    }
}

impl Mp4Reader {
    /// Parses the file held in `data`, of which the first `size` bytes
    /// are walked.
    pub fn read_header(data: Vec<u8>, size: u64) -> (r: Result<Mp4Reader, Error>)
        ensures
            match r {
                Ok(reader) => spec_read_header(data@, size) == Ok::<ReaderView, ErrorKind>(
                    reader@,
                ) && reader.data@ == data@,
                Err(e) => spec_read_header(data@, size) == Err::<ReaderView, ErrorKind>(
                    e.spec_kind(),
                ),
            },
    {
        let c = match collect(data.as_slice(), size, true) {
            Ok(c) => c,
            Err(e) => {
                return Err(e);
            },
        };
        let Collected { ftyp, moov, moofs, moof_offsets, emsgs, end } = c;
        let ftyp = match ftyp {
            Some(b) => b,
            None => {
                return Err(Error::BoxNotFound(BoxType::FtypBox));
            },
        };
        let moov = match moov {
            Some(b) => b,
            None => {
                return Err(Error::BoxNotFound(BoxType::MoovBox));
            },
        };
        if any_track_zero(&moov) {
            return Err(Error::InvalidData("illegal track id 0"));
        }
        proof {
            lemma_offsets_match(data@, 0, size, true, no_parts());
        }
        let tracks = match build_tracks(&moov, &moofs, &moof_offsets) {
            Ok(t) => t,
            Err(e) => {
                return Err(e);
            },
        };
        Ok(Mp4Reader { data, ftyp, moov, moofs, emsgs, tracks, size: end })
    }

    /// Parses the media segment held in `data`, of which the first `size`
    /// bytes are walked, against this reader's initialisation segment,
    /// which moves into the new reader.
    pub fn read_fragment_header(self, data: Vec<u8>, size: u64) -> (r: Result<Mp4Reader, Error>)
        ensures
            match r {
                Ok(reader) => spec_read_fragment_header(self@, data@, size) == Ok::<
                    ReaderView,
                    ErrorKind,
                >(reader@) && reader.data@ == data@,
                Err(e) => spec_read_fragment_header(self@, data@, size) == Err::<
                    ReaderView,
                    ErrorKind,
                >(e.spec_kind()),
            },
    {
        let c = match collect(data.as_slice(), size, false) {
            Ok(c) => c,
            Err(e) => {
                return Err(e);
            },
        };
        let Collected { ftyp: _, moov: _, moofs, moof_offsets, emsgs: _, end } = c;
        if moofs.len() == 0 {
            return Err(Error::BoxNotFound(BoxType::MoofBox));
        }
        proof {
            lemma_offsets_match(data@, 0, size, false, no_parts());
        }
        let Mp4Reader { data: _, ftyp, moov, moofs: _, emsgs: _, tracks: _, size: _ } = self;
        let tracks = match build_tracks(&moov, &moofs, &moof_offsets) {
            Ok(t) => t,
            Err(e) => {
                return Err(e);
            },
        };
        let emsgs: Vec<RawBox> = Vec::new();
        assert(views(emsgs@) =~= Seq::<RawView>::empty());
        Ok(Mp4Reader { data, ftyp, moov, moofs, emsgs, tracks, size: end })
    }
}

/// A walk over the top-level boxes notes one offset for each movie
/// fragment.
pub proof fn lemma_offsets_match(data: Seq<u8>, cur: int, limit: u64, whole: bool, acc: TopParts)
    requires
        acc.moofs.len() == acc.moof_offsets.len(),
        top_scan(data, cur, limit, whole, acc) is Ok,
    ensures
        top_scan(data, cur, limit, whole, acc).unwrap().moofs.len() == top_scan(
            data,
            cur,
            limit,
            whole,
            acc,
        ).unwrap().moof_offsets.len(),
    decreases room(cur, limit),
{
    if cur < 0 || cur >= limit {
    } else {
        let h = BoxHeader::spec_read(data, cur).unwrap();
        if h.size == 0 {
        } else {
            let found = keep(data, cur, h, whole, acc).unwrap();
            lemma_offsets_match(data, cur + h.size, limit, whole, found);
        }
    }
}

/// The index of the last of the first `n` tracks that has the id `id`.
pub open spec fn last_with_id(tracks: Seq<Mp4Track>, n: int, id: u32) -> Option<int>
    decreases n,
{
    if n <= 0 {
        None
    } else if tracks[n - 1].track_id == id {
        Some(n - 1)
    } else {
        last_with_id(tracks, n - 1, id)
    }
}

impl Mp4Reader {
    /// The track of id `track_id`: the last of that id, if any.
    pub open spec fn spec_track(&self, track_id: u32) -> Option<Mp4Track> {
        match last_with_id(self.tracks@, self.tracks@.len() as int, track_id) {
            Some(i) => Some(self.tracks@[i]),
            None => None,
        }
    }

    /// The movie's duration in milliseconds: its duration in ticks times
    /// 1000 over its timescale, cut at `u64::MAX`; zero under a timescale
    /// of zero.
    pub open spec fn spec_duration(&self) -> u64 {
        if self.moov.mvhd.timescale == 0 {
            0
        } else {
            saturate(self.moov.mvhd.duration * 1000 / (self.moov.mvhd.timescale as int))
        }
    }

    /// The bytes of the sample that `info` describes, where the source
    /// holds them all.
    pub open spec fn spec_bytes_of(&self, info: SampleInfo) -> Option<Seq<u8>> {
        if info.offset + info.size <= self.data@.len() {
            Some(self.data@.subrange(info.offset as int, info.offset + info.size))
        } else {
            None
        }
    }

    /// The number of bytes that the walk over the file covered.
    pub fn size(&self) -> (r: u64)
        ensures
            r == self.size,
    {
        self.size
    }

    pub fn major_brand(&self) -> (r: &FourCC)
        ensures
            *r == self.ftyp.major_brand,
    {
        &self.ftyp.major_brand
    }

    pub fn minor_version(&self) -> (r: u32)
        ensures
            r == self.ftyp.minor_version,
    {
        self.ftyp.minor_version
    }

    pub fn compatible_brands(&self) -> (r: &[FourCC])
        ensures
            r@ == self.ftyp.compatible_brands@,
    {
        self.ftyp.compatible_brands.as_slice()
    }

    /// The movie's duration in milliseconds.
    pub fn duration(&self) -> (r: u64)
        ensures
            r == self.spec_duration(),
    {
        let scale: u32 = self.moov.mvhd.timescale;
        if scale == 0 {
            return 0;
        }
        let ticks: u128 = self.moov.mvhd.duration as u128 * 1000;
        let ms: u128 = ticks / (scale as u128);
        if ms > 0xFFFF_FFFF_FFFF_FFFF {
            0xFFFF_FFFF_FFFF_FFFF
        } else {
            ms as u64
        }
    }

    pub fn timescale(&self) -> (r: u32)
        ensures
            r == self.moov.mvhd.timescale,
    {
        self.moov.mvhd.timescale
    }

    /// Whether the file holds movie fragments.
    pub fn is_fragmented(&self) -> (r: bool)
        ensures
            r == (self.moofs@.len() != 0),
    {
        self.moofs.len() != 0
    }

    /// The tracks, in the order of their `trak` boxes.
    pub fn tracks(&self) -> (r: &Vec<Mp4Track>)
        ensures
            r@ == self.tracks@,
    {
        &self.tracks
    }

    /// The track of id `track_id`: the last of that id, if any.
    pub fn track(&self, track_id: u32) -> (r: Option<&Mp4Track>)
        ensures
            match r {
                Some(t) => self.spec_track(track_id) == Some(*t),
                None => self.spec_track(track_id) is None,
            },
    {
        let mut n: usize = self.tracks.len();
        while n > 0
            invariant
                n <= self.tracks@.len(),
                last_with_id(self.tracks@, n as int, track_id) == last_with_id(
                    self.tracks@,
                    self.tracks@.len() as int,
                    track_id,
                ),
            decreases n,
        {
            if self.tracks[n - 1].track_id == track_id {
                return Some(&self.tracks[n - 1]);
            }
            n -= 1;
        }
        None
    }

    /// The number of samples of the track `track_id`: those of its sample
    /// tables and those of its fragment runs.
    pub fn sample_count(&self, track_id: u32) -> (r: Result<u32, Error>)
        ensures
            match self.spec_track(track_id) {
                None => r is Err && r.unwrap_err().spec_kind() == ErrorKind::TrakNotFound(
                    track_id,
                ),
                Some(t) => if t.spec_sample_count() <= u32::MAX {
                    r == Ok::<u32, Error>(t.spec_sample_count() as u32)
                } else {
                    r is Err && r.unwrap_err().spec_kind() == ErrorKind::InvalidData
                },
            },
    {
        match self.track(track_id) {
            Some(t) => t.sample_count(),
            None => Err(Error::TrakNotFound(track_id)),
        }
    }

    /// The file offset of sample `sample_id` of the track `track_id`.
    pub fn sample_offset(&self, track_id: u32, sample_id: u32) -> (r: Result<u64, Error>)
        ensures
            match self.spec_track(track_id) {
                None => r is Err && r.unwrap_err().spec_kind() == ErrorKind::TrakNotFound(
                    track_id,
                ),
                Some(t) => match t.spec_sample_info(sample_id) {
                    Ok(Some(info)) => r == Ok::<u64, Error>(info.offset),
                    Ok(None) => r is Err && r.unwrap_err().spec_kind()
                        == ErrorKind::EntryInStblNotFound(t.track_id, BoxType::StszBox, sample_id),
                    Err(k) => r is Err && r.unwrap_err().spec_kind() == k,
                },
            },
    {
        match self.track(track_id) {
            Some(t) => t.sample_offset(sample_id),
            None => Err(Error::TrakNotFound(track_id)),
        }
    }

    /// What reading the sample that `info` resolves to gives; `info` is
    /// what the locator returned for the sample.
    pub open spec fn spec_sample(&self, found: Result<Option<SampleInfo>, ErrorKind>) -> Result<
        Option<(SampleInfo, Seq<u8>)>,
        ErrorKind,
    > {
        match found {
            Err(k) => Err(k),
            Ok(None) => Ok(None),
            Ok(Some(info)) => match self.spec_bytes_of(info) {
                None => Err(ErrorKind::IoError),
                Some(bytes) => Ok(Some((info, bytes))),
            },
        }
    }

    /// Reads sample `sample_id` of the track `track_id`: `Ok(None)` where
    /// the track has no such sample, an error where the sample cannot be
    /// resolved or its bytes are not all in the source.
    pub fn read_sample(&self, track_id: u32, sample_id: u32) -> (r: Result<
        Option<Mp4Sample>,
        Error,
    >)
        ensures
            match self.spec_track(track_id) {
                None => r is Err && r.unwrap_err().spec_kind() == ErrorKind::TrakNotFound(
                    track_id,
                ),
                Some(t) => match self.spec_sample(t.spec_sample_info(sample_id)) {
                    Err(k) => r is Err && r.unwrap_err().spec_kind() == k,
                    Ok(None) => r is Ok && r.unwrap() is None,
                    Ok(Some(found)) => r is Ok && r.unwrap() is Some && ({
                        let s = r.unwrap().unwrap();
                        &&& s.start_time == found.0.start_time
                        &&& s.duration == found.0.duration
                        &&& s.rendering_offset == found.0.rendering_offset
                        &&& s.is_sync == found.0.is_sync
                        &&& s.bytes@ == found.1
                    }),
                },
            },
    {
        let t = match self.track(track_id) {
            Some(t) => t,
            None => {
                return Err(Error::TrakNotFound(track_id));
            },
        };
        let info = match t.sample_info(sample_id) {
            Ok(Some(info)) => info,
            Ok(None) => {
                return Ok(None);
            },
            Err(e) => {
                return Err(e);
            },
        };
        let len: u64 = self.data.len() as u64;
        if info.offset > len || info.size as u64 > len - info.offset {
            return Err(Error::IoError);
        }
        let bytes: Vec<u8> = slice_to_vec(
            slice_subrange(
                self.data.as_slice(),
                info.offset as usize,
                (info.offset + info.size as u64) as usize,
            ),
        );
        Ok(
            Some(
                Mp4Sample {
                    start_time: info.start_time,
                    duration: info.duration,
                    rendering_offset: info.rendering_offset,
                    is_sync: info.is_sync,
                    bytes,
                },
            ),
        )
    }

    /// The item list of the movie's metadata, where the movie has one.
    pub fn metadata(&self) -> (r: Option<&IlstBox>)
        ensures
            r == (match self.moov.udta {
                Some(udta) => match udta.meta {
                    Some(MetaBox::Mdir { ilst: Some(ilst) }) => Some(&ilst),
                    _ => None,
                },
                None => None,
            }),
    {
        match &self.moov.udta {
            Some(udta) => match &udta.meta {
                Some(MetaBox::Mdir { ilst: Some(ilst) }) => Some(ilst),
                _ => None,
            },
            None => None,
        }
    }
}

} // verus!

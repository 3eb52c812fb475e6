//! The view of one track and its sample locator.
//!
//! A track's samples are numbered from 1. The first `sample_count` of them
//! are located by joining the sample tables of the track; those beyond are
//! located in the fragment runs that were attached to the track, in order.

use crate::codec::{add_size, as_signed32, saturate};
use crate::error::{Error, ErrorKind};
use crate::mp4box::ctts::CttsEntry;
use crate::mp4box::stsc::StscEntry;
use crate::mp4box::stts::SttsEntry;
use crate::mp4box::tfdt::TfdtBox;
use crate::mp4box::tfhd::{
    flag_set, spec_flag_set, TfhdBox, FLAG_DEFAULT_BASE_IS_MOOF,
};
use crate::mp4box::traf::TrafBox;
use crate::mp4box::trak::TrakBox;
use crate::mp4box::header::{opt_view, views};
use crate::mp4box::stbl::{StblBox, StblView};
use crate::mp4box::trak::TrakView;
use crate::mp4box::trun::{
    TrunBox, TrunView, FLAG_SAMPLE_CTS, FLAG_SAMPLE_DURATION, FLAG_SAMPLE_FLAGS, FLAG_SAMPLE_SIZE,
};
use crate::mp4box::{BoxType, FourCC};
use vstd::prelude::*;
use vstd::slice::slice_to_vec;

verus! {

/// The bit of a sample's flags that says the sample depends on others.
pub const SAMPLE_IS_NON_SYNC: u32 = 0x0001_0000;

/// The kind of a track, by its handler.
#[derive(Debug, Clone, Copy, PartialEq, Eq, Structural)]
pub enum TrackType {
    Video,
    Audio,
    Subtitle,
}

/// The codec of a track, by its sample entry.
#[derive(Debug, Clone, Copy, PartialEq, Eq, Structural)]
pub enum MediaType {
    H264,
    H265,
    VP9,
    AAC,
    TTXT,
}

/// Where a sample lies and when it plays.
#[derive(Debug, Clone, Copy, PartialEq, Eq, Structural)]
pub struct SampleInfo {
    /// The offset of the sample's first byte in the file.
    pub offset: u64,
    /// The number of bytes of the sample.
    pub size: u32,
    /// The decode time, in ticks of the track's timescale.
    pub start_time: u64,
    /// The duration, in ticks of the track's timescale.
    pub duration: u32,
    /// The composition time less the decode time.
    pub rendering_offset: i32,
    /// Whether the sample can be decoded on its own.
    pub is_sync: bool,
}

/// One run of samples that a movie fragment adds to a track.
#[derive(Debug, Clone, PartialEq, Eq)]
pub struct FragmentRun {
    /// The file offset of the movie fragment that holds the run.
    pub moof_offset: u64,
    pub tfhd: TfhdBox,
    pub tfdt: Option<TfdtBox>,
    pub trun: Option<TrunBox>,
}

/// A track: what the locator needs of its `trak` box, and the fragment
/// runs attached to it.
#[derive(Debug, Clone, PartialEq, Eq)]
pub struct Mp4Track {
    pub track_id: u32,
    pub handler_type: FourCC,
    pub timescale: u32,
    pub duration: u64,
    /// The presentation width in pixels.
    pub width: u16,
    /// The presentation height in pixels.
    pub height: u16,
    /// The type of the sample entry, where the track has one.
    pub sample_entry: Option<BoxType>,
    pub stts: Vec<SttsEntry>,
    pub ctts: Option<Vec<CttsEntry>>,
    pub stss: Option<Vec<u32>>,
    pub stsc: Vec<StscEntry>,
    /// The size of every sample, or zero where `sample_sizes` gives them.
    pub sample_size: u32,
    /// The number of samples that the sample tables describe.
    pub sample_count: u32,
    pub sample_sizes: Vec<u32>,
    /// The file offset of each chunk.
    pub chunk_offsets: Vec<u64>,
    pub runs: Vec<FragmentRun>,
    /// The duration of a fragment sample where nothing else gives it.
    pub default_sample_duration: u32,
    /// The size of a fragment sample where nothing else gives it.
    pub default_sample_size: u32,
    /// The flags of a fragment sample where nothing else gives them.
    pub default_sample_flags: u32,
}

/// The chunk that holds a sample, and the first sample of that chunk.
pub struct ChunkPlace {
    /// The number of the chunk, counted from 1.
    pub chunk: int,
    /// The index, counted from 0, of the first sample in the chunk.
    pub first: int,
}

/// The decode time and the duration of the sample of index `index`
/// (counted from 0), by the walk over the entries of `stts` from entry `k`
/// on, where `first` samples lasting `elapsed` ticks came before.
pub open spec fn time_walk(es: Seq<SttsEntry>, k: int, first: int, elapsed: int, index: int)
    -> Option<(int, u32)>
    decreases es.len() - k,
{
    if k < 0 || k >= es.len() {
        None
    } else if index < first + es[k].sample_count {
        Some((elapsed + (index - first) * es[k].sample_delta, es[k].sample_delta))
    } else {
        time_walk(
            es,
            k + 1,
            first + es[k].sample_count,
            elapsed + es[k].sample_count * es[k].sample_delta,
            index,
        )
    }
}

/// The composition offset of the sample of index `index` (counted from
/// 0), by the walk over the entries of `ctts` from entry `k` on, where
/// `first` samples came before.
pub open spec fn offset_walk(es: Seq<CttsEntry>, k: int, first: int, index: int) -> Option<i32>
    decreases es.len() - k,
{
    if k < 0 || k >= es.len() {
        None
    } else if index < first + es[k].sample_count {
        Some(es[k].sample_offset)
    } else {
        offset_walk(es, k + 1, first + es[k].sample_count, index)
    }
}

/// The chunk of the sample of index `index` (counted from 0), by the walk
/// over the entries of `stsc` from entry `k` on, whose first chunk starts
/// with sample `first`. Each entry stands for the chunks from its
/// `first_chunk` up to that of the next entry, which must be greater.
pub open spec fn chunk_walk(es: Seq<StscEntry>, k: int, first: int, index: int) -> Option<
    ChunkPlace,
>
    decreases es.len() - k,
{
    if k < 0 || k >= es.len() || es[k].samples_per_chunk == 0 || es[k].first_chunk == 0 {
        None
    } else {
        let per = es[k].samples_per_chunk as int;
        let here = ChunkPlace {
            chunk: es[k].first_chunk + (index - first) / per,
            first: index - (index - first) % per,
        };
        if k + 1 == es.len() {
            Some(here)
        } else if es[k + 1].first_chunk <= es[k].first_chunk {
            None
        } else {
            let covered = (es[k + 1].first_chunk - es[k].first_chunk) * per;
            if index - first < covered {
                Some(here)
            } else {
                chunk_walk(es, k + 1, first + covered, index)
            }
        }
    }
}

impl FragmentRun {
    /// The number of samples in the run.
    pub open spec fn spec_count(&self) -> nat {
        match self.trun {
            Some(t) => t.sample_count as nat,
            None => 0,
        }
    }

    /// The number of samples in the run.
    pub fn count(&self) -> (r: u32)
        ensures
            r == self.spec_count(),
    {
        match &self.trun {
            Some(t) => t.sample_count,
            None => 0,
        }
    }
}

/// The number of samples in the runs `runs[..n]`.
pub open spec fn runs_count(runs: Seq<FragmentRun>, n: int) -> nat
    decreases n,
{
    if n <= 0 {
        0
    } else {
        runs_count(runs, n - 1) + runs[n - 1].spec_count()
    }
}

/// A column of a run gives a value for sample `j` of the run, or the
/// run does not carry the column.
pub open spec fn column_value(flags: u32, mask: u32, col: Seq<u32>, j: int) -> Option<Option<u32>> {
    if !spec_flag_set(flags, mask) {
        Some(None)
    } else if 0 <= j < col.len() {
        Some(Some(col[j]))
    } else {
        None
    }
}

/// Reads a column of a run for sample `j`: `Ok(None)` where the run does
/// not carry the column, an error where it does and has no value.
fn column_at(flags: u32, mask: u32, col: &Vec<u32>, j: usize) -> (r: Option<Option<u32>>)
    ensures
        r == column_value(flags, mask, col@, j as int),
{
    if !flag_set(flags, mask) {
        Some(None)
    } else if j < col.len() {
        Some(Some(col[j]))
    } else {
        None
    }
}

impl Mp4Track {
    /// The track's fragment runs hold `spec_fragment_count()` samples.
    pub open spec fn spec_fragment_count(&self) -> nat {
        runs_count(self.runs@, self.runs@.len() as int)
    }

    /// The number of samples of the track: those of the sample tables and
    /// those of every fragment run.
    pub open spec fn spec_sample_count(&self) -> nat {
        self.sample_count as nat + self.spec_fragment_count()
    }

    /// The size of the sample of index `j` (counted from 0) among those of
    /// the sample tables: the constant size, or the table's entry.
    pub open spec fn spec_table_size(&self, j: int) -> Option<u32> {
        if self.sample_size != 0 {
            Some(self.sample_size)
        } else if 0 <= j < self.sample_sizes@.len() {
            Some(self.sample_sizes@[j])
        } else {
            None
        }
    }

    /// The sizes of the samples of indices `a` up to `b`, added up; `None`
    /// where one of them has no size.
    pub open spec fn spec_sizes_sum(&self, a: int, b: int) -> Option<int>
        decreases b - a,
    {
        if b <= a {
            Some(0)
        } else {
            match (self.spec_sizes_sum(a, b - 1), self.spec_table_size(b - 1)) {
                (Some(s), Some(x)) => Some(s + x),
                _ => None,
            }
        }
    }

    /// The file offset of the sample of index `index` (counted from 0)
    /// among those of the sample tables: the offset of its chunk and the
    /// sizes of the samples before it in the chunk. `None` where a table
    /// has no entry for it.
    pub open spec fn spec_table_offset(&self, index: int) -> Option<int> {
        match chunk_walk(self.stsc@, 0, 0, index) {
            None => None,
            Some(place) => if 1 <= place.chunk <= self.chunk_offsets@.len() {
                match self.spec_sizes_sum(place.first, index) {
                    None => None,
                    Some(s) => Some(self.chunk_offsets@[place.chunk - 1] + s),
                }
            } else {
                None
            },
        }
    }

    /// Whether the sample of number `number` (counted from 1) of the
    /// sample tables is a sync sample: every sample is where the track
    /// has no sync table, else those that the table lists.
    pub open spec fn spec_table_sync(&self, number: u32) -> bool {
        match self.stss {
            None => true,
            Some(list) => list@.contains(number),
        }
    }

    /// The composition offset of the sample of index `index` among those
    /// of the sample tables: zero where the track has no composition
    /// table or the table has no entry for the sample.
    pub open spec fn spec_table_rendering(&self, index: int) -> i32 {
        match self.ctts {
            None => 0,
            Some(list) => match offset_walk(list@, 0, 0, index) {
                Some(v) => v,
                None => 0,
            },
        }
    }

    /// The number of the track.
    pub fn track_id(&self) -> (r: u32)
        ensures
            r == self.track_id,
    {
        self.track_id
    }

    /// The presentation width in pixels.
    pub fn width(&self) -> (r: u16)
        ensures
            r == self.width,
    {
        self.width
    }

    /// The presentation height in pixels.
    pub fn height(&self) -> (r: u16)
        ensures
            r == self.height,
    {
        self.height
    }

    /// The kind of the track, by its handler: `vide`, `soun` or `sbtl`.
    pub fn track_type(&self) -> (r: Result<TrackType, Error>)
        ensures
            self.handler_type.value == 0x7669_6465 ==> r == Ok::<TrackType, Error>(
                TrackType::Video,
            ),
            self.handler_type.value == 0x736f_756e ==> r == Ok::<TrackType, Error>(
                TrackType::Audio,
            ),
            self.handler_type.value == 0x7362_746c ==> r == Ok::<TrackType, Error>(
                TrackType::Subtitle,
            ),
            r is Err <==> self.handler_type.value != 0x7669_6465 && self.handler_type.value
                != 0x736f_756e && self.handler_type.value != 0x7362_746c,
            r is Err ==> r.unwrap_err().spec_kind() == ErrorKind::InvalidData,
    {
        if self.handler_type.value == 0x7669_6465 {
            Ok(TrackType::Video)
        } else if self.handler_type.value == 0x736f_756e {
            Ok(TrackType::Audio)
        } else if self.handler_type.value == 0x7362_746c {
            Ok(TrackType::Subtitle)
        } else {
            Err(Error::InvalidData("unsupported handler type"))
        }
    }

    /// The codec of the track, by the type of its sample entry.
    pub fn media_type(&self) -> (r: Result<MediaType, Error>)
        ensures
            self.sample_entry == Some(BoxType::Avc1Box) ==> r == Ok::<MediaType, Error>(
                MediaType::H264,
            ),
            self.sample_entry == Some(BoxType::Hev1Box) ==> r == Ok::<MediaType, Error>(
                MediaType::H265,
            ),
            self.sample_entry == Some(BoxType::Vp09Box) ==> r == Ok::<MediaType, Error>(
                MediaType::VP9,
            ),
            self.sample_entry == Some(BoxType::Mp4aBox) ==> r == Ok::<MediaType, Error>(
                MediaType::AAC,
            ),
            self.sample_entry == Some(BoxType::Tx3gBox) ==> r == Ok::<MediaType, Error>(
                MediaType::TTXT,
            ),
            r is Err <==> !(self.sample_entry == Some(BoxType::Avc1Box) || self.sample_entry
                == Some(BoxType::Hev1Box) || self.sample_entry == Some(BoxType::Vp09Box)
                || self.sample_entry == Some(BoxType::Mp4aBox) || self.sample_entry == Some(
                BoxType::Tx3gBox,
            )),
            r is Err ==> r.unwrap_err().spec_kind() == ErrorKind::InvalidData,
    {
        match self.sample_entry {
            Some(BoxType::Avc1Box) => Ok(MediaType::H264),
            Some(BoxType::Hev1Box) => Ok(MediaType::H265),
            Some(BoxType::Vp09Box) => Ok(MediaType::VP9),
            Some(BoxType::Mp4aBox) => Ok(MediaType::AAC),
            Some(BoxType::Tx3gBox) => Ok(MediaType::TTXT),
            _ => Err(Error::InvalidData("unsupported media type")),
        }
    }

    /// The number of samples in the track's fragment runs; `None` where
    /// it does not fit 32 bits.
    pub fn fragment_count(&self) -> (r: Option<u32>)
        ensures
            r is Some <==> self.spec_fragment_count() <= u32::MAX,
            r is Some ==> r.unwrap() == self.spec_fragment_count(),
    {
        let mut total: u32 = 0;
        let mut i: usize = 0;
        while i < self.runs.len()
            invariant
                i <= self.runs@.len(),
                total == runs_count(self.runs@, i as int),
            decreases self.runs@.len() - i,
        {
            let n: u32 = self.runs[i].count();
            if n > 0xFFFF_FFFF - total {
                proof {
                    lemma_runs_count_grows(self.runs@, i as int + 1, self.runs@.len() as int);
                }
                return None;
            }
            total = total + n;
            i += 1;
        }
        Some(total)
    }

    /// The number of samples of the track; an error where it does not fit
    /// 32 bits.
    pub fn sample_count(&self) -> (r: Result<u32, Error>)
        ensures
            r is Ok <==> self.spec_sample_count() <= u32::MAX,
            r is Ok ==> r.unwrap() == self.spec_sample_count(),
            r is Err ==> r.unwrap_err().spec_kind() == ErrorKind::InvalidData,
    {
        match self.fragment_count() {
            Some(n) => if n > 0xFFFF_FFFF - self.sample_count {
                Err(Error::InvalidData("sample count exceeds 32 bits"))
            } else {
                Ok(self.sample_count + n)
            },
            None => Err(Error::InvalidData("sample count exceeds 32 bits")),
        }
    }

    /// The size of the sample of index `j` among those of the sample
    /// tables.
    pub fn table_size(&self, j: u32) -> (r: Option<u32>)
        ensures
            r == self.spec_table_size(j as int),
    {
        if self.sample_size != 0 {
            Some(self.sample_size)
        } else if (j as usize) < self.sample_sizes.len() {
            Some(self.sample_sizes[j as usize])
        } else {
            None
        }
    }

    /// The decode time and duration of the sample of index `index` among
    /// those of the sample tables; `None` where the time table ends
    /// before it.
    pub fn table_time(&self, index: u32) -> (r: Option<(u64, u32)>)
        ensures
            match r {
                Some(t) => time_walk(self.stts@, 0, 0, 0, index as int) == Some(
                    (t.0 as int, t.1),
                ),
                None => time_walk(self.stts@, 0, 0, 0, index as int) is None,
            },
    {
        let mut k: usize = 0;
        let mut first: u32 = 0;
        let mut elapsed: u64 = 0;
        while k < self.stts.len()
            invariant
                k <= self.stts@.len(),
                first <= index,
                elapsed <= first * 0xFFFF_FFFF,
                time_walk(self.stts@, k as int, first as int, elapsed as int, index as int)
                    == time_walk(self.stts@, 0, 0, 0, index as int),
            decreases self.stts@.len() - k,
        {
            let e: SttsEntry = self.stts[k];
            assert((index - first) * e.sample_delta <= (index - first) * 0xFFFF_FFFF
                && (index - first) * e.sample_delta >= 0 && first * 0xFFFF_FFFF + (index - first)
                * 0xFFFF_FFFF == index * 0xFFFF_FFFF && index * 0xFFFF_FFFF <= 0xFFFF_FFFF
                * 0xFFFF_FFFF) by (nonlinear_arith)
                requires
                    0 <= first <= index <= 0xFFFF_FFFF,
                    0 <= e.sample_delta <= 0xFFFF_FFFF,
            ;
            if index - first < e.sample_count {
                let dts: u64 = elapsed + ((index - first) as u64) * (e.sample_delta as u64);
                return Some((dts, e.sample_delta));
            }
            assert(e.sample_count * e.sample_delta <= e.sample_count * 0xFFFF_FFFF
                && e.sample_count * e.sample_delta >= 0 && first * 0xFFFF_FFFF + e.sample_count
                * 0xFFFF_FFFF == (first + e.sample_count) * 0xFFFF_FFFF && (first
                + e.sample_count) * 0xFFFF_FFFF <= index * 0xFFFF_FFFF) by (nonlinear_arith)
                requires
                    0 <= first,
                    first + e.sample_count <= index,
                    0 <= e.sample_count,
                    0 <= e.sample_delta <= 0xFFFF_FFFF,
            ;
            elapsed = elapsed + (e.sample_count as u64) * (e.sample_delta as u64);
            first = first + e.sample_count;
            k += 1;
        }
        None
    }

    /// The composition offset of the sample of index `index` among those
    /// of the sample tables.
    pub fn table_rendering(&self, index: u32) -> (r: i32)
        ensures
            r == self.spec_table_rendering(index as int),
    {
        match &self.ctts {
            None => 0,
            Some(list) => {
                let mut k: usize = 0;
                let mut first: u32 = 0;
                while k < list.len()
                    invariant
                        k <= list@.len(),
                        first <= index,
                        self.ctts == Some(*list),
                        offset_walk(list@, k as int, first as int, index as int) == offset_walk(
                            list@,
                            0,
                            0,
                            index as int,
                        ),
                    decreases list@.len() - k,
                {
                    let e: CttsEntry = list[k];
                    if index - first < e.sample_count {
                        return e.sample_offset;
                    }
                    first = first + e.sample_count;
                    k += 1;
                }
                0
            },
        }
    }

    /// Whether the sample of number `number` of the sample tables is a
    /// sync sample.
    pub fn table_sync(&self, number: u32) -> (r: bool)
        ensures
            r == self.spec_table_sync(number),
            self.stss is None ==> r,
    {
        match &self.stss {
            None => true,
            Some(list) => {
                let mut k: usize = 0;
                while k < list.len()
                    invariant
                        k <= list@.len(),
                        self.stss == Some(*list),
                        forall|j: int| 0 <= j < k ==> list@[j] != number,
                    decreases list@.len() - k,
                {
                    if list[k] == number {
                        return true;
                    }
                    k += 1;
                }
                false
            },
        }
    }

    /// The chunk that holds the sample of index `index` among those of
    /// the sample tables, and the first sample of that chunk.
    pub fn table_chunk(&self, index: u32) -> (r: Option<(u64, u32)>)
        ensures
            match r {
                Some(c) => chunk_walk(self.stsc@, 0, 0, index as int) == Some(
                    ChunkPlace { chunk: c.0 as int, first: c.1 as int },
                ),
                None => chunk_walk(self.stsc@, 0, 0, index as int) is None,
            },
    {
        let mut k: usize = 0;
        let mut first: u32 = 0;
        while k < self.stsc.len()
            invariant
                k <= self.stsc@.len(),
                first <= index,
                chunk_walk(self.stsc@, k as int, first as int, index as int) == chunk_walk(
                    self.stsc@,
                    0,
                    0,
                    index as int,
                ),
            decreases self.stsc@.len() - k,
        {
            let e: StscEntry = self.stsc[k];
            if e.samples_per_chunk == 0 || e.first_chunk == 0 {
                return None;
            }
            let rel: u32 = index - first;
            assert(0 <= rel % e.samples_per_chunk <= rel) by (nonlinear_arith)
                requires
                    rel >= 0,
                    e.samples_per_chunk > 0,
            ;
            let chunk: u64 = e.first_chunk as u64 + (rel / e.samples_per_chunk) as u64;
            let start: u32 = index - rel % e.samples_per_chunk;
            if k + 1 == self.stsc.len() {
                return Some((chunk, start));
            }
            let next: StscEntry = self.stsc[k + 1];
            if next.first_chunk <= e.first_chunk {
                return None;
            }
            assert(0 <= (next.first_chunk - e.first_chunk) * e.samples_per_chunk <= 0xFFFF_FFFF
                * 0xFFFF_FFFF) by (nonlinear_arith)
                requires
                    0 < next.first_chunk - e.first_chunk <= 0xFFFF_FFFF,
                    0 < e.samples_per_chunk <= 0xFFFF_FFFF,
            ;
            let covered: u64 = ((next.first_chunk - e.first_chunk) as u64) * (
            e.samples_per_chunk as u64);
            if (rel as u64) < covered {
                return Some((chunk, start));
            }
            first = first + covered as u32;
            k += 1;
        }
        None
    }

    /// The sizes of the samples of indices `a` up to `b` among those of
    /// the sample tables, added up.
    pub fn sizes_sum(&self, a: u32, b: u32) -> (r: Option<u64>)
        requires
            a <= b,
        ensures
            match r {
                Some(s) => self.spec_sizes_sum(a as int, b as int) == Some(s as int),
                None => self.spec_sizes_sum(a as int, b as int) is None,
            },
    {
        let mut j: u32 = a;
        let mut total: u64 = 0;
        while j < b
            invariant
                a <= j <= b,
                total <= (j - a) * 0xFFFF_FFFF,
                self.spec_sizes_sum(a as int, j as int) == Some(total as int),
            decreases b - j,
        {
            match self.table_size(j) {
                Some(x) => {
                    assert((j - a) * 0xFFFF_FFFF + 0xFFFF_FFFF == (j + 1 - a) * 0xFFFF_FFFF && (j
                        + 1 - a) * 0xFFFF_FFFF <= 0xFFFF_FFFF * 0xFFFF_FFFF) by (nonlinear_arith)
                        requires
                            0 <= j - a < 0xFFFF_FFFF,
                    ;
                    total = total + x as u64;
                },
                None => {
                    proof {
                        self.lemma_sizes_sum_missing(a as int, j as int + 1, b as int);
                    }
                    return None;
                },
            }
            j = j + 1;
        }
        Some(total)
    }

    /// Once a size is missing, every longer sum is missing too.
    pub proof fn lemma_sizes_sum_missing(&self, a: int, m: int, b: int)
        requires
            a <= m <= b,
            self.spec_sizes_sum(a, m) is None,
        ensures
            self.spec_sizes_sum(a, b) is None,
        decreases b - m,
    {
        if m < b {
            self.lemma_sizes_sum_missing(a, m, b - 1);
        }
    }

    /// The file offset of the sample of index `index` among those of the
    /// sample tables. `Ok(None)` where a table has no entry for it; an
    /// error where the offset exceeds 64 bits.
    pub fn table_offset(&self, index: u32) -> (r: Result<Option<u64>, Error>)
        ensures
            match r {
                Ok(Some(o)) => self.spec_table_offset(index as int) == Some(o as int),
                Ok(None) => self.spec_table_offset(index as int) is None,
                Err(e) => e.spec_kind() == ErrorKind::InvalidData && self.spec_table_offset(
                    index as int,
                ) is Some && self.spec_table_offset(index as int).unwrap() > u64::MAX,
            },
    {
        let (chunk, start) = match self.table_chunk(index) {
            Some(c) => c,
            None => {
                return Ok(None);
            },
        };
        if chunk == 0 || chunk > self.chunk_offsets.len() as u64 {
            return Ok(None);
        }
        proof {
            lemma_chunk_first(self.stsc@, 0, 0, index as int);
        }
        let sum: u64 = match self.sizes_sum(start, index) {
            Some(s) => s,
            None => {
                return Ok(None);
            },
        };
        let base: u64 = self.chunk_offsets[(chunk - 1) as usize];
        match base.checked_add(sum) {
            Some(o) => Ok(Some(o)),
            None => Err(Error::InvalidData("sample offset exceeds 64 bits")),
        }
    }
}

/// More runs hold at least as many samples.
pub proof fn lemma_runs_count_grows(runs: Seq<FragmentRun>, m: int, n: int)
    requires
        m <= n,
    ensures
        runs_count(runs, m) <= runs_count(runs, n),
    decreases n - m,
{
    if m < n {
        lemma_runs_count_grows(runs, m, n - 1);
    }
}

/// The first sample of the chunk that holds a sample does not come after
/// the sample, nor before the walk's own first sample.
pub proof fn lemma_chunk_first(es: Seq<StscEntry>, k: int, first: int, index: int)
    requires
        0 <= first <= index,
        chunk_walk(es, k, first, index) is Some,
    ensures
        first <= chunk_walk(es, k, first, index).unwrap().first <= index,
        chunk_walk(es, k, first, index).unwrap().chunk >= 1,
    decreases es.len() - k,
{
    let per = es[k].samples_per_chunk as int;
    let rel = index - first;
    assert(0 <= rel % per <= rel && rel / per >= 0) by (nonlinear_arith)
        requires
            rel >= 0,
            per > 0,
    ;
    if k + 1 == es.len() {
    } else {
        let covered = (es[k + 1].first_chunk - es[k].first_chunk) * per;
        assert(covered >= 0) by (nonlinear_arith)
            requires
                covered == (es[k + 1].first_chunk - es[k].first_chunk) * per,
                es[k + 1].first_chunk - es[k].first_chunk > 0,
                per > 0,
        ;
        if index - first < covered {
        } else {
            lemma_chunk_first(es, k + 1, first + covered, index);
        }
    }
}

/// The run that holds the fragment sample of index `k` (counted from 0
/// over the runs from `r` on), and the sample's index in that run.
pub open spec fn find_run(runs: Seq<FragmentRun>, r: int, k: int) -> Option<(int, int)>
    decreases runs.len() - r,
{
    if r < 0 || r >= runs.len() {
        None
    } else if k < runs[r].spec_count() {
        Some((r, k))
    } else {
        find_run(runs, r + 1, k - runs[r].spec_count())
    }
}

impl Mp4Track {
    /// The value for sample `j` of run `r` in the column that `mask`
    /// announces: `Some(None)` where the run does not carry the column,
    /// `None` where it carries it without a value for the sample, or has
    /// no sample run at all.
    pub open spec fn spec_run_column(&self, r: int, mask: u32, j: int) -> Option<Option<u32>> {
        match self.runs@[r].trun {
            None => None,
            Some(t) => column_value(
                t.flags,
                mask,
                if mask == FLAG_SAMPLE_DURATION {
                    t.sample_durations@
                } else if mask == FLAG_SAMPLE_SIZE {
                    t.sample_sizes@
                } else if mask == FLAG_SAMPLE_FLAGS {
                    t.sample_flags@
                } else {
                    t.sample_cts@
                },
                j,
            ),
        }
    }

    /// Reads a column of run `r` for its sample `j`.
    fn run_column(&self, r: usize, mask: u32, j: u32) -> (res: Option<Option<u32>>)
        requires
            r < self.runs@.len(),
        ensures
            res == self.spec_run_column(r as int, mask, j as int),
    {
        match &self.runs[r].trun {
            None => None,
            Some(t) => {
                if mask == FLAG_SAMPLE_DURATION {
                    column_at(t.flags, mask, &t.sample_durations, j as usize)
                } else if mask == FLAG_SAMPLE_SIZE {
                    column_at(t.flags, mask, &t.sample_sizes, j as usize)
                } else if mask == FLAG_SAMPLE_FLAGS {
                    column_at(t.flags, mask, &t.sample_flags, j as usize)
                } else {
                    column_at(t.flags, mask, &t.sample_cts, j as usize)
                }
            },
        }
    }

    /// The duration of sample `j` of run `r`: the run's own value, else
    /// the default of the fragment header, else that of the track.
    pub open spec fn spec_run_duration(&self, r: int, j: int) -> Option<u32> {
        match self.spec_run_column(r, FLAG_SAMPLE_DURATION, j) {
            None => None,
            Some(Some(v)) => Some(v),
            Some(None) => Some(
                match self.runs@[r].tfhd.default_sample_duration {
                    Some(d) => d,
                    None => self.default_sample_duration,
                },
            ),
        }
    }

    /// The duration of sample `j` of run `r`.
    pub fn run_duration(&self, r: usize, j: u32) -> (res: Option<u32>)
        requires
            r < self.runs@.len(),
        ensures
            res == self.spec_run_duration(r as int, j as int),
    {
        match self.run_column(r, FLAG_SAMPLE_DURATION, j) {
            None => None,
            Some(Some(v)) => Some(v),
            Some(None) => Some(
                match self.runs[r].tfhd.default_sample_duration {
                    Some(d) => d,
                    None => self.default_sample_duration,
                },
            ),
        }
    }

    /// The size of sample `j` of run `r`: the run's own value, else the
    /// default of the fragment header, else that of the track.
    pub open spec fn spec_run_size(&self, r: int, j: int) -> Option<u32> {
        match self.spec_run_column(r, FLAG_SAMPLE_SIZE, j) {
            None => None,
            Some(Some(v)) => Some(v),
            Some(None) => Some(
                match self.runs@[r].tfhd.default_sample_size {
                    Some(d) => d,
                    None => self.default_sample_size,
                },
            ),
        }
    }

    /// The size of sample `j` of run `r`.
    pub fn run_size(&self, r: usize, j: u32) -> (res: Option<u32>)
        requires
            r < self.runs@.len(),
        ensures
            res == self.spec_run_size(r as int, j as int),
    {
        match self.run_column(r, FLAG_SAMPLE_SIZE, j) {
            None => None,
            Some(Some(v)) => Some(v),
            Some(None) => Some(
                match self.runs[r].tfhd.default_sample_size {
                    Some(d) => d,
                    None => self.default_sample_size,
                },
            ),
        }
    }

    /// The flags of sample `j` of run `r`: the run's own value for the
    /// sample, else for the first sample the run's first-sample flags,
    /// else the default of the fragment header, else that of the track.
    pub open spec fn spec_run_flags(&self, r: int, j: int) -> Option<u32> {
        match self.spec_run_column(r, FLAG_SAMPLE_FLAGS, j) {
            None => None,
            Some(Some(v)) => Some(v),
            Some(None) => Some(
                if j == 0 && self.runs@[r].trun.unwrap().first_sample_flags is Some {
                    self.runs@[r].trun.unwrap().first_sample_flags.unwrap()
                } else {
                    match self.runs@[r].tfhd.default_sample_flags {
                        Some(d) => d,
                        None => self.default_sample_flags,
                    }
                },
            ),
        }
    }

    /// The flags of sample `j` of run `r`.
    pub fn run_flags(&self, r: usize, j: u32) -> (res: Option<u32>)
        requires
            r < self.runs@.len(),
        ensures
            res == self.spec_run_flags(r as int, j as int),
    {
        match self.run_column(r, FLAG_SAMPLE_FLAGS, j) {
            None => None,
            Some(Some(v)) => Some(v),
            Some(None) => {
                let first = match &self.runs[r].trun {
                    Some(t) => t.first_sample_flags,
                    None => None,
                };
                if j == 0 && first.is_some() {
                    first
                } else {
                    Some(
                        match self.runs[r].tfhd.default_sample_flags {
                            Some(d) => d,
                            None => self.default_sample_flags,
                        },
                    )
                }
            },
        }
    }

    /// The durations of the first `n` samples of run `r`, added up.
    pub open spec fn spec_run_durations(&self, r: int, n: int) -> Option<int>
        decreases n,
    {
        if n <= 0 {
            Some(0)
        } else {
            match (self.spec_run_durations(r, n - 1), self.spec_run_duration(r, n - 1)) {
                (Some(s), Some(x)) => Some(s + x),
                _ => None,
            }
        }
    }

    /// The sizes of the first `n` samples of run `r`, added up.
    pub open spec fn spec_run_sizes(&self, r: int, n: int) -> Option<int>
        decreases n,
    {
        if n <= 0 {
            Some(0)
        } else {
            match (self.spec_run_sizes(r, n - 1), self.spec_run_size(r, n - 1)) {
                (Some(s), Some(x)) => Some(s + x),
                _ => None,
            }
        }
    }

    /// Once a duration is missing, every longer sum is missing too.
    pub proof fn lemma_run_durations_missing(&self, r: int, m: int, n: int)
        requires
            m <= n,
            self.spec_run_durations(r, m) is None,
        ensures
            self.spec_run_durations(r, n) is None,
        decreases n - m,
    {
        if m < n {
            self.lemma_run_durations_missing(r, m, n - 1);
        }
    }

    /// Once a size is missing, every longer sum is missing too.
    pub proof fn lemma_run_sizes_missing(&self, r: int, m: int, n: int)
        requires
            m <= n,
            self.spec_run_sizes(r, m) is None,
        ensures
            self.spec_run_sizes(r, n) is None,
        decreases n - m,
    {
        if m < n {
            self.lemma_run_sizes_missing(r, m, n - 1);
        }
    }

    /// The durations of the first `n` samples of run `r`, added up.
    pub fn run_durations(&self, r: usize, n: u32) -> (res: Option<u64>)
        requires
            r < self.runs@.len(),
        ensures
            match res {
                Some(s) => self.spec_run_durations(r as int, n as int) == Some(s as int),
                None => self.spec_run_durations(r as int, n as int) is None,
            },
    {
        let mut j: u32 = 0;
        let mut total: u64 = 0;
        while j < n
            invariant
                j <= n,
                r < self.runs@.len(),
                total <= j * 0xFFFF_FFFF,
                self.spec_run_durations(r as int, j as int) == Some(total as int),
            decreases n - j,
        {
            match self.run_duration(r, j) {
                Some(x) => {
                    assert(j * 0xFFFF_FFFF + 0xFFFF_FFFF == (j + 1) * 0xFFFF_FFFF && (j + 1)
                        * 0xFFFF_FFFF <= 0xFFFF_FFFF * 0xFFFF_FFFF) by (nonlinear_arith)
                        requires
                            0 <= j < 0xFFFF_FFFF,
                    ;
                    total = total + x as u64;
                },
                None => {
                    proof {
                        self.lemma_run_durations_missing(r as int, j as int + 1, n as int);
                    }
                    return None;
                },
            }
            j = j + 1;
        }
        Some(total)
    }

    /// The sizes of the first `n` samples of run `r`, added up.
    pub fn run_sizes(&self, r: usize, n: u32) -> (res: Option<u64>)
        requires
            r < self.runs@.len(),
        ensures
            match res {
                Some(s) => self.spec_run_sizes(r as int, n as int) == Some(s as int),
                None => self.spec_run_sizes(r as int, n as int) is None,
            },
    {
        let mut j: u32 = 0;
        let mut total: u64 = 0;
        while j < n
            invariant
                j <= n,
                r < self.runs@.len(),
                total <= j * 0xFFFF_FFFF,
                self.spec_run_sizes(r as int, j as int) == Some(total as int),
            decreases n - j,
        {
            match self.run_size(r, j) {
                Some(x) => {
                    assert(j * 0xFFFF_FFFF + 0xFFFF_FFFF == (j + 1) * 0xFFFF_FFFF && (j + 1)
                        * 0xFFFF_FFFF <= 0xFFFF_FFFF * 0xFFFF_FFFF) by (nonlinear_arith)
                        requires
                            0 <= j < 0xFFFF_FFFF,
                    ;
                    total = total + x as u64;
                },
                None => {
                    proof {
                        self.lemma_run_sizes_missing(r as int, j as int + 1, n as int);
                    }
                    return None;
                },
            }
            j = j + 1;
        }
        Some(total)
    }

    /// The decode time at which run `target` starts, by the walk over the
    /// runs from `r` on with `carry` the end of the run before: a run
    /// starts at the time of its `tfdt` where it has one, else where the
    /// run before ended. Times saturate at `u64::MAX`.
    pub open spec fn start_walk(&self, r: int, target: int, carry: u64) -> Option<u64>
        decreases target - r,
    {
        let start = match self.runs@[r].tfdt {
            Some(t) => t.base_media_decode_time,
            None => carry,
        };
        if r >= target {
            Some(start)
        } else {
            match self.spec_run_durations(r, self.runs@[r].spec_count() as int) {
                None => None,
                Some(d) => self.start_walk(r + 1, target, saturate(start + d)),
            }
        }
    }

    /// The decode time at which run `target` starts; `None` where a run
    /// before it lacks a duration.
    pub fn run_start(&self, target: usize) -> (res: Option<u64>)
        requires
            target < self.runs@.len(),
        ensures
            res == self.start_walk(0, target as int, 0),
    {
        let mut r: usize = 0;
        let mut carry: u64 = 0;
        while r < target
            invariant
                r <= target < self.runs@.len(),
                self.start_walk(r as int, target as int, carry) == self.start_walk(
                    0,
                    target as int,
                    0,
                ),
            decreases target - r,
        {
            let start: u64 = match self.runs[r].tfdt {
                Some(t) => t.base_media_decode_time,
                None => carry,
            };
            match self.run_durations(r, self.runs[r].count()) {
                None => {
                    return None;
                },
                Some(d) => {
                    carry = add_size(start, d);
                },
            }
            r += 1;
        }
        Some(
            match self.runs[target].tfdt {
                Some(t) => t.base_media_decode_time,
                None => carry,
            },
        )
    }

    /// The offset from which the data offsets of run `r` count: the start
    /// of its movie fragment where the fragment header says so or names
    /// no other base, else the base that the header names.
    pub open spec fn spec_run_base(&self, r: int) -> u64 {
        let run = self.runs@[r];
        if spec_flag_set(run.tfhd.flags, FLAG_DEFAULT_BASE_IS_MOOF) {
            run.moof_offset
        } else {
            match run.tfhd.base_data_offset {
                Some(b) => b,
                None => run.moof_offset,
            }
        }
    }

    /// The file offset of the first sample of run `r`: its base and the
    /// data offset of the run, not below zero and saturating at
    /// `u64::MAX`.
    pub open spec fn spec_run_data(&self, r: int) -> u64 {
        match self.runs@[r].trun {
            Some(t) => match t.data_offset {
                Some(d) => saturate(self.spec_run_base(r) + d),
                None => self.spec_run_base(r),
            },
            None => self.spec_run_base(r),
        }
    }

    /// The file offset of the first sample of run `r`.
    pub fn run_data(&self, r: usize) -> (res: u64)
        requires
            r < self.runs@.len(),
        ensures
            res == self.spec_run_data(r as int),
    {
        let run = &self.runs[r];
        let base: u64 = if flag_set(run.tfhd.flags, FLAG_DEFAULT_BASE_IS_MOOF) {
            run.moof_offset
        } else {
            match run.tfhd.base_data_offset {
                Some(b) => b,
                None => run.moof_offset,
            }
        };
        let shift: Option<i32> = match &run.trun {
            Some(t) => t.data_offset,
            None => None,
        };
        match shift {
            None => base,
            Some(d) => if d >= 0 {
                add_size(base, d as u64)
            } else {
                let back: u64 = (-(d as i64)) as u64;
                if back > base {
                    0
                } else {
                    base - back
                }
            },
        }
    }

    /// What is known of the fragment sample of index `k` (counted from 0
    /// over all runs), which is sample `number` of the track: an error
    /// where no run holds it, or where its run lacks one of its values.
    pub open spec fn spec_fragment_info(&self, k: int, number: u32) -> Result<SampleInfo,
        ErrorKind> {
        match find_run(self.runs@, 0, k) {
            None => Err(ErrorKind::BoxInTrafNotFound(self.track_id, BoxType::TrafBox)),
            Some((r, j)) => match (
                self.start_walk(0, r, 0),
                self.spec_run_durations(r, j),
                self.spec_run_duration(r, j),
                self.spec_run_sizes(r, j),
                self.spec_run_size(r, j),
                self.spec_run_flags(r, j),
                self.spec_run_column(r, FLAG_SAMPLE_CTS, j),
            ) {
                (Some(start), Some(before), Some(duration), Some(skipped), Some(size), Some(
                    flags,
                ), Some(cts)) => Ok(
                    SampleInfo {
                        offset: saturate(self.spec_run_data(r) + skipped),
                        size,
                        start_time: saturate(start + before),
                        duration,
                        rendering_offset: match cts {
                            Some(v) => as_signed32(v),
                            None => 0,
                        },
                        is_sync: !spec_flag_set(flags, SAMPLE_IS_NON_SYNC),
                    },
                ),
                _ => Err(ErrorKind::EntryInTrunNotFound(self.track_id, BoxType::TrunBox, number)),
            },
        }
    }

    /// Finds the run that holds the fragment sample of index `k`.
    pub fn locate_run(&self, k: u32) -> (res: Option<(usize, u32)>)
        ensures
            match res {
                Some(p) => find_run(self.runs@, 0, k as int) == Some((p.0 as int, p.1 as int))
                    && p.0 < self.runs@.len(),
                None => find_run(self.runs@, 0, k as int) is None,
            },
    {
        let mut r: usize = 0;
        let mut left: u32 = k;
        while r < self.runs.len()
            invariant
                r <= self.runs@.len(),
                find_run(self.runs@, r as int, left as int) == find_run(self.runs@, 0, k as int),
            decreases self.runs@.len() - r,
        {
            let n: u32 = self.runs[r].count();
            if left < n {
                return Some((r, left));
            }
            left = left - n;
            r += 1;
        }
        None
    }

    /// Resolves the fragment sample of index `k`, which is sample
    /// `number` of the track.
    pub fn fragment_info(&self, k: u32, number: u32) -> (res: Result<SampleInfo, Error>)
        ensures
            match res {
                Ok(info) => self.spec_fragment_info(k as int, number) == Ok::<
                    SampleInfo,
                    ErrorKind,
                >(info),
                Err(e) => self.spec_fragment_info(k as int, number) == Err::<
                    SampleInfo,
                    ErrorKind,
                >(e.spec_kind()),
            },
    {
        let (r, j) = match self.locate_run(k) {
            Some(p) => p,
            None => {
                return Err(Error::BoxInTrafNotFound(self.track_id, BoxType::TrafBox));
            },
        };
        let start = self.run_start(r);
        let before = self.run_durations(r, j);
        let duration = self.run_duration(r, j);
        let skipped = self.run_sizes(r, j);
        let size = self.run_size(r, j);
        let flags = self.run_flags(r, j);
        let cts = self.run_column(r, FLAG_SAMPLE_CTS, j);
        match (start, before, duration, skipped, size, flags, cts) {
            (Some(start), Some(before), Some(duration), Some(skipped), Some(size), Some(flags),
                Some(
                cts,
            )) => Ok(
                SampleInfo {
                    offset: add_size(self.run_data(r), skipped),
                    size,
                    start_time: add_size(start, before),
                    duration,
                    rendering_offset: match cts {
                        Some(v) => signed32(v),
                        None => 0,
                    },
                    is_sync: !flag_set(flags, SAMPLE_IS_NON_SYNC),
                },
            ),
            _ => Err(Error::EntryInTrunNotFound(self.track_id, BoxType::TrunBox, number)),
        }
    }

    /// What is known of sample `number` (counted from 1) among those of
    /// the sample tables: an error that names the table which has no
    /// entry for it.
    pub open spec fn spec_table_info(&self, number: u32) -> Result<SampleInfo, ErrorKind> {
        let index = number - 1;
        match self.spec_table_offset(index) {
            None => Err(
                ErrorKind::EntryInStblNotFound(self.track_id, BoxType::StcoBox, number),
            ),
            Some(offset) => if offset > u64::MAX {
                Err(ErrorKind::InvalidData)
            } else {
                match self.spec_table_size(index) {
                    None => Err(
                        ErrorKind::EntryInStblNotFound(self.track_id, BoxType::StszBox, number),
                    ),
                    Some(size) => match time_walk(self.stts@, 0, 0, 0, index) {
                        None => Err(
                            ErrorKind::EntryInStblNotFound(
                                self.track_id,
                                BoxType::SttsBox,
                                number,
                            ),
                        ),
                        Some(t) => Ok(
                            SampleInfo {
                                offset: offset as u64,
                                size,
                                start_time: t.0 as u64,
                                duration: t.1,
                                rendering_offset: self.spec_table_rendering(index),
                                is_sync: self.spec_table_sync(number),
                            },
                        ),
                    },
                }
            },
        }
    }

    /// Where sample `number` lies and when it plays. Sample 0 does not
    /// exist. The samples up to `sample_count` are those of the sample
    /// tables. A track without fragment runs has no sample beyond them;
    /// with runs, the samples beyond are looked for in the runs.
    pub open spec fn spec_sample_info(&self, number: u32) -> Result<Option<SampleInfo>, ErrorKind> {
        if number == 0 {
            Ok(None)
        } else if number <= self.sample_count {
            match self.spec_table_info(number) {
                Ok(info) => Ok(Some(info)),
                Err(e) => Err(e),
            }
        } else if self.runs@.len() == 0 {
            Ok(None)
        } else {
            match self.spec_fragment_info(number - self.sample_count - 1, number) {
                Ok(info) => Ok(Some(info)),
                Err(e) => Err(e),
            }
        }
    }

    /// Resolves sample `number` among those of the sample tables.
    pub fn table_info(&self, number: u32) -> (res: Result<SampleInfo, Error>)
        requires
            number >= 1,
        ensures
            match res {
                Ok(info) => self.spec_table_info(number) == Ok::<SampleInfo, ErrorKind>(info),
                Err(e) => self.spec_table_info(number) == Err::<SampleInfo, ErrorKind>(
                    e.spec_kind(),
                ),
            },
    {
        let index: u32 = number - 1;
        let offset: u64 = match self.table_offset(index) {
            Ok(Some(o)) => o,
            Ok(None) => {
                return Err(Error::EntryInStblNotFound(self.track_id, BoxType::StcoBox, number));
            },
            Err(e) => {
                return Err(e);
            },
        };
        let size: u32 = match self.table_size(index) {
            Some(s) => s,
            None => {
                return Err(Error::EntryInStblNotFound(self.track_id, BoxType::StszBox, number));
            },
        };
        let (start_time, duration) = match self.table_time(index) {
            Some(t) => t,
            None => {
                return Err(Error::EntryInStblNotFound(self.track_id, BoxType::SttsBox, number));
            },
        };
        Ok(
            SampleInfo {
                offset,
                size,
                start_time,
                duration,
                rendering_offset: self.table_rendering(index),
                is_sync: self.table_sync(number),
            },
        )
    }

    /// Where sample `number` lies and when it plays; `Ok(None)` where the
    /// track has no such sample.
    pub fn sample_info(&self, number: u32) -> (res: Result<Option<SampleInfo>, Error>)
        ensures
            match res {
                Ok(info) => self.spec_sample_info(number) == Ok::<Option<SampleInfo>, ErrorKind>(
                    info,
                ),
                Err(e) => self.spec_sample_info(number) == Err::<Option<SampleInfo>, ErrorKind>(
                    e.spec_kind(),
                ),
            },
    {
        if number == 0 {
            Ok(None)
        } else if number <= self.sample_count {
            match self.table_info(number) {
                Ok(info) => Ok(Some(info)),
                Err(e) => Err(e),
            }
        } else if self.runs.len() == 0 {
            Ok(None)
        } else {
            match self.fragment_info(number - self.sample_count - 1, number) {
                Ok(info) => Ok(Some(info)),
                Err(e) => Err(e),
            }
        }
    }

    /// The file offset of sample `number`; an error where the track has
    /// no such sample.
    pub fn sample_offset(&self, number: u32) -> (res: Result<u64, Error>)
        ensures
            match res {
                Ok(o) => self.spec_sample_info(number) is Ok && self.spec_sample_info(
                    number,
                ).unwrap() is Some && self.spec_sample_info(number).unwrap().unwrap().offset == o,
                Err(e) => match self.spec_sample_info(number) {
                    Ok(Some(_)) => false,
                    Ok(None) => e.spec_kind() == ErrorKind::EntryInStblNotFound(
                        self.track_id,
                        BoxType::StszBox,
                        number,
                    ),
                    Err(k) => e.spec_kind() == k,
                },
            },
    {
        match self.sample_info(number) {
            Ok(Some(info)) => Ok(info.offset),
            Ok(None) => Err(Error::EntryInStblNotFound(self.track_id, BoxType::StszBox, number)),
            Err(e) => Err(e),
        }
    }
}

/// Reads a 32-bit pattern as a signed number in two's complement.
pub fn signed32(v: u32) -> (r: i32)
    ensures
        r == as_signed32(v),
{
    if v < 0x8000_0000 {
        v as i32
    } else {
        (v as i64 - 0x1_0000_0000) as i32
    }
}

/// What a [`FragmentRun`] holds.
pub struct RunView {
    pub moof_offset: u64,
    pub tfhd: TfhdBox,
    pub tfdt: Option<TfdtBox>,
    pub trun: Option<TrunView>,
}

impl View for FragmentRun {
    type V = RunView;

    open spec fn view(&self) -> RunView {
        RunView {
            moof_offset: self.moof_offset,
            tfhd: self.tfhd,
            tfdt: self.tfdt,
            trun: opt_view(self.trun),
        }
    }
}

/// What a [`Mp4Track`] holds.
pub struct TrackView {
    pub track_id: u32,
    pub handler_type: FourCC,
    pub timescale: u32,
    pub duration: u64,
    pub width: u16,
    pub height: u16,
    pub sample_entry: Option<BoxType>,
    pub stts: Seq<SttsEntry>,
    pub ctts: Option<Seq<CttsEntry>>,
    pub stss: Option<Seq<u32>>,
    pub stsc: Seq<StscEntry>,
    pub sample_size: u32,
    pub sample_count: u32,
    pub sample_sizes: Seq<u32>,
    pub chunk_offsets: Seq<u64>,
    pub runs: Seq<RunView>,
    pub default_sample_duration: u32,
    pub default_sample_size: u32,
    pub default_sample_flags: u32,
}

impl View for Mp4Track {
    type V = TrackView;

    open spec fn view(&self) -> TrackView {
        TrackView {
            track_id: self.track_id,
            handler_type: self.handler_type,
            timescale: self.timescale,
            duration: self.duration,
            width: self.width,
            height: self.height,
            sample_entry: self.sample_entry,
            stts: self.stts@,
            ctts: opt_view(self.ctts),
            stss: opt_view(self.stss),
            stsc: self.stsc@,
            sample_size: self.sample_size,
            sample_count: self.sample_count,
            sample_sizes: self.sample_sizes@,
            chunk_offsets: self.chunk_offsets@,
            runs: views(self.runs@),
            default_sample_duration: self.default_sample_duration,
            default_sample_size: self.default_sample_size,
            default_sample_flags: self.default_sample_flags,
        }
    }
}

/// The chunk offsets of a sample table: those of `stco` where the table
/// has one, else those of `co64`, else none.
pub open spec fn chunk_offsets_of(stbl: StblView) -> Seq<u64> {
    match stbl.stco {
        Some(s) => Seq::new(s.entries.len(), |i: int| s.entries[i] as u64),
        None => match stbl.co64 {
            Some(c) => c.entries,
            None => Seq::empty(),
        },
    }
}

impl TrackView {
    /// The track that a `trak` box describes, with no fragment run.
    pub open spec fn of_trak(trak: TrakView) -> TrackView {
        let stbl = trak.mdia.minf.stbl;
        TrackView {
            track_id: trak.tkhd.track_id,
            handler_type: trak.mdia.hdlr.handler_type,
            timescale: trak.mdia.mdhd.timescale,
            duration: trak.mdia.mdhd.duration,
            width: (trak.tkhd.width / 0x1_0000) as u16,
            height: (trak.tkhd.height / 0x1_0000) as u16,
            sample_entry: match stbl.stsd.entry {
                Some(e) => Some(e.name),
                None => None,
            },
            stts: stbl.stts.entries,
            ctts: match stbl.ctts {
                Some(c) => Some(c.entries),
                None => None,
            },
            stss: match stbl.stss {
                Some(c) => Some(c.entries),
                None => None,
            },
            stsc: stbl.stsc.entries,
            sample_size: stbl.stsz.sample_size,
            sample_count: stbl.stsz.sample_count,
            sample_sizes: stbl.stsz.sample_sizes,
            chunk_offsets: chunk_offsets_of(stbl),
            runs: Seq::empty(),
            default_sample_duration: 0,
            default_sample_size: 0,
            default_sample_flags: 0,
        }
    }

    /// The track with one more fragment run, under the defaults `trex` of
    /// the movie's fragments.
    pub open spec fn with_run(self, run: RunView, defaults: (u32, u32, u32)) -> TrackView {
        TrackView {
            runs: self.runs.push(run),
            default_sample_duration: defaults.0,
            default_sample_size: defaults.1,
            default_sample_flags: defaults.2,
            ..self
        }
    }
}

/// A copy of a sample run.
pub fn copy_trun(t: &TrunBox) -> (r: TrunBox)
    ensures
        r@ == t@,
{
    TrunBox {
        version: t.version,
        flags: t.flags,
        sample_count: t.sample_count,
        data_offset: t.data_offset,
        first_sample_flags: t.first_sample_flags,
        sample_durations: slice_to_vec(t.sample_durations.as_slice()),
        sample_sizes: slice_to_vec(t.sample_sizes.as_slice()),
        sample_flags: slice_to_vec(t.sample_flags.as_slice()),
        sample_cts: slice_to_vec(t.sample_cts.as_slice()),
    }
}

/// The chunk offsets of a sample table, widened to 64 bits.
pub fn chunk_offsets(stbl: &StblBox) -> (r: Vec<u64>)
    ensures
        r@ == chunk_offsets_of(stbl@),
{
    match &stbl.stco {
        Some(s) => {
            let mut out: Vec<u64> = Vec::new();
            let mut i: usize = 0;
            while i < s.entries.len()
                invariant
                    i <= s.entries@.len(),
                    out@ == Seq::new(i as nat, |j: int| s.entries@[j] as u64),
                decreases s.entries@.len() - i,
            {
                out.push(s.entries[i] as u64);
                i += 1;
                assert(out@ =~= Seq::new(i as nat, |j: int| s.entries@[j] as u64));
            }
            assert(out@ =~= chunk_offsets_of(stbl@));
            out
        },
        None => match &stbl.co64 {
            Some(c) => slice_to_vec(c.entries.as_slice()),
            None => Vec::new(),
        },
    }
}

impl Mp4Track {
    /// The track that a `trak` box describes, with no fragment run yet.
    pub fn from_trak(trak: &TrakBox) -> (r: Mp4Track)
        ensures
            r@ == TrackView::of_trak(trak@),
    {
        let stbl = &trak.mdia.minf.stbl;
        let r = Mp4Track {
            track_id: trak.tkhd.track_id,
            handler_type: trak.mdia.hdlr.handler_type,
            timescale: trak.mdia.mdhd.timescale,
            duration: trak.mdia.mdhd.duration,
            width: (trak.tkhd.width / 0x1_0000) as u16,
            height: (trak.tkhd.height / 0x1_0000) as u16,
            sample_entry: match &stbl.stsd.entry {
                Some(e) => Some(e.name),
                None => None,
            },
            stts: slice_to_vec(stbl.stts.entries.as_slice()),
            ctts: match &stbl.ctts {
                Some(c) => Some(slice_to_vec(c.entries.as_slice())),
                None => None,
            },
            stss: match &stbl.stss {
                Some(c) => Some(slice_to_vec(c.entries.as_slice())),
                None => None,
            },
            stsc: slice_to_vec(stbl.stsc.entries.as_slice()),
            sample_size: stbl.stsz.sample_size,
            sample_count: stbl.stsz.sample_count,
            sample_sizes: slice_to_vec(stbl.stsz.sample_sizes.as_slice()),
            chunk_offsets: chunk_offsets(stbl),
            runs: Vec::new(),
            default_sample_duration: 0,
            default_sample_size: 0,
            default_sample_flags: 0,
        };
        assert(views(r.runs@) =~= Seq::<RunView>::empty());
        assert(r@ =~= TrackView::of_trak(trak@));
        r
    }

    /// Attaches the run of the track fragment `traf`, found in the movie
    /// fragment at `moof_offset`, and sets the defaults of the movie's
    /// fragments.
    pub fn attach(&mut self, traf: &TrafBox, moof_offset: u64, defaults: (u32, u32, u32))
        ensures
            final(self)@ == old(self)@.with_run(
                RunView { moof_offset, tfhd: traf@.tfhd, tfdt: traf@.tfdt, trun: traf@.trun },
                defaults,
            ),
    {
        let run = FragmentRun {
            moof_offset,
            tfhd: traf.tfhd,
            tfdt: traf.tfdt,
            trun: match &traf.trun {
                Some(t) => Some(copy_trun(t)),
                None => None,
            },
        };
        let ghost before = self.runs@;
        self.runs.push(run);
        self.default_sample_duration = defaults.0;
        self.default_sample_size = defaults.1;
        self.default_sample_flags = defaults.2;
        assert(views(self.runs@) =~= views(before).push(run@));
    }
}

/// A track without fragment runs has no sample 0 and no sample after its
/// last: both resolve to "no such sample", not to an error.
pub proof fn lemma_no_sample_outside(track: Mp4Track, number: u32)
    requires
        track.runs@.len() == 0,
        number == 0 || number == track.spec_sample_count() + 1,
    ensures
        track.spec_sample_count() == track.sample_count,
        track.spec_sample_info(number) == Ok::<Option<SampleInfo>, ErrorKind>(None),
{
}

/// Two samples that follow one another in one chunk lie back to back: the
/// second starts where the first ends.
pub proof fn lemma_contiguous_in_chunk(track: Mp4Track, index: int)
    requires
        0 <= index,
        chunk_walk(track.stsc@, 0, 0, index) is Some,
        chunk_walk(track.stsc@, 0, 0, index + 1) == chunk_walk(track.stsc@, 0, 0, index),
        track.spec_table_offset(index + 1) is Some,
    ensures
        track.spec_table_offset(index) is Some,
        track.spec_table_size(index) is Some,
        track.spec_table_offset(index + 1).unwrap() == track.spec_table_offset(index).unwrap()
            + track.spec_table_size(index).unwrap(),
{
    let place = chunk_walk(track.stsc@, 0, 0, index).unwrap();
    lemma_chunk_first(track.stsc@, 0, 0, index);
    assert(track.spec_sizes_sum(place.first, index + 1) is Some);
}

/// The decode times that the time table gives do not go down from one
/// sample to a later one, and none lies before the time at which the walk
/// starts.
pub proof fn lemma_time_walk_monotone(
    es: Seq<SttsEntry>,
    k: int,
    first: int,
    elapsed: int,
    i: int,
    j: int,
)
    requires
        0 <= k,
        first <= i <= j,
        time_walk(es, k, first, elapsed, i) is Some,
        time_walk(es, k, first, elapsed, j) is Some,
    ensures
        elapsed <= time_walk(es, k, first, elapsed, i).unwrap().0 <= time_walk(
            es,
            k,
            first,
            elapsed,
            j,
        ).unwrap().0,
    decreases es.len() - k,
{
    let count = es[k].sample_count as int;
    let delta = es[k].sample_delta as int;
    assert(0 <= (i - first) * delta <= (j - first) * delta) by (nonlinear_arith)
        requires
            0 <= i - first <= j - first,
            0 <= delta,
    ;
    if i < first + count {
        if j < first + count {
        } else {
            assert((i - first) * delta <= count * delta) by (nonlinear_arith)
                requires
                    i - first <= count,
                    0 <= delta,
            ;
            lemma_time_walk_monotone(es, k + 1, first + count, elapsed + count * delta, j, j);
        }
    } else {
        assert(0 <= count * delta) by (nonlinear_arith)
            requires
                0 <= count,
                0 <= delta,
        ;
        lemma_time_walk_monotone(es, k + 1, first + count, elapsed + count * delta, i, j);
    }
}

/// Among the samples of a track's sample tables, a later sample does not
/// decode before an earlier one; and where the track has no sync table,
/// every sample that resolves is a sync sample.
pub proof fn lemma_table_samples_in_order(track: Mp4Track, a: u32, b: u32)
    requires
        1 <= a <= b,
        track.spec_table_info(a) is Ok,
        track.spec_table_info(b) is Ok,
    ensures
        track.spec_table_info(a).unwrap().start_time <= track.spec_table_info(
            b,
        ).unwrap().start_time,
        track.stss is None ==> track.spec_table_info(a).unwrap().is_sync,
{
    lemma_time_walk_monotone(track.stts@, 0, 0, 0, a - 1, b - 1);
    lemma_time_fits(track.stts@, 0, 0, 0, a - 1);
    lemma_time_fits(track.stts@, 0, 0, 0, b - 1);
}

/// The decode time of a sample of a 32-bit index fits 64 bits.
pub proof fn lemma_time_fits(es: Seq<SttsEntry>, k: int, first: int, elapsed: int, index: int)
    requires
        0 <= k,
        0 <= first <= index <= u32::MAX,
        0 <= elapsed <= first * 0xFFFF_FFFF,
        time_walk(es, k, first, elapsed, index) is Some,
    ensures
        0 <= time_walk(es, k, first, elapsed, index).unwrap().0 <= u64::MAX,
    decreases es.len() - k,
{
    let count = es[k].sample_count as int;
    let delta = es[k].sample_delta as int;
    if index < first + count {
        assert(0 <= (index - first) * delta && first * 0xFFFF_FFFF + (index - first) * delta
            <= 0xFFFF_FFFF * 0xFFFF_FFFF) by (nonlinear_arith)
            requires
                0 <= first <= index <= 0xFFFF_FFFF,
                0 <= delta <= 0xFFFF_FFFF,
        ;
    } else {
        assert(0 <= count * delta && first * 0xFFFF_FFFF + count * delta <= (first + count)
            * 0xFFFF_FFFF) by (nonlinear_arith)
            requires
                0 <= first,
                0 <= count,
                0 <= delta <= 0xFFFF_FFFF,
        ;
        lemma_time_fits(es, k + 1, first + count, elapsed + count * delta, index);
    }
}

} // verus!

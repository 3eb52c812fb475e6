//! The track fragment run box.

use crate::codec::{
    be_i32, be_u32, get_i32, get_u32, i32_be, lemma_be_u32_window, lemma_i32_round_trip,
    lemma_u32_round_trip, put_i32, put_u32, saturate, u32_be,
};
use crate::error::{Error, ErrorKind};
use crate::mp4box::header::{
    decoded, ext_bytes, full_header_bytes, lemma_assoc, lemma_full_header, payload, payload_of,
    read_full_header, spec_full_header, write_box_header_ext, BoxHeader,
};
use crate::mp4box::tfhd::{flag_set, opt_u32_be, put_opt_u32, spec_flag_set};
use crate::mp4box::BoxType;
use vstd::prelude::*;

verus! {

pub const FLAG_DATA_OFFSET: u32 = 0x01;

pub const FLAG_FIRST_SAMPLE_FLAGS: u32 = 0x04;

pub const FLAG_SAMPLE_DURATION: u32 = 0x100;

pub const FLAG_SAMPLE_SIZE: u32 = 0x200;

pub const FLAG_SAMPLE_FLAGS: u32 = 0x400;

pub const FLAG_SAMPLE_CTS: u32 = 0x800;

/// Four where `flags` has a bit of `mask` set, else zero: the width of a
/// field that the bit announces.
pub open spec fn spec_field_len(flags: u32, mask: u32) -> int {
    if spec_flag_set(flags, mask) {
        4
    } else {
        0
    }
}

/// Four where `flags` has a bit of `mask` set, else zero.
pub fn field_len(flags: u32, mask: u32) -> (r: usize)
    ensures
        r == spec_field_len(flags, mask),
{
    if flag_set(flags, mask) {
        4
    } else {
        0
    }
}

/// The bytes of an optional signed 32-bit field: none where it is absent.
pub open spec fn opt_i32_be(v: Option<i32>) -> Seq<u8> {
    match v {
        Some(x) => i32_be(x),
        None => Seq::empty(),
    }
}

/// A run of samples of a track fragment. The flags say which optional
/// fields are present, and which of the four per-sample columns.
#[derive(Debug, Clone, PartialEq, Eq, Default)]
pub struct TrunBox {
    pub version: u8,
    pub flags: u32,
    pub sample_count: u32,
    pub data_offset: Option<i32>,
    pub first_sample_flags: Option<u32>,
    pub sample_durations: Vec<u32>,
    pub sample_sizes: Vec<u32>,
    pub sample_flags: Vec<u32>,
    pub sample_cts: Vec<u32>,
}

/// What a [`TrunBox`] holds.
pub struct TrunView {
    pub version: u8,
    pub flags: u32,
    pub sample_count: u32,
    pub data_offset: Option<i32>,
    pub first_sample_flags: Option<u32>,
    pub sample_durations: Seq<u32>,
    pub sample_sizes: Seq<u32>,
    pub sample_flags: Seq<u32>,
    pub sample_cts: Seq<u32>,
}

impl View for TrunBox {
    type V = TrunView;

    open spec fn view(&self) -> TrunView {
        TrunView {
            version: self.version,
            flags: self.flags,
            sample_count: self.sample_count,
            data_offset: self.data_offset,
            first_sample_flags: self.first_sample_flags,
            sample_durations: self.sample_durations@,
            sample_sizes: self.sample_sizes@,
            sample_flags: self.sample_flags@,
            sample_cts: self.sample_cts@,
        }
    }
}

impl TrunView {
    /// The length of the payload before the first sample record.
    pub open spec fn head_len(flags: u32) -> int {
        8 + spec_field_len(flags, FLAG_DATA_OFFSET) + spec_field_len(flags, FLAG_FIRST_SAMPLE_FLAGS)
    }

    /// The width of one sample record.
    pub open spec fn width(flags: u32) -> int {
        spec_field_len(flags, FLAG_SAMPLE_DURATION) + spec_field_len(flags, FLAG_SAMPLE_SIZE)
            + spec_field_len(flags, FLAG_SAMPLE_FLAGS) + spec_field_len(flags, FLAG_SAMPLE_CTS)
    }

    /// The column that `mask` announces, read from the sample records of
    /// `p` at `off` bytes into each: empty where the flag is not set.
    pub open spec fn column(p: Seq<u8>, flags: u32, count: nat, mask: u32, off: int) -> Seq<u32> {
        if spec_flag_set(flags, mask) {
            Seq::new(
                count,
                |i: int| be_u32(p, TrunView::head_len(flags) + TrunView::width(flags) * i + off),
            )
        } else {
            Seq::empty()
        }
    }

    /// The box that the payload `p` holds. The sample count is checked
    /// against the rest of the payload before any record is read.
    pub open spec fn read(p: Seq<u8>) -> Result<TrunView, ErrorKind> {
        match spec_full_header(p, BoxType::TrunBox, 1) {
            Err(e) => Err(e),
            Ok(vf) => {
                let flags = vf.1;
                let count = be_u32(p, 4) as nat;
                let d = spec_field_len(flags, FLAG_SAMPLE_DURATION);
                let s = spec_field_len(flags, FLAG_SAMPLE_SIZE);
                let f = spec_field_len(flags, FLAG_SAMPLE_FLAGS);
                if p.len() < TrunView::head_len(flags) {
                    Err(ErrorKind::IoError)
                } else if count * TrunView::width(flags) > p.len() - TrunView::head_len(flags) {
                    Err(ErrorKind::InvalidData)
                } else {
                    Ok(
                        TrunView {
                            version: vf.0,
                            flags,
                            sample_count: be_u32(p, 4),
                            data_offset: if spec_flag_set(flags, FLAG_DATA_OFFSET) {
                                Some(be_i32(p, 8))
                            } else {
                                None
                            },
                            first_sample_flags: if spec_flag_set(flags, FLAG_FIRST_SAMPLE_FLAGS) {
                                Some(be_u32(p, 8 + spec_field_len(flags, FLAG_DATA_OFFSET)))
                            } else {
                                None
                            },
                            sample_durations: TrunView::column(
                                p,
                                flags,
                                count,
                                FLAG_SAMPLE_DURATION,
                                0,
                            ),
                            sample_sizes: TrunView::column(p, flags, count, FLAG_SAMPLE_SIZE, d),
                            sample_flags: TrunView::column(
                                p,
                                flags,
                                count,
                                FLAG_SAMPLE_FLAGS,
                                d + s,
                            ),
                            sample_cts: TrunView::column(
                                p,
                                flags,
                                count,
                                FLAG_SAMPLE_CTS,
                                d + s + f,
                            ),
                        },
                    )
                }
            },
        }
    }

    /// The number of bytes that the box is written as.
    pub open spec fn size(self) -> nat {
        (8 + TrunView::head_len(self.flags) + TrunView::width(self.flags)
            * self.sample_count) as nat
    }

    /// The box can be written: version 0 or 1, flags of 24 bits that
    /// announce exactly the optional fields that are present, one value
    /// per sample in each column they announce, and a size of 32 bits.
    pub open spec fn well_formed(self) -> bool {
        &&& self.version <= 1
        &&& self.flags < 0x100_0000
        &&& spec_flag_set(self.flags, FLAG_DATA_OFFSET) == self.data_offset.is_some()
        &&& spec_flag_set(self.flags, FLAG_FIRST_SAMPLE_FLAGS) == self.first_sample_flags.is_some()
        &&& spec_flag_set(self.flags, FLAG_SAMPLE_DURATION) ==> self.sample_durations.len()
            == self.sample_count
        &&& spec_flag_set(self.flags, FLAG_SAMPLE_SIZE) ==> self.sample_sizes.len()
            == self.sample_count
        &&& spec_flag_set(self.flags, FLAG_SAMPLE_FLAGS) ==> self.sample_flags.len()
            == self.sample_count
        &&& spec_flag_set(self.flags, FLAG_SAMPLE_CTS) ==> self.sample_cts.len()
            == self.sample_count
        &&& self.size() <= u32::MAX
    }

    /// The bytes of sample `i` in the column that `mask` announces: none
    /// where the flag is not set.
    pub open spec fn cell(flags: u32, mask: u32, col: Seq<u32>, i: int) -> Seq<u8> {
        if spec_flag_set(flags, mask) {
            u32_be(col[i])
        } else {
            Seq::empty()
        }
    }

    /// The record of sample `i`: its duration, size, flags and composition
    /// offset, as far as the flags announce them.
    pub open spec fn record(self, i: int) -> Seq<u8> {
        TrunView::cell(self.flags, FLAG_SAMPLE_DURATION, self.sample_durations, i) + TrunView::cell(
            self.flags,
            FLAG_SAMPLE_SIZE,
            self.sample_sizes,
            i,
        ) + TrunView::cell(self.flags, FLAG_SAMPLE_FLAGS, self.sample_flags, i) + TrunView::cell(
            self.flags,
            FLAG_SAMPLE_CTS,
            self.sample_cts,
            i,
        )
    }

    /// The records of the first `n` samples.
    pub open spec fn records(self, n: nat) -> Seq<u8>
        decreases n,
    {
        if n == 0 {
            Seq::empty()
        } else {
            self.records((n - 1) as nat) + self.record(n - 1)
        }
    }

    /// The box as it is written, header included.
    pub open spec fn bytes(self) -> Seq<u8> {
        full_header_bytes(BoxType::TrunBox, self.size() as u64, self.version, self.flags) + u32_be(
            self.sample_count,
        ) + opt_i32_be(self.data_offset) + opt_u32_be(self.first_sample_flags) + self.records(
            self.sample_count as nat,
        )
    }

    /// The first `n` records take `n` times the record width.
    pub proof fn lemma_records_len(self, n: nat)
        ensures
            self.records(n).len() == TrunView::width(self.flags) * n,
        decreases n,
    {
        let w = TrunView::width(self.flags);
        if n > 0 {
            self.lemma_records_len((n - 1) as nat);
            assert(w * n == w * (n - 1) + w) by (nonlinear_arith);
        } else {
            assert(w * 0 == 0) by (nonlinear_arith);
        }
    }

    /// The columns that the flags do not announce are empty.
    pub open spec fn shape_exact(self) -> bool {
        &&& !spec_flag_set(self.flags, FLAG_SAMPLE_DURATION) ==> self.sample_durations.len() == 0
        &&& !spec_flag_set(self.flags, FLAG_SAMPLE_SIZE) ==> self.sample_sizes.len() == 0
        &&& !spec_flag_set(self.flags, FLAG_SAMPLE_FLAGS) ==> self.sample_flags.len() == 0
        &&& !spec_flag_set(self.flags, FLAG_SAMPLE_CTS) ==> self.sample_cts.len() == 0
    }

    /// Record `i` stands in the records of the first `n` samples at `i`
    /// times the record width.
    pub proof fn lemma_record_at(self, n: nat, i: int)
        requires
            0 <= i < n,
        ensures
            TrunView::width(self.flags) * i + TrunView::width(self.flags) <= self.records(
                n,
            ).len(),
            0 <= TrunView::width(self.flags) * i,
            self.records(n).subrange(
                TrunView::width(self.flags) * i,
                TrunView::width(self.flags) * i + TrunView::width(self.flags),
            ) == self.record(i),
        decreases n,
    {
        let w = TrunView::width(self.flags);
        let before = self.records((n - 1) as nat);
        self.lemma_records_len(n);
        self.lemma_records_len((n - 1) as nat);
        assert(w * i >= 0 && w * i + w <= w * n && w * n == w * (n - 1) + w) by (nonlinear_arith)
            requires
                0 <= i < n,
                w >= 0,
        ;
        if i == n - 1 {
            assert(self.records(n).subrange(w * i, w * i + w) =~= self.record(i));
        } else {
            self.lemma_record_at((n - 1) as nat, i);
            assert(w * i + w <= w * (n - 1)) by (nonlinear_arith)
                requires
                    0 <= i < n - 1,
                    w >= 0,
            ;
            assert(self.records(n).subrange(w * i, w * i + w) =~= before.subrange(
                w * i,
                w * i + w,
            ));
        }
    }

    /// In the written box, the value of sample `i` in an announced column
    /// reads back from its place in the payload `p`, of which `pre` is
    /// what stands before the records.
    pub proof fn lemma_cell_at(self, p: Seq<u8>, pre: Seq<u8>, i: int, which: int)
        requires
            self.well_formed(),
            0 <= i < self.sample_count,
            0 <= which < 4,
            p == pre + self.records(self.sample_count as nat),
            which == 0 ==> spec_flag_set(self.flags, FLAG_SAMPLE_DURATION),
            which == 1 ==> spec_flag_set(self.flags, FLAG_SAMPLE_SIZE),
            which == 2 ==> spec_flag_set(self.flags, FLAG_SAMPLE_FLAGS),
            which == 3 ==> spec_flag_set(self.flags, FLAG_SAMPLE_CTS),
        ensures
            be_u32(
                p,
                pre.len() + TrunView::width(self.flags) * i + (if which == 0 {
                    0
                } else if which == 1 {
                    spec_field_len(self.flags, FLAG_SAMPLE_DURATION)
                } else if which == 2 {
                    spec_field_len(self.flags, FLAG_SAMPLE_DURATION) + spec_field_len(
                        self.flags,
                        FLAG_SAMPLE_SIZE,
                    )
                } else {
                    spec_field_len(self.flags, FLAG_SAMPLE_DURATION) + spec_field_len(
                        self.flags,
                        FLAG_SAMPLE_SIZE,
                    ) + spec_field_len(self.flags, FLAG_SAMPLE_FLAGS)
                }),
            ) == (if which == 0 {
                self.sample_durations[i]
            } else if which == 1 {
                self.sample_sizes[i]
            } else if which == 2 {
                self.sample_flags[i]
            } else {
                self.sample_cts[i]
            }),
    {
        let w = TrunView::width(self.flags);
        let n = self.sample_count as nat;
        let r = self.record(i);
        let c0 = TrunView::cell(self.flags, FLAG_SAMPLE_DURATION, self.sample_durations, i);
        let c1 = TrunView::cell(self.flags, FLAG_SAMPLE_SIZE, self.sample_sizes, i);
        let c2 = TrunView::cell(self.flags, FLAG_SAMPLE_FLAGS, self.sample_flags, i);
        let c3 = TrunView::cell(self.flags, FLAG_SAMPLE_CTS, self.sample_cts, i);
        self.lemma_record_at(n, i);
        let at = pre.len() + w * i;
        assert(p.subrange(at, at + w) =~= self.records(n).subrange(w * i, w * i + w));
        assert(r.len() == w);
        let e = Seq::<u8>::empty();
        if which == 0 {
            lemma_u32_round_trip(self.sample_durations[i], e, c1 + c2 + c3);
            assert(r =~= e + c0 + (c1 + c2 + c3));
            lemma_be_u32_window(p, at, r, 0);
        } else if which == 1 {
            lemma_u32_round_trip(self.sample_sizes[i], c0, c2 + c3);
            assert(r =~= c0 + c1 + (c2 + c3));
            lemma_be_u32_window(p, at, r, c0.len() as int);
        } else if which == 2 {
            lemma_u32_round_trip(self.sample_flags[i], c0 + c1, c3);
            assert(r =~= (c0 + c1) + c2 + c3);
            lemma_be_u32_window(p, at, r, (c0 + c1).len() as int);
        } else {
            lemma_u32_round_trip(self.sample_cts[i], c0 + c1 + c2, e);
            assert(r =~= (c0 + c1 + c2) + c3 + e);
            lemma_be_u32_window(p, at, r, (c0 + c1 + c2).len() as int);
        }
    }

    /// Decoding what a well-formed box is written as gives the box back,
    /// where the columns that its flags do not announce are empty.
    #[verifier::rlimit(50)]
    pub proof fn lemma_round_trip(self)
        requires
            self.well_formed(),
            self.shape_exact(),
        ensures
            self.bytes().len() == self.size(),
            BoxHeader::spec_read(self.bytes(), 0) == Ok::<BoxHeader, ErrorKind>(
                BoxHeader { name: BoxType::TrunBox, size: self.size() as u64, header_len: 8 },
            ),
            TrunView::read(self.bytes().skip(8)) == Ok::<TrunView, ErrorKind>(self),
    {
        let size = self.size() as u64;
        let count = self.sample_count as nat;
        let w = TrunView::width(self.flags);
        let h = full_header_bytes(BoxType::TrunBox, size, self.version, self.flags);
        let e = ext_bytes(self.version, self.flags);
        let n = u32_be(self.sample_count);
        let o1 = opt_i32_be(self.data_offset);
        let o2 = opt_u32_be(self.first_sample_flags);
        let recs = self.records(count);
        self.lemma_records_len(count);
        assert(w * count >= 0) by (nonlinear_arith)
            requires
                w >= 0,
                count >= 0,
        ;
        lemma_assoc(h, n, o1);
        lemma_assoc(h, n + o1, o2);
        lemma_assoc(h, (n + o1) + o2, recs);
        let rest = ((n + o1) + o2) + recs;
        assert(self.bytes() == h + rest);
        lemma_full_header(BoxType::TrunBox, size, self.version, self.flags, 1, rest);
        let p = self.bytes().skip(8);
        assert(p == e + rest);
        let pre = ((e + n) + o1) + o2;
        assert(p =~= pre + recs);
        lemma_u32_round_trip(self.sample_count, e, (o1 + o2) + recs);
        assert(p =~= e + n + ((o1 + o2) + recs));
        if let Some(v) = self.data_offset {
            lemma_i32_round_trip(v, e + n, o2 + recs);
            assert(p =~= (e + n) + o1 + (o2 + recs));
        }
        if let Some(v) = self.first_sample_flags {
            lemma_u32_round_trip(v, (e + n) + o1, recs);
        }
        assert(pre.len() == TrunView::head_len(self.flags));
        assert(count * w == w * count) by (nonlinear_arith);
        assert(p.len() == pre.len() + recs.len());
        assert(be_u32(p, 4) == self.sample_count);
        assert(TrunView::read(p) is Ok);
        let got = TrunView::read(p).unwrap();
        assert(got.sample_count == self.sample_count);
        assert forall|i: int| 0 <= i < count && spec_flag_set(
            self.flags,
            FLAG_SAMPLE_DURATION,
        ) implies got.sample_durations[i] == self.sample_durations[i] by {
            self.lemma_cell_at(p, pre, i, 0);
        }
        assert forall|i: int| 0 <= i < count && spec_flag_set(
            self.flags,
            FLAG_SAMPLE_SIZE,
        ) implies got.sample_sizes[i] == self.sample_sizes[i] by {
            self.lemma_cell_at(p, pre, i, 1);
        }
        assert forall|i: int| 0 <= i < count && spec_flag_set(
            self.flags,
            FLAG_SAMPLE_FLAGS,
        ) implies got.sample_flags[i] == self.sample_flags[i] by {
            self.lemma_cell_at(p, pre, i, 2);
        }
        assert forall|i: int| 0 <= i < count && spec_flag_set(
            self.flags,
            FLAG_SAMPLE_CTS,
        ) implies got.sample_cts[i] == self.sample_cts[i] by {
            self.lemma_cell_at(p, pre, i, 3);
        }
        assert(got.sample_durations =~= self.sample_durations);
        assert(got.sample_sizes =~= self.sample_sizes);
        assert(got.sample_flags =~= self.sample_flags);
        assert(got.sample_cts =~= self.sample_cts);
    }
}

/// Appends the value of sample `i` in a column, where the flags announce
/// the column.
fn put_cell(out: &mut Vec<u8>, flags: u32, mask: u32, col: &Vec<u32>, i: usize)
    requires
        spec_flag_set(flags, mask) ==> i < col@.len(),
    ensures
        final(out)@ == old(out)@ + TrunView::cell(flags, mask, col@, i as int),
{
    if flag_set(flags, mask) {
        put_u32(out, col[i]);
    }
    assert(out@ =~= old(out)@ + TrunView::cell(flags, mask, col@, i as int));
}

impl TrunBox {
    pub fn get_type(&self) -> (r: BoxType)
        ensures
            r == BoxType::TrunBox,
    {
        BoxType::TrunBox
    }

    /// The size of the box as written.
    pub fn get_size(&self) -> (r: u64)
        ensures
            r == self@.size(),
            r == saturate(self@.size() as int),
    {
        let head: u64 = (16 + field_len(self.flags, FLAG_DATA_OFFSET) + field_len(
            self.flags,
            FLAG_FIRST_SAMPLE_FLAGS,
        )) as u64;
        let width: u64 = (field_len(self.flags, FLAG_SAMPLE_DURATION) + field_len(
            self.flags,
            FLAG_SAMPLE_SIZE,
        ) + field_len(self.flags, FLAG_SAMPLE_FLAGS) + field_len(
            self.flags,
            FLAG_SAMPLE_CTS,
        )) as u64;
        assert(0 <= width * self.sample_count <= 16 * 0xFFFF_FFFF) by (nonlinear_arith)
            requires
                0 <= width <= 16,
                0 <= self.sample_count <= 0xFFFF_FFFF,
        ;
        head + width * (self.sample_count as u64)
    }

    /// Decodes the box of declared size `size` whose payload starts `src`.
    #[verifier::rlimit(50)]
    pub fn read_box(src: &[u8], size: u64) -> (r: Result<TrunBox, Error>)
        ensures
            decoded(r) == TrunView::read(payload(src@, size)),
    {
        let p = payload_of(src, size);
        let (version, flags) = match read_full_header(p, BoxType::TrunBox, 1) {
            Ok(vf) => vf,
            Err(e) => {
                return Err(e);
            },
        };
        let a: usize = field_len(flags, FLAG_DATA_OFFSET);
        let head: usize = 8 + a + field_len(flags, FLAG_FIRST_SAMPLE_FLAGS);
        let d: usize = field_len(flags, FLAG_SAMPLE_DURATION);
        let s: usize = field_len(flags, FLAG_SAMPLE_SIZE);
        let f: usize = field_len(flags, FLAG_SAMPLE_FLAGS);
        let width: usize = d + s + f + field_len(flags, FLAG_SAMPLE_CTS);
        if p.len() < head {
            return Err(Error::IoError);
        }
        let sample_count: u32 = get_u32(p, 4);
        assert(0 <= sample_count * width <= 16 * 0xFFFF_FFFF) by (nonlinear_arith)
            requires
                0 <= width <= 16,
                0 <= sample_count <= 0xFFFF_FFFF,
        ;
        if (sample_count as u64) * (width as u64) > (p.len() - head) as u64 {
            return Err(
                Error::InvalidData(
                    "trun sample_count indicates more values than could fit in the box",
                ),
            );
        }
        let data_offset = if flag_set(flags, FLAG_DATA_OFFSET) {
            Some(get_i32(p, 8))
        } else {
            None
        };
        let first_sample_flags = if flag_set(flags, FLAG_FIRST_SAMPLE_FLAGS) {
            Some(get_u32(p, 8 + a))
        } else {
            None
        };
        let count: usize = sample_count as usize;
        let mut sample_durations: Vec<u32> = Vec::new();
        let mut sample_sizes: Vec<u32> = Vec::new();
        let mut sample_flags: Vec<u32> = Vec::new();
        let mut sample_cts: Vec<u32> = Vec::new();
        let mut i: usize = 0;
        while i < count
            invariant
                i <= count,
                head == TrunView::head_len(flags),
                width == TrunView::width(flags),
                d == spec_field_len(flags, FLAG_SAMPLE_DURATION),
                s == spec_field_len(flags, FLAG_SAMPLE_SIZE),
                f == spec_field_len(flags, FLAG_SAMPLE_FLAGS),
                count * width <= p.len() - head,
                sample_durations@ == TrunView::column(
                    p@,
                    flags,
                    i as nat,
                    FLAG_SAMPLE_DURATION,
                    0,
                ),
                sample_sizes@ == TrunView::column(p@, flags, i as nat, FLAG_SAMPLE_SIZE, d as int),
                sample_flags@ == TrunView::column(
                    p@,
                    flags,
                    i as nat,
                    FLAG_SAMPLE_FLAGS,
                    d + s,
                ),
                sample_cts@ == TrunView::column(p@, flags, i as nat, FLAG_SAMPLE_CTS, d + s + f),
            decreases count - i,
        {
            assert(width * i + width <= count * width && width * i >= 0) by (nonlinear_arith)
                requires
                    i < count,
                    width >= 0,
            ;
            let at: usize = head + width * i;
            if flag_set(flags, FLAG_SAMPLE_DURATION) {
                sample_durations.push(get_u32(p, at));
            }
            if flag_set(flags, FLAG_SAMPLE_SIZE) {
                sample_sizes.push(get_u32(p, at + d));
            }
            if flag_set(flags, FLAG_SAMPLE_FLAGS) {
                sample_flags.push(get_u32(p, at + d + s));
            }
            if flag_set(flags, FLAG_SAMPLE_CTS) {
                sample_cts.push(get_u32(p, at + d + s + f));
            }
            i += 1;
            assert(sample_durations@ =~= TrunView::column(
                p@,
                flags,
                i as nat,
                FLAG_SAMPLE_DURATION,
                0,
            ));
            assert(sample_sizes@ =~= TrunView::column(
                p@,
                flags,
                i as nat,
                FLAG_SAMPLE_SIZE,
                d as int,
            ));
            assert(sample_flags@ =~= TrunView::column(
                p@,
                flags,
                i as nat,
                FLAG_SAMPLE_FLAGS,
                d + s,
            ));
            assert(sample_cts@ =~= TrunView::column(
                p@,
                flags,
                i as nat,
                FLAG_SAMPLE_CTS,
                d + s + f,
            ));
        }
        Ok(
            TrunBox {
                version,
                flags,
                sample_count,
                data_offset,
                first_sample_flags,
                sample_durations,
                sample_sizes,
                sample_flags,
                sample_cts,
            },
        )
    }

    /// Whether the optional fields and the columns agree with the flags
    /// and the sample count.
    fn shape_ok(&self) -> (r: bool)
        ensures
            r == ({
                &&& spec_flag_set(self.flags, FLAG_DATA_OFFSET) == self.data_offset.is_some()
                &&& spec_flag_set(self.flags, FLAG_FIRST_SAMPLE_FLAGS)
                    == self.first_sample_flags.is_some()
                &&& spec_flag_set(self.flags, FLAG_SAMPLE_DURATION) ==> self.sample_durations@.len()
                    == self.sample_count
                &&& spec_flag_set(self.flags, FLAG_SAMPLE_SIZE) ==> self.sample_sizes@.len()
                    == self.sample_count
                &&& spec_flag_set(self.flags, FLAG_SAMPLE_FLAGS) ==> self.sample_flags@.len()
                    == self.sample_count
                &&& spec_flag_set(self.flags, FLAG_SAMPLE_CTS) ==> self.sample_cts@.len()
                    == self.sample_count
            }),
    {
        let n: usize = self.sample_count as usize;
        flag_set(self.flags, FLAG_DATA_OFFSET) == self.data_offset.is_some() && flag_set(
            self.flags,
            FLAG_FIRST_SAMPLE_FLAGS,
        ) == self.first_sample_flags.is_some() && (!flag_set(self.flags, FLAG_SAMPLE_DURATION)
            || self.sample_durations.len() == n) && (!flag_set(self.flags, FLAG_SAMPLE_SIZE)
            || self.sample_sizes.len() == n) && (!flag_set(self.flags, FLAG_SAMPLE_FLAGS)
            || self.sample_flags.len() == n) && (!flag_set(self.flags, FLAG_SAMPLE_CTS)
            || self.sample_cts.len() == n)
    }

    /// Appends the box to `out` and returns the number of bytes written;
    /// a box that is not well formed is refused and `out` left as it was.
    #[verifier::rlimit(50)]
    pub fn write_box(&self, out: &mut Vec<u8>) -> (r: Result<u64, Error>)
        ensures
            r is Ok <==> self@.well_formed(),
            r is Ok ==> r.unwrap() == self@.size() && final(out)@ == old(out)@ + self@.bytes()
                && self@.bytes().len() == self@.size(),
            r is Err ==> r.unwrap_err().spec_kind() == ErrorKind::InvalidData && final(out)@
                == old(out)@,
    {
        let size: u64 = self.get_size();
        if self.version > 1 || self.flags >= 0x100_0000 || size > 0xFFFF_FFFF {
            return Err(Error::InvalidData("trun box cannot be written"));
        }
        if !self.shape_ok() {
            return Err(Error::InvalidData("sample count out of sync"));
        }
        BoxHeader::new(self.get_type(), size).write(out);
        write_box_header_ext(out, self.version, self.flags);
        put_u32(out, self.sample_count);
        let ghost s0 = out@;
        assert(s0 =~= old(out)@ + (full_header_bytes(
            BoxType::TrunBox,
            size,
            self.version,
            self.flags,
        ) + u32_be(self.sample_count)));
        if let Some(v) = self.data_offset {
            put_i32(out, v);
        }
        let ghost s1 = out@;
        assert(s1 =~= s0 + opt_i32_be(self.data_offset));
        put_opt_u32(out, self.first_sample_flags);
        let ghost head = out@;
        let n: usize = self.sample_count as usize;
        let mut i: usize = 0;
        while i < n
            invariant
                i <= n,
                n == self.sample_count,
                self@.well_formed(),
                out@ == head + self@.records(i as nat),
            decreases n - i,
        {
            let ghost before = out@;
            put_cell(out, self.flags, FLAG_SAMPLE_DURATION, &self.sample_durations, i);
            put_cell(out, self.flags, FLAG_SAMPLE_SIZE, &self.sample_sizes, i);
            put_cell(out, self.flags, FLAG_SAMPLE_FLAGS, &self.sample_flags, i);
            put_cell(out, self.flags, FLAG_SAMPLE_CTS, &self.sample_cts, i);
            assert(out@ =~= before + self@.record(i as int));
            i += 1;
            assert(out@ =~= head + self@.records(i as nat));
        }
        proof {
            assert(out@ =~= old(out)@ + self@.bytes());
            self@.lemma_records_len(n as nat);
            assert(TrunView::width(self.flags) * n >= 0) by (nonlinear_arith)
                requires
                    TrunView::width(self.flags) >= 0,
                    n >= 0,
            ;
        }
        Ok(size)
    }
}

} // verus!

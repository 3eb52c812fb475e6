use mp4::mp4box::co64::Co64Box;
use mp4::mp4box::ctts::{CttsBox, CttsEntry};
use mp4::mp4box::ftyp::FtypBox;
use mp4::mp4box::hdlr::HdlrBox;
use mp4::mp4box::header::BoxHeader;
use mp4::mp4box::mdhd::MdhdBox;
use mp4::mp4box::mdia::MdiaBox;
use mp4::mp4box::mfhd::MfhdBox;
use mp4::mp4box::minf::MinfBox;
use mp4::mp4box::moof::MoofBox;
use mp4::mp4box::moov::MoovBox;
use mp4::mp4box::mvex::MvexBox;
use mp4::mp4box::mvhd::MvhdBox;
use mp4::mp4box::stbl::StblBox;
use mp4::mp4box::stco::StcoBox;
use mp4::mp4box::stsc::{StscBox, StscEntry};
use mp4::mp4box::stsd::{SampleEntry, StsdBox};
use mp4::mp4box::stss::StssBox;
use mp4::mp4box::stsz::StszBox;
use mp4::mp4box::stts::{SttsBox, SttsEntry};
use mp4::mp4box::tfdt::TfdtBox;
use mp4::mp4box::tfhd::TfhdBox;
use mp4::mp4box::tkhd::TkhdBox;
use mp4::mp4box::traf::TrafBox;
use mp4::mp4box::trak::TrakBox;
use mp4::mp4box::trex::TrexBox;
use mp4::mp4box::trun::TrunBox;
use mp4::{BoxType, ErrorKind, FourCC, MediaType, Mp4Reader, Mp4Sample, TrackType};

fn ftyp(brands: &[&str]) -> FtypBox {
    FtypBox {
        major_brand: FourCC::parse("isom").unwrap(),
        minor_version: 512,
        compatible_brands: brands.iter().map(|b| FourCC::parse(b).unwrap()).collect(),
    }
}

fn trak(
    id: u32,
    handler: &str,
    entry: BoxType,
    width: u32,
    height: u32,
    stts: Vec<SttsEntry>,
    sizes: Vec<u32>,
    chunk_offset: u32,
) -> TrakBox {
    TrakBox {
        tkhd: TkhdBox {
            flags: 3,
            track_id: id,
            width: width << 16,
            height: height << 16,
            ..TkhdBox::default()
        },
        edts: None,
        mdia: MdiaBox {
            mdhd: MdhdBox {
                timescale: 12800,
                duration: 512,
                ..MdhdBox::default()
            },
            hdlr: HdlrBox {
                version: 0,
                flags: 0,
                handler_type: FourCC::parse(handler).unwrap(),
                name: String::from("Handler"),
            },
            minf: MinfBox {
                vmhd: None,
                smhd: None,
                stbl: StblBox {
                    stsd: StsdBox {
                        version: 0,
                        flags: 0,
                        entry: Some(SampleEntry {
                            name: entry,
                            data: vec![0; 16],
                        }),
                    },
                    stts: SttsBox {
                        version: 0,
                        flags: 0,
                        entries: stts,
                    },
                    ctts: None,
                    stss: None,
                    stsc: StscBox {
                        version: 0,
                        flags: 0,
                        entries: if sizes.is_empty() {
                            vec![]
                        } else {
                            vec![StscEntry {
                                first_chunk: 1,
                                samples_per_chunk: sizes.len() as u32,
                                sample_description_index: 1,
                            }]
                        },
                    },
                    stsz: StszBox {
                        version: 0,
                        flags: 0,
                        sample_size: 0,
                        sample_count: sizes.len() as u32,
                        sample_sizes: sizes.clone(),
                    },
                    stco: Some(StcoBox {
                        version: 0,
                        flags: 0,
                        entries: if sizes.is_empty() {
                            vec![]
                        } else {
                            vec![chunk_offset]
                        },
                    }),
                    co64: None,
                },
            },
        },
    }
}

fn free_box(total: usize) -> Vec<u8> {
    let mut out = Vec::new();
    BoxHeader::new(BoxType::FreeBox, total as u64).write(&mut out);
    out.resize(total, 0);
    out
}

fn mdat_box(payload: usize) -> Vec<u8> {
    let mut out = Vec::new();
    BoxHeader::new(BoxType::MdatBox, payload as u64 + 8).write(&mut out);
    out.resize(payload + 8, 0);
    out
}

/// A progressive file of two tracks and 2591 bytes.
fn minimal_file() -> Vec<u8> {
    let mut file = Vec::new();
    ftyp(&["isom", "iso2", "avc1", "mp41"])
        .write_box(&mut file)
        .unwrap();
    assert_eq!(file.len(), 32);
    let mdat_start = file.len() as u32 + 8;
    file.extend_from_slice(&mdat_box(751 + 179 + 180 + 160));
    let moov = MoovBox {
        mvhd: MvhdBox {
            timescale: 1000,
            duration: 62,
            rate: 0x0001_0000,
            next_track_id: 3,
            ..MvhdBox::default()
        },
        traks: vec![
            trak(
                1,
                "vide",
                BoxType::Avc1Box,
                320,
                240,
                vec![SttsEntry {
                    sample_count: 1,
                    sample_delta: 512,
                }],
                vec![751],
                mdat_start,
            ),
            trak(
                2,
                "soun",
                BoxType::Mp4aBox,
                0,
                0,
                vec![
                    SttsEntry {
                        sample_count: 2,
                        sample_delta: 1024,
                    },
                    SttsEntry {
                        sample_count: 1,
                        sample_delta: 896,
                    },
                ],
                vec![179, 180, 160],
                mdat_start + 751,
            ),
        ],
        mvex: None,
        udta: None,
    };
    moov.write_box(&mut file).unwrap();
    let rest = 2591 - file.len();
    file.extend_from_slice(&free_box(rest));
    assert_eq!(file.len(), 2591);
    file
}

#[test]
fn test_read_mp4() {
    let file = minimal_file();
    let size = file.len() as u64;
    let mp4 = Mp4Reader::read_header(file, size).unwrap();

    assert_eq!(2591, mp4.size());

    // ftyp.
    assert_eq!(4, mp4.compatible_brands().len());

    // Check compatible_brands.
    let brands = vec![
        String::from("isom"),
        String::from("iso2"),
        String::from("avc1"),
        String::from("mp41"),
    ];

    for b in brands {
        let t = mp4
            .compatible_brands()
            .iter()
            .any(|x| String::from_utf8(x.to_bytes()).unwrap() == b);
        assert!(t);
    }

    assert_eq!(mp4.duration(), 62);
    assert_eq!(mp4.timescale(), 1000);
    assert_eq!(mp4.tracks().len(), 2);

    let sample_count = mp4.sample_count(1).unwrap();
    assert_eq!(sample_count, 1);
    let sample_1_1 = mp4.read_sample(1, 1).unwrap().unwrap();
    assert_eq!(sample_1_1.bytes.len(), 751);
    assert_eq!(
        sample_1_1,
        Mp4Sample {
            start_time: 0,
            duration: 512,
            rendering_offset: 0,
            is_sync: true,
            bytes: vec![0x0u8; 751],
        }
    );
    let eos = mp4.read_sample(1, 2).unwrap();
    assert!(eos.is_none());

    let sample_count = mp4.sample_count(2).unwrap();
    assert_eq!(sample_count, 3);
    let sample_2_1 = mp4.read_sample(2, 1).unwrap().unwrap();
    assert_eq!(sample_2_1.bytes.len(), 179);
    assert_eq!(
        sample_2_1,
        Mp4Sample {
            start_time: 0,
            duration: 1024,
            rendering_offset: 0,
            is_sync: true,
            bytes: vec![0x0u8; 179],
        }
    );

    let sample_2_2 = mp4.read_sample(2, 2).unwrap().unwrap();
    assert_eq!(
        sample_2_2,
        Mp4Sample {
            start_time: 1024,
            duration: 1024,
            rendering_offset: 0,
            is_sync: true,
            bytes: vec![0x0u8; 180],
        }
    );

    let sample_2_3 = mp4.read_sample(2, 3).unwrap().unwrap();
    assert_eq!(
        sample_2_3,
        Mp4Sample {
            start_time: 2048,
            duration: 896,
            rendering_offset: 0,
            is_sync: true,
            bytes: vec![0x0u8; 160],
        }
    );

    let eos = mp4.read_sample(2, 4).unwrap();
    assert!(eos.is_none());

    // track #1
    let track1 = mp4.track(1).unwrap();
    assert_eq!(track1.track_id(), 1);
    assert_eq!(track1.track_type().unwrap(), TrackType::Video);
    assert_eq!(track1.media_type().unwrap(), MediaType::H264);
    assert_eq!(track1.width(), 320);
    assert_eq!(track1.height(), 240);

    // track #2
    let track2 = mp4.track(2).unwrap();
    assert_eq!(track2.track_type().unwrap(), TrackType::Audio);
    assert_eq!(track2.media_type().unwrap(), MediaType::AAC);
}

#[test]
fn samples_in_one_chunk_lie_back_to_back() {
    let file = minimal_file();
    let size = file.len() as u64;
    let mp4 = Mp4Reader::read_header(file, size).unwrap();
    let first = mp4.sample_offset(2, 1).unwrap();
    assert_eq!(first, 40 + 751);
    assert_eq!(mp4.sample_offset(2, 2).unwrap(), first + 179);
    assert_eq!(mp4.sample_offset(2, 3).unwrap(), first + 179 + 180);
    assert_eq!(mp4.sample_offset(1, 1).unwrap(), 40);
}

#[test]
fn no_sample_zero_and_none_past_the_last() {
    let file = minimal_file();
    let size = file.len() as u64;
    let mp4 = Mp4Reader::read_header(file, size).unwrap();
    assert!(mp4.read_sample(2, 0).unwrap().is_none());
    let count = mp4.sample_count(2).unwrap();
    assert!(mp4.read_sample(2, count + 1).unwrap().is_none());
    assert_eq!(
        mp4.sample_offset(2, 4).unwrap_err().kind(),
        ErrorKind::EntryInStblNotFound(2, BoxType::StszBox, 4)
    );
    assert_eq!(
        mp4.read_sample(9, 1).unwrap_err().kind(),
        ErrorKind::TrakNotFound(9)
    );
    assert_eq!(
        mp4.sample_count(9).unwrap_err().kind(),
        ErrorKind::TrakNotFound(9)
    );
    assert!(!mp4.is_fragmented());
    assert_eq!(mp4.minor_version(), 512);
    assert_eq!(*mp4.major_brand(), FourCC::parse("isom").unwrap());
    assert!(mp4.metadata().is_none());
}

fn init_segment() -> Vec<u8> {
    let mut file = Vec::new();
    ftyp(&["isom", "iso2", "avc1", "mp41", "iso5"])
        .write_box(&mut file)
        .unwrap();
    let moov = MoovBox {
        mvhd: MvhdBox {
            timescale: 1000,
            ..MvhdBox::default()
        },
        traks: vec![trak(
            1,
            "vide",
            BoxType::Avc1Box,
            320,
            240,
            vec![],
            vec![],
            0,
        )],
        mvex: Some(MvexBox {
            mehd: None,
            trex: TrexBox {
                track_id: 1,
                default_sample_description_index: 1,
                default_sample_duration: 512,
                ..TrexBox::default()
            },
        }),
        udta: None,
    };
    moov.write_box(&mut file).unwrap();
    let rest = 692 - file.len();
    file.extend_from_slice(&free_box(rest));
    file
}

fn media_segment(track_id: u32) -> Vec<u8> {
    let moof = |data_offset: i32| MoofBox {
        mfhd: MfhdBox {
            version: 0,
            flags: 0,
            sequence_number: 1,
        },
        trafs: vec![TrafBox {
            tfhd: TfhdBox {
                version: 0,
                flags: 0x02_0000,
                track_id,
                ..TfhdBox::default()
            },
            tfdt: Some(TfdtBox {
                version: 1,
                flags: 0,
                base_media_decode_time: 0,
            }),
            trun: Some(TrunBox {
                version: 0,
                flags: 0x01 | 0x200,
                sample_count: 1,
                data_offset: Some(data_offset),
                first_sample_flags: None,
                sample_durations: vec![],
                sample_sizes: vec![751],
                sample_flags: vec![],
                sample_cts: vec![],
            }),
        }],
    };
    let moof_size = moof(0).get_size();
    let mut file = Vec::new();
    moof(moof_size as i32 + 8).write_box(&mut file).unwrap();
    file.extend_from_slice(&mdat_box(751));
    file
}

#[test]
fn test_read_fragments() {
    let init = init_segment();
    let size = init.len() as u64;
    let mp4 = Mp4Reader::read_header(init, size).unwrap();

    assert_eq!(692, mp4.size());
    assert_eq!(5, mp4.compatible_brands().len());

    let sample_count = mp4.sample_count(1).unwrap();
    assert_eq!(sample_count, 0);

    let segment = media_segment(1);
    let f_size = segment.len() as u64;

    let mp4_fragment = mp4.read_fragment_header(segment, f_size).unwrap();
    let sample_count = mp4_fragment.sample_count(1).unwrap();
    assert_eq!(sample_count, 1);
    let sample_1_1 = mp4_fragment.read_sample(1, 1).unwrap().unwrap();
    assert_eq!(sample_1_1.bytes.len(), 751);
    assert_eq!(
        sample_1_1,
        Mp4Sample {
            start_time: 0,
            duration: 512,
            rendering_offset: 0,
            is_sync: true,
            bytes: vec![0x0u8; 751],
        }
    );
    let eos = mp4_fragment.read_sample(1, 2);
    assert!(eos.is_err());
    assert_eq!(
        eos.unwrap_err().kind(),
        ErrorKind::BoxInTrafNotFound(1, BoxType::TrafBox)
    );
    assert!(mp4_fragment.is_fragmented());
}

#[test]
fn fragment_of_an_unknown_track_is_refused() {
    let init = init_segment();
    let size = init.len() as u64;
    let mp4 = Mp4Reader::read_header(init, size).unwrap();
    let segment = media_segment(5);
    let f_size = segment.len() as u64;
    assert_eq!(
        mp4.read_fragment_header(segment, f_size).unwrap_err().kind(),
        ErrorKind::TrakNotFound(5)
    );
}

#[test]
fn segment_without_fragment_is_refused() {
    let init = init_segment();
    let size = init.len() as u64;
    let mp4 = Mp4Reader::read_header(init, size).unwrap();
    let segment = mdat_box(16);
    let f_size = segment.len() as u64;
    assert_eq!(
        mp4.read_fragment_header(segment, f_size).unwrap_err().kind(),
        ErrorKind::BoxNotFound(BoxType::MoofBox)
    );
}

#[test]
fn fragments_in_one_file_extend_the_track() {
    let mut file = init_segment();
    let moof_offset = file.len() as u64;
    file.extend_from_slice(&media_segment(1));
    let size = file.len() as u64;
    let mp4 = Mp4Reader::read_header(file, size).unwrap();
    assert!(mp4.is_fragmented());
    assert_eq!(mp4.sample_count(1).unwrap(), 1);
    let moof_size = mp4.moofs[0].get_size();
    assert_eq!(mp4.sample_offset(1, 1).unwrap(), moof_offset + moof_size + 8);
    assert_eq!(mp4.tracks()[0].runs.len(), 1);
    assert_eq!(mp4.tracks()[0].runs[0].moof_offset, moof_offset);
    assert_eq!(mp4.tracks()[0].default_sample_duration, 512);
}

#[test]
fn missing_top_level_boxes() {
    let mut only_ftyp = Vec::new();
    ftyp(&["isom"]).write_box(&mut only_ftyp).unwrap();
    let size = only_ftyp.len() as u64;
    assert_eq!(
        Mp4Reader::read_header(only_ftyp, size).unwrap_err().kind(),
        ErrorKind::BoxNotFound(BoxType::MoovBox)
    );
    let mut only_moov = Vec::new();
    MoovBox::default().write_box(&mut only_moov).unwrap();
    let size = only_moov.len() as u64;
    assert_eq!(
        Mp4Reader::read_header(only_moov, size).unwrap_err().kind(),
        ErrorKind::BoxNotFound(BoxType::FtypBox)
    );
    assert_eq!(
        Mp4Reader::read_header(Vec::new(), 0).unwrap_err().kind(),
        ErrorKind::BoxNotFound(BoxType::FtypBox)
    );
}

#[test]
fn track_id_zero_is_refused() {
    let mut file = Vec::new();
    ftyp(&["isom"]).write_box(&mut file).unwrap();
    let moov = MoovBox {
        mvhd: MvhdBox::default(),
        traks: vec![trak(0, "vide", BoxType::Avc1Box, 1, 1, vec![], vec![], 0)],
        mvex: None,
        udta: None,
    };
    moov.write_box(&mut file).unwrap();
    let size = file.len() as u64;
    assert_eq!(
        Mp4Reader::read_header(file, size).unwrap_err().kind(),
        ErrorKind::InvalidData
    );
}

#[test]
fn box_larger_than_the_file_is_refused() {
    let mut file = Vec::new();
    ftyp(&["isom"]).write_box(&mut file).unwrap();
    file.extend_from_slice(&[0, 0, 1, 0, b'f', b'r', b'e', b'e']);
    let size = file.len() as u64;
    assert_eq!(
        Mp4Reader::read_header(file, size).unwrap_err().kind(),
        ErrorKind::InvalidData
    );
}

#[test]
fn header_of_size_zero_ends_the_walk() {
    let mut file = minimal_file();
    let covered = file.len() as u64;
    file.extend_from_slice(&[0, 0, 0, 0, b'm', b'd', b'a', b't', 1, 2, 3]);
    let size = file.len() as u64;
    let mp4 = Mp4Reader::read_header(file, size).unwrap();
    assert_eq!(mp4.size(), covered);
}

#[test]
fn truncated_source_is_an_io_error() {
    let file = minimal_file();
    let moov_at = 32 + 8 + 751 + 179 + 180 + 160;
    let cut = file[..moov_at + 40].to_vec();
    assert_eq!(
        Mp4Reader::read_header(cut, 2591).unwrap_err().kind(),
        ErrorKind::IoError
    );
    // Sample bytes that the source does not hold.
    let mut short = file.clone();
    let size = short.len() as u64;
    let mut reader = Mp4Reader::read_header(short.clone(), size).unwrap();
    short.truncate(100);
    reader.data = short;
    assert_eq!(
        reader.read_sample(1, 1).unwrap_err().kind(),
        ErrorKind::IoError
    );
}

#[test]
fn missing_table_entry_is_an_error() {
    let mut t = mp4::Mp4Track::from_trak(&trak(
        3,
        "vide",
        BoxType::Avc1Box,
        1,
        1,
        vec![SttsEntry {
            sample_count: 1,
            sample_delta: 10,
        }],
        vec![5, 6],
        100,
    ));
    // Two samples by the size table, one by the time table.
    assert_eq!(t.sample_info(1).unwrap().unwrap().offset, 100);
    assert_eq!(
        t.sample_info(2).unwrap_err().kind(),
        ErrorKind::EntryInStblNotFound(3, BoxType::SttsBox, 2)
    );
    t.chunk_offsets.clear();
    assert_eq!(
        t.sample_info(1).unwrap_err().kind(),
        ErrorKind::EntryInStblNotFound(3, BoxType::StcoBox, 1)
    );
    t.chunk_offsets.push(u64::MAX);
    assert_eq!(t.sample_info(1).unwrap().unwrap().offset, u64::MAX);
    assert_eq!(t.sample_info(2).unwrap_err().kind(), ErrorKind::InvalidData);
}

#[test]
fn sync_table_and_composition_offsets() {
    let mut b = trak(
        4,
        "vide",
        BoxType::Hev1Box,
        2,
        2,
        vec![SttsEntry {
            sample_count: 5,
            sample_delta: 100,
        }],
        vec![10, 20, 30, 40, 50],
        1000,
    );
    b.mdia.minf.stbl.stss = Some(StssBox {
        version: 0,
        flags: 0,
        entries: vec![1, 4],
    });
    b.mdia.minf.stbl.ctts = Some(CttsBox {
        version: 0,
        flags: 0,
        entries: vec![
            CttsEntry {
                sample_count: 2,
                sample_offset: 7,
            },
            CttsEntry {
                sample_count: 2,
                sample_offset: -3,
            },
        ],
    });
    b.mdia.minf.stbl.stsc = StscBox {
        version: 0,
        flags: 0,
        entries: vec![
            StscEntry {
                first_chunk: 1,
                samples_per_chunk: 2,
                sample_description_index: 1,
            },
            StscEntry {
                first_chunk: 2,
                samples_per_chunk: 3,
                sample_description_index: 1,
            },
        ],
    };
    b.mdia.minf.stbl.stco = None;
    b.mdia.minf.stbl.co64 = Some(Co64Box {
        version: 0,
        flags: 0,
        entries: vec![1000, 0x1_0000_0000],
    });
    let t = mp4::Mp4Track::from_trak(&b);
    assert_eq!(t.media_type().unwrap(), MediaType::H265);
    let infos: Vec<_> = (1..=5).map(|n| t.sample_info(n).unwrap().unwrap()).collect();
    assert_eq!(
        infos.iter().map(|i| i.offset).collect::<Vec<_>>(),
        vec![
            1000,
            1010,
            0x1_0000_0000,
            0x1_0000_0000 + 30,
            0x1_0000_0000 + 70
        ]
    );
    assert_eq!(
        infos.iter().map(|i| i.is_sync).collect::<Vec<_>>(),
        vec![true, false, false, true, false]
    );
    assert_eq!(
        infos.iter().map(|i| i.rendering_offset).collect::<Vec<_>>(),
        vec![7, 7, -3, -3, 0]
    );
    assert_eq!(
        infos.iter().map(|i| i.start_time).collect::<Vec<_>>(),
        vec![0, 100, 200, 300, 400]
    );
    assert!(t.sample_info(6).unwrap().is_none());
    assert!(t.sample_info(0).unwrap().is_none());
}

#[test]
fn children_of_moov_tile_its_payload() {
    let file = minimal_file();
    let moov_at = 32 + 8 + 751 + 179 + 180 + 160;
    let moov_header = BoxHeader::read_at(&file, moov_at).unwrap();
    assert_eq!(moov_header.name, BoxType::MoovBox);
    let payload = &file[moov_at + 8..moov_at + moov_header.size as usize];
    let mut at = 0usize;
    let mut total = 0u64;
    let mut names = Vec::new();
    while at < payload.len() {
        let child = BoxHeader::read_at(payload, at).unwrap();
        names.push(child.name);
        total += child.size;
        at += child.size as usize;
    }
    assert_eq!(total, moov_header.size - moov_header.header_len);
    assert_eq!(
        names,
        vec![BoxType::MvhdBox, BoxType::TrakBox, BoxType::TrakBox]
    );
}

#[test]
fn sample_count_adds_tables_and_runs() {
    let mut t = mp4::Mp4Track::from_trak(&trak(
        6,
        "soun",
        BoxType::Mp4aBox,
        0,
        0,
        vec![SttsEntry {
            sample_count: 2,
            sample_delta: 10,
        }],
        vec![5, 6],
        100,
    ));
    assert_eq!(t.sample_count().unwrap(), 2);
    let traf = TrafBox {
        tfhd: TfhdBox {
            track_id: 6,
            flags: 0x01 | 0x20,
            base_data_offset: Some(5000),
            default_sample_flags: Some(0x0001_0000),
            ..TfhdBox::default()
        },
        tfdt: Some(TfdtBox {
            version: 1,
            flags: 0,
            base_media_decode_time: 700,
        }),
        trun: Some(TrunBox {
            version: 0,
            flags: 0x04 | 0x100 | 0x200 | 0x800,
            sample_count: 3,
            data_offset: None,
            first_sample_flags: Some(0),
            sample_durations: vec![30, 40, 50],
            sample_sizes: vec![7, 8, 9],
            sample_flags: vec![],
            sample_cts: vec![0, 0xFFFF_FFFE, 3],
        }),
    };
    t.attach(&traf, 4000, (11, 22, 33));
    t.attach(
        &TrafBox {
            tfhd: TfhdBox {
                track_id: 6,
                ..TfhdBox::default()
            },
            tfdt: None,
            trun: Some(TrunBox {
                sample_count: 2,
                ..TrunBox::default()
            }),
        },
        9000,
        (11, 22, 33),
    );
    assert_eq!(t.sample_count().unwrap(), 2 + 3 + 2);
    assert_eq!(t.fragment_count(), Some(5));

    // The samples of the tables come first.
    assert_eq!(t.sample_info(2).unwrap().unwrap().offset, 105);
    // Then those of the first run, with the run's own values.
    let s3 = t.sample_info(3).unwrap().unwrap();
    assert_eq!((s3.offset, s3.size, s3.start_time, s3.duration), (5000, 7, 700, 30));
    assert!(s3.is_sync);
    assert_eq!(s3.rendering_offset, 0);
    let s4 = t.sample_info(4).unwrap().unwrap();
    assert_eq!((s4.offset, s4.size, s4.start_time, s4.duration), (5007, 8, 730, 40));
    assert!(!s4.is_sync);
    assert_eq!(s4.rendering_offset, -2);
    let s5 = t.sample_info(5).unwrap().unwrap();
    assert_eq!((s5.offset, s5.size, s5.start_time, s5.duration), (5015, 9, 770, 50));
    // The second run starts where the first ended and takes the defaults.
    let s6 = t.sample_info(6).unwrap().unwrap();
    assert_eq!((s6.offset, s6.size, s6.start_time, s6.duration), (9000, 22, 820, 11));
    assert!(s6.is_sync);
    let s7 = t.sample_info(7).unwrap().unwrap();
    assert_eq!((s7.offset, s7.size, s7.start_time, s7.duration), (9022, 22, 831, 11));
    assert_eq!(
        t.sample_info(8).unwrap_err().kind(),
        ErrorKind::BoxInTrafNotFound(6, BoxType::TrafBox)
    );

    // A column that the flags announce and the run lacks is an error.
    let mut broken = traf.clone();
    broken.trun.as_mut().unwrap().sample_sizes.pop();
    let mut u = mp4::Mp4Track::from_trak(&trak(
        6,
        "soun",
        BoxType::Mp4aBox,
        0,
        0,
        vec![],
        vec![],
        0,
    ));
    u.attach(&broken, 0, (0, 0, 0));
    assert_eq!(
        u.sample_info(3).unwrap_err().kind(),
        ErrorKind::EntryInTrunNotFound(6, BoxType::TrunBox, 3)
    );
    assert!(u.sample_info(2).is_ok());
}

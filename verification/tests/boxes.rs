use mp4::mp4box::ctts::{CttsBox, CttsEntry};
use mp4::mp4box::edts::EdtsBox;
use mp4::mp4box::elst::{ElstBox, ElstEntry};
use mp4::mp4box::hdlr::HdlrBox;
use mp4::mp4box::header::BoxHeader;
use mp4::mp4box::meta::MetaBox;
use mp4::mp4box::stsd::{SampleEntry, StsdBox};
use mp4::mp4box::stss::StssBox;
use mp4::mp4box::stsz::StszBox;
use mp4::mp4box::stts::SttsBox;
use mp4::mp4box::tfdt::TfdtBox;
use mp4::mp4box::tfhd::TfhdBox;
use mp4::mp4box::traf::TrafBox;
use mp4::mp4box::trun::TrunBox;
use mp4::mp4box::udta::UdtaBox;
use mp4::mp4box::vmhd::{RgbColor, VmhdBox};
use mp4::{BoxType, ErrorKind, FourCC};

#[test]
fn test_ctts() {
    let src_box = CttsBox {
        version: 0,
        flags: 0,
        entries: vec![
            CttsEntry {
                sample_count: 1,
                sample_offset: 200,
            },
            CttsEntry {
                sample_count: 2,
                sample_offset: -100,
            },
        ],
    };
    let mut buf = Vec::new();
    src_box.write_box(&mut buf).unwrap();
    assert_eq!(buf.len(), src_box.get_size() as usize);

    let header = BoxHeader::read(&buf).unwrap();
    assert_eq!(header.name, BoxType::CttsBox);
    assert_eq!(src_box.get_size(), header.size);

    let dst_box = CttsBox::read_box(&buf[8..], header.size).unwrap();
    assert_eq!(src_box, dst_box);
}

#[test]
fn test_elst32() {
    let src_box = ElstBox {
        version: 0,
        flags: 0,
        entries: vec![ElstEntry {
            segment_duration: 634634,
            media_time: 0,
            media_rate: 1,
            media_rate_fraction: 0,
        }],
    };
    let mut buf = Vec::new();
    src_box.write_box(&mut buf).unwrap();
    assert_eq!(buf.len(), src_box.get_size() as usize);

    let header = BoxHeader::read(&buf).unwrap();
    assert_eq!(header.name, BoxType::ElstBox);
    assert_eq!(src_box.get_size(), header.size);

    let dst_box = ElstBox::read_box(&buf[8..], header.size).unwrap();
    assert_eq!(src_box, dst_box);
}

#[test]
fn test_elst64() {
    let src_box = ElstBox {
        version: 1,
        flags: 0,
        entries: vec![ElstEntry {
            segment_duration: 634634,
            media_time: 0,
            media_rate: 1,
            media_rate_fraction: 0,
        }],
    };
    let mut buf = Vec::new();
    src_box.write_box(&mut buf).unwrap();
    assert_eq!(buf.len(), src_box.get_size() as usize);

    let header = BoxHeader::read(&buf).unwrap();
    assert_eq!(header.name, BoxType::ElstBox);
    assert_eq!(src_box.get_size(), header.size);

    let dst_box = ElstBox::read_box(&buf[8..], header.size).unwrap();
    assert_eq!(src_box, dst_box);
}

#[test]
fn test_hdlr() {
    let src_box = HdlrBox {
        version: 0,
        flags: 0,
        handler_type: str::parse::<FourCC>("vide").unwrap(),
        name: String::from("VideoHandler"),
    };
    let mut buf = Vec::new();
    src_box.write_box(&mut buf).unwrap();
    assert_eq!(buf.len(), src_box.get_size() as usize);

    let header = BoxHeader::read(&buf).unwrap();
    assert_eq!(header.name, BoxType::HdlrBox);
    assert_eq!(src_box.get_size(), header.size);

    let dst_box = HdlrBox::read_box(&buf[8..], header.size).unwrap();
    assert_eq!(src_box, dst_box);
}

#[test]
fn test_hdlr_empty() {
    let src_box = HdlrBox {
        version: 0,
        flags: 0,
        handler_type: str::parse::<FourCC>("vide").unwrap(),
        name: String::new(),
    };
    let mut buf = Vec::new();
    src_box.write_box(&mut buf).unwrap();
    assert_eq!(buf.len(), src_box.get_size() as usize);

    let header = BoxHeader::read(&buf).unwrap();
    assert_eq!(header.name, BoxType::HdlrBox);
    assert_eq!(src_box.get_size(), header.size);

    let dst_box = HdlrBox::read_box(&buf[8..], header.size).unwrap();
    assert_eq!(src_box, dst_box);
}

#[test]
fn test_hdlr_extra() {
    let real_src_box = HdlrBox {
        version: 0,
        flags: 0,
        handler_type: str::parse::<FourCC>("vide").unwrap(),
        name: String::from("Good"),
    };
    let src_box = HdlrBox {
        version: 0,
        flags: 0,
        handler_type: str::parse::<FourCC>("vide").unwrap(),
        name: String::from_utf8(b"Good\0Bad".to_vec()).unwrap(),
    };
    let mut buf = Vec::new();
    src_box.write_box(&mut buf).unwrap();
    assert_eq!(buf.len(), src_box.get_size() as usize);

    let header = BoxHeader::read(&buf).unwrap();
    assert_eq!(header.name, BoxType::HdlrBox);
    assert_eq!(src_box.get_size(), header.size);

    let dst_box = HdlrBox::read_box(&buf[8..], header.size).unwrap();
    assert_eq!(real_src_box, dst_box);
}

#[test]
fn test_stss() {
    let src_box = StssBox {
        version: 0,
        flags: 0,
        entries: vec![1, 61, 121, 181, 241, 301, 361, 421, 481],
    };
    let mut buf = Vec::new();
    src_box.write_box(&mut buf).unwrap();
    assert_eq!(buf.len(), src_box.get_size() as usize);

    let header = BoxHeader::read(&buf).unwrap();
    assert_eq!(header.name, BoxType::StssBox);
    assert_eq!(src_box.get_size(), header.size);

    let dst_box = StssBox::read_box(&buf[8..], header.size).unwrap();
    assert_eq!(src_box, dst_box);
}

#[test]
fn test_stsz_same_size() {
    let src_box = StszBox {
        version: 0,
        flags: 0,
        sample_size: 1165,
        sample_count: 12,
        sample_sizes: vec![],
    };
    let mut buf = Vec::new();
    src_box.write_box(&mut buf).unwrap();
    assert_eq!(buf.len(), src_box.get_size() as usize);

    let header = BoxHeader::read(&buf).unwrap();
    assert_eq!(header.name, BoxType::StszBox);
    assert_eq!(src_box.get_size(), header.size);

    let dst_box = StszBox::read_box(&buf[8..], header.size).unwrap();
    assert_eq!(src_box, dst_box);
}

#[test]
fn test_stsz_many_sizes() {
    let src_box = StszBox {
        version: 0,
        flags: 0,
        sample_size: 0,
        sample_count: 9,
        sample_sizes: vec![1165, 11, 11, 8545, 10126, 10866, 9643, 9351, 7730],
    };
    let mut buf = Vec::new();
    src_box.write_box(&mut buf).unwrap();
    assert_eq!(buf.len(), src_box.get_size() as usize);

    let header = BoxHeader::read(&buf).unwrap();
    assert_eq!(header.name, BoxType::StszBox);
    assert_eq!(src_box.get_size(), header.size);

    let dst_box = StszBox::read_box(&buf[8..], header.size).unwrap();
    assert_eq!(src_box, dst_box);
}

#[test]
fn test_tfdt32() {
    let src_box = TfdtBox {
        version: 0,
        flags: 0,
        base_media_decode_time: 0,
    };
    let mut buf = Vec::new();
    src_box.write_box(&mut buf).unwrap();
    assert_eq!(buf.len(), src_box.get_size() as usize);

    let header = BoxHeader::read(&buf).unwrap();
    assert_eq!(header.name, BoxType::TfdtBox);
    assert_eq!(src_box.get_size(), header.size);

    let dst_box = TfdtBox::read_box(&buf[8..], header.size).unwrap();
    assert_eq!(src_box, dst_box);
}

#[test]
fn test_tfdt64() {
    let src_box = TfdtBox {
        version: 1,
        flags: 0,
        base_media_decode_time: 0,
    };
    let mut buf = Vec::new();
    src_box.write_box(&mut buf).unwrap();
    assert_eq!(buf.len(), src_box.get_size() as usize);

    let header = BoxHeader::read(&buf).unwrap();
    assert_eq!(header.name, BoxType::TfdtBox);
    assert_eq!(src_box.get_size(), header.size);

    let dst_box = TfdtBox::read_box(&buf[8..], header.size).unwrap();
    assert_eq!(src_box, dst_box);
}

#[test]
fn test_udta_empty() {
    let src_box = UdtaBox { meta: None };

    let mut buf = Vec::new();
    src_box.write_box(&mut buf).unwrap();
    assert_eq!(buf.len(), src_box.get_size() as usize);

    let header = BoxHeader::read(&buf).unwrap();
    assert_eq!(header.name, BoxType::UdtaBox);
    assert_eq!(header.size, src_box.get_size());

    let dst_box = UdtaBox::read_box(&buf[8..], header.size).unwrap();
    assert_eq!(dst_box, src_box);
}

#[test]
fn test_udta() {
    let src_box = UdtaBox {
        meta: Some(MetaBox::default()),
    };

    let mut buf = Vec::new();
    src_box.write_box(&mut buf).unwrap();
    assert_eq!(buf.len(), src_box.get_size() as usize);

    let header = BoxHeader::read(&buf).unwrap();
    assert_eq!(header.name, BoxType::UdtaBox);
    assert_eq!(header.size, src_box.get_size());

    let dst_box = UdtaBox::read_box(&buf[8..], header.size).unwrap();
    assert_eq!(dst_box, src_box);
}

#[test]
fn test_vmhd() {
    let src_box = VmhdBox {
        version: 0,
        flags: 1,
        graphics_mode: 0,
        op_color: RgbColor {
            red: 0,
            green: 0,
            blue: 0,
        },
    };
    let mut buf = Vec::new();
    src_box.write_box(&mut buf).unwrap();
    assert_eq!(buf.len(), src_box.get_size() as usize);

    let header = BoxHeader::read(&buf).unwrap();
    assert_eq!(header.name, BoxType::VmhdBox);
    assert_eq!(src_box.get_size(), header.size);

    let dst_box = VmhdBox::read_box(&buf[8..], header.size).unwrap();
    assert_eq!(src_box, dst_box);
}

#[test]
fn ctts_wire_image_is_big_endian() {
    let src_box = CttsBox {
        version: 1,
        flags: 0x000102,
        entries: vec![CttsEntry {
            sample_count: 0x01020304,
            sample_offset: -2,
        }],
    };
    let mut buf = vec![0xAAu8];
    assert_eq!(src_box.write_box(&mut buf).unwrap(), 24);
    assert_eq!(
        buf,
        vec![
            0xAA, 0, 0, 0, 24, b'c', b't', b't', b's', 1, 0, 1, 2, 0, 0, 0, 1, 1, 2, 3, 4, 0xFF,
            0xFF, 0xFF, 0xFE
        ]
    );
}

#[test]
fn header_with_large_size() {
    let mut buf = Vec::new();
    let header = BoxHeader::new(BoxType::MdatBox, 0x1_0000_0000);
    assert_eq!(header.header_len, 16);
    assert_eq!(header.write(&mut buf), 16);
    assert_eq!(
        buf,
        vec![0, 0, 0, 1, b'm', b'd', b'a', b't', 0, 0, 0, 1, 0, 0, 0, 0]
    );
    let back = BoxHeader::read(&buf).unwrap();
    assert_eq!(back, header);
    assert_eq!(BoxHeader::new(BoxType::FreeBox, 8).header_len, 8);
    assert_eq!(BoxHeader::new(BoxType::FreeBox, 4).header_len, 16);
}

#[test]
fn header_errors() {
    assert_eq!(
        BoxHeader::read(&[0u8, 0, 0, 8, b'f', b'r', b'e']).unwrap_err().kind(),
        ErrorKind::IoError
    );
    let small_large = [0u8, 0, 0, 1, b'm', b'd', b'a', b't', 0, 0, 0, 0, 0, 0, 0, 15];
    assert_eq!(
        BoxHeader::read(&small_large).unwrap_err().kind(),
        ErrorKind::InvalidData
    );
    let zero = [0u8, 0, 0, 0, b'm', b'd', b'a', b't'];
    let header = BoxHeader::read(&zero).unwrap();
    assert_eq!(header.size, 0);
    assert_eq!(header.name, BoxType::MdatBox);
}

#[test]
fn unknown_box_type_keeps_its_code() {
    let t = BoxType::from_u32(0x61626364);
    assert_eq!(t, BoxType::UnknownBox(0x61626364));
    assert_eq!(t.to_u32(), 0x61626364);
    assert_eq!(BoxType::from_u32(0x6d6f6f76), BoxType::MoovBox);
    assert_eq!(BoxType::MoovBox.to_u32(), 0x6d6f6f76);
}

#[test]
fn fourcc_wants_four_bytes() {
    assert!(FourCC::parse("vid").is_none());
    assert!(str::parse::<FourCC>("video").is_err());
    let code = FourCC::parse("vide").unwrap();
    assert_eq!(code.value, 0x76696465);
    assert_eq!(code.to_bytes(), b"vide".to_vec());
}

#[test]
fn stts_count_beyond_payload_is_refused() {
    // A 100-byte box whose entry count claims 0xFFFF_FFFF entries.
    let mut payload = vec![0u8; 92];
    payload[4] = 0xFF;
    payload[5] = 0xFF;
    payload[6] = 0xFF;
    payload[7] = 0xFF;
    let err = SttsBox::read_box(&payload, 100).unwrap_err();
    assert_eq!(err.kind(), ErrorKind::InvalidData);
    // One entry more than fits is refused, the exact number is accepted.
    payload[4] = 0;
    payload[5] = 0;
    payload[6] = 0;
    payload[7] = 11;
    assert_eq!(
        SttsBox::read_box(&payload, 100).unwrap_err().kind(),
        ErrorKind::InvalidData
    );
    payload[7] = 10;
    assert_eq!(SttsBox::read_box(&payload, 100).unwrap().entries.len(), 10);
}

#[test]
fn tfdt_version_two_is_unsupported() {
    let payload = [2u8, 0, 0, 0, 0, 0, 0, 0, 0, 0, 0, 0];
    let err = TfdtBox::read_box(&payload, 20).unwrap_err();
    assert_eq!(
        err.kind(),
        ErrorKind::UnsupportedBoxVersion(BoxType::TfdtBox, 2)
    );
    let bad = TfdtBox {
        version: 2,
        flags: 0,
        base_media_decode_time: 0,
    };
    let mut out = vec![1u8, 2, 3];
    assert_eq!(bad.write_box(&mut out).unwrap_err().kind(), ErrorKind::InvalidData);
    assert_eq!(out, vec![1u8, 2, 3]);
}

#[test]
fn short_payload_is_an_io_error() {
    assert_eq!(
        VmhdBox::read_box(&[0u8; 11], 20).unwrap_err().kind(),
        ErrorKind::IoError
    );
    // The declared size bounds what is read, whatever follows in the source.
    assert_eq!(
        VmhdBox::read_box(&[0u8; 64], 19).unwrap_err().kind(),
        ErrorKind::IoError
    );
    assert!(VmhdBox::read_box(&[0u8; 64], 20).is_ok());
}

#[test]
fn trailing_padding_is_tolerated() {
    let src_box = TfdtBox {
        version: 1,
        flags: 0,
        base_media_decode_time: 0x0102030405060708,
    };
    let mut buf = Vec::new();
    src_box.write_box(&mut buf).unwrap();
    buf.extend_from_slice(&[0xEE; 5]);
    let dst_box = TfdtBox::read_box(&buf[8..], 25).unwrap();
    assert_eq!(dst_box, src_box);
}

#[test]
fn traf_round_trip_and_unknown_children() {
    let src_box = TrafBox {
        tfhd: TfhdBox {
            version: 0,
            flags: 0x02_0000 | 0x08 | 0x01,
            track_id: 7,
            base_data_offset: Some(1000),
            sample_description_index: None,
            default_sample_duration: Some(512),
            default_sample_size: None,
            default_sample_flags: None,
        },
        tfdt: Some(TfdtBox {
            version: 1,
            flags: 0,
            base_media_decode_time: 9000,
        }),
        trun: Some(TrunBox {
            version: 0,
            flags: 0x01 | 0x200 | 0x800,
            sample_count: 2,
            data_offset: Some(-8),
            first_sample_flags: None,
            sample_durations: vec![],
            sample_sizes: vec![10, 20],
            sample_flags: vec![],
            sample_cts: vec![1, 0xFFFF_FFFF],
        }),
    };
    let mut buf = Vec::new();
    let written = src_box.write_box(&mut buf).unwrap();
    assert_eq!(written, src_box.get_size());
    assert_eq!(buf.len() as u64, written);
    let header = BoxHeader::read(&buf).unwrap();
    assert_eq!(header.name, BoxType::TrafBox);
    let dst_box = TrafBox::read_box(&buf[8..], header.size).unwrap();
    assert_eq!(dst_box, src_box);

    // An unknown child between the known ones changes nothing.
    let mut with_unknown = Vec::new();
    src_box.tfhd.write_box(&mut with_unknown).unwrap();
    with_unknown.extend_from_slice(&[0, 0, 0, 12, b'a', b'b', b'c', b'd', 1, 2, 3, 4]);
    src_box.tfdt.as_ref().unwrap().write_box(&mut with_unknown).unwrap();
    src_box.trun.as_ref().unwrap().write_box(&mut with_unknown).unwrap();
    let size = with_unknown.len() as u64 + 8;
    assert_eq!(TrafBox::read_box(&with_unknown, size).unwrap(), src_box);

    // A child that reaches past its parent is refused.
    let mut broken = Vec::new();
    src_box.tfhd.write_box(&mut broken).unwrap();
    broken.extend_from_slice(&[0, 0, 0, 13, b'a', b'b', b'c', b'd', 1, 2, 3, 4]);
    let size = broken.len() as u64 + 8;
    assert_eq!(
        TrafBox::read_box(&broken, size).unwrap_err().kind(),
        ErrorKind::InvalidData
    );

    // A traf without tfhd is refused.
    let mut headless = Vec::new();
    src_box.tfdt.as_ref().unwrap().write_box(&mut headless).unwrap();
    let size = headless.len() as u64 + 8;
    assert_eq!(
        TrafBox::read_box(&headless, size).unwrap_err().kind(),
        ErrorKind::BoxNotFound(BoxType::TfhdBox)
    );
}

#[test]
fn trun_count_beyond_payload_is_refused() {
    let mut payload = vec![0u8; 16];
    payload[2] = 0x02; // sample sizes present
    payload[7] = 3; // three samples, room for two
    assert_eq!(
        TrunBox::read_box(&payload, 24).unwrap_err().kind(),
        ErrorKind::InvalidData
    );
    payload[7] = 2;
    let ok = TrunBox::read_box(&payload, 24).unwrap();
    assert_eq!(ok.sample_sizes, vec![0, 0]);
    assert!(ok.sample_durations.is_empty());
}

#[test]
fn stsz_out_of_sync_is_refused() {
    let bad = StszBox {
        version: 0,
        flags: 0,
        sample_size: 0,
        sample_count: 3,
        sample_sizes: vec![1, 2],
    };
    let mut out = Vec::new();
    assert_eq!(bad.write_box(&mut out).unwrap_err().kind(), ErrorKind::InvalidData);
    assert!(out.is_empty());
}

#[test]
fn elst_version_zero_refuses_wide_times() {
    let bad = ElstBox {
        version: 0,
        flags: 0,
        entries: vec![ElstEntry {
            segment_duration: 0x1_0000_0000,
            media_time: 0,
            media_rate: 1,
            media_rate_fraction: 0,
        }],
    };
    let mut out = Vec::new();
    assert_eq!(bad.write_box(&mut out).unwrap_err().kind(), ErrorKind::InvalidData);
    let wide = ElstBox { version: 1, ..bad };
    assert_eq!(wide.write_box(&mut out).unwrap(), 36);
    assert_eq!(ElstBox::read_box(&out[8..], 36).unwrap(), wide);
}

#[test]
fn hdlr_invalid_utf8_reads_as_empty() {
    let mut payload = vec![0u8; 24];
    payload[8..12].copy_from_slice(b"soun");
    payload.extend_from_slice(&[0xFF, 0xFE, 0]);
    let size = payload.len() as u64 + 8;
    let b = HdlrBox::read_box(&payload, size).unwrap();
    assert_eq!(b.name, "");
    assert_eq!(b.handler_type, FourCC::parse("soun").unwrap());
}

#[test]
fn stsd_keeps_any_sample_entry() {
    let src_box = StsdBox {
        version: 0,
        flags: 0,
        entry: Some(SampleEntry {
            name: BoxType::Avc1Box,
            data: vec![1, 2, 3, 4, 5],
        }),
    };
    let mut buf = Vec::new();
    assert_eq!(src_box.write_box(&mut buf).unwrap(), 29);
    assert_eq!(StsdBox::read_box(&buf[8..], 29).unwrap(), src_box);
    let unknown = StsdBox {
        version: 0,
        flags: 0,
        entry: Some(SampleEntry {
            name: BoxType::UnknownBox(0x78797a31),
            data: vec![9; 3],
        }),
    };
    let mut buf = Vec::new();
    unknown.write_box(&mut buf).unwrap();
    assert_eq!(StsdBox::read_box(&buf[8..], buf.len() as u64).unwrap(), unknown);
}

#[test]
fn edts_round_trip() {
    let src_box = EdtsBox {
        elst: Some(ElstBox {
            version: 0,
            flags: 0,
            entries: vec![],
        }),
    };
    let mut buf = Vec::new();
    assert_eq!(src_box.write_box(&mut buf).unwrap(), 24);
    assert_eq!(src_box.get_size(), 24);
    assert_eq!(EdtsBox::read_box(&buf[8..], 24).unwrap(), src_box);
    assert_eq!(EdtsBox::default().get_size(), 8);
}

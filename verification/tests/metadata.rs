use mp4::mp4box::covr::CovrBox;
use mp4::mp4box::data::{DataBox, DataType};
use mp4::mp4box::day::DayBox;
use mp4::mp4box::desc::DescBox;
use mp4::mp4box::ftyp::FtypBox;
use mp4::mp4box::hdlr::HdlrBox;
use mp4::mp4box::ilst::IlstBox;
use mp4::mp4box::meta::{MetaBox, RawBox};
use mp4::mp4box::moov::MoovBox;
use mp4::mp4box::name::NameBox;
use mp4::mp4box::udta::UdtaBox;
use mp4::{BoxType, Error, ErrorKind, FourCC, Mp4Reader};

fn text(s: &str) -> DataBox {
    DataBox {
        data_type: DataType::Text,
        data: s.as_bytes().to_vec(),
    }
}

#[test]
fn test_read_metadata() {
    let want_poster: Vec<u8> = (0..2000u32).map(|i| (i * 7 % 251) as u8).collect();
    let want_summary = "Lorem ipsum dolor sit amet, consectetur adipiscing elit. Sed non risus. Suspendisse lectus tortor, dignissim sit amet, adipiscing nec, ultricies sed, dolor. Cras elementum ultrices diam. Maecenas ligula massa, varius a, semper congue, euismod non, mi. Proin porttitor, orci nec nonummy molestie, enim est eleifend mi, non fermentum diam nisl sit amet erat. Duis semper. Duis arcu massa, scelerisque vitae, consequat in, pretium a, enim. Pellentesque congue. Ut in risus volutpat libero pharetra tempor. Cras vestibulum bibendum augue.";
    let ilst = IlstBox {
        title: Some(NameBox {
            data: text("Big Buck Bunny"),
        }),
        year: Some(DayBox { data: text("2008") }),
        poster: Some(CovrBox {
            data: DataBox {
                data_type: DataType::Image,
                data: want_poster.clone(),
            },
        }),
        summary: Some(DescBox {
            data: text(want_summary),
        }),
    };
    let moov = MoovBox {
        udta: Some(UdtaBox {
            meta: Some(MetaBox::Mdir { ilst: Some(ilst) }),
        }),
        ..MoovBox::default()
    };
    let mut file = Vec::new();
    FtypBox::default().write_box(&mut file).unwrap();
    moov.write_box(&mut file).unwrap();
    let size = file.len() as u64;
    let mp4 = Mp4Reader::read_header(file, size).unwrap();
    assert_eq!(mp4.moov, moov);

    let metadata = mp4.metadata().unwrap();
    assert_eq!(metadata.title(), Some("Big Buck Bunny".into()));
    assert_eq!(metadata.year(), Some(2008));
    assert_eq!(metadata.summary(), Some(want_summary.into()));

    assert!(metadata.poster().is_some());
    let poster = metadata.poster().unwrap();
    assert_eq!(poster.len(), want_poster.len());
    assert_eq!(poster, want_poster.as_slice());
}

#[test]
fn year_must_be_a_number() {
    let with_year = |s: &[u8]| IlstBox {
        year: Some(DayBox {
            data: DataBox {
                data_type: DataType::Text,
                data: s.to_vec(),
            },
        }),
        ..IlstBox::default()
    };
    assert_eq!(with_year(b"+1999").year(), Some(1999));
    assert_eq!(with_year(b"4294967295").year(), Some(u32::MAX));
    assert_eq!(with_year(b"4294967296").year(), None);
    assert_eq!(with_year(b"2008-05-30").year(), None);
    assert_eq!(with_year(b"").year(), None);
    assert_eq!(with_year(b"+").year(), None);
    assert_eq!(with_year(b"007").year(), Some(7));
    assert_eq!(IlstBox::default().year(), None);
    assert_eq!(IlstBox::default().title(), None);
}

#[test]
fn meta_of_another_handler_keeps_its_children() {
    let src = MetaBox::Unknown {
        hdlr: HdlrBox {
            version: 0,
            flags: 0,
            handler_type: FourCC::parse("ID32").unwrap(),
            name: String::from("tags"),
        },
        data: vec![
            RawBox {
                name: BoxType::UnknownBox(0x49443332),
                data: vec![1, 2, 3],
            },
            RawBox {
                name: BoxType::FreeBox,
                data: vec![],
            },
        ],
    };
    let mut buf = Vec::new();
    let written = src.write_box(&mut buf).unwrap();
    assert_eq!(written, src.get_size());
    assert_eq!(buf.len() as u64, written);
    assert_eq!(MetaBox::read_box(&buf[8..], written).unwrap(), src);

    // A version and flags word other than zero is refused.
    let mut bad = buf[8..].to_vec();
    bad[0] = 3;
    assert_eq!(
        MetaBox::read_box(&bad, written).unwrap_err().kind(),
        ErrorKind::UnsupportedBoxVersion(BoxType::MetaBox, 3)
    );
    // Metadata without a handler is refused.
    assert_eq!(
        MetaBox::read_box(&[0, 0, 0, 0], 12).unwrap_err().kind(),
        ErrorKind::BoxNotFound(BoxType::HdlrBox)
    );
}

#[test]
fn data_box_wants_a_known_kind() {
    let payload = [0u8, 0, 0, 2, 0, 0, 0, 0, b'x'];
    assert_eq!(
        DataBox::read_box(&payload, 17).unwrap_err().kind(),
        ErrorKind::InvalidData
    );
    let payload = [0u8, 0, 0, 0x15, 0, 0, 0, 0, b'x'];
    let b = DataBox::read_box(&payload, 17).unwrap();
    assert_eq!(b.data_type, DataType::TempoCpil);
    assert_eq!(b.data, vec![b'x']);
    assert_eq!(
        NameBox::read_box(&[], 8).unwrap_err().kind(),
        ErrorKind::BoxNotFound(BoxType::DataBox)
    );
}

#[test]
fn error_messages() {
    assert_eq!(Error::BoxNotFound(BoxType::MoovBox).message(), "moov not found");
    assert_eq!(
        Error::Box2NotFound(BoxType::StcoBox, BoxType::Co64Box).message(),
        "stco and co64 not found"
    );
    assert_eq!(Error::TrakNotFound(7).message(), "trak[7] not found");
    assert_eq!(Error::TrakNotFound(0).message(), "trak[0] not found");
    assert_eq!(
        Error::BoxInTrakNotFound(4294967295, BoxType::TkhdBox).message(),
        "trak[4294967295].tkhd not found"
    );
    assert_eq!(
        Error::BoxInTrafNotFound(12, BoxType::TrafBox).message(),
        "traf[12].traf not found"
    );
    assert_eq!(
        Error::BoxInStblNotFound(3, BoxType::StszBox).message(),
        "trak[3].stbl.stsz not found"
    );
    assert_eq!(
        Error::EntryInStblNotFound(1, BoxType::StszBox, 20).message(),
        "trak[1].stbl.stsz.entry[20] not found"
    );
    assert_eq!(
        Error::EntryInTrunNotFound(1, BoxType::TrunBox, 105).message(),
        "traf[1].trun.trun.entry[105] not found"
    );
    assert_eq!(
        Error::UnsupportedBoxVersion(BoxType::TfdtBox, 2).message(),
        "tfdt version 2 is not supported"
    );
    assert_eq!(Error::InvalidData("illegal track id 0").message(), "illegal track id 0");
    assert_eq!(Error::IoError.kind(), ErrorKind::IoError);
    assert!(!Error::IoError.message().is_empty());
}

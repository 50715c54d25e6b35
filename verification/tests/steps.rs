use imsz::boxes::{box_step, BoxStep};
use imsz::memory::perform;
use imsz::signature::sniff;
use imsz::{imsz, imsz_from_reader, Decoder, ImError, ImFormat, ImInfo, Reader, Request, Step};

fn jpeg_file() -> Vec<u8> {
    let mut data = b"\xff\xd8\xff\xe0\x00\x10JFIF\x00\x01\x01\x00\x00\x01\x00\x01\x00\x00".to_vec();
    data.extend_from_slice(b"\xff\xc0\x00\x11\x08\x00\x10\x00\x20\x03\x01\x22\x00\x02\x11\x01\x03\x11\x01");
    data
}

/// Runs a decoder over `data` and gives the reads that it asked for.
fn run(data: &[u8]) -> (Vec<Request>, Result<ImInfo, ImError>) {
    let mut decoder = Decoder::new();
    let mut reader = Reader::new(data);
    let mut requests = Vec::new();
    loop {
        let request = decoder.request();
        requests.push(request);
        assert!(request.len() <= 30);
        match perform(&mut reader, request) {
            None => return (requests, Err(decoder.starve())),
            Some(bytes) => match decoder.feed(bytes) {
                Step::Done(result) => return (requests, result),
                Step::Next(next) => decoder = next,
            },
        }
    }
}

#[test]
fn a_decoder_begins_with_the_preamble() {
    let decoder = Decoder::new();
    assert_eq!(decoder.request(), Request::Head { len: 30 });
    assert_eq!(decoder.format(), None);
}

#[test]
fn fixed_formats_end_with_the_preamble() {
    let (requests, result) = run(b"GIF89a\x20\x00\x10\x00");
    assert_eq!(requests, vec![Request::Head { len: 30 }]);
    assert_eq!(result.unwrap(), ImInfo { width: 32, height: 16, format: ImFormat::GIF });
    let (requests, result) = run(b"plain text");
    assert_eq!(requests, vec![Request::Head { len: 30 }]);
    assert!(matches!(result, Err(ImError::UnknownFormat)));
}

#[test]
fn jpeg_is_read_marker_by_marker() {
    let (requests, result) = run(&jpeg_file());
    assert_eq!(
        requests,
        vec![
            Request::Head { len: 30 },
            Request::Exact { at: 3, len: 1, seek: true },
            Request::Exact { at: 4, len: 2, seek: false },
            Request::Exact { at: 20, len: 1, seek: true },
            Request::Exact { at: 21, len: 1, seek: false },
            Request::Exact { at: 25, len: 4, seek: true },
        ]
    );
    assert_eq!(result.unwrap(), ImInfo { width: 32, height: 16, format: ImFormat::JPEG });
}

#[test]
fn tiff_is_read_entry_by_entry() {
    let mut data = b"MM\x00*\x00\x00\x00\x10........".to_vec();
    data.extend_from_slice(b"\x00\x03");
    data.extend_from_slice(b"\x01\x01\x00\x03\x00\x00\x00\x01\x00\x10\x00\x00");
    data.extend_from_slice(b"\x01\x02\x00\x03\x00\x00\x00\x01\x00\x08\x00\x00");
    data.extend_from_slice(b"\x01\x00\x00\x04\x00\x00\x00\x01\x00\x00\x00\x20");
    let (requests, result) = run(&data);
    assert_eq!(
        requests,
        vec![
            Request::Head { len: 30 },
            Request::Exact { at: 16, len: 2, seek: true },
            Request::Exact { at: 18, len: 2, seek: true },
            Request::Exact { at: 20, len: 2, seek: false },
            Request::Exact { at: 26, len: 2, seek: true },
            Request::Exact { at: 30, len: 2, seek: true },
            Request::Exact { at: 42, len: 2, seek: true },
            Request::Exact { at: 44, len: 2, seek: false },
            Request::Exact { at: 50, len: 4, seek: true },
        ]
    );
    assert_eq!(result.unwrap(), ImInfo { width: 32, height: 16, format: ImFormat::TIFF });
}

#[test]
fn tga_is_looked_for_at_the_end() {
    let mut data = vec![0u8; 40];
    data[2] = 2;
    data[12] = 32;
    data[14] = 16;
    data.extend_from_slice(b"TRUEVISION-XFILE.\x00");
    let (requests, result) = run(&data);
    assert_eq!(requests, vec![Request::Head { len: 30 }, Request::Tail { len: 18 }]);
    assert_eq!(result.unwrap(), ImInfo { width: 32, height: 16, format: ImFormat::TGA });
}

#[test]
fn a_read_without_seek_begins_where_the_last_ended() {
    let mut exr = b"\x76\x2f\x31\x01\x02\x00\x00\x00".to_vec();
    exr.extend_from_slice(b"a\x00b\x00\x00\x00\x00\x00c\x00d\x00\x02\x00\x00\x00..");
    exr.extend_from_slice(b"displayWindow\x00box2i\x00\x10\x00\x00\x00");
    exr.extend_from_slice(b"\x00\x00\x00\x00\x00\x00\x00\x00\x1f\x00\x00\x00\x0f\x00\x00\x00");
    let mut boxes = b"\x00\x00\x00\x0cftypavif\x00\x00\x00\x08free\x00\x00\x00\x0cfree....".to_vec();
    boxes.extend_from_slice(b"\x00\x00\x00\x30meta\x00\x00\x00\x00\x00\x00\x00\x24iprp");
    boxes.extend_from_slice(b"\x00\x00\x00\x1cipco\x00\x00\x00\x14ispe\x00\x00\x00\x00\x00\x00\x00\x20\x00\x00\x00\x10");
    let mut ico = b"\x00\x00\x01\x00\x03\x00".to_vec();
    ico.extend_from_slice(&[32, 16, 0, 0, 0, 0, 0, 0, 0, 0, 0, 0, 0, 0, 0, 0]);
    ico.extend_from_slice(&[16, 16, 0, 0, 0, 0, 0, 0, 0, 0, 0, 0, 0, 0, 0, 0]);
    ico.extend_from_slice(&[8, 8, 0, 0, 0, 0, 0, 0, 0, 0, 0, 0, 0, 0, 0, 0]);
    for data in [exr, boxes, ico, jpeg_file()] {
        let (requests, result) = run(&data);
        assert_eq!((result.as_ref().unwrap().width, result.as_ref().unwrap().height), (32, 16));
        let mut stands_at = None;
        for request in requests {
            match request {
                Request::Head { .. } => {}
                Request::Tail { .. } => stands_at = None,
                Request::Exact { at, len, seek } => {
                    if !seek {
                        assert_eq!(Some(at), stands_at);
                    }
                    stands_at = Some(at + len as u64);
                }
            }
        }
    }
}

#[test]
fn a_failing_source_ends_the_decode() {
    let failure = || std::io::Error::new(std::io::ErrorKind::Other, "no more");
    // Before the format is settled the error of the source is the result.
    let decoder = Decoder::new();
    match decoder.fail(failure()) {
        ImError::IO(error) => {
            assert_eq!(error.kind(), std::io::ErrorKind::Other);
            assert_eq!(error.to_string(), "no more");
        }
        other => panic!("{other:?}"),
    }
    assert!(matches!(decoder.starve(), ImError::UnknownFormat));
    // Once it is settled, the format's parse error is.
    let Step::Next(decoder) = Decoder::new().feed(&jpeg_file()[..30]) else {
        panic!();
    };
    assert_eq!(decoder.format(), Some(ImFormat::JPEG));
    assert!(matches!(decoder.fail(failure()), ImError::ParserError(ImFormat::JPEG)));
    assert!(matches!(decoder.starve(), ImError::ParserError(ImFormat::JPEG)));
    // The look for the footer of TGA settles the format only when it is done.
    let mut data = vec![0u8; 30];
    data[2] = 2;
    let Step::Next(decoder) = Decoder::new().feed(&data) else {
        panic!();
    };
    assert_eq!(decoder.format(), None);
    assert_eq!(decoder.request(), Request::Tail { len: 18 });
    assert!(matches!(decoder.fail(failure()), ImError::IO(_)));
    assert!(matches!(decoder.starve(), ImError::UnknownFormat));
}

#[test]
fn bytes_that_are_no_answer_end_the_decode() {
    let preamble = [b'x'; 31];
    assert!(matches!(Decoder::new().feed(&preamble), Step::Done(Err(ImError::UnknownFormat))));
    let Step::Next(decoder) = Decoder::new().feed(&jpeg_file()[..30]) else {
        panic!();
    };
    assert_eq!(decoder.request(), Request::Exact { at: 3, len: 1, seek: true });
    assert!(matches!(
        decoder.feed(b""),
        Step::Done(Err(ImError::ParserError(ImFormat::JPEG)))
    ));
    assert!(matches!(
        decoder.feed(b"\xff\xc0"),
        Step::Done(Err(ImError::ParserError(ImFormat::JPEG)))
    ));
    assert!(matches!(decoder.feed(b"\xe0"), Step::Next(_)));
}

#[test]
fn fewer_bytes_are_a_preamble_too() {
    let mut decoder = Decoder::new();
    let data = jpeg_file();
    let mut reader = Reader::new(&data);
    // A source may give less than thirty bytes at first, and the rest later.
    let mut step = decoder.feed(reader.read(5));
    let result = loop {
        match step {
            Step::Done(result) => break result,
            Step::Next(next) => decoder = next,
        }
        step = match perform(&mut reader, decoder.request()) {
            Some(bytes) => decoder.feed(bytes),
            None => Step::Done(Err(decoder.starve())),
        };
    };
    assert_eq!(result.unwrap(), ImInfo { width: 32, height: 16, format: ImFormat::JPEG });
}

#[test]
fn a_reader_is_read_from_where_it_stands() {
    let data = b"0123456789";
    let mut reader = Reader::new(data);
    assert_eq!(reader.read(4), &data[..4]);
    assert_eq!(reader.read(4), &data[4..8]);
    assert_eq!(reader.read(4), &data[8..]);
    assert_eq!(reader.read(4), b"");
    reader.seek(2);
    assert_eq!(reader.read_exact(3), Some(&data[2..5]));
    assert_eq!(reader.read_exact(5), Some(&data[5..]));
    assert_eq!(reader.read_exact(0), Some(&data[10..]));
    assert_eq!(reader.read_exact(1), None);
    reader.seek(8);
    assert_eq!(reader.read_exact(3), None);
    // A read that fails leaves the reader at its end.
    assert_eq!(reader.read(1), b"");
    reader.seek(8);
    assert_eq!(reader.read(0), b"");
    assert_eq!(reader.read(usize::MAX), &data[8..]);
    reader.seek(11);
    assert_eq!(reader.read(1), b"");
    assert_eq!(reader.read_exact(0), None);
    reader.seek(u64::MAX);
    assert_eq!(reader.read(1), b"");
    assert_eq!(reader.read_exact(1), None);
    assert!(reader.seek_from_end(3));
    assert_eq!(reader.read(30), &data[7..]);
    assert!(reader.seek_from_end(10));
    assert_eq!(reader.read_exact(10), Some(&data[..]));
    assert!(reader.seek_from_end(0));
    assert_eq!(reader.read(30), b"");
    reader.seek(4);
    assert!(!reader.seek_from_end(11));
    assert_eq!(reader.read(2), &data[4..6]);
}

#[test]
fn a_request_is_performed_on_a_reader() {
    let data = b"0123456789";
    let mut reader = Reader::new(data);
    assert_eq!(perform(&mut reader, Request::Head { len: 4 }), Some(&data[..4]));
    assert_eq!(perform(&mut reader, Request::Exact { at: 4, len: 2, seek: false }), Some(&data[4..6]));
    assert_eq!(perform(&mut reader, Request::Exact { at: 6, len: 2, seek: false }), Some(&data[6..8]));
    assert_eq!(perform(&mut reader, Request::Exact { at: 1, len: 2, seek: true }), Some(&data[1..3]));
    assert_eq!(perform(&mut reader, Request::Exact { at: 9, len: 2, seek: true }), None);
    assert_eq!(perform(&mut reader, Request::Exact { at: u64::MAX, len: 1, seek: true }), None);
    assert_eq!(perform(&mut reader, Request::Exact { at: 1, len: usize::MAX, seek: true }), None);
    assert_eq!(perform(&mut reader, Request::Tail { len: 3 }), Some(&data[7..]));
    assert_eq!(perform(&mut reader, Request::Tail { len: 10 }), Some(&data[..]));
    assert_eq!(perform(&mut reader, Request::Tail { len: 11 }), None);
    assert_eq!(perform(&mut reader, Request::Head { len: 30 }), Some(&data[10..]));
}

#[test]
fn a_reader_is_decoded_from_where_it_stands() {
    let expected = ImInfo { width: 32, height: 16, format: ImFormat::GIF };
    let mut reader = Reader::new(b"GIF89a\x20\x00\x10\x00");
    assert_eq!(imsz_from_reader(&mut reader).unwrap(), expected);
    // The first read is made where the reader stands.
    let mut reader = Reader::new(b"....GIF89a\x20\x00\x10\x00");
    assert!(matches!(imsz_from_reader(&mut reader), Err(ImError::UnknownFormat)));
    reader.seek(4);
    assert_eq!(imsz_from_reader(&mut reader).unwrap(), expected);
    reader.seek(5);
    assert!(matches!(imsz_from_reader(&mut reader), Err(ImError::UnknownFormat)));
    // Every other read is made at its place in the source.
    let mut data = jpeg_file();
    let mut reader = Reader::new(&data);
    assert_eq!(
        imsz_from_reader(&mut reader).unwrap(),
        ImInfo { width: 32, height: 16, format: ImFormat::JPEG }
    );
    // A reader that stands behind three other bytes gives the preamble from
    // there, and the bytes of the scan from the third byte of the source.
    data.splice(0..0, *b"...");
    let mut reader = Reader::new(&data);
    reader.seek(3);
    assert!(matches!(imsz_from_reader(&mut reader), Err(ImError::ParserError(ImFormat::JPEG))));
    assert_eq!(
        imsz(&data[3..]).unwrap(),
        ImInfo { width: 32, height: 16, format: ImFormat::JPEG }
    );
}

#[test]
fn the_driven_decode_is_the_decode() {
    let files: [&[u8]; 6] = [
        b"GIF89a\x20\x00\x10\x00",
        b"\xff\xd8\xff\xc0\x00\x11\x08\x00\x10\x00\x20",
        b"\xff\xd8\xff\xc0\x00\x11\x08\x00\x10",
        b"\x00\x00\x00\x0cftypheic\x00\x00\x00\x14meta....\x00\x00\x00\x08iprp",
        b"II*\x00\x08\x00\x00\x00\x00\x00",
        b"",
    ];
    for file in files {
        let (_, driven) = run(file);
        match (driven, imsz(file)) {
            (Ok(a), Ok(b)) => assert_eq!(a, b),
            (Err(ImError::UnknownFormat), Err(ImError::UnknownFormat)) => {}
            (Err(ImError::ParserError(a)), Err(ImError::ParserError(b))) => assert_eq!(a, b),
            (a, b) => panic!("{a:?} and {b:?}"),
        }
    }
}

#[test]
fn a_box_header_is_read_against_a_budget() {
    assert_eq!(box_step(b"\x00\x00\x00\x14meta", b"meta", 0), BoxStep::Found { size: 20 });
    assert_eq!(box_step(b"\x00\x00\x00\x08meta", b"meta", 0), BoxStep::Found { size: 8 });
    assert_eq!(box_step(b"\xff\xff\xff\xffmeta", b"meta", 0), BoxStep::Found { size: u32::MAX });
    assert_eq!(
        box_step(b"\x00\x00\x00\x14free", b"meta", 20),
        BoxStep::Skip { size: 20, budget: 0 }
    );
    assert_eq!(
        box_step(b"\x00\x00\x00\x14free", b"meta", 100),
        BoxStep::Skip { size: 20, budget: 80 }
    );
    assert_eq!(
        box_step(b"\x00\x00\x01\x00free", b"meta", u64::MAX),
        BoxStep::Skip { size: 256, budget: u64::MAX - 256 }
    );
    assert_eq!(box_step(b"\x00\x00\x00\x14free", b"meta", 19), BoxStep::Malformed);
    assert_eq!(box_step(b"\x00\x00\x00\x08free", b"meta", 7), BoxStep::Malformed);
    assert_eq!(box_step(b"\x00\x00\x00\x07meta", b"meta", 100), BoxStep::Malformed);
    assert_eq!(box_step(b"\x00\x00\x00\x00meta", b"meta", 100), BoxStep::Malformed);
    assert_eq!(box_step(b"\x00\x00\x00\x07free", b"meta", 100), BoxStep::Malformed);
    assert_eq!(box_step(b"\x00\x00\x00\x14met", b"meta", 100), BoxStep::Malformed);
    assert_eq!(box_step(b"", b"meta", 100), BoxStep::Malformed);
    // The budget is what is left of the box around, and falls from box to box.
    let mut budget = 36;
    for _ in 0..3 {
        match box_step(b"\x00\x00\x00\x0cfree", b"ispe", budget) {
            BoxStep::Skip { size: 12, budget: left } => budget = left,
            other => panic!("{other:?}"),
        }
    }
    assert_eq!(budget, 0);
    assert_eq!(box_step(b"\x00\x00\x00\x0cfree", b"ispe", budget), BoxStep::Malformed);
    assert_eq!(box_step(b"\x00\x00\x00\x0cispe", b"ispe", budget), BoxStep::Found { size: 12 });
}

#[test]
fn signatures_by_their_bytes() {
    let heads: [(&[u8], Option<ImFormat>); 24] = [
        (b"GIF87a", Some(ImFormat::GIF)),
        (b"GIF89a", Some(ImFormat::GIF)),
        (b"GIF89", None),
        (b"\x89PNG\r\n\x1a\n", Some(ImFormat::PNG)),
        (b"\x89PNG\r\n\x1a", None),
        (b"BM....\x00\x00\x00\x00", Some(ImFormat::BMP)),
        (b"BM....\x00\x00\x00\x01", None),
        (b"BM....\x00\x00\x00", None),
        (b"\xff\xd8\xff", Some(ImFormat::JPEG)),
        (b"\xff\xd8", None),
        (b"RIFF....WEBPVP8 ..............", Some(ImFormat::WEBP)),
        (b"RIFF....WEBPVP8 .............", None),
        (b"....ftypavif", Some(ImFormat::AVIF)),
        (b"....ftypheic", Some(ImFormat::HEIF)),
        (b"....ftypheix", None),
        (b"\x00\x00\x00\x0cjP  \r\n\x87\n....ftypjp2 ", Some(ImFormat::JP2K)),
        (b"II*\x00....", Some(ImFormat::TIFF)),
        (b"MM\x00*....", Some(ImFormat::TIFF)),
        (b"MM*\x00....", None),
        (b"II*\x00...", None),
        (b"qoif..........", Some(ImFormat::QOI)),
        (b"qoif.........", None),
        (b"8BPS\x00\x01\x00\x00\x00\x00\x00\x00..........", Some(ImFormat::PSD)),
        (b"gimp xcf file\x00........", Some(ImFormat::XCF)),
    ];
    for (head, expected) in heads {
        assert_eq!(sniff(head), expected, "{head:?}");
    }
    assert_eq!(sniff(b"8BPS\x00\x02\x00\x00\x00\x00\x00\x00.........."), None);
    assert_eq!(sniff(b"gimp xcf file.........."), None);
    assert_eq!(sniff(b"\x00\x00\x01\x00\x01\x00"), Some(ImFormat::ICO));
    assert_eq!(sniff(b"\x00\x00\x01\x00\x01"), None);
    assert_eq!(sniff(b"\x76\x2f\x31\x01\x02\x00\x00\x00\x00"), Some(ImFormat::OpenEXR));
    assert_eq!(sniff(b"\x76\x2f\x31\x01\x02\x00\x00\x00"), None);
    let mut head = [0u8; 30];
    head[2] = 2;
    assert_eq!(sniff(&head), Some(ImFormat::TGA));
    assert_eq!(sniff(&head[..29]), None);
}

use imsz::foreign::{report, report_with, w, Report};
use imsz::{ImError, ImFormat, ImInfo, ImResult};

#[test]
fn dimensions_are_reported_with_status_zero() {
    let result: ImResult<ImInfo> = Ok(ImInfo { width: 32, height: 16, format: ImFormat::PNG });
    let expected = Report { status: 0, format: Some(2), width: Some(32), height: Some(16) };
    assert_eq!(report(&result), expected);
    assert_eq!(report_with(&result, None), expected);
    assert_eq!(report_with(&result, Some(5)), expected);
}

#[test]
fn a_malformed_file_is_reported_with_its_format() {
    let result: ImResult<ImInfo> = Err(ImError::ParserError(ImFormat::JP2K));
    let expected = Report { status: -2, format: Some(17), width: None, height: None };
    assert_eq!(report(&result), expected);
    assert_eq!(report_with(&result, Some(5)), expected);
}

#[test]
fn an_unknown_format_is_reported_alone() {
    let result: ImResult<ImInfo> = Err(ImError::UnknownFormat);
    let expected = Report { status: -3, format: None, width: None, height: None };
    assert_eq!(report(&result), expected);
    assert_eq!(report_with(&result, Some(5)), expected);
}

#[test]
fn a_failure_of_the_source_is_reported_with_its_number() {
    let result: ImResult<ImInfo> = Err(ImError::IO(std::io::Error::from_raw_os_error(2)));
    let expected = Report { status: 2, format: None, width: None, height: None };
    assert_eq!(report(&result), expected);
    assert_eq!(report_with(&result, Some(2)), expected);
    assert_eq!(report_with(&result, None).status, -1);
    let result: ImResult<ImInfo> =
        Err(ImError::IO(std::io::Error::new(std::io::ErrorKind::Other, "no number")));
    let expected = Report { status: -1, format: None, width: None, height: None };
    assert_eq!(report(&result), expected);
    assert_eq!(report_with(&result, Some(13)).status, 13);
}

#[test]
fn errors_in_words() {
    assert_eq!(ImError::UnknownFormat.message(), "Unknown Format");
    assert_eq!(ImError::ParserError(ImFormat::GIF).message(), "Error parsing GIF image");
    assert_eq!(ImError::ParserError(ImFormat::WEBP).message(), "Error parsing WebP image");
    assert_eq!(ImError::ParserError(ImFormat::JP2K).message(), "Error parsing JPEG 2000 image");
    let error = std::io::Error::new(std::io::ErrorKind::NotFound, "nothing there");
    let text = error.to_string();
    assert_eq!(ImError::IO(error).message(), text);
    assert_eq!(ImError::from(std::io::Error::new(std::io::ErrorKind::Other, "so")).message(), "so");
    assert!(matches!(
        ImError::from(std::io::Error::from_raw_os_error(2)),
        ImError::IO(error) if error.raw_os_error() == Some(2)
    ));
}

#[test]
fn text_in_wide_units() {
    assert_eq!(w(b"GIF\0"), [0x47u16, 0x49, 0x46, 0]);
    assert_eq!(w(b"(unknown)\0"), [0x28u16, 0x75, 0x6e, 0x6b, 0x6e, 0x6f, 0x77, 0x6e, 0x29, 0]);
    assert_eq!(w(b""), [0u16; 0]);
    assert_eq!(w(&[0xffu8, 0x80, 0x7f]), [0xffu16, 0x80, 0x7f]);
}

use imsz::ImFormat;

#[test]
fn fmt_debug() {
    let data = [
        (ImFormat::GIF,     "GIF"),
        (ImFormat::PNG,     "PNG"),
        (ImFormat::BMP,     "BMP"),
        (ImFormat::JPEG,    "JPEG"),
        (ImFormat::WEBP,    "WEBP"),
        (ImFormat::QOI,     "QOI"),
        (ImFormat::PSD,     "PSD"),
        (ImFormat::XCF,     "XCF"),
        (ImFormat::ICO,     "ICO"),
        (ImFormat::AVIF,    "AVIF"),
        (ImFormat::TIFF,    "TIFF"),
        (ImFormat::OpenEXR, "OpenEXR"),
        (ImFormat::PCX,     "PCX"),
        (ImFormat::TGA,     "TGA"),
        (ImFormat::DDS,     "DDS"),
        (ImFormat::HEIF,    "HEIF"),
        (ImFormat::JP2K,    "JP2K"),
        (ImFormat::DIB,     "DIB"),
        (ImFormat::VTF,     "VTF"),
        (ImFormat::ILBM,    "ILBM"),
    ];
    for (format, expected) in data {
        let actual = format!("{format:?}");
        assert_eq!(&actual, expected);
    }
}

#[test]
fn fmt_display() {
    let data = [
        (ImFormat::GIF,     "GIF"),
        (ImFormat::PNG,     "PNG"),
        (ImFormat::BMP,     "BMP"),
        (ImFormat::JPEG,    "JPEG"),
        (ImFormat::WEBP,    "WebP"),
        (ImFormat::QOI,     "QOI"),
        (ImFormat::PSD,     "PSD"),
        (ImFormat::XCF,     "XCF"),
        (ImFormat::ICO,     "ICO"),
        (ImFormat::AVIF,    "AVIF"),
        (ImFormat::TIFF,    "TIFF"),
        (ImFormat::OpenEXR, "OpenEXR"),
        (ImFormat::PCX,     "PCX"),
        (ImFormat::TGA,     "TGA"),
        (ImFormat::DDS,     "DDS"),
        (ImFormat::HEIF,    "HEIF"),
        (ImFormat::JP2K,    "JPEG 2000"),
        (ImFormat::DIB,     "DIB"),
        (ImFormat::VTF,     "VTF"),
        (ImFormat::ILBM,    "ILBM"),
    ];
    for (format, expected) in data {
        let actual = format.name().to_string();
        assert_eq!(&actual, expected);
    }
}

#[test]
fn heic_is_another_name_of_heif() {
    assert_eq!(ImFormat::HEIC, ImFormat::HEIF);
    assert_eq!(ImFormat::HEIC.name(), "HEIF");
}

#[test]
fn codes_are_stable() {
    let data = [
        (ImFormat::GIF, 1),
        (ImFormat::PNG, 2),
        (ImFormat::BMP, 3),
        (ImFormat::JPEG, 4),
        (ImFormat::WEBP, 5),
        (ImFormat::QOI, 6),
        (ImFormat::PSD, 7),
        (ImFormat::XCF, 8),
        (ImFormat::ICO, 9),
        (ImFormat::AVIF, 10),
        (ImFormat::TIFF, 11),
        (ImFormat::OpenEXR, 12),
        (ImFormat::PCX, 13),
        (ImFormat::TGA, 14),
        (ImFormat::DDS, 15),
        (ImFormat::HEIF, 16),
        (ImFormat::JP2K, 17),
        (ImFormat::DIB, 18),
        (ImFormat::VTF, 19),
        (ImFormat::ILBM, 20),
    ];
    for (format, code) in data {
        assert_eq!(format.code(), code);
        assert_eq!(ImFormat::from_code(code), Some(format));
        assert_eq!(imsz::format::format_name(code), format.name());
    }
}

#[test]
fn numbers_without_a_format_have_the_unknown_name() {
    assert_eq!(ImFormat::from_code(0), None);
    assert_eq!(ImFormat::from_code(21), None);
    assert_eq!(ImFormat::from_code(u32::MAX), None);
    assert_eq!(imsz::format::format_name(0), "(unknown)");
    assert_eq!(imsz::format::format_name(21), "(unknown)");
    assert_eq!(imsz::format::format_name(u32::MAX), "(unknown)");
}

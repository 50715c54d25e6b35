//! The signatures by which the formats are told apart, and the order in which
//! they are tried.

use crate::bytes::{has_at, le32, lemma_has_at, matches_at, u32_le};
use crate::format::ImFormat;
use vstd::prelude::*;

verus! {

/// The number of leading bytes that are looked at before anything else is read.
pub const PREAMBLE_LEN: usize = 30;

/// `GIF87a`
pub const GIF87A: [u8; 6] = [0x47, 0x49, 0x46, 0x38, 0x37, 0x61];

/// `GIF89a`
pub const GIF89A: [u8; 6] = [0x47, 0x49, 0x46, 0x38, 0x39, 0x61];

/// `\x89PNG\r\n\x1a\n`
pub const PNG_SIGNATURE: [u8; 8] = [0x89, 0x50, 0x4E, 0x47, 0x0D, 0x0A, 0x1A, 0x0A];

/// `BM`
pub const BMP_SIGNATURE: [u8; 2] = [0x42, 0x4D];

/// The four reserved bytes of a bitmap file header.
pub const BMP_RESERVED: [u8; 4] = [0x00, 0x00, 0x00, 0x00];

/// The start-of-image marker.
pub const JPEG_SIGNATURE: [u8; 2] = [0xFF, 0xD8];

/// `RIFF`
pub const RIFF: [u8; 4] = [0x52, 0x49, 0x46, 0x46];

/// `WEBP`
pub const WEBP: [u8; 4] = [0x57, 0x45, 0x42, 0x50];

/// `ftypavif`
pub const FTYP_AVIF: [u8; 8] = [0x66, 0x74, 0x79, 0x70, 0x61, 0x76, 0x69, 0x66];

/// `ftypheic`
pub const FTYP_HEIC: [u8; 8] = [0x66, 0x74, 0x79, 0x70, 0x68, 0x65, 0x69, 0x63];

/// The signature box of JPEG 2000: its length, `jP  ` and `\r\n\x87\n`.
pub const JP2_SIGNATURE: [u8; 12] = [
    0x00,
    0x00,
    0x00,
    0x0C,
    0x6A,
    0x50,
    0x20,
    0x20,
    0x0D,
    0x0A,
    0x87,
    0x0A,
];

/// `ftypjp2 `
pub const FTYP_JP2: [u8; 8] = [0x66, 0x74, 0x79, 0x70, 0x6A, 0x70, 0x32, 0x20];

/// `II*\0`: TIFF with the lowest byte first.
pub const TIFF_LITTLE: [u8; 4] = [0x49, 0x49, 0x2A, 0x00];

/// `MM\0*`: TIFF with the highest byte first.
pub const TIFF_BIG: [u8; 4] = [0x4D, 0x4D, 0x00, 0x2A];

/// `qoif`
pub const QOI_SIGNATURE: [u8; 4] = [0x71, 0x6F, 0x69, 0x66];

/// `8BPS`, version 1 and six reserved bytes.
pub const PSD_SIGNATURE: [u8; 12] = [
    0x38,
    0x42,
    0x50,
    0x53,
    0x00,
    0x01,
    0x00,
    0x00,
    0x00,
    0x00,
    0x00,
    0x00,
];

/// `gimp xcf `
pub const XCF_SIGNATURE: [u8; 9] = [0x67, 0x69, 0x6D, 0x70, 0x20, 0x78, 0x63, 0x66, 0x20];

/// Two reserved bytes and the type of an icon.
pub const ICO_SIGNATURE: [u8; 4] = [0x00, 0x00, 0x01, 0x00];

/// The magic number of OpenEXR.
pub const EXR_SIGNATURE: [u8; 4] = [0x76, 0x2F, 0x31, 0x01];

/// `DDS ` and the length of the header, 124.
pub const DDS_SIGNATURE: [u8; 8] = [0x44, 0x44, 0x53, 0x20, 0x7C, 0x00, 0x00, 0x00];

pub open spec fn is_gif(p: Seq<u8>) -> bool {
    has_at(p, 0, GIF87A@) || has_at(p, 0, GIF89A@)
}

pub open spec fn is_png(p: Seq<u8>) -> bool {
    has_at(p, 0, PNG_SIGNATURE@)
}

pub open spec fn is_bmp(p: Seq<u8>) -> bool {
    has_at(p, 0, BMP_SIGNATURE@) && has_at(p, 6, BMP_RESERVED@)
}

pub open spec fn is_jpeg(p: Seq<u8>) -> bool {
    p.len() >= 3 && has_at(p, 0, JPEG_SIGNATURE@)
}

pub open spec fn is_webp(p: Seq<u8>) -> bool {
    p.len() >= 30 && has_at(p, 0, RIFF@) && has_at(p, 8, WEBP@)
}

pub open spec fn is_avif(p: Seq<u8>) -> bool {
    has_at(p, 4, FTYP_AVIF@)
}

pub open spec fn is_heic(p: Seq<u8>) -> bool {
    has_at(p, 4, FTYP_HEIC@)
}

pub open spec fn is_jp2k(p: Seq<u8>) -> bool {
    has_at(p, 0, JP2_SIGNATURE@) && has_at(p, 16, FTYP_JP2@)
}

pub open spec fn is_tiff(p: Seq<u8>) -> bool {
    p.len() >= 8 && (has_at(p, 0, TIFF_LITTLE@) || has_at(p, 0, TIFF_BIG@))
}

pub open spec fn is_qoi(p: Seq<u8>) -> bool {
    p.len() >= 14 && has_at(p, 0, QOI_SIGNATURE@)
}

pub open spec fn is_psd(p: Seq<u8>) -> bool {
    p.len() >= 22 && has_at(p, 0, PSD_SIGNATURE@)
}

pub open spec fn is_xcf(p: Seq<u8>) -> bool {
    p.len() >= 22 && has_at(p, 0, XCF_SIGNATURE@) && p[13] == 0
}

pub open spec fn is_ico(p: Seq<u8>) -> bool {
    p.len() >= 6 && has_at(p, 0, ICO_SIGNATURE@)
}

pub open spec fn is_exr(p: Seq<u8>) -> bool {
    p.len() > 8 && has_at(p, 0, EXR_SIGNATURE@) && (p[4] == 1 || p[4] == 2)
}

pub open spec fn is_pcx(p: Seq<u8>) -> bool {
    p.len() >= 30 && p[0] == 0x0A && p[1] < 6 && (p[3] == 1 || p[3] == 2 || p[3] == 4 || p[3]
        == 8)
}

/// One of the flags for capabilities (1), height (2), width (4) and pixel
/// format (0x1000) is set in `flags`.
pub open spec fn dds_flags_set(flags: int) -> bool {
    flags % 8 != 0 || (flags / 0x1000) % 2 != 0
}

pub open spec fn is_dds(p: Seq<u8>) -> bool {
    p.len() >= 30 && has_at(p, 0, DDS_SIGNATURE@) && dds_flags_set(u32_le(p, 8))
}

/// What the head of a TGA file admits. The format has no signature at its
/// start: whether the file is one shows at its end only.
pub open spec fn may_be_tga(p: Seq<u8>) -> bool {
    p.len() >= 30 && p[1] < 2 && p[2] < 12
}

/// The format whose signature the preamble `p` bears: the first in the order
/// below that matches. `TGA` says no more than that the end of the file is
/// worth a look.
pub open spec fn signature_of(p: Seq<u8>) -> Option<ImFormat> {
    if is_gif(p) {
        Some(ImFormat::GIF)
    } else if is_png(p) {
        Some(ImFormat::PNG)
    } else if is_bmp(p) {
        Some(ImFormat::BMP)
    } else if is_jpeg(p) {
        Some(ImFormat::JPEG)
    } else if is_webp(p) {
        Some(ImFormat::WEBP)
    } else if is_avif(p) {
        Some(ImFormat::AVIF)
    } else if is_heic(p) {
        Some(ImFormat::HEIF)
    } else if is_jp2k(p) {
        Some(ImFormat::JP2K)
    } else if is_tiff(p) {
        Some(ImFormat::TIFF)
    } else if is_qoi(p) {
        Some(ImFormat::QOI)
    } else if is_psd(p) {
        Some(ImFormat::PSD)
    } else if is_xcf(p) {
        Some(ImFormat::XCF)
    } else if is_ico(p) {
        Some(ImFormat::ICO)
    } else if is_exr(p) {
        Some(ImFormat::OpenEXR)
    } else if is_pcx(p) {
        Some(ImFormat::PCX)
    } else if is_dds(p) {
        Some(ImFormat::DDS)
    } else if may_be_tga(p) {
        Some(ImFormat::TGA)
    } else {
        None
    }
}

/// The preamble `p` bears the signature of `format`. Of TGA it bears what
/// the head of such a file admits; of the formats that are only kept by
/// number and name it bears nothing.
pub open spec fn bears(p: Seq<u8>, format: ImFormat) -> bool {
    match format {
        ImFormat::GIF => is_gif(p),
        ImFormat::PNG => is_png(p),
        ImFormat::BMP => is_bmp(p),
        ImFormat::JPEG => is_jpeg(p),
        ImFormat::WEBP => is_webp(p),
        ImFormat::AVIF => is_avif(p),
        ImFormat::HEIF => is_heic(p),
        ImFormat::JP2K => is_jp2k(p),
        ImFormat::TIFF => is_tiff(p),
        ImFormat::QOI => is_qoi(p),
        ImFormat::PSD => is_psd(p),
        ImFormat::XCF => is_xcf(p),
        ImFormat::ICO => is_ico(p),
        ImFormat::OpenEXR => is_exr(p),
        ImFormat::PCX => is_pcx(p),
        ImFormat::DDS => is_dds(p),
        ImFormat::TGA => may_be_tga(p),
        _ => false,
    }
}

/// The place of `format` in the order in which the signatures are tried.
pub open spec fn turn_of(format: ImFormat) -> int {
    match format {
        ImFormat::GIF => 0,
        ImFormat::PNG => 1,
        ImFormat::BMP => 2,
        ImFormat::JPEG => 3,
        ImFormat::WEBP => 4,
        ImFormat::AVIF => 5,
        ImFormat::HEIF => 6,
        ImFormat::JP2K => 7,
        ImFormat::TIFF => 8,
        ImFormat::QOI => 9,
        ImFormat::PSD => 10,
        ImFormat::XCF => 11,
        ImFormat::ICO => 12,
        ImFormat::OpenEXR => 13,
        ImFormat::PCX => 14,
        ImFormat::DDS => 15,
        ImFormat::TGA => 16,
        _ => 17,
    }
}

/// The formats whose signatures are looked for, in the order in which they
/// are tried.
pub const ORDER: [ImFormat; 17] = [
    ImFormat::GIF,
    ImFormat::PNG,
    ImFormat::BMP,
    ImFormat::JPEG,
    ImFormat::WEBP,
    ImFormat::AVIF,
    ImFormat::HEIF,
    ImFormat::JP2K,
    ImFormat::TIFF,
    ImFormat::QOI,
    ImFormat::PSD,
    ImFormat::XCF,
    ImFormat::ICO,
    ImFormat::OpenEXR,
    ImFormat::PCX,
    ImFormat::DDS,
    ImFormat::TGA,
];

/// Tells whether the preamble bears the signature of `format`.
pub fn bears_signature(p: &[u8], format: ImFormat) -> (r: bool)
    ensures
        r == bears(p@, format),
{
    let n = p.len();
    match format {
        ImFormat::GIF => matches_at(p, 0, &GIF87A) || matches_at(p, 0, &GIF89A),
        ImFormat::PNG => matches_at(p, 0, &PNG_SIGNATURE),
        ImFormat::BMP => matches_at(p, 0, &BMP_SIGNATURE) && matches_at(p, 6, &BMP_RESERVED),
        ImFormat::JPEG => n >= 3 && matches_at(p, 0, &JPEG_SIGNATURE),
        ImFormat::WEBP => n >= 30 && matches_at(p, 0, &RIFF) && matches_at(p, 8, &WEBP),
        ImFormat::AVIF => matches_at(p, 4, &FTYP_AVIF),
        ImFormat::HEIF => matches_at(p, 4, &FTYP_HEIC),
        ImFormat::JP2K => matches_at(p, 0, &JP2_SIGNATURE) && matches_at(p, 16, &FTYP_JP2),
        ImFormat::TIFF => n >= 8 && (matches_at(p, 0, &TIFF_LITTLE) || matches_at(
            p,
            0,
            &TIFF_BIG,
        )),
        ImFormat::QOI => n >= 14 && matches_at(p, 0, &QOI_SIGNATURE),
        ImFormat::PSD => n >= 22 && matches_at(p, 0, &PSD_SIGNATURE),
        ImFormat::XCF => n >= 22 && matches_at(p, 0, &XCF_SIGNATURE) && p[13] == 0,
        ImFormat::ICO => n >= 6 && matches_at(p, 0, &ICO_SIGNATURE),
        ImFormat::OpenEXR => n > 8 && matches_at(p, 0, &EXR_SIGNATURE) && (p[4] == 1 || p[4]
            == 2),
        ImFormat::PCX => n >= 30 && p[0] == 0x0A && p[1] < 6 && (p[3] == 1 || p[3] == 2 || p[3]
            == 4 || p[3] == 8),
        ImFormat::DDS => {
            if n >= 30 && matches_at(p, 0, &DDS_SIGNATURE) {
                let flags = le32(p, 8);
                flags % 8 != 0 || (flags / 0x1000) % 2 != 0
            } else {
                false
            }
        },
        ImFormat::TGA => n >= 30 && p[1] < 2 && p[2] < 12,
        _ => false,
    }
}

/// Tells which signature the preamble bears, trying them in their fixed order.
pub fn sniff(p: &[u8]) -> (r: Option<ImFormat>)
    ensures
        r == signature_of(p@),
{
    let mut turn: usize = 0;
    while turn < 17
        invariant
            turn <= 17,
            forall|i: int| 0 <= i < turn ==> !bears(p@, #[trigger] ORDER@[i]),
        decreases 17 - turn,
    {
        let format = ORDER[turn];
        if bears_signature(p, format) {
            proof {
                lemma_order(format);
                assert forall|other: ImFormat| turn_of(other) < turn_of(format) implies !#[trigger] bears(
                    p@,
                    other,
                ) by {
                    lemma_order(other);
                    assert(!bears(p@, ORDER@[turn_of(other)]));
                }
                lemma_first_match_wins(p@, format);
            }
            return Some(format);
        }
        turn += 1;
    }
    proof {
        assert forall|other: ImFormat| !#[trigger] bears(p@, other) by {
            lemma_order(other);
            if turn_of(other) < 17 {
                assert(!bears(p@, ORDER@[turn_of(other)]));
            }
        }
        lemma_first_match_wins(p@, ImFormat::GIF);
    }
    None
}

/// Every format that is looked for stands in the order at its turn, and
/// nothing else stands there.
pub proof fn lemma_order(format: ImFormat)
    ensures
        0 <= turn_of(format) <= 17,
        turn_of(format) < 17 ==> ORDER@[turn_of(format)] == format,
        forall|i: int| 0 <= i < 17 ==> turn_of(#[trigger] ORDER@[i]) == i,
{
}

/// The first match wins: the signature that a preamble is taken to bear is
/// one that it bears, and it bears none of those that are tried before.
/// A preamble is taken to bear none exactly if it bears none.
pub proof fn lemma_first_match_wins(p: Seq<u8>, format: ImFormat)
    ensures
        signature_of(p) == Some(format) <==> bears(p, format) && forall|other: ImFormat|
            turn_of(other) < turn_of(format) ==> !#[trigger] bears(p, other),
        signature_of(p) is None <==> forall|other: ImFormat| !#[trigger] bears(p, other),
{
    if signature_of(p) == Some(format) {
        assert forall|other: ImFormat| turn_of(other) < turn_of(format) implies !#[trigger] bears(
            p,
            other,
        ) by {}
    }
    if bears(p, format) && forall|other: ImFormat|
        turn_of(other) < turn_of(format) ==> !#[trigger] bears(p, other) {
        assert(!bears(p, ImFormat::GIF) || format == ImFormat::GIF);
        assert(!bears(p, ImFormat::PNG) || turn_of(format) <= 1);
        assert(!bears(p, ImFormat::BMP) || turn_of(format) <= 2);
        assert(!bears(p, ImFormat::JPEG) || turn_of(format) <= 3);
        assert(!bears(p, ImFormat::WEBP) || turn_of(format) <= 4);
        assert(!bears(p, ImFormat::AVIF) || turn_of(format) <= 5);
        assert(!bears(p, ImFormat::HEIF) || turn_of(format) <= 6);
        assert(!bears(p, ImFormat::JP2K) || turn_of(format) <= 7);
        assert(!bears(p, ImFormat::TIFF) || turn_of(format) <= 8);
        assert(!bears(p, ImFormat::QOI) || turn_of(format) <= 9);
        assert(!bears(p, ImFormat::PSD) || turn_of(format) <= 10);
        assert(!bears(p, ImFormat::XCF) || turn_of(format) <= 11);
        assert(!bears(p, ImFormat::ICO) || turn_of(format) <= 12);
        assert(!bears(p, ImFormat::OpenEXR) || turn_of(format) <= 13);
        assert(!bears(p, ImFormat::PCX) || turn_of(format) <= 14);
        assert(!bears(p, ImFormat::DDS) || turn_of(format) <= 15);
    }
    if signature_of(p) is None {
        assert forall|other: ImFormat| !#[trigger] bears(p, other) by {}
    }
    if forall|other: ImFormat| !#[trigger] bears(p, other) {
        assert(!bears(p, ImFormat::GIF) && !bears(p, ImFormat::PNG) && !bears(p, ImFormat::BMP)
            && !bears(p, ImFormat::JPEG) && !bears(p, ImFormat::WEBP) && !bears(
            p,
            ImFormat::AVIF,
        ) && !bears(p, ImFormat::HEIF) && !bears(p, ImFormat::JP2K) && !bears(p, ImFormat::TIFF)
            && !bears(p, ImFormat::QOI) && !bears(p, ImFormat::PSD) && !bears(p, ImFormat::XCF)
            && !bears(p, ImFormat::ICO) && !bears(p, ImFormat::OpenEXR) && !bears(
            p,
            ImFormat::PCX,
        ) && !bears(p, ImFormat::DDS) && !bears(p, ImFormat::TGA));
    }
}

/// A preamble of fewer than three bytes bears no signature at all.
pub proof fn lemma_short_is_unknown(p: Seq<u8>)
    requires
        p.len() < 3,
    ensures
        signature_of(p) is None,
{
    lemma_has_at(p, 0, BMP_SIGNATURE@);
    lemma_has_at(p, 6, BMP_RESERVED@);
}

} // verus!

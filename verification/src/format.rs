//! The container formats that can be told apart, their numbers and their names.

use vstd::prelude::*;

verus! {

/// A container format.
///
/// Every format has a number, which stays the same for good and stands for the
/// format wherever a plain integer has to be handed on, and a name for people to
/// read.
#[non_exhaustive]
#[derive(Debug, Clone, Copy, PartialEq, Eq, Structural)]
pub enum ImFormat {
    /// Graphics Interchange Format, in the versions GIF87a and GIF89a.
    GIF,
    /// Portable Network Graphics. The first chunk has to be `IHDR`.
    PNG,
    /// Windows Bitmap, with the short header of Windows 2.0 or a later, longer one.
    BMP,
    /// Joint Photographic Experts Group files.
    JPEG,
    /// WebP, in the sub-formats `VP8 `, `VP8L` and `VP8X`.
    WEBP,
    /// Quite OK Image format.
    QOI,
    /// Adobe Photoshop files.
    PSD,
    /// GIMP files.
    XCF,
    /// Icon files. Of the images in the file the dimensions of the biggest are given.
    ICO,
    /// AV1 Image File Format.
    AVIF,
    /// Tag Image File Format, in either byte order.
    TIFF,
    /// OpenEXR files.
    OpenEXR,
    /// PiCture eXchange files.
    PCX,
    /// Truevision TGA, recognised by the optional footer at the end of the file only.
    TGA,
    /// DirectDraw Surface files.
    DDS,
    /// High Efficiency Image File Format with the brand `heic`.
    HEIF,
    /// JPEG 2000.
    JP2K,
    /// Device independent bitmap. The number and the name are kept; no signature is looked for.
    DIB,
    /// Valve Texture Format. The number and the name are kept; no signature is looked for.
    VTF,
    /// Interleaved Bitmap. The number and the name are kept; no signature is looked for.
    ILBM,
}

/// The name given to a number that stands for no format.
pub open spec fn unknown_name() -> Seq<char> {
    "(unknown)"@
}

impl ImFormat {
    /// The brand under which HEIF files are mostly met.
    pub const HEIC: ImFormat = ImFormat::HEIF;

    /// The number that stands for the format.
    pub open spec fn code_of(self) -> int {
        match self {
            ImFormat::GIF => 1,
            ImFormat::PNG => 2,
            ImFormat::BMP => 3,
            ImFormat::JPEG => 4,
            ImFormat::WEBP => 5,
            ImFormat::QOI => 6,
            ImFormat::PSD => 7,
            ImFormat::XCF => 8,
            ImFormat::ICO => 9,
            ImFormat::AVIF => 10,
            ImFormat::TIFF => 11,
            ImFormat::OpenEXR => 12,
            ImFormat::PCX => 13,
            ImFormat::TGA => 14,
            ImFormat::DDS => 15,
            ImFormat::HEIF => 16,
            ImFormat::JP2K => 17,
            ImFormat::DIB => 18,
            ImFormat::VTF => 19,
            ImFormat::ILBM => 20,
        }
    }

    /// The name of the format as people write it.
    pub open spec fn name_of(self) -> Seq<char> {
        match self {
            ImFormat::GIF => "GIF"@,
            ImFormat::PNG => "PNG"@,
            ImFormat::BMP => "BMP"@,
            ImFormat::JPEG => "JPEG"@,
            ImFormat::WEBP => "WebP"@,
            ImFormat::QOI => "QOI"@,
            ImFormat::PSD => "PSD"@,
            ImFormat::XCF => "XCF"@,
            ImFormat::ICO => "ICO"@,
            ImFormat::AVIF => "AVIF"@,
            ImFormat::TIFF => "TIFF"@,
            ImFormat::OpenEXR => "OpenEXR"@,
            ImFormat::PCX => "PCX"@,
            ImFormat::TGA => "TGA"@,
            ImFormat::DDS => "DDS"@,
            ImFormat::HEIF => "HEIF"@,
            ImFormat::JP2K => "JPEG 2000"@,
            ImFormat::DIB => "DIB"@,
            ImFormat::VTF => "VTF"@,
            ImFormat::ILBM => "ILBM"@,
        }
    }

    /// The format that a number stands for, if it stands for one.
    pub open spec fn of_code(code: int) -> Option<ImFormat> {
        if code == 1 {
            Some(ImFormat::GIF)
        } else if code == 2 {
            Some(ImFormat::PNG)
        } else if code == 3 {
            Some(ImFormat::BMP)
        } else if code == 4 {
            Some(ImFormat::JPEG)
        } else if code == 5 {
            Some(ImFormat::WEBP)
        } else if code == 6 {
            Some(ImFormat::QOI)
        } else if code == 7 {
            Some(ImFormat::PSD)
        } else if code == 8 {
            Some(ImFormat::XCF)
        } else if code == 9 {
            Some(ImFormat::ICO)
        } else if code == 10 {
            Some(ImFormat::AVIF)
        } else if code == 11 {
            Some(ImFormat::TIFF)
        } else if code == 12 {
            Some(ImFormat::OpenEXR)
        } else if code == 13 {
            Some(ImFormat::PCX)
        } else if code == 14 {
            Some(ImFormat::TGA)
        } else if code == 15 {
            Some(ImFormat::DDS)
        } else if code == 16 {
            Some(ImFormat::HEIF)
        } else if code == 17 {
            Some(ImFormat::JP2K)
        } else if code == 18 {
            Some(ImFormat::DIB)
        } else if code == 19 {
            Some(ImFormat::VTF)
        } else if code == 20 {
            Some(ImFormat::ILBM)
        } else {
            None
        }
    }

    /// The name of the format.
    pub fn name(&self) -> (r: &'static str)
        ensures
            r@ == self.name_of(),
    {
        match self {
            ImFormat::GIF => "GIF",
            ImFormat::PNG => "PNG",
            ImFormat::BMP => "BMP",
            ImFormat::JPEG => "JPEG",
            ImFormat::WEBP => "WebP",
            ImFormat::QOI => "QOI",
            ImFormat::PSD => "PSD",
            ImFormat::XCF => "XCF",
            ImFormat::ICO => "ICO",
            ImFormat::AVIF => "AVIF",
            ImFormat::TIFF => "TIFF",
            ImFormat::OpenEXR => "OpenEXR",
            ImFormat::PCX => "PCX",
            ImFormat::TGA => "TGA",
            ImFormat::DDS => "DDS",
            ImFormat::HEIF => "HEIF",
            ImFormat::JP2K => "JPEG 2000",
            ImFormat::DIB => "DIB",
            ImFormat::VTF => "VTF",
            ImFormat::ILBM => "ILBM",
        }
    }

    /// The number of the format.
    pub fn code(&self) -> (r: u32)
        ensures
            r == self.code_of(),
            1 <= r <= 20,
    {
        match self {
            ImFormat::GIF => 1,
            ImFormat::PNG => 2,
            ImFormat::BMP => 3,
            ImFormat::JPEG => 4,
            ImFormat::WEBP => 5,
            ImFormat::QOI => 6,
            ImFormat::PSD => 7,
            ImFormat::XCF => 8,
            ImFormat::ICO => 9,
            ImFormat::AVIF => 10,
            ImFormat::TIFF => 11,
            ImFormat::OpenEXR => 12,
            ImFormat::PCX => 13,
            ImFormat::TGA => 14,
            ImFormat::DDS => 15,
            ImFormat::HEIF => 16,
            ImFormat::JP2K => 17,
            ImFormat::DIB => 18,
            ImFormat::VTF => 19,
            ImFormat::ILBM => 20,
        }
    }

    /// The format with the given number; `None` for a number that stands for none.
    pub fn from_code(code: u32) -> (r: Option<ImFormat>)
        ensures
            r == ImFormat::of_code(code as int),
    {
        match code {
            1 => Some(ImFormat::GIF),
            2 => Some(ImFormat::PNG),
            3 => Some(ImFormat::BMP),
            4 => Some(ImFormat::JPEG),
            5 => Some(ImFormat::WEBP),
            6 => Some(ImFormat::QOI),
            7 => Some(ImFormat::PSD),
            8 => Some(ImFormat::XCF),
            9 => Some(ImFormat::ICO),
            10 => Some(ImFormat::AVIF),
            11 => Some(ImFormat::TIFF),
            12 => Some(ImFormat::OpenEXR),
            13 => Some(ImFormat::PCX),
            14 => Some(ImFormat::TGA),
            15 => Some(ImFormat::DDS),
            16 => Some(ImFormat::HEIF),
            17 => Some(ImFormat::JP2K),
            18 => Some(ImFormat::DIB),
            19 => Some(ImFormat::VTF),
            20 => Some(ImFormat::ILBM),
            _ => None,
        }
    }
}

/// The name that belongs to a number: that of its format, and `(unknown)` for
/// a number that stands for none.
pub fn format_name(code: u32) -> (r: &'static str)
    ensures
        r@ == (match ImFormat::of_code(code as int) {
            Some(format) => format.name_of(),
            None => unknown_name(),
        }),
{
    match ImFormat::from_code(code) {
        Some(format) => format.name(),
        None => "(unknown)",
    }
}

/// A format is found again from its number, and only from that number.
pub proof fn lemma_code_round_trip(format: ImFormat, code: int)
    ensures
        ImFormat::of_code(format.code_of()) == Some(format),
        ImFormat::of_code(code) == Some(format) <==> code == format.code_of(),
{
}

} // verus!

//! The formats whose dimensions stand at fixed places among the first thirty bytes.

use crate::bytes::{
    as_i16, as_i32, be32, has_at, le16, le24, le32, matches_at, to_i16, to_i32, u16_le, u24_le,
    u32_be, u32_le,
};
use crate::error::{found, malformed, ImError, ImInfo, ImResult};
use crate::format::ImFormat;
use crate::signature::{is_bmp, is_dds, is_gif, is_pcx, is_png, is_psd, is_qoi, is_webp, is_xcf};
use vstd::prelude::*;

verus! {

/// `IHDR`, the name of the chunk that a PNG file begins with.
pub const PNG_IHDR: [u8; 4] = [0x49, 0x48, 0x44, 0x52];

/// `VP8L`, lossless WebP.
pub const VP8L: [u8; 4] = [0x56, 0x50, 0x38, 0x4C];

/// `VP8 `, lossy WebP.
pub const VP8: [u8; 4] = [0x56, 0x50, 0x38, 0x20];

/// `VP8X`, extended WebP.
pub const VP8X: [u8; 4] = [0x56, 0x50, 0x38, 0x58];

/// The number that a signed stored `x` becomes when its bits are taken for an
/// unsigned 64-bit number.
pub open spec fn unsigned64(x: int) -> int {
    if x < 0 {
        x + 0x1_0000_0000_0000_0000
    } else {
        x
    }
}

/// `x` without its sign.
pub open spec fn magnitude(x: int) -> int {
    if x < 0 {
        -x
    } else {
        x
    }
}

/// GIF: width and height in two bytes each, lowest first, behind the six bytes
/// of the signature.
pub open spec fn gif_size(p: Seq<u8>) -> ImResult<ImInfo> {
    if p.len() < 10 {
        malformed(ImFormat::GIF)
    } else {
        found(ImFormat::GIF, u16_le(p, 6), u16_le(p, 8))
    }
}

/// PNG: the first chunk is `IHDR` and holds width and height in four bytes
/// each, highest first.
pub open spec fn png_size(p: Seq<u8>) -> ImResult<ImInfo> {
    if p.len() < 24 {
        malformed(ImFormat::PNG)
    } else if u32_be(p, 8) < 8 || !has_at(p, 12, PNG_IHDR@) {
        malformed(ImFormat::PNG)
    } else {
        found(ImFormat::PNG, u32_be(p, 16), u32_be(p, 20))
    }
}

/// The number of bytes of a bitmap that count: what is there, but no more
/// than the file's length as its header gives it.
pub open spec fn bmp_extent(p: Seq<u8>) -> int {
    if u32_le(p, 2) < p.len() {
        u32_le(p, 2)
    } else {
        p.len() as int
    }
}

/// BMP: a header of 12 bytes holds width and height in two bytes each, a
/// longer one in four bytes each, lowest byte first and signed. A height below
/// zero says that the rows run from the top; the result has its magnitude.
pub open spec fn bmp_size(p: Seq<u8>) -> ImResult<ImInfo> {
    if bmp_extent(p) < 22 {
        malformed(ImFormat::BMP)
    } else if u32_le(p, 14) == 12 {
        found(
            ImFormat::BMP,
            unsigned64(as_i16(u16_le(p, 18))),
            magnitude(as_i16(u16_le(p, 20))),
        )
    } else if bmp_extent(p) < 26 || u32_le(p, 14) < 12 {
        malformed(ImFormat::BMP)
    } else {
        found(
            ImFormat::BMP,
            unsigned64(as_i32(u32_le(p, 18))),
            magnitude(as_i32(u32_le(p, 22))),
        )
    }
}

/// Lossless WebP: one less than the width in the lowest 14 bits of the four
/// bytes from 21 on, one less than the height in the 13 bits above them.
pub open spec fn vp8l_size(p: Seq<u8>) -> ImResult<ImInfo> {
    found(
        ImFormat::WEBP,
        1 + (p[22] % 0x40) * 0x100 + p[21],
        1 + (p[24] % 8) * 0x400 + p[23] * 4 + p[22] / 0x40,
    )
}

/// Lossy WebP: behind the start code, width and height in the lowest 14 bits
/// of two bytes each.
pub open spec fn vp8_size(p: Seq<u8>) -> ImResult<ImInfo> {
    if p[23] != 0x9D || p[24] != 0x01 || p[25] != 0x2A {
        malformed(ImFormat::WEBP)
    } else {
        found(ImFormat::WEBP, u16_le(p, 26) % 0x4000, u16_le(p, 28) % 0x4000)
    }
}

/// Extended WebP: one less than the width and one less than the height in
/// three bytes each.
pub open spec fn vp8x_size(p: Seq<u8>) -> ImResult<ImInfo> {
    found(ImFormat::WEBP, 1 + u24_le(p, 24), 1 + u24_le(p, 27))
}

/// WebP: the name of the first chunk tells the sub-format.
pub open spec fn webp_size(p: Seq<u8>) -> ImResult<ImInfo> {
    if has_at(p, 12, VP8L@) {
        vp8l_size(p)
    } else if has_at(p, 12, VP8@) {
        vp8_size(p)
    } else if has_at(p, 12, VP8X@) {
        vp8x_size(p)
    } else {
        malformed(ImFormat::WEBP)
    }
}

/// QOI: width, then height, four bytes each, highest first.
pub open spec fn qoi_size(p: Seq<u8>) -> ImResult<ImInfo> {
    found(ImFormat::QOI, u32_be(p, 4), u32_be(p, 8))
}

/// PSD: height, then width, four bytes each, highest first.
pub open spec fn psd_size(p: Seq<u8>) -> ImResult<ImInfo> {
    found(ImFormat::PSD, u32_be(p, 18), u32_be(p, 14))
}

/// XCF: width, then height, four bytes each, highest first.
pub open spec fn xcf_size(p: Seq<u8>) -> ImResult<ImInfo> {
    found(ImFormat::XCF, u32_be(p, 14), u32_be(p, 18))
}

/// PCX: the corners of the picture, both counted in; a picture whose far
/// corner lies before the near one has no size.
pub open spec fn pcx_size(p: Seq<u8>) -> ImResult<ImInfo> {
    let width = u16_le(p, 8) - u16_le(p, 4) + 1;
    let height = u16_le(p, 10) - u16_le(p, 6) + 1;
    if width <= 0 || height <= 0 {
        malformed(ImFormat::PCX)
    } else {
        found(ImFormat::PCX, width, height)
    }
}

/// DDS: height, then width, four bytes each, lowest first.
pub open spec fn dds_size(p: Seq<u8>) -> ImResult<ImInfo> {
    found(ImFormat::DDS, u32_le(p, 16), u32_le(p, 12))
}

fn size(format: ImFormat, width: u64, height: u64) -> (r: ImResult<ImInfo>)
    ensures
        r == found(format, width as int, height as int),
{
    Ok(ImInfo { width, height, format })
}

fn sign_extended(x: i32) -> (r: u64)
    ensures
        r == unsigned64(x as int),
{
    if x >= 0 {
        x as u64
    } else {
        (u64::MAX - ((-(x as i64)) as u64)) + 1
    }
}

fn without_sign(x: i32) -> (r: u64)
    ensures
        r == magnitude(x as int),
{
    if x >= 0 {
        x as u64
    } else {
        (-(x as i64)) as u64
    }
}

pub(crate) fn gif(p: &[u8]) -> (r: ImResult<ImInfo>)
    requires
        is_gif(p@),
    ensures
        r == gif_size(p@),
{
    if p.len() < 10 {
        return Err(ImError::ParserError(ImFormat::GIF));
    }
    size(ImFormat::GIF, le16(p, 6) as u64, le16(p, 8) as u64)
}

pub(crate) fn png(p: &[u8]) -> (r: ImResult<ImInfo>)
    requires
        is_png(p@),
    ensures
        r == png_size(p@),
{
    if p.len() < 24 {
        return Err(ImError::ParserError(ImFormat::PNG));
    }
    if be32(p, 8) < 8 || !matches_at(p, 12, &PNG_IHDR) {
        return Err(ImError::ParserError(ImFormat::PNG));
    }
    size(ImFormat::PNG, be32(p, 16) as u64, be32(p, 20) as u64)
}

pub(crate) fn bmp(p: &[u8]) -> (r: ImResult<ImInfo>)
    requires
        is_bmp(p@),
    ensures
        r == bmp_size(p@),
{
    let claimed = le32(p, 2);
    let extent: u64 = if (claimed as u64) < p.len() as u64 {
        claimed as u64
    } else {
        p.len() as u64
    };
    if extent < 22 {
        return Err(ImError::ParserError(ImFormat::BMP));
    }
    let header = le32(p, 14);
    if header == 12 {
        let w = to_i16(le16(p, 18));
        let h = to_i16(le16(p, 20));
        size(ImFormat::BMP, sign_extended(w as i32), without_sign(h as i32))
    } else {
        if extent < 26 || header < 12 {
            return Err(ImError::ParserError(ImFormat::BMP));
        }
        let w = to_i32(le32(p, 18));
        let h = to_i32(le32(p, 22));
        size(ImFormat::BMP, sign_extended(w), without_sign(h))
    }
}

pub(crate) fn webp(p: &[u8]) -> (r: ImResult<ImInfo>)
    requires
        is_webp(p@),
    ensures
        r == webp_size(p@),
{
    if matches_at(p, 12, &VP8L) {
        let b0: u64 = p[21] as u64;
        let b1: u64 = p[22] as u64;
        let b2: u64 = p[23] as u64;
        let b3: u64 = p[24] as u64;
        size(
            ImFormat::WEBP,
            1 + (b1 % 0x40) * 0x100 + b0,
            1 + (b3 % 8) * 0x400 + b2 * 4 + b1 / 0x40,
        )
    } else if matches_at(p, 12, &VP8) {
        if p[23] != 0x9D || p[24] != 0x01 || p[25] != 0x2A {
            return Err(ImError::ParserError(ImFormat::WEBP));
        }
        size(ImFormat::WEBP, (le16(p, 26) % 0x4000) as u64, (le16(p, 28) % 0x4000) as u64)
    } else if matches_at(p, 12, &VP8X) {
        size(ImFormat::WEBP, 1 + le24(p, 24) as u64, 1 + le24(p, 27) as u64)
    } else {
        Err(ImError::ParserError(ImFormat::WEBP))
    }
}

pub(crate) fn qoi(p: &[u8]) -> (r: ImResult<ImInfo>)
    requires
        is_qoi(p@),
    ensures
        r == qoi_size(p@),
{
    size(ImFormat::QOI, be32(p, 4) as u64, be32(p, 8) as u64)
}

pub(crate) fn psd(p: &[u8]) -> (r: ImResult<ImInfo>)
    requires
        is_psd(p@),
    ensures
        r == psd_size(p@),
{
    size(ImFormat::PSD, be32(p, 18) as u64, be32(p, 14) as u64)
}

pub(crate) fn xcf(p: &[u8]) -> (r: ImResult<ImInfo>)
    requires
        is_xcf(p@),
    ensures
        r == xcf_size(p@),
{
    size(ImFormat::XCF, be32(p, 14) as u64, be32(p, 18) as u64)
}

pub(crate) fn pcx(p: &[u8]) -> (r: ImResult<ImInfo>)
    requires
        is_pcx(p@),
    ensures
        r == pcx_size(p@),
{
    let width: i64 = le16(p, 8) as i64 - le16(p, 4) as i64 + 1;
    let height: i64 = le16(p, 10) as i64 - le16(p, 6) as i64 + 1;
    if width <= 0 || height <= 0 {
        return Err(ImError::ParserError(ImFormat::PCX));
    }
    size(ImFormat::PCX, width as u64, height as u64)
}

pub(crate) fn dds(p: &[u8]) -> (r: ImResult<ImInfo>)
    requires
        is_dds(p@),
    ensures
        r == dds_size(p@),
{
    size(ImFormat::DDS, le32(p, 16) as u64, le32(p, 12) as u64)
}

/// Whatever a bitmap's header holds, the height that is found has no sign: it
/// is the stored height where that is positive, and its negation where not.
pub proof fn lemma_bmp_height_has_no_sign(p: Seq<u8>)
    requires
        is_bmp(p),
        bmp_size(p) is Ok,
    ensures
        0 <= bmp_size(p)->Ok_0.height < 0x1_0000_0000,
        u32_le(p, 14) == 12 ==> bmp_size(p)->Ok_0.height == magnitude(as_i16(u16_le(p, 20))),
        u32_le(p, 14) != 12 ==> bmp_size(p)->Ok_0.height == magnitude(as_i32(u32_le(p, 22))),
{
}

} // verus!

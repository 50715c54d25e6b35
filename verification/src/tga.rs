//! TGA: the look at the end of the file, where alone the format shows.

use crate::bytes::{has_at, le16, matches_at, u16_le};
use crate::error::{found, unrecognized, ImError, ImInfo, ImResult};
use crate::format::ImFormat;
use crate::source::{addressable, Request};
use vstd::prelude::*;

verus! {

/// `TRUEVISION-XFILE.` and a zero byte: the last 18 bytes of a TGA file that
/// has a footer.
pub const TGA_FOOTER: [u8; 18] = [
    0x54,
    0x52,
    0x55,
    0x45,
    0x56,
    0x49,
    0x53,
    0x49,
    0x4F,
    0x4E,
    0x2D,
    0x58,
    0x46,
    0x49,
    0x4C,
    0x45,
    0x2E,
    0x00,
];

/// The file ends with the footer.
pub open spec fn has_footer(data: Seq<u8>) -> bool {
    data.len() >= 18 && has_at(data, data.len() - 18, TGA_FOOTER@)
}

/// TGA with the preamble `p`: width and height in two bytes each, lowest
/// first, from the twelfth byte on, if the file ends with the footer. A file
/// that does not is not known to be one.
pub open spec fn tga_size(p: Seq<u8>, data: Seq<u8>) -> ImResult<ImInfo> {
    if has_footer(data) {
        found(ImFormat::TGA, u16_le(p, 12), u16_le(p, 14))
    } else {
        unrecognized()
    }
}

/// The look at the end of a file whose head gave `width` and `height`.
#[derive(Debug, Clone, Copy, PartialEq, Eq, Structural)]
pub struct TgaProbe {
    pub width: u16,
    pub height: u16,
}

impl TgaProbe {
    /// The read that comes next.
    pub open spec fn wants(self) -> Request {
        Request::Tail { len: 18 }
    }

    /// What the look ends with over a source that holds `data`.
    pub open spec fn outcome(self, data: Seq<u8>) -> ImResult<ImInfo> {
        if has_footer(data) {
            found(ImFormat::TGA, self.width as int, self.height as int)
        } else {
            unrecognized()
        }
    }

    /// The read that comes next.
    pub(crate) fn request(&self) -> (r: Request)
        ensures
            r == self.wants(),
    {
        Request::Tail { len: 18 }
    }

    /// The look behind a head that admits TGA, whose preamble is `p`.
    pub(crate) fn begin(p: &[u8]) -> (r: TgaProbe)
        requires
            p@.len() >= 16,
        ensures
            forall|data: Seq<u8>| r.outcome(data) == #[trigger] tga_size(p@, data),
    {
        TgaProbe { width: le16(p, 12), height: le16(p, 14) }
    }

    /// The result, after the last bytes of the file have come.
    pub(crate) fn feed(self, bytes: &[u8]) -> (r: ImResult<ImInfo>)
        requires
            bytes@.len() == 18,
        ensures
            forall|data: Seq<u8>|
                addressable(data) && #[trigger] self.wants().answer(data) == Some(bytes@) ==> r
                    == self.outcome(data),
    {
        let r = if matches_at(bytes, 0, &TGA_FOOTER) {
            Ok(
                ImInfo {
                    width: self.width as u64,
                    height: self.height as u64,
                    format: ImFormat::TGA,
                },
            )
        } else {
            Err(ImError::UnknownFormat)
        };
        assert forall|data: Seq<u8>|
            addressable(data) && #[trigger] self.wants().answer(data) == Some(bytes@) implies r
            == self.outcome(data) by {
            assert(bytes@.subrange(0, 18) == bytes@);
        }
        r
    }
}

} // verus!

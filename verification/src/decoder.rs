//! The decoder: what an image file's bytes say of its format and dimensions,
//! and the steps in which that is found without holding the file.
//!
//! A [`Decoder`] reads nothing itself. It says which bytes it needs next, is
//! fed those bytes, and either ends with a result or says what it needs then.
//! Whoever holds the byte source runs that loop.

use crate::boxes::{bmff_size, jp2k_size, lemma_boxes_dry, lemma_descend_speaks_of_format, BoxWalk};
use crate::error::{malformed, speaks_of, unrecognized, ImError, ImInfo, ImResult};
use crate::exr::{exr_size, lemma_attributes_speak_of_exr, lemma_exr_dry, ExrWalk};
use crate::fixed::{
    bmp, bmp_size, dds, dds_size, gif, gif_size, pcx, pcx_size, png, png_size, psd, psd_size,
    qoi, qoi_size, webp, webp_size, xcf, xcf_size,
};
use crate::format::ImFormat;
use crate::ico::{ico_size, lemma_ico_dry, lemma_icons_speak_of_ico, IcoWalk};
use crate::jpeg::{jpeg_size, lemma_jpeg_dry, lemma_scan_speaks_of_jpeg, JpegScan};
use crate::signature::{signature_of, sniff, PREAMBLE_LEN};
use crate::source::{addressable, Request, Walk};
use crate::tga::{tga_size, TgaProbe};
use crate::tiff::{
    lemma_entries_speak_of_tiff, lemma_tiff_dry, order_of, tiff_size, Directory, Seen, TiffWalk,
};
use vstd::prelude::*;

verus! {

/// The preamble of a file: its first thirty bytes, or all of them where it
/// has fewer.
pub open spec fn preamble_of(data: Seq<u8>) -> Seq<u8> {
    data.subrange(
        0,
        if data.len() < 30 {
            data.len() as int
        } else {
            30
        },
    )
}

/// What a source gives that holds `data` and whose first read gave `p`.
///
/// The preamble settles the format. For some formats it holds the dimensions
/// as well; for the others they are looked for in the source, in the way of
/// the format.
pub open spec fn decode_from(p: Seq<u8>, data: Seq<u8>) -> ImResult<ImInfo> {
    match signature_of(p) {
        Some(ImFormat::GIF) => gif_size(p),
        Some(ImFormat::PNG) => png_size(p),
        Some(ImFormat::BMP) => bmp_size(p),
        Some(ImFormat::JPEG) => jpeg_size(p, data),
        Some(ImFormat::WEBP) => webp_size(p),
        Some(ImFormat::AVIF) => bmff_size(p, data, ImFormat::AVIF),
        Some(ImFormat::HEIF) => bmff_size(p, data, ImFormat::HEIF),
        Some(ImFormat::JP2K) => jp2k_size(p, data),
        Some(ImFormat::TIFF) => tiff_size(p, data),
        Some(ImFormat::QOI) => qoi_size(p),
        Some(ImFormat::PSD) => psd_size(p),
        Some(ImFormat::XCF) => xcf_size(p),
        Some(ImFormat::ICO) => ico_size(p, data),
        Some(ImFormat::OpenEXR) => exr_size(data),
        Some(ImFormat::PCX) => pcx_size(p),
        Some(ImFormat::DDS) => dds_size(p),
        Some(ImFormat::TGA) => tga_size(p, data),
        _ => unrecognized(),
    }
}

/// What the bytes `data` of a file say of its format and dimensions: what a
/// source gives that holds them and is read from its start.
pub open spec fn decode(data: Seq<u8>) -> ImResult<ImInfo> {
    decode_from(preamble_of(data), data)
}

/// Where a decode stands between two reads.
#[derive(Debug, Clone, Copy, PartialEq, Eq, Structural)]
enum State {
    Head,
    Jpeg(JpegScan),
    Boxes(BoxWalk),
    Tiff(TiffWalk),
    Ico(IcoWalk),
    Exr(ExrWalk),
    Tga(TgaProbe),
}

/// A decode in progress.
#[derive(Debug, Clone, Copy)]
pub struct Decoder {
    state: State,
}

/// Where a decode stands after an answer: at its end, or before its next read.
#[derive(Debug)]
pub enum Step {
    Done(ImResult<ImInfo>),
    Next(Decoder),
}

impl Decoder {
    /// The states that a decode comes to.
    pub closed spec fn wf(self) -> bool {
        match self.state {
            State::Tiff(walk) => walk.wf(),
            State::Ico(walk) => walk.wf(),
            _ => true,
        }
    }

    /// The read that the decoder asks for.
    pub closed spec fn wants(self) -> Request {
        match self.state {
            State::Head => Request::Head { len: PREAMBLE_LEN },
            State::Jpeg(scan) => scan.wants(),
            State::Boxes(walk) => walk.wants(),
            State::Tiff(walk) => walk.wants(),
            State::Ico(walk) => walk.wants(),
            State::Exr(walk) => walk.wants(),
            State::Tga(probe) => probe.wants(),
        }
    }

    /// The format whose signature was found, once it is settled.
    pub closed spec fn format_of(self) -> Option<ImFormat> {
        match self.state {
            State::Head => None,
            State::Jpeg(_) => Some(ImFormat::JPEG),
            State::Boxes(walk) => Some(walk.format_of()),
            State::Tiff(_) => Some(ImFormat::TIFF),
            State::Ico(_) => Some(ImFormat::ICO),
            State::Exr(_) => Some(ImFormat::OpenEXR),
            State::Tga(_) => None,
        }
    }

    /// What the decode ends with if it is carried on over a source that holds
    /// `data`.
    pub closed spec fn outcome(self, data: Seq<u8>) -> ImResult<ImInfo> {
        match self.state {
            State::Head => decode(data),
            State::Jpeg(scan) => scan.outcome(data),
            State::Boxes(walk) => walk.outcome(data),
            State::Tiff(walk) => walk.outcome(data),
            State::Ico(walk) => walk.outcome(data),
            State::Exr(walk) => walk.outcome(data),
            State::Tga(probe) => probe.outcome(data),
        }
    }

    /// A number that falls with every read over a source of `len` bytes, so
    /// that every decode ends.
    pub closed spec fn rank(self, len: nat) -> nat {
        match self.state {
            State::Head => len + 0x3_0002,
            State::Jpeg(scan) => scan.rank(len),
            State::Boxes(walk) => walk.rank(len),
            State::Tiff(walk) => walk.rank(len),
            State::Ico(walk) => walk.rank(len),
            State::Exr(walk) => walk.rank(len),
            State::Tga(_) => 0,
        }
    }

    /// What a source that cannot give what is asked for makes of the decode,
    /// where it failed with no error of its own: the format's parse error
    /// once the format is settled, and an unknown format before.
    pub open spec fn starved(self) -> ImError {
        match self.format_of() {
            Some(format) => ImError::ParserError(format),
            None => ImError::UnknownFormat,
        }
    }

    /// `next` carries the decode on over `data`: it ends with what the decode
    /// ends with, or is a decoder that ends with the same and is nearer to it.
    pub open spec fn carried_on(self, next: Step, data: Seq<u8>) -> bool {
        match next {
            Step::Done(result) => result == self.outcome(data),
            Step::Next(decoder) => decoder.outcome(data) == self.outcome(data) && decoder.rank(
                data.len(),
            ) < self.rank(data.len()),
        }
    }

    /// A decoder before its first read.
    pub fn new() -> (r: Decoder)
        ensures
            r.wf(),
            r.wants() == (Request::Head { len: PREAMBLE_LEN }),
            r.format_of() is None,
            forall|data: Seq<u8>| #[trigger] r.outcome(data) == decode(data),
    {
        Decoder { state: State::Head }
    }

    /// The read that the decoder asks for.
    pub fn request(&self) -> (r: Request)
        ensures
            r.len_of() <= PREAMBLE_LEN,
            r == self.wants(),
    {
        match &self.state {
            State::Head => Request::Head { len: PREAMBLE_LEN },
            State::Jpeg(scan) => scan.request(),
            State::Boxes(walk) => walk.request(),
            State::Tiff(walk) => walk.request(),
            State::Ico(walk) => walk.request(),
            State::Exr(walk) => walk.request(),
            State::Tga(probe) => probe.request(),
        }
    }

    /// The format whose signature was found, once it is settled.
    pub fn format(&self) -> (r: Option<ImFormat>)
        ensures
            r == self.format_of(),
    {
        match &self.state {
            State::Head => None,
            State::Jpeg(_) => Some(ImFormat::JPEG),
            State::Boxes(walk) => Some(walk.format()),
            State::Tiff(_) => Some(ImFormat::TIFF),
            State::Ico(_) => Some(ImFormat::ICO),
            State::Exr(_) => Some(ImFormat::OpenEXR),
            State::Tga(_) => None,
        }
    }

    /// The error that the decode ends with where the source failed with
    /// `error` on the read that was asked for: the format's parse error once
    /// the format is settled, and the source's error before.
    pub fn fail(self, error: std::io::Error) -> (r: ImError)
        ensures
            r == (match self.format_of() {
                Some(format) => ImError::ParserError(format),
                None => ImError::IO(error),
            }),
    {
        match self.format() {
            Some(format) => ImError::ParserError(format),
            None => ImError::IO(error),
        }
    }

    /// The error that the decode ends with where the source has not what was
    /// asked for, and has no error of its own to give.
    pub fn starve(self) -> (r: ImError)
        ensures
            r == self.starved(),
    {
        match self.format() {
            Some(format) => ImError::ParserError(format),
            None => ImError::UnknownFormat,
        }
    }

    /// The decode after the first read gave `p`.
    fn feed_head(p: &[u8]) -> (r: Step)
        requires
            p@.len() <= 30,
        ensures
            forall|data: Seq<u8>|
                #![trigger decode_from(p@, data)]
                match r {
                    Step::Done(result) => result == decode_from(p@, data),
                    Step::Next(decoder) => decoder.outcome(data) == decode_from(p@, data),
                },
            r matches Step::Next(decoder) ==> decoder.wf() && (decoder.wants() matches Request::Exact {
                seek: true,
                ..
            } || decoder.wants() is Tail),
            r matches Step::Next(decoder) ==> forall|len: nat| #[trigger]
                decoder.rank(len) <= len + 0x3_0001,
    {
        match sniff(p) {
            Some(ImFormat::GIF) => Step::Done(gif(p)),
            Some(ImFormat::PNG) => Step::Done(png(p)),
            Some(ImFormat::BMP) => Step::Done(bmp(p)),
            Some(ImFormat::JPEG) => match JpegScan::begin(p) {
                Walk::Done(result) => Step::Done(result),
                Walk::Next(scan) => Step::Next(Decoder { state: State::Jpeg(scan) }),
            },
            Some(ImFormat::WEBP) => Step::Done(webp(p)),
            Some(ImFormat::AVIF) => match BoxWalk::begin_bmff(p, ImFormat::AVIF) {
                Walk::Done(result) => Step::Done(result),
                Walk::Next(walk) => Step::Next(Decoder { state: State::Boxes(walk) }),
            },
            Some(ImFormat::HEIF) => match BoxWalk::begin_bmff(p, ImFormat::HEIF) {
                Walk::Done(result) => Step::Done(result),
                Walk::Next(walk) => Step::Next(Decoder { state: State::Boxes(walk) }),
            },
            Some(ImFormat::JP2K) => Step::Next(
                Decoder { state: State::Boxes(BoxWalk::begin_jp2k(p)) },
            ),
            Some(ImFormat::TIFF) => Step::Next(Decoder { state: State::Tiff(TiffWalk::begin(p)) }),
            Some(ImFormat::QOI) => Step::Done(qoi(p)),
            Some(ImFormat::PSD) => Step::Done(psd(p)),
            Some(ImFormat::XCF) => Step::Done(xcf(p)),
            Some(ImFormat::ICO) => match IcoWalk::begin(p) {
                Walk::Done(result) => Step::Done(result),
                Walk::Next(walk) => Step::Next(Decoder { state: State::Ico(walk) }),
            },
            Some(ImFormat::OpenEXR) => Step::Next(Decoder { state: State::Exr(ExrWalk::begin()) }),
            Some(ImFormat::PCX) => Step::Done(pcx(p)),
            Some(ImFormat::DDS) => Step::Done(dds(p)),
            Some(ImFormat::TGA) => Step::Next(Decoder { state: State::Tga(TgaProbe::begin(p)) }),
            _ => Step::Done(Err(ImError::UnknownFormat)),
        }
    }

    /// The decode after the bytes of a walk that were asked for have come.
    fn feed_walk(self, bytes: &[u8]) -> (r: Step)
        requires
            !(self.state is Head),
            bytes@.len() == self.wants().len_of(),
        ensures
            r matches Step::Next(decoder) ==> !(decoder.wants() is Head),
            forall|data: Seq<u8>|
                addressable(data) && #[trigger] self.wants().answer(data) == Some(bytes@)
                    ==> self.carried_on(r, data),
            r matches Step::Next(decoder) ==> decoder.wf() && decoder.format_of()
                == self.format_of() && decoder.wants().follows(self.wants(), bytes@.len() as int),
            r matches Step::Done(result) ==> (self.format_of() matches Some(format) ==> speaks_of(
                result,
                format,
            )),
    {
        match self.state {
            State::Head => Step::Done(Err(ImError::UnknownFormat)),
            State::Jpeg(scan) => match scan.feed(bytes) {
                Walk::Done(result) => Step::Done(result),
                Walk::Next(scan) => Step::Next(Decoder { state: State::Jpeg(scan) }),
            },
            State::Boxes(walk) => match walk.feed(bytes) {
                Walk::Done(result) => Step::Done(result),
                Walk::Next(walk) => Step::Next(Decoder { state: State::Boxes(walk) }),
            },
            State::Tiff(walk) => match walk.feed(bytes) {
                Walk::Done(result) => Step::Done(result),
                Walk::Next(walk) => Step::Next(Decoder { state: State::Tiff(walk) }),
            },
            State::Ico(walk) => match walk.feed(bytes) {
                Walk::Done(result) => Step::Done(result),
                Walk::Next(walk) => Step::Next(Decoder { state: State::Ico(walk) }),
            },
            State::Exr(walk) => match walk.feed(bytes) {
                Walk::Done(result) => Step::Done(result),
                Walk::Next(walk) => Step::Next(Decoder { state: State::Exr(walk) }),
            },
            State::Tga(probe) => Step::Done(probe.feed(bytes)),
        }
    }

    /// Carries the decode on with the bytes that the source gave for the
    /// read that was asked for.
    ///
    /// The first read settles what the decode ends with over every source,
    /// whatever the source gives later. Every later read carries the decode
    /// on: over a source that answers as one does that holds its bytes in
    /// memory, the decode ends as it would have ended before. Bytes that
    /// cannot be an answer to the request, by their number, end the decode as
    /// a source does that has run dry.
    pub fn feed(self, bytes: &[u8]) -> (r: Step)
        ensures
            r matches Step::Next(decoder) ==> !(decoder.wants() is Head),
            forall|data: Seq<u8>|
                addressable(data) && #[trigger] self.wants().answer(data) == Some(bytes@)
                    ==> self.carried_on(r, data),
            self.wants() is Head && self.wants().admits(bytes@.len() as int) ==> forall|
                data: Seq<u8>,
            |
                #![trigger decode_from(bytes@, data)]
                match r {
                    Step::Done(result) => result == decode_from(bytes@, data),
                    Step::Next(decoder) => decoder.outcome(data) == decode_from(bytes@, data),
                },
            !self.wants().admits(bytes@.len() as int) ==> r == Step::Done(Err(self.starved())),
            r matches Step::Next(decoder) ==> decoder.wf() && decoder.wants().follows(
                self.wants(),
                bytes@.len() as int,
            ),
            r matches Step::Next(decoder) ==> (self.format_of() matches Some(format)
                ==> decoder.format_of() == Some(format)),
            r matches Step::Done(result) ==> (self.format_of() matches Some(format) ==> speaks_of(
                result,
                format,
            )),
    {
        let want = self.request();
        match want {
            Request::Head { len } => {
                if bytes.len() > len {
                    return Step::Done(Err(self.starve()));
                }
                let r = Decoder::feed_head(bytes);
                assert forall|data: Seq<u8>|
                    addressable(data) && #[trigger] self.wants().answer(data) == Some(
                        bytes@,
                    ) implies self.carried_on(r, data) by {
                    assert(preamble_of(data) == bytes@);
                    assert(decode(data) == decode_from(bytes@, data));
                    match r {
                        Step::Next(decoder) => {
                            assert(decoder.rank(data.len()) <= data.len() + 0x3_0001);
                        },
                        _ => {},
                    }
                }
                r
            },
            _ => {
                if bytes.len() != want.len() {
                    return Step::Done(Err(self.starve()));
                }
                self.feed_walk(bytes)
            },
        }
    }
}

/// A source that has not all of what a decoder asks for holds no dimensions
/// that the decode could come to: over it the decode ends as a source makes
/// it end that has run dry.
pub proof fn lemma_dry_source(decoder: Decoder, data: Seq<u8>)
    requires
        decoder.wf(),
        decoder.wants().answer(data) is None,
    ensures
        decoder.outcome(data) == Err::<ImInfo, ImError>(decoder.starved()),
{
    match decoder.state {
        State::Head => {},
        State::Jpeg(scan) => lemma_jpeg_dry(scan, data),
        State::Boxes(walk) => lemma_boxes_dry(walk, data),
        State::Tiff(walk) => lemma_tiff_dry(walk, data),
        State::Ico(walk) => lemma_ico_dry(walk, data),
        State::Exr(walk) => lemma_exr_dry(walk, data),
        State::Tga(_) => {},
    }
}

/// A signature settles the format for good. A source whose first read bears
/// no signature is of an unknown format. One whose first read bears a
/// signature has the dimensions of an image of that format, or is a
/// malformed file of that format, and nothing else: no other format, no
/// unknown format, no failure of a byte source. The one exception is TGA,
/// which shows at the end of the file only: a file whose head admits TGA is a
/// TGA image or of an unknown format.
pub proof fn lemma_signature_settles_format(p: Seq<u8>, data: Seq<u8>)
    ensures
        match signature_of(p) {
            None => decode_from(p, data) == unrecognized(),
            Some(ImFormat::TGA) => decode_from(p, data) == unrecognized() || (decode_from(p, data)
                matches Ok(info) && info.format == ImFormat::TGA),
            Some(format) => speaks_of(decode_from(p, data), format),
        },
        !(decode_from(p, data) matches Err(ImError::IO(_))),
{
    match signature_of(p) {
        Some(ImFormat::JPEG) => {
            lemma_scan_speaks_of_jpeg(data, p[2], 3);
        },
        Some(ImFormat::AVIF) => {
            lemma_descend_speaks_of_format(
                data,
                ImFormat::AVIF,
                0,
                crate::bytes::u32_be(p, 0),
                u64::MAX as int,
            );
        },
        Some(ImFormat::HEIF) => {
            lemma_descend_speaks_of_format(
                data,
                ImFormat::HEIF,
                0,
                crate::bytes::u32_be(p, 0),
                u64::MAX as int,
            );
        },
        Some(ImFormat::JP2K) => {
            lemma_descend_speaks_of_format(
                data,
                ImFormat::JP2K,
                0,
                12 + crate::bytes::u32_be(p, 12),
                u64::MAX as int,
            );
        },
        Some(ImFormat::TIFF) => {
            let order = order_of(p);
            let ifd = order.u32_in(p, 4) as u32;
            if ifd + 2 <= data.len() {
                lemma_entries_speak_of_tiff(
                    data,
                    Directory {
                        order,
                        ifd,
                        count: order.u16_in(data, ifd as int) as u16,
                        index: 0,
                        seen: Seen { width: None, height: None },
                    },
                );
            }
        },
        Some(ImFormat::ICO) => {
            lemma_icons_speak_of_ico(data, crate::bytes::u16_le(p, 4), 6, 0, 0);
        },
        Some(ImFormat::OpenEXR) => {
            lemma_attributes_speak_of_exr(data, 8);
        },
        _ => {},
    }
}

/// What the bytes of a file say is settled by its signature as well: the
/// result speaks of the format whose signature the preamble bears.
pub proof fn lemma_decode_speaks_of_signature(data: Seq<u8>)
    ensures
        match signature_of(preamble_of(data)) {
            None => decode(data) == unrecognized(),
            Some(ImFormat::TGA) => decode(data) == unrecognized() || (decode(data) matches Ok(info)
                && info.format == ImFormat::TGA),
            Some(format) => speaks_of(decode(data), format),
        },
        !(decode(data) matches Err(ImError::IO(_))),
{
    lemma_signature_settles_format(preamble_of(data), data);
}

} // verus!

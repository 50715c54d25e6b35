//! JPEG: the scan over the markers for the first frame header.

use crate::bytes::{be16, u16_be};
use crate::error::{found, malformed, speaks_of, ImError, ImInfo, ImResult};
use crate::format::ImFormat;
use crate::source::{addressable, remaining, Request, Walk};
use vstd::prelude::*;

verus! {

/// The byte that fills the room before a marker, and begins every marker.
pub const FILL: u8 = 0xFF;

/// The marker that begins the picture's data. No frame header follows it.
pub const START_OF_SCAN: u8 = 0xDA;

/// The markers `0xC0` to `0xC3` begin a frame header.
pub open spec fn begins_frame(marker: u8) -> bool {
    0xC0 <= marker <= 0xC3
}

/// The scan, standing before a segment whose first byte `current` was read and
/// whose next byte lies at `at`. A start of scan or a zero byte ends it.
pub open spec fn scan_from(data: Seq<u8>, current: u8, at: int) -> ImResult<ImInfo>
    decreases remaining(data, at), 1int,
{
    if current == START_OF_SCAN || current == 0 {
        malformed(ImFormat::JPEG)
    } else if at >= data.len() {
        malformed(ImFormat::JPEG)
    } else if current == FILL {
        marker_from(data, at)
    } else {
        fill_from(data, at)
    }
}

/// The scan, looking from `at` on for the next fill byte.
pub open spec fn fill_from(data: Seq<u8>, at: int) -> ImResult<ImInfo>
    decreases remaining(data, at), 0int,
{
    if at >= data.len() || at < 0 {
        malformed(ImFormat::JPEG)
    } else if data[at] == FILL {
        marker_from(data, at + 1)
    } else {
        fill_from(data, at + 1)
    }
}

/// The scan behind a fill byte, looking from `at` on for the first byte that
/// is none: the marker.
pub open spec fn marker_from(data: Seq<u8>, at: int) -> ImResult<ImInfo>
    decreases remaining(data, at), 0int,
{
    if at >= data.len() || at < 0 {
        malformed(ImFormat::JPEG)
    } else if data[at] == FILL {
        marker_from(data, at + 1)
    } else if begins_frame(data[at]) {
        frame_at(data, at + 4)
    } else {
        length_at(data, at + 1)
    }
}

/// The frame header's height and width, two bytes each, highest first, which
/// begin at `at`: three bytes behind the marker.
pub open spec fn frame_at(data: Seq<u8>, at: int) -> ImResult<ImInfo> {
    if at + 4 > data.len() {
        malformed(ImFormat::JPEG)
    } else {
        found(ImFormat::JPEG, u16_be(data, at + 2), u16_be(data, at))
    }
}

/// The scan at the length of a segment that holds no frame header. The length
/// counts its own two bytes, so it is two at least; the next segment begins
/// where this one ends.
pub open spec fn length_at(data: Seq<u8>, at: int) -> ImResult<ImInfo>
    decreases remaining(data, at), 0int,
{
    if at + 2 > data.len() || at < 0 {
        malformed(ImFormat::JPEG)
    } else if u16_be(data, at) < 2 {
        malformed(ImFormat::JPEG)
    } else {
        next_at(data, at + u16_be(data, at))
    }
}

/// The scan at the first byte of a segment.
pub open spec fn next_at(data: Seq<u8>, at: int) -> ImResult<ImInfo>
    decreases remaining(data, at), 2int,
{
    if at >= data.len() || at < 0 {
        malformed(ImFormat::JPEG)
    } else {
        scan_from(data, data[at], at + 1)
    }
}

/// The dimensions of a JPEG file with the preamble `p`: the scan begins with
/// the third byte.
pub open spec fn jpeg_size(p: Seq<u8>, data: Seq<u8>) -> ImResult<ImInfo> {
    scan_from(data, p[2], 3)
}

/// Where the scan stands between two reads.
#[derive(Debug, Clone, Copy, PartialEq, Eq, Structural)]
pub enum JpegScan {
    /// Looking for a fill byte; the byte at `at` is read next.
    Fill { at: u64, seek: bool },
    /// Behind a fill byte; the byte at `at` is read next.
    Marker { at: u64, seek: bool },
    /// Behind the marker of a frame header; height and width begin at `at`.
    Frame { at: u64 },
    /// Behind another marker; the length of its segment begins at `at`.
    Length { at: u64 },
    /// Behind a segment; the next one begins at `at`.
    Next { at: u64 },
}

impl JpegScan {
    /// The offset of the next byte to be read.
    pub open spec fn at_of(self) -> int {
        match self {
            JpegScan::Fill { at, .. } => at as int,
            JpegScan::Marker { at, .. } => at as int,
            JpegScan::Frame { at } => at as int,
            JpegScan::Length { at } => at as int,
            JpegScan::Next { at } => at as int,
        }
    }

    /// The read that comes next.
    pub open spec fn wants(self) -> Request {
        match self {
            JpegScan::Fill { at, seek } => Request::Exact { at, len: 1, seek },
            JpegScan::Marker { at, seek } => Request::Exact { at, len: 1, seek },
            JpegScan::Frame { at } => Request::Exact { at, len: 4, seek: true },
            JpegScan::Length { at } => Request::Exact { at, len: 2, seek: false },
            JpegScan::Next { at } => Request::Exact { at, len: 1, seek: true },
        }
    }

    /// What the scan ends with over a source that holds `data`.
    pub open spec fn outcome(self, data: Seq<u8>) -> ImResult<ImInfo> {
        match self {
            JpegScan::Fill { at, .. } => fill_from(data, at as int),
            JpegScan::Marker { at, .. } => marker_from(data, at as int),
            JpegScan::Frame { at } => frame_at(data, at as int),
            JpegScan::Length { at } => length_at(data, at as int),
            JpegScan::Next { at } => next_at(data, at as int),
        }
    }

    /// A number that falls with every read: the bytes that lie before the scan.
    pub open spec fn rank(self, len: nat) -> nat {
        if self.at_of() < len {
            (len - self.at_of()) as nat
        } else {
            0
        }
    }

    /// `next` carries the scan on over `data`: it ends as the scan ends, or is
    /// a state from which the scan ends the same and that lies further on.
    pub open spec fn carried_on(self, next: Walk<JpegScan>, data: Seq<u8>) -> bool {
        match next {
            Walk::Done(result) => result == self.outcome(data),
            Walk::Next(state) => state.outcome(data) == self.outcome(data) && state.rank(
                data.len(),
            ) < self.rank(data.len()),
        }
    }

    /// The read that comes next.
    pub(crate) fn request(&self) -> (r: Request)
        ensures
            r == self.wants(),
    {
        match self {
            JpegScan::Fill { at, seek } => Request::Exact { at: *at, len: 1, seek: *seek },
            JpegScan::Marker { at, seek } => Request::Exact { at: *at, len: 1, seek: *seek },
            JpegScan::Frame { at } => Request::Exact { at: *at, len: 4, seek: true },
            JpegScan::Length { at } => Request::Exact { at: *at, len: 2, seek: false },
            JpegScan::Next { at } => Request::Exact { at: *at, len: 1, seek: true },
        }
    }

    /// The scan behind the signature of a file with the preamble `p`.
    pub(crate) fn begin(p: &[u8]) -> (r: Walk<JpegScan>)
        requires
            p@.len() >= 3,
        ensures
            r matches Walk::Done(result) ==> speaks_of(result, ImFormat::JPEG),
            forall|data: Seq<u8>|
                #![trigger jpeg_size(p@, data)]
                match r {
                    Walk::Done(result) => result == jpeg_size(p@, data),
                    Walk::Next(state) => state.outcome(data) == jpeg_size(p@, data),
                },
            r matches Walk::Next(state) ==> state.wants() matches Request::Exact {
                seek: true,
                ..
            },
    {
        let current = p[2];
        if current == START_OF_SCAN || current == 0 {
            Walk::Done(Err(ImError::ParserError(ImFormat::JPEG)))
        } else if current == FILL {
            Walk::Next(JpegScan::Marker { at: 3, seek: true })
        } else {
            Walk::Next(JpegScan::Fill { at: 3, seek: true })
        }
    }

    /// The scan behind one byte `current` that begins a segment and was read at
    /// the offset before `at`.
    fn resume(current: u8, at: u64) -> (r: Walk<JpegScan>)
        ensures
            r matches Walk::Done(result) ==> speaks_of(result, ImFormat::JPEG),
            forall|data: Seq<u8>|
                #![trigger addressable(data)]
                addressable(data) && at <= data.len() ==> match r {
                    Walk::Done(result) => result == scan_from(data, current, at as int),
                    Walk::Next(state) => state.outcome(data) == scan_from(data, current, at as int),
                },
            r matches Walk::Next(state) ==> state.at_of() == at && !(state.wants()
                matches Request::Exact { seek: true, .. }),
    {
        if current == START_OF_SCAN || current == 0 {
            Walk::Done(Err(ImError::ParserError(ImFormat::JPEG)))
        } else if current == FILL {
            Walk::Next(JpegScan::Marker { at, seek: false })
        } else {
            Walk::Next(JpegScan::Fill { at, seek: false })
        }
    }

    /// The scan after the bytes that were asked for have come.
    pub(crate) fn feed(self, bytes: &[u8]) -> (r: Walk<JpegScan>)
        requires
            bytes@.len() == self.wants().len_of(),
        ensures
            r matches Walk::Done(result) ==> speaks_of(result, ImFormat::JPEG),
            forall|data: Seq<u8>|
                addressable(data) && #[trigger] self.wants().answer(data) == Some(bytes@)
                    ==> self.carried_on(r, data),
            r matches Walk::Next(state) ==> state.wants().follows(self.wants(), bytes@.len() as int),
    {
        let ghost want = self.wants();
        match self {
            JpegScan::Fill { at, seek } => {
                if at == u64::MAX {
                    return Walk::Done(Err(ImError::ParserError(ImFormat::JPEG)));
                }
                let r = if bytes[0] == FILL {
                    Walk::Next(JpegScan::Marker { at: at + 1, seek: false })
                } else {
                    Walk::Next(JpegScan::Fill { at: at + 1, seek: false })
                };
                assert forall|data: Seq<u8>|
                    addressable(data) && #[trigger] want.answer(data) == Some(
                        bytes@,
                    ) implies self.carried_on(r, data) by {
                    assert(data.subrange(at as int, at + 1)[0] == data[at as int]);
                }
                r
            },
            JpegScan::Marker { at, seek } => {
                if at == u64::MAX {
                    return Walk::Done(Err(ImError::ParserError(ImFormat::JPEG)));
                }
                let marker = bytes[0];
                let r = if marker == FILL {
                    Walk::Next(JpegScan::Marker { at: at + 1, seek: false })
                } else if 0xC0 <= marker && marker <= 0xC3 {
                    if at > u64::MAX - 4 {
                        Walk::Done(Err(ImError::ParserError(ImFormat::JPEG)))
                    } else {
                        Walk::Next(JpegScan::Frame { at: at + 4 })
                    }
                } else {
                    Walk::Next(JpegScan::Length { at: at + 1 })
                };
                assert forall|data: Seq<u8>|
                    addressable(data) && #[trigger] want.answer(data) == Some(
                        bytes@,
                    ) implies self.carried_on(r, data) by {
                    assert(data.subrange(at as int, at + 1)[0] == data[at as int]);
                }
                r
            },
            JpegScan::Frame { at } => {
                let height = be16(bytes, 0);
                let width = be16(bytes, 2);
                let r = Walk::Done(
                    Ok(ImInfo { width: width as u64, height: height as u64, format: ImFormat::JPEG }),
                );
                assert forall|data: Seq<u8>|
                    addressable(data) && #[trigger] want.answer(data) == Some(
                        bytes@,
                    ) implies self.carried_on(r, data) by {
                    let part = data.subrange(at as int, at + 4);
                    assert(part[0] == data[at as int]);
                    assert(part[1] == data[at + 1]);
                    assert(part[2] == data[at + 2]);
                    assert(part[3] == data[at + 3]);
                }
                r
            },
            JpegScan::Length { at } => {
                let length = be16(bytes, 0);
                if length < 2 || at > u64::MAX - length as u64 {
                    let r = Walk::Done(Err(ImError::ParserError(ImFormat::JPEG)));
                    assert forall|data: Seq<u8>|
                        addressable(data) && #[trigger] want.answer(data) == Some(
                            bytes@,
                        ) implies self.carried_on(r, data) by {
                        let part = data.subrange(at as int, at + 2);
                        assert(part[0] == data[at as int]);
                        assert(part[1] == data[at + 1]);
                    }
                    return r;
                }
                let r = Walk::Next(JpegScan::Next { at: at + length as u64 });
                assert forall|data: Seq<u8>|
                    addressable(data) && #[trigger] want.answer(data) == Some(
                        bytes@,
                    ) implies self.carried_on(r, data) by {
                    let part = data.subrange(at as int, at + 2);
                    assert(part[0] == data[at as int]);
                    assert(part[1] == data[at + 1]);
                }
                r
            },
            JpegScan::Next { at } => {
                if at == u64::MAX {
                    return Walk::Done(Err(ImError::ParserError(ImFormat::JPEG)));
                }
                let r = JpegScan::resume(bytes[0], at + 1);
                assert forall|data: Seq<u8>|
                    addressable(data) && #[trigger] want.answer(data) == Some(
                        bytes@,
                    ) implies self.carried_on(r, data) by {
                    assert(data.subrange(at as int, at + 1)[0] == data[at as int]);
                    assert(addressable(data) && at + 1 <= data.len());
                }
                r
            },
        }
    }
}

/// A source that has not all of what the scan asks for next holds no
/// dimensions that the scan could find.
pub proof fn lemma_jpeg_dry(state: JpegScan, data: Seq<u8>)
    requires
        state.wants().answer(data) is None,
    ensures
        state.outcome(data) == malformed(ImFormat::JPEG),
{
}

/// Whatever the scan ends with speaks of JPEG: it is the dimensions of a JPEG
/// file or the parse error of one.
pub proof fn lemma_scan_speaks_of_jpeg(data: Seq<u8>, current: u8, at: int)
    ensures
        speaks_of(scan_from(data, current, at), ImFormat::JPEG),
    decreases remaining(data, at), 1int,
{
    if current == START_OF_SCAN || current == 0 || at >= data.len() {
    } else if current == FILL {
        lemma_marker_speaks_of_jpeg(data, at);
    } else {
        lemma_fill_speaks_of_jpeg(data, at);
    }
}

/// What the scan for a fill byte ends with speaks of JPEG.
pub proof fn lemma_fill_speaks_of_jpeg(data: Seq<u8>, at: int)
    ensures
        speaks_of(fill_from(data, at), ImFormat::JPEG),
    decreases remaining(data, at), 0int,
{
    if at >= data.len() || at < 0 {
    } else if data[at] == FILL {
        lemma_marker_speaks_of_jpeg(data, at + 1);
    } else {
        lemma_fill_speaks_of_jpeg(data, at + 1);
    }
}

/// What the scan for a marker ends with speaks of JPEG.
pub proof fn lemma_marker_speaks_of_jpeg(data: Seq<u8>, at: int)
    ensures
        speaks_of(marker_from(data, at), ImFormat::JPEG),
    decreases remaining(data, at), 0int,
{
    if at >= data.len() || at < 0 {
    } else if data[at] == FILL {
        lemma_marker_speaks_of_jpeg(data, at + 1);
    } else if begins_frame(data[at]) {
    } else {
        lemma_length_speaks_of_jpeg(data, at + 1);
    }
}

/// What the scan ends with behind a segment's length speaks of JPEG.
pub proof fn lemma_length_speaks_of_jpeg(data: Seq<u8>, at: int)
    ensures
        speaks_of(length_at(data, at), ImFormat::JPEG),
    decreases remaining(data, at), 0int,
{
    if at + 2 > data.len() || at < 0 || u16_be(data, at) < 2 {
    } else {
        let next = at + u16_be(data, at);
        if next >= data.len() {
        } else {
            lemma_scan_speaks_of_jpeg(data, data[next], next + 1);
        }
    }
}

/// Fill bytes before a marker change nothing: behind a fill byte, a run of
/// `count` more of them is passed over.
pub proof fn lemma_fill_bytes_are_passed_over(data: Seq<u8>, at: int, count: nat)
    requires
        0 <= at,
        at + count <= data.len(),
        forall|i: int| at <= i < at + count ==> data[i] == FILL,
    ensures
        marker_from(data, at) == marker_from(data, at + count),
    decreases count,
{
    if count > 0 {
        lemma_fill_bytes_are_passed_over(data, at + 1, (count - 1) as nat);
    }
}

/// A file in which a start of scan comes before any frame header has no
/// dimensions, whatever follows.
pub proof fn lemma_no_frame_before_scan(data: Seq<u8>, at: int)
    requires
        0 <= at < data.len(),
        data[at] == START_OF_SCAN,
    ensures
        next_at(data, at) == malformed(ImFormat::JPEG),
{
}

} // verus!

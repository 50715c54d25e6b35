//! TIFF: the walk over the entries of the first image file directory.

use crate::bytes::{as_i16, as_i32, as_i8, read_i8, read_u8, ByteOrder};
use crate::error::{found, malformed, speaks_of, ImError, ImInfo, ImResult};
use crate::format::ImFormat;
use crate::number::{
    clamp, clamped, double, double_to_u64, iratio, signed_ratio, single, single_to_u64,
    unsigned_ratio, uratio,
};
use crate::source::{addressable, Request, Walk};
use vstd::prelude::*;

verus! {

/// The tag of the entry that holds the width.
pub const WIDTH_TAG: u16 = 256;

/// The tag of the entry that holds the height.
pub const HEIGHT_TAG: u16 = 257;

/// The length of one entry: tag, kind and count of values, and the value or
/// its offset.
pub const ENTRY_LEN: u64 = 12;

/// The offset of the entry `index` of the directory at `ifd`, which begins
/// with the number of its entries in two bytes.
pub open spec fn entry_at(ifd: int, index: int) -> int {
    ifd + 2 + 12 * index
}

/// The number of bytes that a value of `kind` is read from; 0 for a kind that
/// there is not.
pub open spec fn value_len(kind: int) -> int {
    if kind == 1 || kind == 2 || kind == 6 || kind == 7 {
        1
    } else if kind == 3 || kind == 8 {
        2
    } else if kind == 4 || kind == 9 || kind == 11 {
        4
    } else if kind == 5 || kind == 10 || kind == 12 {
        8
    } else {
        0
    }
}

/// The dimension that the bytes `s` hold as a value of `kind`: a byte (1, 2),
/// an unsigned number of two (3) or four bytes (4), a ratio of two unsigned
/// numbers (5), a signed byte (6, 7), a signed number of two (8) or four
/// bytes (9), a ratio of two signed numbers (10), a floating-point number of
/// single (11) or double precision (12). There is none for another kind, for
/// too few bytes, and for a ratio with the denominator zero.
pub open spec fn value_of(order: ByteOrder, kind: int, s: Seq<u8>) -> Option<int> {
    if value_len(kind) == 0 || s.len() < value_len(kind) {
        None
    } else if kind == 1 || kind == 2 {
        Some(s[0] as int)
    } else if kind == 3 {
        Some(order.u16_in(s, 0))
    } else if kind == 4 {
        Some(order.u32_in(s, 0))
    } else if kind == 5 {
        unsigned_ratio(order.u32_in(s, 0), order.u32_in(s, 4))
    } else if kind == 6 || kind == 7 {
        Some(clamped(as_i8(s[0] as int)))
    } else if kind == 8 {
        Some(clamped(as_i16(order.u16_in(s, 0))))
    } else if kind == 9 {
        Some(clamped(as_i32(order.u32_in(s, 0))))
    } else if kind == 10 {
        signed_ratio(as_i32(order.u32_in(s, 0)), as_i32(order.u32_in(s, 4)))
    } else if kind == 11 {
        Some(single_to_u64(order.u32_in(s, 0)))
    } else {
        Some(double_to_u64(order.u64_in(s, 0)))
    }
}

/// The dimensions as far as the entries read so far have given them.
#[derive(Debug, Clone, Copy, PartialEq, Eq, Structural)]
pub struct Seen {
    pub width: Option<u64>,
    pub height: Option<u64>,
}

/// What is known after the entry with `tag` gave `value`: a dimension that
/// was known before stays as it was.
pub open spec fn noted(seen: Seen, tag: int, value: u64) -> Seen {
    if tag == WIDTH_TAG {
        Seen {
            width: if seen.width is Some {
                seen.width
            } else {
                Some(value)
            },
            height: seen.height,
        }
    } else {
        Seen {
            width: seen.width,
            height: if seen.height is Some {
                seen.height
            } else {
                Some(value)
            },
        }
    }
}

/// A directory, and how far the walk over it has come.
#[derive(Debug, Clone, Copy, PartialEq, Eq, Structural)]
pub struct Directory {
    /// The byte order of the file.
    pub order: ByteOrder,
    /// The offset of the directory.
    pub ifd: u32,
    /// The number of its entries.
    pub count: u16,
    /// The number of the entry that the walk stands at.
    pub index: u16,
    /// What the entries before it gave.
    pub seen: Seen,
}

impl Directory {
    /// The offset of the entry that the walk stands at.
    pub open spec fn entry_of(self) -> int {
        entry_at(self.ifd as int, self.index as int)
    }

    /// The walk one entry further on, with `seen` known.
    pub open spec fn next(self, seen: Seen) -> Directory {
        Directory { index: (self.index + 1) as u16, seen, ..self }
    }
}

/// The walk from the entry that `dir` stands at. It has no dimensions where
/// the entries end before both are known.
pub open spec fn entries_from(data: Seq<u8>, dir: Directory) -> ImResult<ImInfo>
    decreases dir.count - dir.index, 2int,
{
    if dir.index >= dir.count || dir.entry_of() + 2 > data.len() {
        malformed(ImFormat::TIFF)
    } else {
        tagged(data, dir, dir.order.u16_in(data, dir.entry_of()) as u16)
    }
}

/// The walk behind the tag of an entry. An entry with another tag than those
/// of width and height is passed over.
pub open spec fn tagged(data: Seq<u8>, dir: Directory, tag: u16) -> ImResult<ImInfo>
    decreases dir.count - dir.index, 1int,
{
    if dir.index >= dir.count {
        malformed(ImFormat::TIFF)
    } else if tag != WIDTH_TAG && tag != HEIGHT_TAG {
        entries_from(data, dir.next(dir.seen))
    } else if dir.entry_of() + 4 > data.len() {
        malformed(ImFormat::TIFF)
    } else {
        valued(data, dir, tag, dir.order.u16_in(data, dir.entry_of() + 2) as u16)
    }
}

/// The walk behind the kind of an entry's value. The value is read from where
/// the entry holds a value or its offset, eight bytes from the entry's start;
/// the walk ends as soon as width and height are both known.
pub open spec fn valued(data: Seq<u8>, dir: Directory, tag: u16, kind: u16) -> ImResult<ImInfo>
    decreases dir.count - dir.index, 0int,
{
    let from = dir.entry_of() + 8;
    if dir.index >= dir.count || from + value_len(kind as int) > data.len() {
        malformed(ImFormat::TIFF)
    } else {
        match value_of(dir.order, kind as int, data.subrange(from, from + value_len(kind as int))) {
            None => malformed(ImFormat::TIFF),
            Some(value) => {
                let now = noted(dir.seen, tag as int, value as u64);
                if now.width is Some && now.height is Some {
                    Ok(
                        ImInfo {
                            width: now.width->0,
                            height: now.height->0,
                            format: ImFormat::TIFF,
                        },
                    )
                } else {
                    entries_from(data, dir.next(now))
                }
            },
        }
    }
}

/// The directory at `ifd`: the number of its entries, then the entries.
pub open spec fn directory_at(data: Seq<u8>, order: ByteOrder, ifd: u32) -> ImResult<ImInfo> {
    if ifd + 2 > data.len() {
        malformed(ImFormat::TIFF)
    } else {
        entries_from(
            data,
            Directory {
                order,
                ifd,
                count: order.u16_in(data, ifd as int) as u16,
                index: 0,
                seen: Seen { width: None, height: None },
            },
        )
    }
}

/// The byte order of a TIFF file with the preamble `p`: `M` as the first byte
/// says highest first.
pub open spec fn order_of(p: Seq<u8>) -> ByteOrder {
    if p[0] == 0x4D {
        ByteOrder::Big
    } else {
        ByteOrder::Little
    }
}

/// TIFF with the preamble `p`: the offset of the first directory stands
/// behind the signature.
pub open spec fn tiff_size(p: Seq<u8>, data: Seq<u8>) -> ImResult<ImInfo> {
    directory_at(data, order_of(p), order_of(p).u32_in(p, 4) as u32)
}

/// The dimension that `bytes` hold as a value of `kind`.
pub fn value(order: ByteOrder, kind: u16, bytes: &[u8]) -> (r: Option<u64>)
    ensures
        r == (match value_of(order, kind as int, bytes@) {
            Some(v) => Some(v as u64),
            None => None,
        }),
        value_of(order, kind as int, bytes@) matches Some(v) ==> 0 <= v <= u64::MAX,
{
    match kind {
        1 | 2 => match read_u8(bytes, 0) {
            Some(v) => Some(v as u64),
            None => None,
        },
        3 => match order.read_u16(bytes, 0) {
            Some(v) => Some(v as u64),
            None => None,
        },
        4 => match order.read_u32(bytes, 0) {
            Some(v) => Some(v as u64),
            None => None,
        },
        5 => match order.read_uratio(bytes, 0) {
            Some((a, b)) => uratio(a, b),
            None => None,
        },
        6 | 7 => match read_i8(bytes, 0) {
            Some(v) => Some(clamp(v as i32)),
            None => None,
        },
        8 => match order.read_i16(bytes, 0) {
            Some(v) => Some(clamp(v as i32)),
            None => None,
        },
        9 => match order.read_i32(bytes, 0) {
            Some(v) => Some(clamp(v)),
            None => None,
        },
        10 => match order.read_iratio(bytes, 0) {
            Some((a, b)) => iratio(a, b),
            None => None,
        },
        11 => match order.read_u32(bytes, 0) {
            Some(v) => Some(single(v)),
            None => None,
        },
        12 => match order.read_u64(bytes, 0) {
            Some(v) => Some(double(v)),
            None => None,
        },
        _ => None,
    }
}

/// The number of bytes that a value of `kind` is read from.
fn value_size(kind: u16) -> (r: usize)
    ensures
        r == value_len(kind as int),
{
    match kind {
        1 | 2 | 6 | 7 => 1,
        3 | 8 => 2,
        4 | 9 | 11 => 4,
        5 | 10 | 12 => 8,
        _ => 0,
    }
}

impl Directory {
    /// The offset of the entry that the walk stands at.
    fn entry(&self) -> (r: u64)
        ensures
            r == self.entry_of(),
    {
        self.ifd as u64 + 2 + ENTRY_LEN * self.index as u64
    }

    /// The walk at the next entry, if there is one.
    fn advanced(self, seen: Seen) -> (r: Walk<TiffWalk>)
        requires
            self.index < self.count,
        ensures
            r matches Walk::Done(result) ==> speaks_of(result, ImFormat::TIFF),
            forall|data: Seq<u8>|
                #![trigger addressable(data)]
                addressable(data) ==> match r {
                    Walk::Done(result) => result == entries_from(data, self.next(seen)),
                    Walk::Next(state) => state.outcome(data) == entries_from(data, self.next(seen)),
                },
            r matches Walk::Next(state) ==> state == TiffWalk::Tag(self.next(seen)) && self.index
                + 1 < self.count,
    {
        if self.index + 1 >= self.count {
            Walk::Done(Err(ImError::ParserError(ImFormat::TIFF)))
        } else {
            Walk::Next(
                TiffWalk::Tag(
                    Directory {
                        order: self.order,
                        ifd: self.ifd,
                        count: self.count,
                        index: self.index + 1,
                        seen,
                    },
                ),
            )
        }
    }
}

/// Where the walk stands between two reads.
#[derive(Debug, Clone, Copy, PartialEq, Eq, Structural)]
pub enum TiffWalk {
    /// Before the number of entries of the directory at `ifd`.
    Count { order: ByteOrder, ifd: u32 },
    /// Before the tag of an entry.
    Tag(Directory),
    /// Behind the tag of width or height, before the kind of its value.
    Kind(Directory, u16),
    /// Before the value of the entry with the tag and of the kind given.
    Value(Directory, u16, u16),
}

impl TiffWalk {
    /// The states that the walk comes to: the kind of a value is read behind
    /// the tag of width or height only.
    pub open spec fn wf(self) -> bool {
        match self {
            TiffWalk::Kind(_, tag) => tag == WIDTH_TAG || tag == HEIGHT_TAG,
            _ => true,
        }
    }

    /// The read that comes next.
    pub open spec fn wants(self) -> Request {
        match self {
            TiffWalk::Count { ifd, .. } => Request::Exact { at: ifd as u64, len: 2, seek: true },
            TiffWalk::Tag(dir) => Request::Exact { at: dir.entry_of() as u64, len: 2, seek: true },
            TiffWalk::Kind(dir, _) => Request::Exact {
                at: (dir.entry_of() + 2) as u64,
                len: 2,
                seek: false,
            },
            TiffWalk::Value(dir, _, kind) => Request::Exact {
                at: (dir.entry_of() + 8) as u64,
                len: value_len(kind as int) as usize,
                seek: true,
            },
        }
    }

    /// What the walk ends with over a source that holds `data`.
    pub open spec fn outcome(self, data: Seq<u8>) -> ImResult<ImInfo> {
        match self {
            TiffWalk::Count { order, ifd } => directory_at(data, order, ifd),
            TiffWalk::Tag(dir) => entries_from(data, dir),
            TiffWalk::Kind(dir, tag) => tagged(data, dir, tag),
            TiffWalk::Value(dir, tag, kind) => valued(data, dir, tag, kind),
        }
    }

    /// A number that falls with every read: three for every entry that lies
    /// before the walk, less what was read of the entry that it stands at.
    pub open spec fn rank(self, len: nat) -> nat {
        match self {
            TiffWalk::Count { .. } => 0x3_0001,
            TiffWalk::Tag(dir) => (3 * (dir.count - dir.index)) as nat,
            TiffWalk::Kind(dir, _) => (3 * (dir.count - dir.index) - 1) as nat,
            TiffWalk::Value(dir, _, _) => (3 * (dir.count - dir.index) - 2) as nat,
        }
    }

    /// `next` carries the walk on over `data`: it ends as the walk ends, or is
    /// a state from which the walk ends the same and that has less before it.
    pub open spec fn carried_on(self, next: Walk<TiffWalk>, data: Seq<u8>) -> bool {
        match next {
            Walk::Done(result) => result == self.outcome(data),
            Walk::Next(state) => state.outcome(data) == self.outcome(data) && state.rank(
                data.len(),
            ) < self.rank(data.len()),
        }
    }

    /// The read that comes next.
    pub(crate) fn request(&self) -> (r: Request)
        ensures
            r == self.wants(),
    {
        match self {
            TiffWalk::Count { ifd, .. } => Request::Exact { at: *ifd as u64, len: 2, seek: true },
            TiffWalk::Tag(dir) => Request::Exact { at: dir.entry(), len: 2, seek: true },
            TiffWalk::Kind(dir, _) => Request::Exact { at: dir.entry() + 2, len: 2, seek: false },
            TiffWalk::Value(dir, _, kind) => Request::Exact {
                at: dir.entry() + 8,
                len: value_size(*kind),
                seek: true,
            },
        }
    }

    /// The walk behind the signature, whose preamble is `p`.
    pub(crate) fn begin(p: &[u8]) -> (r: TiffWalk)
        requires
            p@.len() >= 8,
        ensures
            r.wf(),
            forall|data: Seq<u8>| r.outcome(data) == #[trigger] tiff_size(p@, data),
            r is Count,
    {
        let order = if p[0] == 0x4D {
            ByteOrder::Big
        } else {
            ByteOrder::Little
        };
        let ifd = match order.read_u32(p, 4) {
            Some(ifd) => ifd,
            None => 0,
        };
        TiffWalk::Count { order, ifd }
    }

    /// The walk after the number of entries has come.
    fn feed_count(self, bytes: &[u8]) -> (r: Walk<TiffWalk>)
        requires
            self is Count,
            bytes@.len() == 2,
        ensures
            r matches Walk::Next(state) ==> state.wf(),
            r matches Walk::Done(result) ==> speaks_of(result, ImFormat::TIFF),
            forall|data: Seq<u8>|
                addressable(data) && #[trigger] self.wants().answer(data) == Some(bytes@)
                    ==> self.carried_on(r, data),
            r matches Walk::Next(state) ==> state.wants() matches Request::Exact { seek: true, .. },
    {
        let ghost want = self.wants();
        match self {
            TiffWalk::Count { order, ifd } => {
                let count = match order.read_u16(bytes, 0) {
                    Some(count) => count,
                    None => 0,
                };
                let r = if count == 0 {
                    Walk::Done(Err(ImError::ParserError(ImFormat::TIFF)))
                } else {
                    Walk::Next(
                        TiffWalk::Tag(
                            Directory {
                                order,
                                ifd,
                                count,
                                index: 0,
                                seen: Seen { width: None, height: None },
                            },
                        ),
                    )
                };
                assert forall|data: Seq<u8>|
                    addressable(data) && #[trigger] want.answer(data) == Some(
                        bytes@,
                    ) implies self.carried_on(r, data) by {
                    lemma_window(data, ifd as int, bytes@);
                }
                r
            },
            _ => Walk::Done(Err(ImError::ParserError(ImFormat::TIFF))),
        }
    }

    /// The walk after the tag of an entry has come.
    fn feed_tag(self, bytes: &[u8]) -> (r: Walk<TiffWalk>)
        requires
            self is Tag,
            bytes@.len() == 2,
        ensures
            r matches Walk::Next(state) ==> state.wf(),
            r matches Walk::Done(result) ==> speaks_of(result, ImFormat::TIFF),
            forall|data: Seq<u8>|
                addressable(data) && #[trigger] self.wants().answer(data) == Some(bytes@)
                    ==> self.carried_on(r, data),
            r matches Walk::Next(state) ==> state.wants().follows(self.wants(), 2),
    {
        let ghost want = self.wants();
        match self {
            TiffWalk::Tag(dir) => {
                if dir.index >= dir.count {
                    return Walk::Done(Err(ImError::ParserError(ImFormat::TIFF)));
                }
                let tag = match dir.order.read_u16(bytes, 0) {
                    Some(tag) => tag,
                    None => 0,
                };
                let r = if tag == WIDTH_TAG || tag == HEIGHT_TAG {
                    Walk::Next(TiffWalk::Kind(dir, tag))
                } else {
                    dir.advanced(dir.seen)
                };
                assert forall|data: Seq<u8>|
                    addressable(data) && #[trigger] want.answer(data) == Some(
                        bytes@,
                    ) implies self.carried_on(r, data) by {
                    lemma_window(data, dir.entry_of(), bytes@);
                    assert(addressable(data));
                }
                r
            },
            _ => Walk::Done(Err(ImError::ParserError(ImFormat::TIFF))),
        }
    }

    /// The walk after the kind of a value has come.
    fn feed_kind(self, bytes: &[u8]) -> (r: Walk<TiffWalk>)
        requires
            self is Kind,
            bytes@.len() == 2,
        ensures
            r matches Walk::Next(state) ==> state.wf(),
            r matches Walk::Done(result) ==> speaks_of(result, ImFormat::TIFF),
            forall|data: Seq<u8>|
                addressable(data) && #[trigger] self.wants().answer(data) == Some(bytes@)
                    ==> self.carried_on(r, data),
            r matches Walk::Next(state) ==> state.wants() matches Request::Exact { seek: true, .. },
    {
        let ghost want = self.wants();
        match self {
            TiffWalk::Kind(dir, tag) => {
                let kind = match dir.order.read_u16(bytes, 0) {
                    Some(kind) => kind,
                    None => 0,
                };
                let r = if dir.index >= dir.count {
                    Walk::Done(Err(ImError::ParserError(ImFormat::TIFF)))
                } else if tag != WIDTH_TAG && tag != HEIGHT_TAG {
                    dir.advanced(dir.seen)
                } else if value_size(kind) == 0 {
                    Walk::Done(Err(ImError::ParserError(ImFormat::TIFF)))
                } else {
                    Walk::Next(TiffWalk::Value(dir, tag, kind))
                };
                assert forall|data: Seq<u8>|
                    addressable(data) && #[trigger] want.answer(data) == Some(
                        bytes@,
                    ) implies self.carried_on(r, data) by {
                    lemma_window(data, dir.entry_of() + 2, bytes@);
                    assert(addressable(data));
                }
                r
            },
            _ => Walk::Done(Err(ImError::ParserError(ImFormat::TIFF))),
        }
    }

    /// The walk after a value has come.
    fn feed_value(self, bytes: &[u8]) -> (r: Walk<TiffWalk>)
        requires
            self is Value,
            bytes@.len() == self.wants().len_of(),
        ensures
            r matches Walk::Next(state) ==> state.wf(),
            r matches Walk::Done(result) ==> speaks_of(result, ImFormat::TIFF),
            forall|data: Seq<u8>|
                addressable(data) && #[trigger] self.wants().answer(data) == Some(bytes@)
                    ==> self.carried_on(r, data),
            r matches Walk::Next(state) ==> state.wants() matches Request::Exact { seek: true, .. },
    {
        let ghost want = self.wants();
        match self {
            TiffWalk::Value(dir, tag, kind) => {
                if dir.index >= dir.count {
                    return Walk::Done(Err(ImError::ParserError(ImFormat::TIFF)));
                }
                let r = match value(dir.order, kind, bytes) {
                    None => Walk::Done(Err(ImError::ParserError(ImFormat::TIFF))),
                    Some(v) => {
                        let seen = if tag == WIDTH_TAG {
                            Seen {
                                width: match dir.seen.width {
                                    Some(w) => Some(w),
                                    None => Some(v),
                                },
                                height: dir.seen.height,
                            }
                        } else {
                            Seen {
                                width: dir.seen.width,
                                height: match dir.seen.height {
                                    Some(h) => Some(h),
                                    None => Some(v),
                                },
                            }
                        };
                        match (seen.width, seen.height) {
                            (Some(width), Some(height)) => Walk::Done(
                                Ok(ImInfo { width, height, format: ImFormat::TIFF }),
                            ),
                            _ => dir.advanced(seen),
                        }
                    },
                };
                assert forall|data: Seq<u8>|
                    addressable(data) && #[trigger] want.answer(data) == Some(
                        bytes@,
                    ) implies self.carried_on(r, data) by {
                    assert(addressable(data));
                    assert(bytes@ == data.subrange(
                        dir.entry_of() + 8,
                        dir.entry_of() + 8 + value_len(kind as int),
                    ));
                }
                r
            },
            _ => Walk::Done(Err(ImError::ParserError(ImFormat::TIFF))),
        }
    }

    /// The walk after the bytes that were asked for have come.
    pub(crate) fn feed(self, bytes: &[u8]) -> (r: Walk<TiffWalk>)
        requires
            bytes@.len() == self.wants().len_of(),
        ensures
            r matches Walk::Next(state) ==> state.wf(),
            r matches Walk::Done(result) ==> speaks_of(result, ImFormat::TIFF),
            forall|data: Seq<u8>|
                addressable(data) && #[trigger] self.wants().answer(data) == Some(bytes@)
                    ==> self.carried_on(r, data),
            r matches Walk::Next(state) ==> state.wants().follows(
                self.wants(),
                bytes@.len() as int,
            ),
    {
        match self {
            TiffWalk::Count { .. } => self.feed_count(bytes),
            TiffWalk::Tag(_) => self.feed_tag(bytes),
            TiffWalk::Kind(_, _) => self.feed_kind(bytes),
            TiffWalk::Value(_, _, _) => self.feed_value(bytes),
        }
    }
}

/// The bytes that were read at `at` are the bytes of the source from `at` on.
proof fn lemma_window(data: Seq<u8>, at: int, part: Seq<u8>)
    requires
        0 <= at,
        at + part.len() <= data.len(),
        data.subrange(at, at + part.len()) == part,
    ensures
        forall|i: int| 0 <= i < part.len() ==> #[trigger] part[i] == data[at + i],
{
    assert forall|i: int| 0 <= i < part.len() implies #[trigger] part[i] == data[at + i] by {
        assert(data.subrange(at, at + part.len())[i] == data[at + i]);
    }
}

/// A source that has not all of what the walk asks for next holds no
/// dimensions that the walk could find.
pub proof fn lemma_tiff_dry(state: TiffWalk, data: Seq<u8>)
    requires
        state.wf(),
        state.wants().answer(data) is None,
    ensures
        state.outcome(data) == malformed(ImFormat::TIFF),
{
}

/// Whatever the walk over a directory ends with speaks of TIFF.
pub proof fn lemma_entries_speak_of_tiff(data: Seq<u8>, dir: Directory)
    ensures
        speaks_of(entries_from(data, dir), ImFormat::TIFF),
    decreases dir.count - dir.index, 2int,
{
    if dir.index >= dir.count || dir.entry_of() + 2 > data.len() {
    } else {
        lemma_tagged_speaks_of_tiff(data, dir, dir.order.u16_in(data, dir.entry_of()) as u16);
    }
}

/// Whatever the walk ends with behind a tag speaks of TIFF.
pub proof fn lemma_tagged_speaks_of_tiff(data: Seq<u8>, dir: Directory, tag: u16)
    ensures
        speaks_of(tagged(data, dir, tag), ImFormat::TIFF),
    decreases dir.count - dir.index, 1int,
{
    if dir.index >= dir.count {
    } else if tag != WIDTH_TAG && tag != HEIGHT_TAG {
        lemma_entries_speak_of_tiff(data, dir.next(dir.seen));
    } else if dir.entry_of() + 4 > data.len() {
    } else {
        lemma_valued_speaks_of_tiff(
            data,
            dir,
            tag,
            dir.order.u16_in(data, dir.entry_of() + 2) as u16,
        );
    }
}

/// Whatever the walk ends with behind the kind of a value speaks of TIFF.
pub proof fn lemma_valued_speaks_of_tiff(data: Seq<u8>, dir: Directory, tag: u16, kind: u16)
    ensures
        speaks_of(valued(data, dir, tag, kind), ImFormat::TIFF),
    decreases dir.count - dir.index, 0int,
{
    let from = dir.entry_of() + 8;
    if dir.index >= dir.count || from + value_len(kind as int) > data.len() {
    } else {
        match value_of(dir.order, kind as int, data.subrange(from, from + value_len(kind as int))) {
            None => {},
            Some(value) => {
                let now = noted(dir.seen, tag as int, value as u64);
                if !(now.width is Some && now.height is Some) {
                    lemma_entries_speak_of_tiff(data, dir.next(now));
                }
            },
        }
    }
}

/// The value of the entry that `dir` stands at, read as a value of the kind
/// that the entry names; `None` where the source ends before, or there is no
/// such value.
pub open spec fn entry_value(data: Seq<u8>, dir: Directory) -> Option<int> {
    let kind = dir.order.u16_in(data, dir.entry_of() + 2);
    if dir.entry_of() + 8 + value_len(kind) > data.len() {
        None
    } else {
        value_of(
            dir.order,
            kind,
            data.subrange(dir.entry_of() + 8, dir.entry_of() + 8 + value_len(kind)),
        )
    }
}

/// The order of the entries for width and height does not count. Where the
/// walk stands before two entries that follow each other, one with the tag
/// of the width and one with the tag of the height, and nothing is known
/// yet, it ends with the value of the one as the width and the value of the
/// other as the height, whichever of them comes first, in either byte order.
pub proof fn lemma_either_order(data: Seq<u8>, dir: Directory, width: int, height: int)
    requires
        dir.index + 1 < dir.count,
        dir.seen == (Seen { width: None, height: None }),
        dir.next(dir.seen).entry_of() + 4 <= data.len(),
        ({
            let first = dir.order.u16_in(data, dir.entry_of());
            let second = dir.order.u16_in(data, dir.next(dir.seen).entry_of());
            ||| (first == WIDTH_TAG && second == HEIGHT_TAG && entry_value(data, dir) == Some(width)
                && entry_value(data, dir.next(dir.seen)) == Some(height))
            ||| (first == HEIGHT_TAG && second == WIDTH_TAG && entry_value(data, dir) == Some(
                height,
            ) && entry_value(data, dir.next(dir.seen)) == Some(width))
        }),
    ensures
        entries_from(data, dir) == found(ImFormat::TIFF, width, height),
{
    let first = dir.order.u16_in(data, dir.entry_of()) as u16;
    let kind = dir.order.u16_in(data, dir.entry_of() + 2) as u16;
    lemma_u16_fits(data, dir.order, dir.entry_of());
    lemma_u16_fits(data, dir.order, dir.entry_of() + 2);
    assert(entries_from(data, dir) == tagged(data, dir, first));
    assert(tagged(data, dir, first) == valued(data, dir, first, kind));
    let value = entry_value(data, dir)->0;
    let now = noted(dir.seen, first as int, value as u64);
    let then = dir.next(now);
    assert(then.entry_of() == dir.next(dir.seen).entry_of());
    assert(valued(data, dir, first, kind) == entries_from(data, then));
    let second = then.order.u16_in(data, then.entry_of()) as u16;
    let second_kind = then.order.u16_in(data, then.entry_of() + 2) as u16;
    lemma_u16_fits(data, then.order, then.entry_of());
    lemma_u16_fits(data, then.order, then.entry_of() + 2);
    assert(entry_value(data, then) == entry_value(data, dir.next(dir.seen)));
    assert(entries_from(data, then) == tagged(data, then, second));
    assert(tagged(data, then, second) == valued(data, then, second, second_kind));
}

/// Two bytes hold a number of sixteen bits.
proof fn lemma_u16_fits(data: Seq<u8>, order: ByteOrder, at: int)
    ensures
        0 <= order.u16_in(data, at) <= u16::MAX,
{
}

} // verus!

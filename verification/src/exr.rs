//! OpenEXR: the walk over the attributes of the header for the display window.

use crate::bytes::{as_i32, le32, to_i32, u32_le};
use crate::error::{found, malformed, speaks_of, ImError, ImInfo, ImResult};
use crate::format::ImFormat;
use crate::source::{addressable, remaining, Request, Walk};
use vstd::prelude::*;

verus! {

/// `displayWindow`, the name of the attribute that holds the dimensions.
pub const DISPLAY_WINDOW: [u8; 13] = [
    0x64,
    0x69,
    0x73,
    0x70,
    0x6C,
    0x61,
    0x79,
    0x57,
    0x69,
    0x6E,
    0x64,
    0x6F,
    0x77,
];

/// `box2i`, the kind of value that a display window is.
pub const BOX2I: [u8; 5] = [0x62, 0x6F, 0x78, 0x32, 0x69];

/// The offset of the first attribute, behind the magic number and the version.
pub const FIRST_ATTRIBUTE: u64 = 8;

/// The dimensions of the window at `at`: its corners, four signed bytes each,
/// lowest first, both counted in. A window whose far corner lies before the
/// near one has no size.
pub open spec fn window_at(data: Seq<u8>, at: int) -> ImResult<ImInfo> {
    if at + 16 > data.len() {
        malformed(ImFormat::OpenEXR)
    } else {
        window_of(data.subrange(at, at + 16))
    }
}

/// The dimensions of a window that is given by its bytes, of which there
/// have to be 16.
pub open spec fn window_of(value: Seq<u8>) -> ImResult<ImInfo> {
    let width = as_i32(u32_le(value, 8)) - as_i32(u32_le(value, 0)) + 1;
    let height = as_i32(u32_le(value, 12)) - as_i32(u32_le(value, 4)) + 1;
    if value.len() < 16 || width <= 0 || height <= 0 {
        malformed(ImFormat::OpenEXR)
    } else {
        found(ImFormat::OpenEXR, width, height)
    }
}

/// The offset of the first zero byte at or behind `at`: where the text that
/// begins at `at` ends.
pub open spec fn text_end(data: Seq<u8>, at: int) -> Option<int>
    decreases remaining(data, at),
{
    if at < 0 || at >= data.len() {
        None
    } else if data[at] == 0 {
        Some(at)
    } else {
        text_end(data, at + 1)
    }
}

/// The attributes from the one at `at` on. An attribute is its name, the kind
/// of its value and the value; name and kind end with a zero byte each, and
/// the value comes behind its length. The attribute named `displayWindow`
/// holds the dimensions, and those before it are passed over. An empty name
/// ends the header, and leaves a file without a display window.
pub open spec fn attributes_from(data: Seq<u8>, at: int) -> ImResult<ImInfo>
    decreases remaining(data, at), 1int,
{
    match text_end(data, at) {
        None => malformed(ImFormat::OpenEXR),
        Some(name_end) => if name_end == at {
            malformed(ImFormat::OpenEXR)
        } else {
            proof {
                lemma_text_end(data, at);
            }
            value_from(data, name_end, data.subrange(at, name_end) == DISPLAY_WINDOW@)
        },
    }
}

/// The attributes from the kind of an attribute on whose name ends at
/// `name_end`; `window` says whether the name is `displayWindow`.
pub open spec fn value_from(data: Seq<u8>, name_end: int, window: bool) -> ImResult<ImInfo>
    decreases remaining(data, name_end), 0int,
{
    match text_end(data, name_end + 1) {
        None => malformed(ImFormat::OpenEXR),
        Some(kind_end) => if name_end < 0 || kind_end + 5 > data.len() {
            malformed(ImFormat::OpenEXR)
        } else if window {
            if data.subrange(name_end + 1, kind_end) != BOX2I@ || u32_le(data, kind_end + 1) != 16 {
                malformed(ImFormat::OpenEXR)
            } else {
                window_at(data, kind_end + 5)
            }
        } else {
            proof {
                lemma_text_end(data, name_end + 1);
            }
            attributes_from(data, kind_end + 5 + u32_le(data, kind_end + 1))
        },
    }
}

/// OpenEXR: the attributes follow each other from the eighth byte on.
pub open spec fn exr_size(data: Seq<u8>) -> ImResult<ImInfo> {
    attributes_from(data, 8)
}

/// The byte `byte`, which is not zero, carries on a text that so far agrees
/// with `text` and has `so_far` bytes.
pub open spec fn agrees(text: Seq<u8>, so_far: int, byte: u8) -> bool {
    0 <= so_far < text.len() && text[so_far] == byte
}

/// The walk inside the name of an attribute that begins at `start`, before
/// the byte at `at`; `same` says whether the bytes before agree with
/// `displayWindow`. A zero byte ends the name, and an empty name the header.
pub open spec fn name_from(data: Seq<u8>, start: int, at: int, same: bool) -> ImResult<ImInfo>
    decreases remaining(data, at), 1int,
{
    if at < 0 || at >= data.len() {
        malformed(ImFormat::OpenEXR)
    } else if data[at] != 0 {
        name_from(data, start, at + 1, same && agrees(DISPLAY_WINDOW@, at - start, data[at]))
    } else if at == start {
        malformed(ImFormat::OpenEXR)
    } else {
        kind_from(data, at + 1, at + 1, same && at - start == 13, true)
    }
}

/// The walk inside the kind of an attribute, which begins at `start`, before
/// the byte at `at`; `window` says whether the attribute is the display
/// window, `same` whether the bytes before agree with `box2i`.
pub open spec fn kind_from(
    data: Seq<u8>,
    start: int,
    at: int,
    window: bool,
    same: bool,
) -> ImResult<ImInfo>
    decreases remaining(data, at), 1int,
{
    if at < 0 || at >= data.len() {
        malformed(ImFormat::OpenEXR)
    } else if data[at] != 0 {
        kind_from(data, start, at + 1, window, same && agrees(BOX2I@, at - start, data[at]))
    } else {
        size_at(data, at + 1, window, same && at - start == 5)
    }
}

/// The walk before the length of an attribute's value, four bytes, lowest
/// first. The display window has to be a `box2i` of 16 bytes; the value of
/// another attribute is passed over.
pub open spec fn size_at(data: Seq<u8>, at: int, window: bool, boxed: bool) -> ImResult<ImInfo>
    decreases remaining(data, at), 0int,
{
    if at < 0 || at + 4 > data.len() {
        malformed(ImFormat::OpenEXR)
    } else if window {
        if !boxed || u32_le(data, at) != 16 {
            malformed(ImFormat::OpenEXR)
        } else {
            window_at(data, at + 4)
        }
    } else {
        name_from(data, at + 4 + u32_le(data, at), at + 4 + u32_le(data, at), true)
    }
}

/// Where a text ends there is a zero byte, and none before it; where it does
/// not end there is none at all.
pub proof fn lemma_text_end(data: Seq<u8>, at: int)
    ensures
        text_end(data, at) matches Some(end) ==> at <= end < data.len() && data[end] == 0
            && forall|i: int| at <= i < end ==> data[i] != 0,
        text_end(data, at) is None && 0 <= at ==> forall|i: int|
            at <= i < data.len() ==> data[i] != 0,
    decreases remaining(data, at),
{
    if at < 0 || at >= data.len() || data[at] == 0 {
    } else {
        lemma_text_end(data, at + 1);
    }
}

/// A text ends where it ends from any byte of it on.
pub proof fn lemma_text_end_within(data: Seq<u8>, start: int, at: int)
    requires
        0 <= start <= at,
        forall|i: int| start <= i < at ==> data[i] != 0,
    ensures
        text_end(data, start) == text_end(data, at),
    decreases at - start,
{
    if start < at {
        if start < data.len() {
            lemma_text_end_within(data, start + 1, at);
        }
    }
}

/// The `count` bytes of `data` from `start` on are the first `count` bytes of
/// `text`.
pub open spec fn begins_like(data: Seq<u8>, start: int, count: int, text: Seq<u8>) -> bool {
    count <= text.len() && forall|i: int| 0 <= i < count ==> data[start + i] == text[i]
}

/// The walk inside a name, byte by byte, ends as the attributes say that begin
/// with that name.
pub proof fn lemma_name_walk(data: Seq<u8>, start: int, at: int, same: bool)
    requires
        0 <= start <= at,
        forall|i: int| start <= i < at ==> data[i] != 0,
        same == begins_like(data, start, at - start, DISPLAY_WINDOW@),
    ensures
        name_from(data, start, at, same) == attributes_from(data, start),
    decreases remaining(data, at), 1int,
{
    lemma_text_end_within(data, start, at);
    if at >= data.len() {
    } else if data[at] != 0 {
        let next = same && agrees(DISPLAY_WINDOW@, at - start, data[at]);
        assert(next == begins_like(data, start, at + 1 - start, DISPLAY_WINDOW@)) by {
            if begins_like(data, start, at + 1 - start, DISPLAY_WINDOW@) {
                assert(data[start + (at - start)] == DISPLAY_WINDOW@[at - start]);
            }
        }
        lemma_name_walk(data, start, at + 1, next);
    } else if at == start {
    } else {
        let window = same && at - start == 13;
        assert(window == (data.subrange(start, at) == DISPLAY_WINDOW@)) by {
            if window {
                assert(data.subrange(start, at) =~= DISPLAY_WINDOW@);
            }
            if data.subrange(start, at) == DISPLAY_WINDOW@ {
                assert forall|i: int| 0 <= i < at - start implies data[start + i]
                    == DISPLAY_WINDOW@[i] by {
                    assert(data.subrange(start, at)[i] == data[start + i]);
                }
            }
        }
        lemma_kind_walk(data, at, at + 1, window, true);
    }
}

/// The walk inside the kind of a value, byte by byte, ends as the attributes
/// say from that kind on.
pub proof fn lemma_kind_walk(data: Seq<u8>, name_end: int, at: int, window: bool, same: bool)
    requires
        0 <= name_end < at,
        name_end < data.len(),
        forall|i: int| name_end < i < at ==> data[i] != 0,
        same == begins_like(data, name_end + 1, at - name_end - 1, BOX2I@),
    ensures
        kind_from(data, name_end + 1, at, window, same) == value_from(data, name_end, window),
    decreases remaining(data, at), 1int,
{
    let start = name_end + 1;
    lemma_text_end_within(data, start, at);
    if at >= data.len() {
    } else if data[at] != 0 {
        let next = same && agrees(BOX2I@, at - start, data[at]);
        assert(next == begins_like(data, start, at + 1 - start, BOX2I@)) by {
            if begins_like(data, start, at + 1 - start, BOX2I@) {
                assert(data[start + (at - start)] == BOX2I@[at - start]);
            }
        }
        lemma_kind_walk(data, name_end, at + 1, window, next);
    } else {
        let boxed = same && at - start == 5;
        assert(boxed == (data.subrange(start, at) == BOX2I@)) by {
            if boxed {
                assert(data.subrange(start, at) =~= BOX2I@);
            }
            if data.subrange(start, at) == BOX2I@ {
                assert forall|i: int| 0 <= i < at - start implies data[start + i] == BOX2I@[i] by {
                    assert(data.subrange(start, at)[i] == data[start + i]);
                }
            }
        }
        assert(text_end(data, at) == Some(at));
        assert(kind_from(data, start, at, window, same) == size_at(data, at + 1, window, boxed));
        if at + 5 <= data.len() && !window {
            let next = at + 5 + u32_le(data, at + 1);
            lemma_name_walk(data, next, next, true);
            assert(size_at(data, at + 1, window, boxed) == attributes_from(data, next));
            assert(value_from(data, name_end, window) == attributes_from(data, next));
        } else if at + 5 <= data.len() {
            assert(value_from(data, name_end, window) == size_at(data, at + 1, window, boxed));
        } else {
            assert(value_from(data, name_end, window) == malformed(ImFormat::OpenEXR));
        }
    }
}

/// Where the walk stands between two reads.
#[derive(Debug, Clone, Copy, PartialEq, Eq, Structural)]
pub enum ExrWalk {
    /// Inside the name of an attribute that begins at `start`.
    Name { start: u64, at: u64, seek: bool, same: bool },
    /// Inside the kind of an attribute's value, which begins at `start`.
    Kind { start: u64, at: u64, window: bool, same: bool },
    /// Before the length of an attribute's value.
    Size { at: u64, window: bool, boxed: bool },
    /// Before the display window.
    Window { at: u64 },
}

/// The dimensions of a window that is given by its bytes.
pub fn window(value: &[u8]) -> (r: ImResult<ImInfo>)
    ensures
        r == window_of(value@),
{
    if value.len() < 16 {
        return Err(ImError::ParserError(ImFormat::OpenEXR));
    }
    let x1 = to_i32(le32(value, 0)) as i64;
    let y1 = to_i32(le32(value, 4)) as i64;
    let x2 = to_i32(le32(value, 8)) as i64;
    let y2 = to_i32(le32(value, 12)) as i64;
    let width = x2 - x1 + 1;
    let height = y2 - y1 + 1;
    if width <= 0 || height <= 0 {
        Err(ImError::ParserError(ImFormat::OpenEXR))
    } else {
        Ok(ImInfo { width: width as u64, height: height as u64, format: ImFormat::OpenEXR })
    }
}

/// Tells whether `byte` carries on a text that so far agrees with `text` and
/// has `so_far` bytes.
fn carries_on(text: &[u8], so_far: u64, byte: u8) -> (r: bool)
    ensures
        r == agrees(text@, so_far as int, byte),
{
    so_far < text.len() as u64 && text[so_far as usize] == byte
}

impl ExrWalk {
    /// The offset of the next byte to be read.
    pub open spec fn at_of(self) -> int {
        match self {
            ExrWalk::Name { at, .. } => at as int,
            ExrWalk::Kind { at, .. } => at as int,
            ExrWalk::Size { at, .. } => at as int,
            ExrWalk::Window { at } => at as int,
        }
    }

    /// The read that comes next.
    pub open spec fn wants(self) -> Request {
        match self {
            ExrWalk::Name { at, seek, .. } => Request::Exact { at, len: 1, seek },
            ExrWalk::Kind { at, .. } => Request::Exact { at, len: 1, seek: false },
            ExrWalk::Size { at, .. } => Request::Exact { at, len: 4, seek: false },
            ExrWalk::Window { at } => Request::Exact { at, len: 16, seek: false },
        }
    }

    /// What the walk ends with over a source that holds `data`.
    pub open spec fn outcome(self, data: Seq<u8>) -> ImResult<ImInfo> {
        match self {
            ExrWalk::Name { start, at, same, .. } => if start <= at {
                name_from(data, start as int, at as int, same)
            } else {
                malformed(ImFormat::OpenEXR)
            },
            ExrWalk::Kind { start, at, window, same } => if start <= at {
                kind_from(data, start as int, at as int, window, same)
            } else {
                malformed(ImFormat::OpenEXR)
            },
            ExrWalk::Size { at, window, boxed } => size_at(data, at as int, window, boxed),
            ExrWalk::Window { at } => window_at(data, at as int),
        }
    }

    /// A number that falls with every read: the bytes that lie before the walk.
    pub open spec fn rank(self, len: nat) -> nat {
        if self.at_of() < len {
            (len - self.at_of()) as nat
        } else {
            0
        }
    }

    /// `next` carries the walk on over `data`: it ends as the walk ends, or is
    /// a state from which the walk ends the same and that lies further on.
    pub open spec fn carried_on(self, next: Walk<ExrWalk>, data: Seq<u8>) -> bool {
        match next {
            Walk::Done(result) => result == self.outcome(data),
            Walk::Next(state) => state.outcome(data) == self.outcome(data) && state.rank(
                data.len(),
            ) < self.rank(data.len()),
        }
    }

    /// The read that comes next.
    pub(crate) fn request(&self) -> (r: Request)
        ensures
            r == self.wants(),
    {
        match self {
            ExrWalk::Name { at, seek, .. } => Request::Exact { at: *at, len: 1, seek: *seek },
            ExrWalk::Kind { at, .. } => Request::Exact { at: *at, len: 1, seek: false },
            ExrWalk::Size { at, .. } => Request::Exact { at: *at, len: 4, seek: false },
            ExrWalk::Window { at } => Request::Exact { at: *at, len: 16, seek: false },
        }
    }

    /// The walk behind the signature.
    pub(crate) fn begin() -> (r: ExrWalk)
        ensures
            forall|data: Seq<u8>| #[trigger] r.outcome(data) == exr_size(data),
            r.wants() matches Request::Exact { seek: true, .. },
    {
        let r = ExrWalk::Name {
            start: FIRST_ATTRIBUTE,
            at: FIRST_ATTRIBUTE,
            seek: true,
            same: true,
        };
        assert forall|data: Seq<u8>| #[trigger] r.outcome(data) == exr_size(data) by {
            lemma_name_walk(data, 8, 8, true);
        }
        r
    }

    /// The walk after a byte of a name has come.
    fn feed_name(self, bytes: &[u8]) -> (r: Walk<ExrWalk>)
        requires
            self is Name,
            bytes@.len() == 1,
        ensures
            r matches Walk::Done(result) ==> speaks_of(result, ImFormat::OpenEXR),
            forall|data: Seq<u8>|
                addressable(data) && #[trigger] self.wants().answer(data) == Some(bytes@)
                    ==> self.carried_on(r, data),
            r matches Walk::Next(state) ==> state.wants().follows(self.wants(), 1),
    {
        let ghost want = self.wants();
        match self {
            ExrWalk::Name { start, at, seek, same } => {
                if at == u64::MAX || start > at {
                    return Walk::Done(Err(ImError::ParserError(ImFormat::OpenEXR)));
                }
                let byte = bytes[0];
                let r = if byte != 0 {
                    Walk::Next(
                        ExrWalk::Name {
                            start,
                            at: at + 1,
                            seek: false,
                            same: same && carries_on(&DISPLAY_WINDOW, at - start, byte),
                        },
                    )
                } else if at == start {
                    Walk::Done(Err(ImError::ParserError(ImFormat::OpenEXR)))
                } else {
                    Walk::Next(
                        ExrWalk::Kind {
                            start: at + 1,
                            at: at + 1,
                            window: same && at - start == 13,
                            same: true,
                        },
                    )
                };
                assert forall|data: Seq<u8>|
                    addressable(data) && #[trigger] want.answer(data) == Some(
                        bytes@,
                    ) implies self.carried_on(r, data) by {
                    assert(data.subrange(at as int, at + 1)[0] == data[at as int]);
                }
                r
            },
            _ => Walk::Done(Err(ImError::ParserError(ImFormat::OpenEXR))),
        }
    }

    /// The walk after a byte of a kind has come.
    fn feed_kind(self, bytes: &[u8]) -> (r: Walk<ExrWalk>)
        requires
            self is Kind,
            bytes@.len() == 1,
        ensures
            r matches Walk::Done(result) ==> speaks_of(result, ImFormat::OpenEXR),
            forall|data: Seq<u8>|
                addressable(data) && #[trigger] self.wants().answer(data) == Some(bytes@)
                    ==> self.carried_on(r, data),
            r matches Walk::Next(state) ==> state.wants().follows(self.wants(), 1),
    {
        let ghost want = self.wants();
        match self {
            ExrWalk::Kind { start, at, window, same } => {
                if at == u64::MAX || start > at {
                    return Walk::Done(Err(ImError::ParserError(ImFormat::OpenEXR)));
                }
                let byte = bytes[0];
                let r = if byte != 0 {
                    Walk::Next(
                        ExrWalk::Kind {
                            start,
                            at: at + 1,
                            window,
                            same: same && carries_on(&BOX2I, at - start, byte),
                        },
                    )
                } else {
                    Walk::Next(
                        ExrWalk::Size { at: at + 1, window, boxed: same && at - start == 5 },
                    )
                };
                assert forall|data: Seq<u8>|
                    addressable(data) && #[trigger] want.answer(data) == Some(
                        bytes@,
                    ) implies self.carried_on(r, data) by {
                    assert(data.subrange(at as int, at + 1)[0] == data[at as int]);
                }
                r
            },
            _ => Walk::Done(Err(ImError::ParserError(ImFormat::OpenEXR))),
        }
    }

    /// The walk after the length of a value has come.
    fn feed_size(self, bytes: &[u8]) -> (r: Walk<ExrWalk>)
        requires
            self is Size,
            bytes@.len() == 4,
        ensures
            r matches Walk::Done(result) ==> speaks_of(result, ImFormat::OpenEXR),
            forall|data: Seq<u8>|
                addressable(data) && #[trigger] self.wants().answer(data) == Some(bytes@)
                    ==> self.carried_on(r, data),
            r matches Walk::Next(state) ==> state.wants().follows(self.wants(), 4),
    {
        let ghost want = self.wants();
        match self {
            ExrWalk::Size { at, window, boxed } => {
                let size = le32(bytes, 0);
                let r = if at > u64::MAX - 4 {
                    Walk::Done(Err(ImError::ParserError(ImFormat::OpenEXR)))
                } else if window {
                    if !boxed || size != 16 {
                        Walk::Done(Err(ImError::ParserError(ImFormat::OpenEXR)))
                    } else {
                        Walk::Next(ExrWalk::Window { at: at + 4 })
                    }
                } else if at + 4 > u64::MAX - size as u64 {
                    Walk::Done(Err(ImError::ParserError(ImFormat::OpenEXR)))
                } else {
                    let next = at + 4 + size as u64;
                    Walk::Next(ExrWalk::Name { start: next, at: next, seek: size != 0, same: true })
                };
                assert forall|data: Seq<u8>|
                    addressable(data) && #[trigger] want.answer(data) == Some(
                        bytes@,
                    ) implies self.carried_on(r, data) by {
                    let part = data.subrange(at as int, at + 4);
                    assert(part[0] == data[at as int]);
                    assert(part[1] == data[at + 1]);
                    assert(part[2] == data[at + 2]);
                    assert(part[3] == data[at + 3]);
                }
                r
            },
            _ => Walk::Done(Err(ImError::ParserError(ImFormat::OpenEXR))),
        }
    }

    /// The walk after the display window has come.
    fn feed_window(self, bytes: &[u8]) -> (r: Walk<ExrWalk>)
        requires
            self is Window,
            bytes@.len() == 16,
        ensures
            r matches Walk::Done(result) ==> speaks_of(result, ImFormat::OpenEXR),
            forall|data: Seq<u8>|
                addressable(data) && #[trigger] self.wants().answer(data) == Some(bytes@)
                    ==> self.carried_on(r, data),
            r is Done,
    {
        Walk::Done(window(bytes))
    }

    /// The walk after the bytes that were asked for have come.
    pub(crate) fn feed(self, bytes: &[u8]) -> (r: Walk<ExrWalk>)
        requires
            bytes@.len() == self.wants().len_of(),
        ensures
            r matches Walk::Done(result) ==> speaks_of(result, ImFormat::OpenEXR),
            forall|data: Seq<u8>|
                addressable(data) && #[trigger] self.wants().answer(data) == Some(bytes@)
                    ==> self.carried_on(r, data),
            r matches Walk::Next(state) ==> state.wants().follows(
                self.wants(),
                bytes@.len() as int,
            ),
    {
        match self {
            ExrWalk::Name { .. } => self.feed_name(bytes),
            ExrWalk::Kind { .. } => self.feed_kind(bytes),
            ExrWalk::Size { .. } => self.feed_size(bytes),
            ExrWalk::Window { .. } => self.feed_window(bytes),
        }
    }
}

/// A source that has not all of what the walk asks for next holds no
/// dimensions that the walk could find.
pub proof fn lemma_exr_dry(state: ExrWalk, data: Seq<u8>)
    requires
        state.wants().answer(data) is None,
    ensures
        state.outcome(data) == malformed(ImFormat::OpenEXR),
{
}

/// Whatever the walk over the attributes ends with speaks of OpenEXR.
pub proof fn lemma_attributes_speak_of_exr(data: Seq<u8>, at: int)
    ensures
        speaks_of(attributes_from(data, at), ImFormat::OpenEXR),
    decreases remaining(data, at), 1int,
{
    match text_end(data, at) {
        None => {},
        Some(name_end) => if name_end != at {
            lemma_text_end(data, at);
            lemma_value_speaks_of_exr(
                data,
                name_end,
                data.subrange(at, name_end) == DISPLAY_WINDOW@,
            );
        },
    }
}

/// Whatever the walk ends with from the kind of a value on speaks of OpenEXR.
pub proof fn lemma_value_speaks_of_exr(data: Seq<u8>, name_end: int, window: bool)
    ensures
        speaks_of(value_from(data, name_end, window), ImFormat::OpenEXR),
    decreases remaining(data, name_end), 0int,
{
    match text_end(data, name_end + 1) {
        None => {},
        Some(kind_end) => if name_end >= 0 && kind_end + 5 <= data.len() && !window {
            lemma_text_end(data, name_end + 1);
            lemma_attributes_speak_of_exr(data, kind_end + 5 + u32_le(data, kind_end + 1));
        },
    }
}

} // verus!

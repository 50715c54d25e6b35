//! ICO: the walk over the directory of icons for the biggest of them.

use crate::bytes::{le16, u16_le};
use crate::error::{found, malformed, speaks_of, ImError, ImInfo, ImResult};
use crate::format::ImFormat;
use crate::source::{addressable, Request, Walk};
use vstd::prelude::*;

verus! {

/// The length of one entry of the directory. Its first two bytes are the
/// width and the height of an icon.
pub const ICON_LEN: usize = 16;

/// The offset of the first entry, behind the signature and the number of icons.
pub const FIRST_ICON: u64 = 6;

/// The walk over the `left` entries that lie from `at` on, with `width` and
/// `height` the biggest so far. An icon is bigger than those before it where
/// neither its width nor its height is smaller.
pub open spec fn icons_from(data: Seq<u8>, left: int, at: int, width: u8, height: u8) -> ImResult<
    ImInfo,
>
    decreases left,
{
    if left <= 0 {
        found(ImFormat::ICO, width as int, height as int)
    } else if at + 16 > data.len() {
        malformed(ImFormat::ICO)
    } else if data[at] >= width && data[at + 1] >= height {
        icons_from(data, left - 1, at + 16, data[at], data[at + 1])
    } else {
        icons_from(data, left - 1, at + 16, width, height)
    }
}

/// ICO with the preamble `p`: the number of icons stands behind the
/// signature, the directory behind that. A file without icons has the
/// dimensions zero.
pub open spec fn ico_size(p: Seq<u8>, data: Seq<u8>) -> ImResult<ImInfo> {
    icons_from(data, u16_le(p, 4), 6, 0, 0)
}

/// Where the walk stands between two reads: before the entry at `at`, with
/// `left` entries to read, and the biggest icon so far.
#[derive(Debug, Clone, Copy, PartialEq, Eq, Structural)]
pub struct IcoWalk {
    pub left: u16,
    pub at: u64,
    pub seek: bool,
    pub width: u8,
    pub height: u8,
}

impl IcoWalk {
    /// The states that the walk comes to: an entry is read while there is one.
    pub open spec fn wf(self) -> bool {
        self.left > 0
    }

    /// The read that comes next.
    pub open spec fn wants(self) -> Request {
        Request::Exact { at: self.at, len: 16, seek: self.seek }
    }

    /// What the walk ends with over a source that holds `data`.
    pub open spec fn outcome(self, data: Seq<u8>) -> ImResult<ImInfo> {
        icons_from(data, self.left as int, self.at as int, self.width, self.height)
    }

    /// A number that falls with every read: the entries that lie before the walk.
    pub open spec fn rank(self, len: nat) -> nat {
        self.left as nat
    }

    /// `next` carries the walk on over `data`: it ends as the walk ends, or is
    /// a state from which the walk ends the same and that has less before it.
    pub open spec fn carried_on(self, next: Walk<IcoWalk>, data: Seq<u8>) -> bool {
        match next {
            Walk::Done(result) => result == self.outcome(data),
            Walk::Next(state) => state.outcome(data) == self.outcome(data) && state.rank(
                data.len(),
            ) < self.rank(data.len()),
        }
    }

    /// The read that comes next.
    pub(crate) fn request(&self) -> (r: Request)
        ensures
            r == self.wants(),
    {
        Request::Exact { at: self.at, len: ICON_LEN, seek: self.seek }
    }

    /// The walk behind the signature, whose preamble is `p`.
    pub(crate) fn begin(p: &[u8]) -> (r: Walk<IcoWalk>)
        requires
            p@.len() >= 6,
        ensures
            r matches Walk::Next(state) ==> state.wf() && state.seek,
            r matches Walk::Done(result) ==> speaks_of(result, ImFormat::ICO),
            forall|data: Seq<u8>|
                #![trigger ico_size(p@, data)]
                match r {
                    Walk::Done(result) => result == ico_size(p@, data),
                    Walk::Next(state) => state.outcome(data) == ico_size(p@, data),
                },
    {
        let count = le16(p, 4);
        if count == 0 {
            Walk::Done(Ok(ImInfo { width: 0, height: 0, format: ImFormat::ICO }))
        } else {
            Walk::Next(IcoWalk { left: count, at: FIRST_ICON, seek: true, width: 0, height: 0 })
        }
    }

    /// The walk after the bytes that were asked for have come.
    pub(crate) fn feed(self, bytes: &[u8]) -> (r: Walk<IcoWalk>)
        requires
            bytes@.len() == 16,
        ensures
            r matches Walk::Next(state) ==> state.wf(),
            r matches Walk::Done(result) ==> speaks_of(result, ImFormat::ICO),
            forall|data: Seq<u8>|
                addressable(data) && #[trigger] self.wants().answer(data) == Some(bytes@)
                    ==> self.carried_on(r, data),
            r matches Walk::Next(state) ==> state.wants().follows(self.wants(), 16),
    {
        let ghost want = self.wants();
        if self.left == 0 {
            return Walk::Done(
                Ok(
                    ImInfo {
                        width: self.width as u64,
                        height: self.height as u64,
                        format: ImFormat::ICO,
                    },
                ),
            );
        }
        let bigger = bytes[0] >= self.width && bytes[1] >= self.height;
        let width = if bigger {
            bytes[0]
        } else {
            self.width
        };
        let height = if bigger {
            bytes[1]
        } else {
            self.height
        };
        let r = if self.left == 1 {
            Walk::Done(
                Ok(ImInfo { width: width as u64, height: height as u64, format: ImFormat::ICO }),
            )
        } else if self.at > u64::MAX - 16 {
            Walk::Done(Err(ImError::ParserError(ImFormat::ICO)))
        } else {
            Walk::Next(
                IcoWalk { left: self.left - 1, at: self.at + 16, seek: false, width, height },
            )
        };
        assert forall|data: Seq<u8>|
            addressable(data) && #[trigger] want.answer(data) == Some(
                bytes@,
            ) implies self.carried_on(r, data) by {
            let part = data.subrange(self.at as int, self.at + 16);
            assert(part[0] == data[self.at as int]);
            assert(part[1] == data[self.at + 1]);
            assert(icons_from(data, 0, self.at + 16, width, height) == found(
                ImFormat::ICO,
                width as int,
                height as int,
            ));
        }
        r
    }
}

/// A source that has not all of what the walk asks for next holds no
/// dimensions that the walk could find.
pub proof fn lemma_ico_dry(state: IcoWalk, data: Seq<u8>)
    requires
        state.wf(),
        state.wants().answer(data) is None,
    ensures
        state.outcome(data) == malformed(ImFormat::ICO),
{
}

/// Whatever the walk ends with speaks of ICO.
pub proof fn lemma_icons_speak_of_ico(data: Seq<u8>, left: int, at: int, width: u8, height: u8)
    ensures
        speaks_of(icons_from(data, left, at, width, height), ImFormat::ICO),
    decreases left,
{
    if left <= 0 || at + 16 > data.len() {
    } else if data[at] >= width && data[at + 1] >= height {
        lemma_icons_speak_of_ico(data, left - 1, at + 16, data[at], data[at + 1]);
    } else {
        lemma_icons_speak_of_ico(data, left - 1, at + 16, width, height);
    }
}

/// The dimensions that the walk finds are not smaller than those it began
/// with: no icon makes the biggest so far smaller.
pub proof fn lemma_icons_grow(data: Seq<u8>, left: int, at: int, width: u8, height: u8)
    ensures
        icons_from(data, left, at, width, height) matches Ok(info) ==> info.width >= width
            && info.height >= height,
    decreases left,
{
    if left <= 0 || at + 16 > data.len() {
    } else if data[at] >= width && data[at + 1] >= height {
        lemma_icons_grow(data, left - 1, at + 16, data[at], data[at + 1]);
    } else {
        lemma_icons_grow(data, left - 1, at + 16, width, height);
    }
}

} // verus!

//! What a decoder asks of a byte source, and what a source answers that holds
//! its bytes in memory.

use crate::error::{ImInfo, ImResult};
use vstd::prelude::*;

verus! {

/// One read that a decoder asks for.
#[derive(Debug, Clone, Copy, PartialEq, Eq, Structural)]
pub enum Request {
    /// A single read of at most `len` bytes from a source that stands at its
    /// start. Fewer bytes are an answer too.
    Head { len: usize },
    /// The `len` bytes that begin `at` bytes behind the start, all of them.
    /// Where `seek` is false the source stands at `at` already, because the
    /// read before this one ended there; where it is true the source has to
    /// be moved first.
    Exact { at: u64, len: usize, seek: bool },
    /// The last `len` bytes of the source, all of them.
    Tail { len: usize },
}

impl Request {
    /// The number of bytes asked for.
    pub open spec fn len_of(self) -> int {
        match self {
            Request::Head { len } => len as int,
            Request::Exact { len, .. } => len as int,
            Request::Tail { len } => len as int,
        }
    }

    /// The bytes with which a source that holds `data` answers the request;
    /// `None` where it does not hold all that is asked for.
    pub open spec fn answer(self, data: Seq<u8>) -> Option<Seq<u8>> {
        match self {
            Request::Head { len } => Some(
                data.subrange(
                    0,
                    if len <= data.len() {
                        len as int
                    } else {
                        data.len() as int
                    },
                ),
            ),
            Request::Exact { at, len, .. } => if at + len <= data.len() {
                Some(data.subrange(at as int, at + len))
            } else {
                None
            },
            Request::Tail { len } => if len <= data.len() {
                Some(data.subrange(data.len() - len, data.len() as int))
            } else {
                None
            },
        }
    }

    /// `n` bytes can be an answer to the request.
    pub open spec fn admits(self, n: int) -> bool {
        match self {
            Request::Head { len } => n <= len,
            Request::Exact { len, .. } => n == len,
            Request::Tail { len } => n == len,
        }
    }

    /// After a read of `read` bytes for the request `before`, the source
    /// stands where this request takes it to stand.
    pub open spec fn follows(self, before: Request, read: int) -> bool {
        match self {
            Request::Exact { at, seek: false, .. } => before matches Request::Exact {
                at: from,
                ..
            } && at == from + read,
            _ => true,
        }
    }

    /// The number of bytes asked for.
    pub fn len(&self) -> (r: usize)
        ensures
            r == self.len_of(),
    {
        match self {
            Request::Head { len } => *len,
            Request::Exact { len, .. } => *len,
            Request::Tail { len } => *len,
        }
    }
}

/// The sources that the decoders are proved for: those whose every byte has an
/// offset of 64 bits.
pub open spec fn addressable(data: Seq<u8>) -> bool {
    data.len() <= u64::MAX
}

/// The number of bytes of `data` from `at` on.
pub open spec fn remaining(data: Seq<u8>, at: int) -> nat {
    if 0 <= at < data.len() {
        (data.len() - at) as nat
    } else {
        0
    }
}

/// Where a scan stands after an answer: at its end, or at its next state.
pub enum Walk<S> {
    Done(ImResult<ImInfo>),
    Next(S),
}

} // verus!

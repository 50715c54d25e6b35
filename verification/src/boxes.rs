//! Boxes: stretches of a file that begin with their length in four bytes,
//! highest first, and their name in four more. AVIF, HEIC and JPEG 2000 keep
//! the dimensions some boxes deep.

use crate::bytes::{be32, has_at, lemma_has_at, matches_at, u32_be};
use crate::error::{found, malformed, speaks_of, ImError, ImInfo, ImResult};
use crate::format::ImFormat;
use crate::source::{addressable, remaining, Request, Walk};
use vstd::prelude::*;

verus! {

/// The length of a box's header: what no box can be shorter than.
pub const HEADER_LEN: u32 = 8;

/// `meta`
pub const META: [u8; 4] = [0x6D, 0x65, 0x74, 0x61];

/// `iprp`
pub const IPRP: [u8; 4] = [0x69, 0x70, 0x72, 0x70];

/// `ipco`
pub const IPCO: [u8; 4] = [0x69, 0x70, 0x63, 0x6F];

/// `ispe`
pub const ISPE: [u8; 4] = [0x69, 0x73, 0x70, 0x65];

/// `jp2h`
pub const JP2H: [u8; 4] = [0x6A, 0x70, 0x32, 0x68];

/// `ihdr`
pub const IHDR: [u8; 4] = [0x69, 0x68, 0x64, 0x72];

/// What the header of one box means to a search for the box called `name`.
#[derive(Debug, Clone, Copy, PartialEq, Eq, Structural)]
pub enum BoxStep {
    /// It is the box looked for, and `size` bytes long with its header.
    Found { size: u32 },
    /// It is another box of `size` bytes, and `budget` bytes may yet be passed over.
    Skip { size: u32, budget: u64 },
    /// It is shorter than its own header, or longer than what may be passed over.
    Malformed,
}

/// The meaning of the header `header` to a search for `name` that may pass
/// over `budget` bytes.
pub open spec fn box_step_of(header: Seq<u8>, name: Seq<u8>, budget: int) -> BoxStep {
    if header.len() < 8 || u32_be(header, 0) < 8 {
        BoxStep::Malformed
    } else if has_at(header, 4, name) {
        BoxStep::Found { size: u32_be(header, 0) as u32 }
    } else if u32_be(header, 0) > budget {
        BoxStep::Malformed
    } else {
        BoxStep::Skip { size: u32_be(header, 0) as u32, budget: (budget - u32_be(header, 0)) as u64 }
    }
}

/// The search for the box called `name` among the boxes that follow each other
/// from `at` on, of which at most `budget` bytes may be passed over: the length
/// of the box and the offset behind its header, where it is found.
pub open spec fn locate(data: Seq<u8>, name: Seq<u8>, at: int, budget: int) -> Option<(int, int)>
    decreases remaining(data, at),
{
    if at < 0 || at + 8 > data.len() {
        None
    } else if u32_be(data, at) < 8 {
        None
    } else if has_at(data, at + 4, name) {
        Some((u32_be(data, at), at + 8))
    } else if u32_be(data, at) > budget {
        None
    } else {
        locate(data, name, at + u32_be(data, at), budget - u32_be(data, at))
    }
}

/// The name of the box at `level` on the way to the dimensions of `format`:
/// `jp2h` and `ihdr` in JPEG 2000, `meta`, `iprp`, `ipco` and `ispe` in the
/// others.
pub open spec fn name_of(format: ImFormat, level: int) -> Seq<u8> {
    if format == ImFormat::JP2K {
        if level == 0 {
            JP2H@
        } else {
            IHDR@
        }
    } else {
        if level == 0 {
            META@
        } else if level == 1 {
            IPRP@
        } else if level == 2 {
            IPCO@
        } else {
            ISPE@
        }
    }
}

/// The dimensions in the record that begins at `at`: in JPEG 2000 height, then
/// width; in the others four bytes of flags, width, then height.
pub open spec fn record_at(data: Seq<u8>, format: ImFormat, at: int) -> ImResult<ImInfo> {
    if format == ImFormat::JP2K {
        if at + 8 > data.len() {
            malformed(format)
        } else {
            found(format, u32_be(data, at + 4), u32_be(data, at))
        }
    } else {
        if at + 12 > data.len() {
            malformed(format)
        } else {
            found(format, u32_be(data, at + 4), u32_be(data, at + 8))
        }
    }
}

/// The way down from `level`: the box of that level is looked for from `at`
/// on, and entered.
pub open spec fn descend(
    data: Seq<u8>,
    format: ImFormat,
    level: int,
    at: int,
    budget: int,
) -> ImResult<ImInfo>
    decreases 4 - level, 1int,
{
    if level < 0 || level >= 4 {
        malformed(format)
    } else {
        match locate(data, name_of(format, level), at, budget) {
            None => malformed(format),
            Some((size, behind)) => enter(data, format, level, size, behind),
        }
    }
}

/// The way on inside the box of `level`, which is `size` bytes long and whose
/// header ends at `behind`.
///
/// In JPEG 2000 the boxes inside `jp2h` may be passed over for as many bytes
/// as `jp2h` is long. In the others `meta` has to hold its header, four bytes
/// of flags and something more; what lies in a box may be passed over for the
/// length of the box less the headers read so far; and `ispe` has to hold its
/// header and four bytes at least.
pub open spec fn enter(
    data: Seq<u8>,
    format: ImFormat,
    level: int,
    size: int,
    behind: int,
) -> ImResult<ImInfo>
    decreases 4 - level, 0int,
{
    if level < 0 || level >= 4 {
        malformed(format)
    } else if format == ImFormat::JP2K {
        if level == 0 {
            descend(data, format, 1, behind, size)
        } else {
            record_at(data, format, behind)
        }
    } else {
        if level == 0 {
            if size < 12 {
                malformed(format)
            } else {
                descend(data, format, 1, behind + 4, size - 12)
            }
        } else if level < 3 {
            descend(data, format, level + 1, behind, size - 8)
        } else if size < 12 {
            malformed(format)
        } else {
            record_at(data, format, behind)
        }
    }
}

/// AVIF and HEIC with the preamble `p`: behind the first box, `ftyp`, which is
/// twelve bytes long at least, the way leads through `meta`, `iprp` and `ipco`
/// to `ispe`.
pub open spec fn bmff_size(p: Seq<u8>, data: Seq<u8>, format: ImFormat) -> ImResult<ImInfo> {
    if u32_be(p, 0) < 12 {
        malformed(format)
    } else {
        descend(data, format, 0, u32_be(p, 0), u64::MAX as int)
    }
}

/// JPEG 2000 with the preamble `p`: behind the signature box and the box
/// `ftyp` the way leads through `jp2h` to `ihdr`.
pub open spec fn jp2k_size(p: Seq<u8>, data: Seq<u8>) -> ImResult<ImInfo> {
    descend(data, ImFormat::JP2K, 0, 12 + u32_be(p, 12), u64::MAX as int)
}

/// Reads the header of one box for a search that may pass over `budget` bytes.
pub fn box_step(header: &[u8], name: &[u8], budget: u64) -> (r: BoxStep)
    ensures
        r == box_step_of(header@, name@, budget as int),
{
    if header.len() < 8 {
        return BoxStep::Malformed;
    }
    let size = be32(header, 0);
    if size < HEADER_LEN {
        BoxStep::Malformed
    } else if matches_at(header, 4, name) {
        BoxStep::Found { size }
    } else if size as u64 > budget {
        BoxStep::Malformed
    } else {
        BoxStep::Skip { size, budget: budget - size as u64 }
    }
}

/// Where the way down stands between two reads.
#[derive(Debug, Clone, Copy, PartialEq, Eq, Structural)]
pub enum BoxWalk {
    /// Before the header of a box at `at`, looking for the box of `level`.
    Header { format: ImFormat, level: u8, at: u64, seek: bool, budget: u64 },
    /// Before the record with the dimensions at `at`.
    Record { format: ImFormat, at: u64 },
}

impl BoxWalk {
    /// The format that is being read.
    pub open spec fn format_of(self) -> ImFormat {
        match self {
            BoxWalk::Header { format, .. } => format,
            BoxWalk::Record { format, .. } => format,
        }
    }

    /// The offset of the next byte to be read.
    pub open spec fn at_of(self) -> int {
        match self {
            BoxWalk::Header { at, .. } => at as int,
            BoxWalk::Record { at, .. } => at as int,
        }
    }

    /// The read that comes next.
    pub open spec fn wants(self) -> Request {
        match self {
            BoxWalk::Header { at, seek, .. } => Request::Exact { at, len: 8, seek },
            BoxWalk::Record { format, at } => Request::Exact {
                at,
                len: if format == ImFormat::JP2K {
                    8
                } else {
                    12
                },
                seek: false,
            },
        }
    }

    /// What the way down ends with over a source that holds `data`.
    pub open spec fn outcome(self, data: Seq<u8>) -> ImResult<ImInfo> {
        match self {
            BoxWalk::Header { format, level, at, budget, .. } => descend(
                data,
                format,
                level as int,
                at as int,
                budget as int,
            ),
            BoxWalk::Record { format, at } => record_at(data, format, at as int),
        }
    }

    /// A number that falls with every read: the bytes that lie before the walk.
    pub open spec fn rank(self, len: nat) -> nat {
        if self.at_of() < len {
            (len - self.at_of()) as nat
        } else {
            0
        }
    }

    /// `next` carries the walk on over `data`: it ends as the walk ends, or is
    /// a state from which the walk ends the same and that lies further on.
    pub open spec fn carried_on(self, next: Walk<BoxWalk>, data: Seq<u8>) -> bool {
        match next {
            Walk::Done(result) => result == self.outcome(data),
            Walk::Next(state) => state.outcome(data) == self.outcome(data) && state.rank(
                data.len(),
            ) < self.rank(data.len()),
        }
    }

    /// The read that comes next.
    pub(crate) fn request(&self) -> (r: Request)
        ensures
            r == self.wants(),
    {
        match self {
            BoxWalk::Header { at, seek, .. } => Request::Exact { at: *at, len: 8, seek: *seek },
            BoxWalk::Record { format, at } => Request::Exact {
                at: *at,
                len: if *format == ImFormat::JP2K {
                    8
                } else {
                    12
                },
                seek: false,
            },
        }
    }

    /// The format that is being read.
    pub(crate) fn format(&self) -> (r: ImFormat)
        ensures
            r == self.format_of(),
    {
        match self {
            BoxWalk::Header { format, .. } => *format,
            BoxWalk::Record { format, .. } => *format,
        }
    }

    /// The walk behind the signature of AVIF or HEIC, whose preamble is `p`.
    pub(crate) fn begin_bmff(p: &[u8], format: ImFormat) -> (r: Walk<BoxWalk>)
        requires
            p@.len() >= 4,
        ensures
            r matches Walk::Done(result) ==> speaks_of(result, format),
            forall|data: Seq<u8>|
                #![trigger bmff_size(p@, data, format)]
                match r {
                    Walk::Done(result) => result == bmff_size(p@, data, format),
                    Walk::Next(state) => state.outcome(data) == bmff_size(p@, data, format),
                },
            r matches Walk::Next(state) ==> state.format_of() == format && state.wants()
                matches Request::Exact { seek: true, .. },
    {
        let first = be32(p, 0);
        if first < 12 {
            Walk::Done(Err(ImError::ParserError(format)))
        } else {
            Walk::Next(
                BoxWalk::Header { format, level: 0, at: first as u64, seek: true, budget: u64::MAX },
            )
        }
    }

    /// The walk behind the signature of JPEG 2000, whose preamble is `p`.
    pub(crate) fn begin_jp2k(p: &[u8]) -> (r: BoxWalk)
        requires
            p@.len() >= 16,
        ensures
            forall|data: Seq<u8>| r.outcome(data) == #[trigger] jp2k_size(p@, data),
            r.format_of() == ImFormat::JP2K,
            r.wants() matches Request::Exact { seek: true, .. },
    {
        BoxWalk::Header {
            format: ImFormat::JP2K,
            level: 0,
            at: 12 + be32(p, 12) as u64,
            seek: true,
            budget: u64::MAX,
        }
    }

    /// The name of the box at `level`.
    fn name(format: ImFormat, level: u8) -> (r: [u8; 4])
        ensures
            r@ == name_of(format, level as int),
    {
        if format == ImFormat::JP2K {
            if level == 0 {
                JP2H
            } else {
                IHDR
            }
        } else {
            if level == 0 {
                META
            } else if level == 1 {
                IPRP
            } else if level == 2 {
                IPCO
            } else {
                ISPE
            }
        }
    }

    /// The walk inside the box of `level`, which is `size` bytes long and whose
    /// header ends at `behind`.
    fn entered(format: ImFormat, level: u8, size: u32, behind: u64) -> (r: Walk<BoxWalk>)
        requires
            size >= 8,
        ensures
            r matches Walk::Done(result) ==> speaks_of(result, format),
            forall|data: Seq<u8>|
                #![trigger addressable(data)]
                addressable(data) && behind <= data.len() ==> match r {
                    Walk::Done(result) => result == enter(
                        data,
                        format,
                        level as int,
                        size as int,
                        behind as int,
                    ),
                    Walk::Next(state) => state.outcome(data) == enter(
                        data,
                        format,
                        level as int,
                        size as int,
                        behind as int,
                    ),
                },
            r matches Walk::Next(state) ==> state.format_of() == format && state.at_of() >= behind
                && (state.wants() matches Request::Exact { seek: false, .. } ==> state.at_of()
                == behind),
    {
        if level >= 4 {
            return Walk::Done(Err(ImError::ParserError(format)));
        }
        if format == ImFormat::JP2K {
            if level == 0 {
                Walk::Next(
                    BoxWalk::Header { format, level: 1, at: behind, seek: false, budget: size as u64 },
                )
            } else {
                Walk::Next(BoxWalk::Record { format, at: behind })
            }
        } else if level == 0 {
            if size < 12 || behind > u64::MAX - 4 {
                Walk::Done(Err(ImError::ParserError(format)))
            } else {
                Walk::Next(
                    BoxWalk::Header {
                        format,
                        level: 1,
                        at: behind + 4,
                        seek: true,
                        budget: (size - 12) as u64,
                    },
                )
            }
        } else if level < 3 {
            Walk::Next(
                BoxWalk::Header {
                    format,
                    level: level + 1,
                    at: behind,
                    seek: false,
                    budget: (size - 8) as u64,
                },
            )
        } else if size < 12 {
            Walk::Done(Err(ImError::ParserError(format)))
        } else {
            Walk::Next(BoxWalk::Record { format, at: behind })
        }
    }

    /// The walk after the header of a box has come.
    fn feed_header(self, bytes: &[u8]) -> (r: Walk<BoxWalk>)
        requires
            self is Header,
            bytes@.len() == 8,
        ensures
            r matches Walk::Done(result) ==> speaks_of(result, self.format_of()),
            forall|data: Seq<u8>|
                addressable(data) && #[trigger] self.wants().answer(data) == Some(bytes@)
                    ==> self.carried_on(r, data),
            r matches Walk::Next(state) ==> state.format_of() == self.format_of()
                && state.wants().follows(self.wants(), 8),
    {
        let ghost want = self.wants();
        match self {
            BoxWalk::Header { format, level, at, seek, budget } => {
                let name = BoxWalk::name(format, level);
                match box_step(bytes, name.as_slice(), budget) {
                    BoxStep::Malformed => {
                        let r = Walk::Done(Err(ImError::ParserError(format)));
                        assert forall|data: Seq<u8>|
                            addressable(data) && #[trigger] want.answer(data) == Some(
                                bytes@,
                            ) implies self.carried_on(r, data) by {
                            lemma_fed_header(self, bytes@, data);
                        }
                        r
                    },
                    BoxStep::Skip { size, budget: left } => {
                        let r = if at > u64::MAX - size as u64 {
                            Walk::Done(Err(ImError::ParserError(format)))
                        } else {
                            Walk::Next(
                                BoxWalk::Header {
                                    format,
                                    level,
                                    at: at + size as u64,
                                    seek: size != 8,
                                    budget: left,
                                },
                            )
                        };
                        assert forall|data: Seq<u8>|
                            addressable(data) && #[trigger] want.answer(data) == Some(
                                bytes@,
                            ) implies self.carried_on(r, data) by {
                            lemma_fed_header(self, bytes@, data);
                        }
                        r
                    },
                    BoxStep::Found { size } => {
                        if at > u64::MAX - 8 {
                            return Walk::Done(Err(ImError::ParserError(format)));
                        }
                        let r = BoxWalk::entered(format, level, size, at + 8);
                        assert forall|data: Seq<u8>|
                            addressable(data) && #[trigger] want.answer(data) == Some(
                                bytes@,
                            ) implies self.carried_on(r, data) by {
                            lemma_fed_header(self, bytes@, data);
                            assert(addressable(data) && at + 8 <= data.len());
                        }
                        r
                    },
                }
            },
            BoxWalk::Record { format, .. } => Walk::Done(Err(ImError::ParserError(format))),
        }
    }

    /// The walk after the record with the dimensions has come.
    fn feed_record(self, bytes: &[u8]) -> (r: Walk<BoxWalk>)
        requires
            self is Record,
            bytes@.len() == self.wants().len_of(),
        ensures
            r matches Walk::Done(result) ==> speaks_of(result, self.format_of()),
            forall|data: Seq<u8>|
                addressable(data) && #[trigger] self.wants().answer(data) == Some(bytes@)
                    ==> self.carried_on(r, data),
            r is Done,
    {
        let ghost want = self.wants();
        let ghost at = self.at_of();
        let format = self.format();
        let r = if format == ImFormat::JP2K {
            Walk::Done(
                Ok(ImInfo { width: be32(bytes, 4) as u64, height: be32(bytes, 0) as u64, format }),
            )
        } else {
            Walk::Done(
                Ok(ImInfo { width: be32(bytes, 4) as u64, height: be32(bytes, 8) as u64, format }),
            )
        };
        assert forall|data: Seq<u8>|
            addressable(data) && #[trigger] want.answer(data) == Some(
                bytes@,
            ) implies self.carried_on(r, data) by {
            let part = data.subrange(at, at + bytes@.len());
            assert forall|i: int| 0 <= i < bytes@.len() implies bytes@[i] == data[at + i] by {
                assert(part[i] == data[at + i]);
            }
        }
        r
    }

    /// The walk after the bytes that were asked for have come.
    pub(crate) fn feed(self, bytes: &[u8]) -> (r: Walk<BoxWalk>)
        requires
            bytes@.len() == self.wants().len_of(),
        ensures
            r matches Walk::Done(result) ==> speaks_of(result, self.format_of()),
            forall|data: Seq<u8>|
                addressable(data) && #[trigger] self.wants().answer(data) == Some(bytes@)
                    ==> self.carried_on(r, data),
            r matches Walk::Next(state) ==> state.format_of() == self.format_of()
                && state.wants().follows(self.wants(), bytes@.len() as int),
    {
        match self {
            BoxWalk::Header { .. } => self.feed_header(bytes),
            BoxWalk::Record { .. } => self.feed_record(bytes),
        }
    }
}

/// What the header of a box, once read, makes of the way down.
proof fn lemma_fed_header(state: BoxWalk, header: Seq<u8>, data: Seq<u8>)
    requires
        state is Header,
        state.wants().answer(data) == Some(header),
    ensures
        match state {
            BoxWalk::Header { format, level, at, budget, .. } => match box_step_of(
                header,
                name_of(format, level as int),
                budget as int,
            ) {
                BoxStep::Malformed => state.outcome(data) == malformed(format),
                BoxStep::Skip { size, budget: left } => state.outcome(data) == descend(
                    data,
                    format,
                    level as int,
                    at + size,
                    left as int,
                ) && size >= 8 && (at + size > data.len() ==> state.outcome(data) == malformed(
                    format,
                )),
                BoxStep::Found { size } => state.outcome(data) == enter(
                    data,
                    format,
                    level as int,
                    size as int,
                    at + 8,
                ) && size >= 8,
            },
            BoxWalk::Record { .. } => true,
        },
{
    match state {
        BoxWalk::Header { format, level, at, budget, .. } => {
            let name = name_of(format, level as int);
            lemma_header(data, at as int, header, name);
            let size = u32_be(data, at as int);
            if level < 4 && size >= 8 && !has_at(data, at + 4, name) && size <= budget {
                assert(locate(data, name, at as int, budget as int) == locate(
                    data,
                    name,
                    at + size,
                    budget - size,
                ));
                if at + size > data.len() {
                    assert(locate(data, name, at + size, budget - size) is None);
                }
            }
        },
        BoxWalk::Record { .. } => {},
    }
}

/// The header that was read at `at` says of a search what the bytes of the
/// source at `at` say.
proof fn lemma_header(data: Seq<u8>, at: int, header: Seq<u8>, name: Seq<u8>)
    requires
        0 <= at,
        header.len() == 8,
        name.len() == 4,
        at + 8 <= data.len(),
        data.subrange(at, at + 8) == header,
    ensures
        u32_be(header, 0) == u32_be(data, at),
        has_at(header, 4, name) == has_at(data, at + 4, name),
{
    assert forall|i: int| 0 <= i < 8 implies header[i] == data[at + i] by {
        assert(data.subrange(at, at + 8)[i] == data[at + i]);
    }
    lemma_has_at(header, 4, name);
    lemma_has_at(data, at + 4, name);
    if has_at(header, 4, name) {
        assert forall|i: int| 0 <= i < 4 implies data[at + 4 + i] == name[i] by {
            assert(header[4 + i] == name[i]);
        }
    }
    if has_at(data, at + 4, name) {
        assert forall|i: int| 0 <= i < 4 implies header[4 + i] == name[i] by {
            assert(data[at + 4 + i] == name[i]);
        }
    }
}

/// A source that has not all of what the walk asks for next holds no
/// dimensions that the walk could find.
pub proof fn lemma_boxes_dry(state: BoxWalk, data: Seq<u8>)
    requires
        state.wants().answer(data) is None,
    ensures
        state.outcome(data) == malformed(state.format_of()),
{
}

/// The box that a search finds is a box of the source: its header lies in the
/// source and bears the name looked for, it lies at or behind the place where
/// the search began, and no more than the budget was passed over to reach it.
pub proof fn lemma_located(data: Seq<u8>, name: Seq<u8>, at: int, budget: int)
    requires
        0 <= at,
        0 <= budget,
        name.len() == 4,
    ensures
        locate(data, name, at, budget) matches Some((size, behind)) ==> at + 8 <= behind
            <= data.len() && behind - 8 - at <= budget && has_at(data, behind - 4, name) && size
            == u32_be(data, behind - 8) && size >= 8,
    decreases remaining(data, at),
{
    if at + 8 > data.len() || u32_be(data, at) < 8 || has_at(data, at + 4, name) || u32_be(
        data,
        at,
    ) > budget {
    } else {
        lemma_located(data, name, at + u32_be(data, at), budget - u32_be(data, at));
    }
}

/// Whatever the way down ends with speaks of the format: it is the dimensions
/// of a file of that format or its parse error.
pub proof fn lemma_descend_speaks_of_format(
    data: Seq<u8>,
    format: ImFormat,
    level: int,
    at: int,
    budget: int,
)
    ensures
        speaks_of(descend(data, format, level, at, budget), format),
    decreases 4 - level, 1int,
{
    if level < 0 || level >= 4 {
    } else {
        match locate(data, name_of(format, level), at, budget) {
            None => {},
            Some((size, behind)) => lemma_enter_speaks_of_format(data, format, level, size, behind),
        }
    }
}

/// Whatever the way ends with inside a box speaks of the format.
pub proof fn lemma_enter_speaks_of_format(
    data: Seq<u8>,
    format: ImFormat,
    level: int,
    size: int,
    behind: int,
)
    ensures
        speaks_of(enter(data, format, level, size, behind), format),
    decreases 4 - level, 0int,
{
    if level < 0 || level >= 4 {
    } else if format == ImFormat::JP2K {
        if level == 0 {
            lemma_descend_speaks_of_format(data, format, 1, behind, size);
        }
    } else {
        if level == 0 {
            if size >= 12 {
                lemma_descend_speaks_of_format(data, format, 1, behind + 4, size - 12);
            }
        } else if level < 3 {
            lemma_descend_speaks_of_format(data, format, level + 1, behind, size - 8);
        }
    }
}

/// The way to the dimensions of AVIF and HEIC written out box by box: `meta`
/// behind the first box; in it, behind four bytes of flags, `iprp`, for which
/// the length of `meta` less twelve bytes may be passed over; in that `ipco`
/// and in that `ispe`, for each of which the length of the box around less
/// eight bytes may be passed over; and in `ispe`, which is twelve bytes long
/// at least, four bytes of flags, the width and the height.
pub open spec fn bmff_nested(p: Seq<u8>, data: Seq<u8>, format: ImFormat) -> ImResult<ImInfo> {
    if u32_be(p, 0) < 12 {
        malformed(format)
    } else {
        match locate(data, META@, u32_be(p, 0), u64::MAX as int) {
            None => malformed(format),
            Some((meta, in_meta)) => if meta < 12 {
                malformed(format)
            } else {
                match locate(data, IPRP@, in_meta + 4, meta - 12) {
                    None => malformed(format),
                    Some((iprp, in_iprp)) => match locate(data, IPCO@, in_iprp, iprp - 8) {
                        None => malformed(format),
                        Some((ipco, in_ipco)) => match locate(data, ISPE@, in_ipco, ipco - 8) {
                            None => malformed(format),
                            Some((ispe, in_ispe)) => if ispe < 12 || in_ispe + 12 > data.len() {
                                malformed(format)
                            } else {
                                found(
                                    format,
                                    u32_be(data, in_ispe + 4),
                                    u32_be(data, in_ispe + 8),
                                )
                            },
                        },
                    },
                }
            },
        }
    }
}

/// The way to the dimensions of JPEG 2000 written out box by box: `jp2h`
/// behind the signature box and the box `ftyp`; in it `ihdr`, for which the
/// length of `jp2h` may be passed over; and in `ihdr` the height and the
/// width.
pub open spec fn jp2k_nested(p: Seq<u8>, data: Seq<u8>) -> ImResult<ImInfo> {
    match locate(data, JP2H@, 12 + u32_be(p, 12), u64::MAX as int) {
        None => malformed(ImFormat::JP2K),
        Some((jp2h, in_jp2h)) => match locate(data, IHDR@, in_jp2h, jp2h) {
            None => malformed(ImFormat::JP2K),
            Some((ihdr, in_ihdr)) => if in_ihdr + 8 > data.len() {
                malformed(ImFormat::JP2K)
            } else {
                found(ImFormat::JP2K, u32_be(data, in_ihdr + 4), u32_be(data, in_ihdr))
            },
        },
    }
}

/// The way down level by level is the way written out box by box.
pub proof fn lemma_nesting(p: Seq<u8>, data: Seq<u8>, format: ImFormat)
    ensures
        format != ImFormat::JP2K ==> bmff_size(p, data, format) == bmff_nested(p, data, format),
        jp2k_size(p, data) == jp2k_nested(p, data),
{
    reveal_with_fuel(descend, 3);
    reveal_with_fuel(enter, 3);
    assert(name_of(format, 0) == if format == ImFormat::JP2K {
        JP2H@
    } else {
        META@
    });
    if format != ImFormat::JP2K && u32_be(p, 0) >= 12 {
        match locate(data, META@, u32_be(p, 0), u64::MAX as int) {
            None => {},
            Some((meta, in_meta)) => {
                assert(descend(data, format, 0, u32_be(p, 0), u64::MAX as int) == enter(
                    data,
                    format,
                    0,
                    meta,
                    in_meta,
                ));
                if meta >= 12 {
                    lemma_inner_nesting(data, format, in_meta + 4, meta - 12);
                }
            },
        }
    }
}

/// The way down from `iprp` on, written out box by box.
proof fn lemma_inner_nesting(data: Seq<u8>, format: ImFormat, at: int, budget: int)
    requires
        format != ImFormat::JP2K,
    ensures
        descend(data, format, 1, at, budget) == (match locate(data, IPRP@, at, budget) {
            None => malformed(format),
            Some((iprp, in_iprp)) => match locate(data, IPCO@, in_iprp, iprp - 8) {
                None => malformed(format),
                Some((ipco, in_ipco)) => match locate(data, ISPE@, in_ipco, ipco - 8) {
                    None => malformed(format),
                    Some((ispe, in_ispe)) => if ispe < 12 || in_ispe + 12 > data.len() {
                        malformed(format)
                    } else {
                        found(format, u32_be(data, in_ispe + 4), u32_be(data, in_ispe + 8))
                    },
                },
            },
        }),
{
    assert(name_of(format, 1) == IPRP@ && name_of(format, 2) == IPCO@ && name_of(format, 3)
        == ISPE@);
    match locate(data, IPRP@, at, budget) {
        None => {},
        Some((iprp, in_iprp)) => {
            assert(descend(data, format, 1, at, budget) == enter(data, format, 1, iprp, in_iprp));
            assert(enter(data, format, 1, iprp, in_iprp) == descend(
                data,
                format,
                2,
                in_iprp,
                iprp - 8,
            ));
            match locate(data, IPCO@, in_iprp, iprp - 8) {
                None => {},
                Some((ipco, in_ipco)) => {
                    assert(descend(data, format, 2, in_iprp, iprp - 8) == enter(
                        data,
                        format,
                        2,
                        ipco,
                        in_ipco,
                    ));
                    assert(enter(data, format, 2, ipco, in_ipco) == descend(
                        data,
                        format,
                        3,
                        in_ipco,
                        ipco - 8,
                    ));
                    match locate(data, ISPE@, in_ipco, ipco - 8) {
                        None => {},
                        Some((ispe, in_ispe)) => {
                            assert(descend(data, format, 3, in_ipco, ipco - 8) == enter(
                                data,
                                format,
                                3,
                                ispe,
                                in_ispe,
                            ));
                        },
                    }
                },
            }
        },
    }
}

} // verus!

//! Decoding an image that is held in memory.

use crate::decoder::{decode, decode_from, lemma_dry_source, preamble_of, Decoder, Step};
use crate::error::{ImInfo, ImResult};
use crate::source::{addressable, Request};
use vstd::prelude::*;
use vstd::slice::slice_subrange;

verus! {

/// A byte source in memory that is read from where it stands, as a file is.
pub struct Reader<'a> {
    data: &'a [u8],
    at: u64,
}

/// The part of `data` from `from` up to `to`, as far as `data` reaches.
pub open spec fn stretch(data: Seq<u8>, from: int, to: int) -> Seq<u8> {
    let end = if to <= data.len() {
        to
    } else {
        data.len() as int
    };
    if 0 <= from <= end {
        data.subrange(from, end)
    } else {
        Seq::empty()
    }
}

impl<'a> Reader<'a> {
    /// The bytes that the source holds.
    pub closed spec fn data(self) -> Seq<u8> {
        self.data@
    }

    /// The offset at which the source stands.
    pub closed spec fn position(self) -> int {
        self.at as int
    }

    /// A source that holds `data` and stands at its start.
    pub fn new(data: &'a [u8]) -> (r: Reader<'a>)
        ensures
            r.data() == data@,
            r.position() == 0,
    {
        Reader { data, at: 0 }
    }

    /// The offset at which the source stands.
    pub fn stream_position(&self) -> (r: u64)
        ensures
            r == self.position(),
    {
        self.at
    }

    /// One read of at most `len` bytes: as many as there are from where the
    /// source stands, which may be none. The source then stands behind them.
    pub fn read(&mut self, len: usize) -> (r: &'a [u8])
        ensures
            r@ == stretch(old(self).data(), old(self).position(), old(self).position() + len),
            final(self).data() == old(self).data(),
            final(self).position() == old(self).position() + r@.len(),
    {
        let total = self.data.len();
        if self.at >= total as u64 {
            return slice_subrange(self.data, total, total);
        }
        let from = self.at as usize;
        let end = if len <= total - from {
            from + len
        } else {
            total
        };
        self.at = end as u64;
        slice_subrange(self.data, from, end)
    }

    /// A read of `len` bytes, all or none. The source then stands behind
    /// them, or at its end where it has not as many.
    pub fn read_exact(&mut self, len: usize) -> (r: Option<&'a [u8]>)
        ensures
            final(self).data() == old(self).data(),
            old(self).position() + len <= old(self).data().len() ==> (r matches Some(bytes)
                && bytes@ == old(self).data().subrange(
                old(self).position(),
                old(self).position() + len,
            ) && final(self).position() == old(self).position() + len),
            old(self).position() + len > old(self).data().len() ==> r is None
                && final(self).position() == old(self).data().len(),
    {
        let total = self.data.len();
        if self.at > total as u64 || len > total - self.at as usize {
            self.at = total as u64;
            return None;
        }
        let from = self.at as usize;
        self.at = (from + len) as u64;
        Some(slice_subrange(self.data, from, from + len))
    }

    /// Moves the source to stand `at` bytes behind its start, which may be
    /// behind its end.
    pub fn seek(&mut self, at: u64)
        ensures
            final(self).data() == old(self).data(),
            final(self).position() == at,
    {
        self.at = at;
    }

    /// Moves the source to stand `back` bytes before its end, and tells
    /// whether it has as many; it stays where it stands if it has not.
    pub fn seek_from_end(&mut self, back: u64) -> (r: bool)
        ensures
            final(self).data() == old(self).data(),
            r == (back <= old(self).data().len()),
            r ==> final(self).position() == old(self).data().len() - back,
            !r ==> final(self).position() == old(self).position(),
    {
        let total = self.data.len() as u64;
        if back > total {
            false
        } else {
            self.at = total - back;
            true
        }
    }
}

/// What the first read of a decode gives over `reader`: the thirty bytes from
/// where it stands, or as many as there are.
pub open spec fn first_read(reader: Reader) -> Seq<u8> {
    stretch(reader.data(), reader.position(), reader.position() + 30)
}

/// The offset at which the read begins that `request` asks of `reader`: where
/// the reader stands, or where the request moves it first.
pub open spec fn begins_at(reader: Reader, request: Request) -> int {
    match request {
        Request::Head { .. } => reader.position(),
        Request::Exact { at, seek, .. } => if seek {
            at as int
        } else {
            reader.position()
        },
        Request::Tail { len } => reader.data().len() - len,
    }
}

/// What the read gives that `request` asks of `reader`: for the first read as
/// many bytes as there are, up to those asked for, and for every other read
/// all bytes or none.
pub open spec fn given(reader: Reader, request: Request) -> Option<Seq<u8>> {
    let from = begins_at(reader, request);
    let to = from + request.len_of();
    if request is Head {
        Some(stretch(reader.data(), from, to))
    } else if 0 <= from && to <= reader.data().len() {
        Some(reader.data().subrange(from, to))
    } else {
        None
    }
}

/// Does the one read that `request` asks for: moves the reader where the
/// request says that it does not stand yet, and reads.
pub fn perform<'a>(reader: &mut Reader<'a>, request: Request) -> (r: Option<&'a [u8]>)
    ensures
        final(reader).data() == old(reader).data(),
        r matches Some(bytes) ==> given(*old(reader), request) == Some(bytes@)
            && final(reader).position() == begins_at(*old(reader), request) + bytes@.len(),
        r is None ==> given(*old(reader), request) is None,
{
    match request {
        Request::Head { len } => Some(reader.read(len)),
        Request::Exact { at, len, seek } => {
            if seek {
                reader.seek(at);
            }
            reader.read_exact(len)
        },
        Request::Tail { len } => {
            if reader.seek_from_end(len as u64) {
                reader.read_exact(len)
            } else {
                None
            }
        },
    }
}

/// `reader` stands where `decoder` takes it to stand.
pub open spec fn in_step(reader: Reader, decoder: Decoder) -> bool {
    &&& decoder.wf()
    &&& !(decoder.wants() is Head)
    &&& decoder.wants() matches Request::Exact { at, seek: false, .. } ==> reader.position() == at
}

/// Does the read that `decoder` asks for, and carries the decode on with
/// what it gives.
fn advance(reader: &mut Reader, decoder: Decoder) -> (r: Step)
    requires
        in_step(*old(reader), decoder),
        addressable(old(reader).data()),
    ensures
        final(reader).data() == old(reader).data(),
        match r {
            Step::Done(result) => result == decoder.outcome(old(reader).data()),
            Step::Next(next) => in_step(*final(reader), next) && next.outcome(old(reader).data())
                == decoder.outcome(old(reader).data()) && next.rank(old(reader).data().len())
                < decoder.rank(old(reader).data().len()),
        },
{
    let ghost data = reader.data();
    let request = decoder.request();
    assert(given(*reader, request) == request.answer(data));
    match perform(reader, request) {
        None => {
            proof {
                lemma_dry_source(decoder, data);
            }
            Step::Done(Err(decoder.starve()))
        },
        Some(bytes) => {
            assert(request.answer(data) == Some(bytes@));
            let r = decoder.feed(bytes);
            assert(decoder.carried_on(r, data));
            r
        },
    }
}

/// The format and the dimensions of the image that `reader` holds.
///
/// The first read is made where the reader stands, and every other at its
/// place in the source: a reader that holds an image and nothing else stands
/// at its start.
pub fn imsz_from_reader(reader: &mut Reader) -> (r: ImResult<ImInfo>)
    ensures
        r == decode_from(first_read(*old(reader)), old(reader).data()),
        old(reader).position() == 0 ==> r == decode(old(reader).data()),
        final(reader).data() == old(reader).data(),
{
    let ghost data = reader.data();
    let ghost first = first_read(*reader);
    let ghost goal = decode_from(first, data);
    assert(reader.position() == 0 ==> first == preamble_of(data));
    assert(addressable(data)) by {
        assert(reader.data@.len() == reader.data.len());
    }
    let start = Decoder::new();
    let mut decoder = match perform(reader, start.request()) {
        None => {
            return Err(start.starve());
        },
        Some(bytes) => match start.feed(bytes) {
            Step::Done(result) => {
                return result;
            },
            Step::Next(next) => next,
        },
    };
    loop
        invariant
            in_step(*reader, decoder),
            decoder.outcome(data) == goal,
            reader.data() == data,
            addressable(data),
            data == old(reader).data(),
            goal == decode_from(first_read(*old(reader)), data),
            old(reader).position() == 0 ==> goal == decode(data),
        decreases decoder.rank(data.len()),
    {
        match advance(reader, decoder) {
            Step::Done(result) => {
                return result;
            },
            Step::Next(next) => {
                decoder = next;
            },
        }
    }
}

/// The format and the dimensions of the image whose file is `data`.
pub fn imsz_from_bytes(data: &[u8]) -> (r: ImResult<ImInfo>)
    ensures
        r == decode(data@),
{
    let mut reader = Reader::new(data);
    imsz_from_reader(&mut reader)
}

/// What an image can be read from without anything but memory.
pub trait Imsz {
    /// The bytes of the image's file.
    spec fn bytes(&self) -> Seq<u8>;

    /// The format and the dimensions of the image.
    fn imsz(self) -> (r: ImResult<ImInfo>)
        ensures
            r == decode(self.bytes()),
    ;
}

impl Imsz for &[u8] {
    open spec fn bytes(&self) -> Seq<u8> {
        self@
    }

    fn imsz(self) -> (r: ImResult<ImInfo>) {
        imsz_from_bytes(self)
    }
}

impl<const LEN: usize> Imsz for [u8; LEN] {
    open spec fn bytes(&self) -> Seq<u8> {
        self@
    }

    fn imsz(self) -> (r: ImResult<ImInfo>) {
        imsz_from_bytes(self.as_slice())
    }
}

impl<const LEN: usize> Imsz for &[u8; LEN] {
    open spec fn bytes(&self) -> Seq<u8> {
        self@
    }

    fn imsz(self) -> (r: ImResult<ImInfo>) {
        imsz_from_bytes(self.as_slice())
    }
}

impl Imsz for &Vec<u8> {
    open spec fn bytes(&self) -> Seq<u8> {
        self@
    }

    fn imsz(self) -> (r: ImResult<ImInfo>) {
        imsz_from_bytes(self.as_slice())
    }
}

/// The format and the dimensions of an image.
///
/// `input` is the image's file in memory: a slice, an array or a vector of bytes.
pub fn imsz<I: Imsz>(input: I) -> (r: ImResult<ImInfo>)
    ensures
        r == decode(input.bytes()),
{
    input.imsz()
}

/// Decoding reads its input and changes nothing: the same bytes give the same
/// result, however often and wherever they are decoded, and the result
/// depends on the bytes alone.
pub proof fn lemma_decode_repeats(first: Seq<u8>, second: Seq<u8>)
    requires
        first =~= second,
    ensures
        decode(first) == decode(second),
{
}

} // verus!

//! Integers as they lie in a run of bytes, in either byte order.

use vstd::prelude::*;

verus! {

/// The order in which the bytes of an integer follow each other.
#[derive(Debug, Clone, Copy, PartialEq, Eq, Structural)]
pub enum ByteOrder {
    /// The lowest byte comes first.
    Little,
    /// The highest byte comes first.
    Big,
}

/// The two bytes from `at` on, lowest first.
pub open spec fn u16_le(s: Seq<u8>, at: int) -> int {
    s[at] + 0x100 * s[at + 1]
}

/// The two bytes from `at` on, highest first.
pub open spec fn u16_be(s: Seq<u8>, at: int) -> int {
    0x100 * s[at] + s[at + 1]
}

/// The three bytes from `at` on, lowest first.
pub open spec fn u24_le(s: Seq<u8>, at: int) -> int {
    s[at] + 0x100 * s[at + 1] + 0x1_0000 * s[at + 2]
}

/// The four bytes from `at` on, lowest first.
pub open spec fn u32_le(s: Seq<u8>, at: int) -> int {
    s[at] + 0x100 * s[at + 1] + 0x1_0000 * s[at + 2] + 0x100_0000 * s[at + 3]
}

/// The four bytes from `at` on, highest first.
pub open spec fn u32_be(s: Seq<u8>, at: int) -> int {
    0x100_0000 * s[at] + 0x1_0000 * s[at + 1] + 0x100 * s[at + 2] + s[at + 3]
}

/// The number that eight bits `x` stand for in two's complement.
pub open spec fn as_i8(x: int) -> int {
    if x < 0x80 {
        x
    } else {
        x - 0x100
    }
}

/// The number that sixteen bits `x` stand for in two's complement.
pub open spec fn as_i16(x: int) -> int {
    if x < 0x8000 {
        x
    } else {
        x - 0x1_0000
    }
}

/// The number that thirty-two bits `x` stand for in two's complement.
pub open spec fn as_i32(x: int) -> int {
    if x < 0x8000_0000 {
        x
    } else {
        x - 0x1_0000_0000
    }
}

/// `pat` lies in `s` from `at` on.
pub open spec fn has_at(s: Seq<u8>, at: int, pat: Seq<u8>) -> bool {
    at + pat.len() <= s.len() && s.subrange(at, at + pat.len()) == pat
}

/// `pat` lies in `s` from `at` on exactly if the bytes agree one by one.
pub proof fn lemma_has_at(s: Seq<u8>, at: int, pat: Seq<u8>)
    requires
        0 <= at,
    ensures
        has_at(s, at, pat) <==> (at + pat.len() <= s.len() && forall|i: int|
            0 <= i < pat.len() ==> s[at + i] == pat[i]),
{
    if at + pat.len() <= s.len() {
        let part = s.subrange(at, at + pat.len());
        if part == pat {
            assert forall|i: int| 0 <= i < pat.len() implies s[at + i] == pat[i] by {
                assert(part[i] == s[at + i]);
            }
        }
        if forall|i: int| 0 <= i < pat.len() ==> s[at + i] == pat[i] {
            assert(part =~= pat);
        }
    }
}

impl ByteOrder {
    /// The two bytes from `at` on, read in this order.
    pub open spec fn u16_in(self, s: Seq<u8>, at: int) -> int {
        match self {
            ByteOrder::Little => u16_le(s, at),
            ByteOrder::Big => u16_be(s, at),
        }
    }

    /// The four bytes from `at` on, read in this order.
    pub open spec fn u32_in(self, s: Seq<u8>, at: int) -> int {
        match self {
            ByteOrder::Little => u32_le(s, at),
            ByteOrder::Big => u32_be(s, at),
        }
    }

    /// The eight bytes from `at` on, read in this order.
    pub open spec fn u64_in(self, s: Seq<u8>, at: int) -> int {
        match self {
            ByteOrder::Little => u32_le(s, at) + 0x1_0000_0000 * u32_le(s, at + 4),
            ByteOrder::Big => 0x1_0000_0000 * u32_be(s, at) + u32_be(s, at + 4),
        }
    }
}

/// Tells whether `pat` lies in `s` from `at` on.
pub fn matches_at(s: &[u8], at: usize, pat: &[u8]) -> (r: bool)
    ensures
        r == has_at(s@, at as int, pat@),
{
    if at > s.len() || pat.len() > s.len() - at {
        return false;
    }
    let mut i: usize = 0;
    while i < pat.len()
        invariant
            i <= pat.len(),
            at + pat.len() <= s.len(),
            forall|j: int| 0 <= j < i ==> s@[at + j] == pat@[j],
        decreases pat.len() - i,
    {
        if s[at + i] != pat[i] {
            proof {
                lemma_has_at(s@, at as int, pat@);
            }
            return false;
        }
        i += 1;
    }
    proof {
        lemma_has_at(s@, at as int, pat@);
    }
    true
}

pub(crate) fn le16(s: &[u8], at: usize) -> (r: u16)
    requires
        at + 2 <= s@.len(),
    ensures
        r == u16_le(s@, at as int),
{
    let lo: u16 = s[at] as u16;
    let hi: u16 = s[at + 1] as u16;
    lo + hi * 0x100
}

pub(crate) fn be16(s: &[u8], at: usize) -> (r: u16)
    requires
        at + 2 <= s@.len(),
    ensures
        r == u16_be(s@, at as int),
{
    let hi: u16 = s[at] as u16;
    let lo: u16 = s[at + 1] as u16;
    hi * 0x100 + lo
}

pub(crate) fn le24(s: &[u8], at: usize) -> (r: u32)
    requires
        at + 3 <= s@.len(),
    ensures
        r == u24_le(s@, at as int),
        r < 0x100_0000,
{
    let b0: u32 = s[at] as u32;
    let b1: u32 = s[at + 1] as u32;
    let b2: u32 = s[at + 2] as u32;
    b0 + b1 * 0x100 + b2 * 0x1_0000
}

pub(crate) fn le32(s: &[u8], at: usize) -> (r: u32)
    requires
        at + 4 <= s@.len(),
    ensures
        r == u32_le(s@, at as int),
{
    let b0: u32 = s[at] as u32;
    let b1: u32 = s[at + 1] as u32;
    let b2: u32 = s[at + 2] as u32;
    let b3: u32 = s[at + 3] as u32;
    b0 + b1 * 0x100 + b2 * 0x1_0000 + b3 * 0x100_0000
}

pub(crate) fn be32(s: &[u8], at: usize) -> (r: u32)
    requires
        at + 4 <= s@.len(),
    ensures
        r == u32_be(s@, at as int),
{
    let b0: u32 = s[at] as u32;
    let b1: u32 = s[at + 1] as u32;
    let b2: u32 = s[at + 2] as u32;
    let b3: u32 = s[at + 3] as u32;
    b0 * 0x100_0000 + b1 * 0x1_0000 + b2 * 0x100 + b3
}

/// The eight bits of `x` read in two's complement.
pub fn to_i8(x: u8) -> (r: i8)
    ensures
        r == as_i8(x as int),
{
    if x < 0x80 {
        x as i8
    } else {
        (x as i16 - 0x100) as i8
    }
}

/// The sixteen bits of `x` read in two's complement.
pub fn to_i16(x: u16) -> (r: i16)
    ensures
        r == as_i16(x as int),
{
    if x < 0x8000 {
        x as i16
    } else {
        (x as i32 - 0x1_0000) as i16
    }
}

/// The thirty-two bits of `x` read in two's complement.
pub fn to_i32(x: u32) -> (r: i32)
    ensures
        r == as_i32(x as int),
{
    if x < 0x8000_0000 {
        x as i32
    } else {
        (x as i64 - 0x1_0000_0000) as i32
    }
}

/// The byte at `at`, if there is one.
pub fn read_u8(s: &[u8], at: usize) -> (r: Option<u8>)
    ensures
        r == (if at < s@.len() {
            Some(s@[at as int])
        } else {
            None
        }),
{
    if at < s.len() {
        Some(s[at])
    } else {
        None
    }
}

/// The byte at `at` in two's complement, if there is one.
pub fn read_i8(s: &[u8], at: usize) -> (r: Option<i8>)
    ensures
        at < s@.len() ==> r is Some && r->0 == as_i8(s@[at as int] as int),
        at >= s@.len() ==> r is None,
{
    if at < s.len() {
        Some(to_i8(s[at]))
    } else {
        None
    }
}

impl ByteOrder {
    /// The integer in the two bytes from `at` on; `None` where `s` ends before.
    pub fn read_u16(self, s: &[u8], at: usize) -> (r: Option<u16>)
        ensures
            at + 2 <= s@.len() ==> r is Some && r->0 == self.u16_in(s@, at as int),
            at + 2 > s@.len() ==> r is None,
    {
        if at > s.len() || s.len() - at < 2 {
            return None;
        }
        match self {
            ByteOrder::Little => Some(le16(s, at)),
            ByteOrder::Big => Some(be16(s, at)),
        }
    }

    /// The integer in the four bytes from `at` on; `None` where `s` ends before.
    pub fn read_u32(self, s: &[u8], at: usize) -> (r: Option<u32>)
        ensures
            at + 4 <= s@.len() ==> r is Some && r->0 == self.u32_in(s@, at as int),
            at + 4 > s@.len() ==> r is None,
    {
        if at > s.len() || s.len() - at < 4 {
            return None;
        }
        match self {
            ByteOrder::Little => Some(le32(s, at)),
            ByteOrder::Big => Some(be32(s, at)),
        }
    }

    /// The integer in the eight bytes from `at` on; `None` where `s` ends before.
    pub fn read_u64(self, s: &[u8], at: usize) -> (r: Option<u64>)
        ensures
            at + 8 <= s@.len() ==> r is Some && r->0 == self.u64_in(s@, at as int),
            at + 8 > s@.len() ==> r is None,
    {
        if at > s.len() || s.len() - at < 8 {
            return None;
        }
        match self {
            ByteOrder::Little => {
                let lo: u64 = le32(s, at) as u64;
                let hi: u64 = le32(s, at + 4) as u64;
                Some(lo + hi * 0x1_0000_0000)
            },
            ByteOrder::Big => {
                let hi: u64 = be32(s, at) as u64;
                let lo: u64 = be32(s, at + 4) as u64;
                Some(hi * 0x1_0000_0000 + lo)
            },
        }
    }

    /// The two bytes from `at` on in two's complement; `None` where `s` ends before.
    pub fn read_i16(self, s: &[u8], at: usize) -> (r: Option<i16>)
        ensures
            at + 2 <= s@.len() ==> r is Some && r->0 == as_i16(self.u16_in(s@, at as int)),
            at + 2 > s@.len() ==> r is None,
    {
        match self.read_u16(s, at) {
            Some(x) => Some(to_i16(x)),
            None => None,
        }
    }

    /// The four bytes from `at` on in two's complement; `None` where `s` ends before.
    pub fn read_i32(self, s: &[u8], at: usize) -> (r: Option<i32>)
        ensures
            at + 4 <= s@.len() ==> r is Some && r->0 == as_i32(self.u32_in(s@, at as int)),
            at + 4 > s@.len() ==> r is None,
    {
        match self.read_u32(s, at) {
            Some(x) => Some(to_i32(x)),
            None => None,
        }
    }

    /// Numerator and denominator, four bytes each, from `at` on; `None` where
    /// `s` ends before the eighth byte.
    pub fn read_uratio(self, s: &[u8], at: usize) -> (r: Option<(u32, u32)>)
        ensures
            at + 8 <= s@.len() ==> (r matches Some(pair) && pair.0 == self.u32_in(s@, at as int)
                && pair.1 == self.u32_in(s@, at + 4)),
            at + 8 > s@.len() ==> r is None,
    {
        if at > s.len() || s.len() - at < 8 {
            return None;
        }
        match (self.read_u32(s, at), self.read_u32(s, at + 4)) {
            (Some(a), Some(b)) => Some((a, b)),
            _ => None,
        }
    }

    /// Numerator and denominator in two's complement, four bytes each, from
    /// `at` on; `None` where `s` ends before the eighth byte.
    pub fn read_iratio(self, s: &[u8], at: usize) -> (r: Option<(i32, i32)>)
        ensures
            at + 8 <= s@.len() ==> (r matches Some(pair) && pair.0 == as_i32(
                self.u32_in(s@, at as int),
            ) && pair.1 == as_i32(self.u32_in(s@, at + 4))),
            at + 8 > s@.len() ==> r is None,
    {
        match self.read_uratio(s, at) {
            Some((a, b)) => Some((to_i32(a), to_i32(b))),
            None => None,
        }
    }
}

} // verus!

//! Image dimensions from the first bytes of a file, without decoding pixels.
//!
//! The format of an image file shows in its first thirty bytes, the preamble.
//! For many formats the preamble holds width and height as well; for the
//! others a few more reads find them. [`decoder::decode`] says what the bytes
//! of a file give, as a function of the bytes alone, and everything else in
//! this crate is proved against it.
//!
//! - [`imsz`] and [`imsz_from_bytes`] decode an image that is held in memory,
//!   and [`imsz_from_reader`] one that a [`Reader`] holds, which is read
//!   from where it stands as a file is.
//! - A [`Decoder`] decodes without reading: it asks for one read after the
//!   other and is fed the bytes, so that whoever holds a file or a stream can
//!   run it and no more of the file is read than the dimensions need.
//! - [`signature`] holds the signatures and the order in which they are
//!   tried, [`fixed`] the formats that the preamble settles, and [`jpeg`],
//!   [`boxes`], [`tiff`], [`ico`], [`exr`] and [`tga`] those that need more.
//! - [`bytes`] and [`number`] read integers in either byte order and turn
//!   stored numbers of several kinds into dimensions.
//! - [`foreign`] puts a result into plain numbers for callers that take
//!   nothing else.

pub mod boxes;
pub mod bytes;
pub mod decoder;
pub mod error;
pub mod exr;
pub mod fixed;
pub mod foreign;
pub mod format;
pub mod ico;
pub mod jpeg;
pub mod memory;
pub mod number;
pub mod signature;
pub mod source;
pub mod tga;
pub mod tiff;

pub use crate::decoder::{Decoder, Step};
pub use crate::error::{ImError, ImInfo, ImResult};
pub use crate::format::ImFormat;
pub use crate::memory::{imsz, imsz_from_bytes, imsz_from_reader, Imsz, Reader};
pub use crate::source::Request;

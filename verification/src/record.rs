//! The records that flow from the hash workers to the aggregator: accepted
//! images with their perceptual hash and decoded pixels, and typed failures.

use vstd::prelude::*;

verus! {

use crate::phash::{PHash, HASH_BYTES};

/// Decoded pixel data, kept for later display: an RGBA8 buffer of
/// `width * height` pixels, four bytes each.
pub struct Pixels {
    pub width: u32,
    pub height: u32,
    pub data: Vec<u8>,
}

/// Mathematical view of `Pixels`.
pub struct PixelsV {
    pub width: u32,
    pub height: u32,
    pub data: Seq<u8>,
}

impl View for Pixels {
    type V = PixelsV;

    open spec fn view(&self) -> PixelsV {
        PixelsV { width: self.width, height: self.height, data: self.data@ }
    }
}

impl PixelsV {
    /// An RGBA8 buffer holds exactly four bytes per pixel.
    pub open spec fn wf(self) -> bool {
        self.data.len() == 4 * self.width * self.height
    }
}

impl Pixels {
    pub open spec fn wf(&self) -> bool {
        self@.wf()
    }
}

/// One accepted image: its source path, its perceptual hash, and its decoded
/// pixels. Identity (the id) is the record's index in the aggregator's arena.
pub struct Image {
    pub path: String,
    pub hash: PHash,
    pub pixels: Pixels,
}

/// Mathematical view of `Image`.
pub struct ImageV {
    pub path: Seq<char>,
    pub hash: Seq<u8>,
    pub pixels: PixelsV,
}

impl View for Image {
    type V = ImageV;

    open spec fn view(&self) -> ImageV {
        ImageV { path: self.path@, hash: self.hash@, pixels: self.pixels@ }
    }
}

impl ImageV {
    pub open spec fn wf(self) -> bool {
        self.hash.len() == HASH_BYTES && self.pixels.wf()
    }
}

impl Image {
    pub open spec fn wf(&self) -> bool {
        self@.wf()
    }
}

/// Why one file failed to hash. Every kind is per-item and non-fatal.
pub enum ErrorKind {
    /// The file could not be read; carries the reader's message.
    Io(String),
    /// The bytes could not be decoded as an image; carries the codec's message.
    Decode(String),
    /// The file is below the minimum byte size, or the decoded image has an
    /// empty pixel area.
    TooSmall,
}

/// Mathematical view of `ErrorKind`.
pub enum ErrorKindV {
    Io(Seq<char>),
    Decode(Seq<char>),
    TooSmall,
}

impl View for ErrorKind {
    type V = ErrorKindV;

    open spec fn view(&self) -> ErrorKindV {
        match self {
            ErrorKind::Io(m) => ErrorKindV::Io(m@),
            ErrorKind::Decode(m) => ErrorKindV::Decode(m@),
            ErrorKind::TooSmall => ErrorKindV::TooSmall,
        }
    }
}

/// One failed file: the original path and the kind of failure.
pub struct Failure {
    pub path: String,
    pub kind: ErrorKind,
}

/// Mathematical view of `Failure`.
pub struct FailureV {
    pub path: Seq<char>,
    pub kind: ErrorKindV,
}

impl View for Failure {
    type V = FailureV;

    open spec fn view(&self) -> FailureV {
        FailureV { path: self.path@, kind: self.kind@ }
    }
}

} // verus!

//! A transcoder for the PRIM binary mesh container used by four generations
//! of a game engine. A PRIM file is a tree of records linked by absolute
//! little-endian 32-bit offsets; the library parses such a file into an owned
//! record tree, applies the version-translation policy, and serialises the
//! tree back into bytes with a two-pass layout (payloads before headers, every
//! record on a 16-byte boundary).
//!
//! Floating-point fields of the format (bounding boxes, scale/bias vectors,
//! hi-res vertex positions) are carried as their raw little-endian bit
//! patterns and never interpreted, so the whole codec works on plain integers.
use vstd::prelude::*;

pub mod io;
pub mod prim;
pub mod reader;
pub mod writer;

verus! {

/// The engine generation a PRIM file was written for. The generation decides
/// which optional header fields exist on disk and how bone-index counts are
/// encoded.
#[derive(Clone, Copy, PartialEq, Eq, Structural, Debug)]
pub enum GameVersion {
    Hma,
    Alpha,
    Hm2016,
    Woa,
}

impl GameVersion {
    /// The two later generations store a `color1` word on every object, a
    /// `num_indices_extra` word on every sub-mesh, a 32-bit bone-index count
    /// prefix, and interpret cloth payloads.
    pub open spec fn spec_extended_layout(self) -> bool {
        self == GameVersion::Hm2016 || self == GameVersion::Woa
    }

    /// Runtime test for [`Self::spec_extended_layout`].
    pub fn extended_layout(&self) -> (r: bool)
        ensures
            r == self.spec_extended_layout(),
    {
        match self {
            GameVersion::Hm2016 => true,
            GameVersion::Woa => true,
            _ => false,
        }
    }

    /// Numeric code of the version, as used by front ends that present the
    /// versions as an indexed list.
    pub fn code(&self) -> (r: u8)
        ensures
            r == match *self {
                GameVersion::Hma => 0u8,
                GameVersion::Alpha => 1u8,
                GameVersion::Hm2016 => 2u8,
                GameVersion::Woa => 3u8,
            },
    {
        match self {
            GameVersion::Hma => 0,
            GameVersion::Alpha => 1,
            GameVersion::Hm2016 => 2,
            GameVersion::Woa => 3,
        }
    }

    /// Inverse of [`Self::code`]: `Some` exactly on the four valid codes.
    pub fn from_code(code: u8) -> (r: Option<GameVersion>)
        ensures
            r == match code {
                0u8 => Some(GameVersion::Hma),
                1u8 => Some(GameVersion::Alpha),
                2u8 => Some(GameVersion::Hm2016),
                3u8 => Some(GameVersion::Woa),
                _ => None::<GameVersion>,
            },
    {
        match code {
            0 => Some(GameVersion::Hma),
            1 => Some(GameVersion::Alpha),
            2 => Some(GameVersion::Hm2016),
            3 => Some(GameVersion::Woa),
            _ => None,
        }
    }
}

} // verus!

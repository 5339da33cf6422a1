//! The errors of encoding and decoding.

use vstd::prelude::*;
use crate::format::ImageFormat;

verus! {

/// Why pixels could not be taken from a decoded surface.
#[derive(Debug, PartialEq, Eq, Clone, Copy, Structural)]
pub enum CreateImageError {
    /// The data length is not valid for an image of the given size.
    InvalidSurfaceDimensions { width: u32, height: u32, data_length: usize },
    /// The surface could not be decoded.
    DecompressSurface(DecompressSurfaceError),
}

/// Why a surface could not be encoded.
#[derive(Debug, PartialEq, Eq, Clone, Copy, Structural)]
pub enum CompressSurfaceError {
    /// The surface dimensions are zero sized or would overflow.
    InvalidDimensions { width: u32, height: u32, depth: u32 },
    /// The width or height of the base level is not divisible by the block
    /// dimensions.
    NonIntegralDimensionsInBlocks {
        width: u32,
        height: u32,
        depth: u32,
        block_width: u32,
        block_height: u32,
    },
    /// The surface has fewer bytes than its dimensions ask for.
    NotEnoughData { expected: usize, actual: usize },
    /// No encoder exists for the format.
    UnsupportedFormat { format: ImageFormat },
}

/// Why a surface could not be decoded.
#[derive(Debug, PartialEq, Eq, Clone, Copy, Structural)]
pub enum DecompressSurfaceError {
    /// The surface dimensions are zero sized or would overflow.
    InvalidDimensions { width: u32, height: u32 },
    /// The surface has fewer bytes than its dimensions ask for.
    NotEnoughData { expected: usize, actual: usize },
    /// The image format of the surface can not be determined.
    UnrecognizedFormat,
}

} // verus!

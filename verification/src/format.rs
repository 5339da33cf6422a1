//! The catalog of image formats and the options of an encode.

use vstd::prelude::*;

verus! {

/// The conversion quality when converting to compressed formats.
///
/// Block compressed formats have a fixed compression ratio, so the quality
/// changes the encoder's effort and never the size of its output.
#[derive(Debug, PartialEq, Eq, Clone, Copy, Structural)]
pub enum Quality {
    /// Faster exports with slightly lower quality.
    Fast,
    /// Normal export speed and quality.
    Normal,
    /// Slower exports for slightly higher quality.
    Slow,
}

/// How many mipmaps an encoded surface gets. Mipmaps are counted from the
/// base level, so a surface with only its base level has 1 mipmap.
#[derive(Debug, PartialEq, Eq, Clone, Copy, Structural)]
pub enum Mipmaps {
    /// Only the base mip level.
    Disabled,
    /// As many mipmaps as the input surface declares, taken from its data.
    FromSurface,
    /// Exactly this many mipmaps, generated from the base level.
    /// A value of `0` or `1` is equivalent to [Mipmaps::Disabled].
    GeneratedExact(u32),
    /// Mipmaps generated from the base level until no dimension can be
    /// reduced further.
    GeneratedAutomatic,
}

/// Supported image formats for encoding and decoding.
#[derive(Debug, PartialEq, Eq, Clone, Copy, Structural)]
pub enum ImageFormat {
    R8Unorm,
    R8G8B8A8Unorm,
    R8G8B8A8Srgb,
    R32G32B32A32Float,
    B8G8R8A8Unorm,
    B8G8R8A8Srgb,
    BC1Unorm,
    BC1Srgb,
    BC2Unorm,
    BC2Srgb,
    BC3Unorm,
    BC3Srgb,
    BC4Unorm,
    BC4Snorm,
    BC5Unorm,
    BC5Snorm,
    BC6Ufloat,
    BC6Sfloat,
    BC7Unorm,
    BC7Srgb,
}

impl ImageFormat {
    /// Whether the format stores 4x4 pixel blocks rather than single pixels.
    pub open spec fn is_block_compressed(self) -> bool {
        !(self == ImageFormat::R8Unorm || self == ImageFormat::R8G8B8A8Unorm
            || self == ImageFormat::R8G8B8A8Srgb || self == ImageFormat::R32G32B32A32Float
            || self == ImageFormat::B8G8R8A8Unorm || self == ImageFormat::B8G8R8A8Srgb)
    }

    /// Width, height and depth in pixels of one block of the format.
    pub open spec fn block_dimensions_spec(self) -> (u32, u32, u32) {
        if self.is_block_compressed() {
            (4u32, 4u32, 1u32)
        } else {
            (1u32, 1u32, 1u32)
        }
    }

    /// The number of bytes that one block of the format takes.
    pub open spec fn block_size_in_bytes_spec(self) -> usize {
        match self {
            ImageFormat::R8Unorm => 1,
            ImageFormat::R8G8B8A8Unorm | ImageFormat::R8G8B8A8Srgb => 4,
            ImageFormat::B8G8R8A8Unorm | ImageFormat::B8G8R8A8Srgb => 4,
            ImageFormat::BC1Unorm | ImageFormat::BC1Srgb => 8,
            ImageFormat::BC4Unorm | ImageFormat::BC4Snorm => 8,
            _ => 16,
        }
    }

    /// Width, height and depth in pixels of one block: `(4, 4, 1)` for the
    /// block compressed formats and `(1, 1, 1)` for the others.
    pub fn block_dimensions(&self) -> (r: (u32, u32, u32))
        ensures
            r == self.block_dimensions_spec(),
            r.0 >= 1 && r.1 >= 1 && r.2 >= 1,
    {
        match self {
            ImageFormat::BC1Unorm => (4, 4, 1),
            ImageFormat::BC1Srgb => (4, 4, 1),
            ImageFormat::BC2Unorm => (4, 4, 1),
            ImageFormat::BC2Srgb => (4, 4, 1),
            ImageFormat::BC3Unorm => (4, 4, 1),
            ImageFormat::BC3Srgb => (4, 4, 1),
            ImageFormat::BC4Unorm => (4, 4, 1),
            ImageFormat::BC4Snorm => (4, 4, 1),
            ImageFormat::BC5Unorm => (4, 4, 1),
            ImageFormat::BC5Snorm => (4, 4, 1),
            ImageFormat::BC6Ufloat => (4, 4, 1),
            ImageFormat::BC6Sfloat => (4, 4, 1),
            ImageFormat::BC7Unorm => (4, 4, 1),
            ImageFormat::BC7Srgb => (4, 4, 1),
            ImageFormat::R8Unorm => (1, 1, 1),
            ImageFormat::R8G8B8A8Unorm => (1, 1, 1),
            ImageFormat::R8G8B8A8Srgb => (1, 1, 1),
            ImageFormat::R32G32B32A32Float => (1, 1, 1),
            ImageFormat::B8G8R8A8Unorm => (1, 1, 1),
            ImageFormat::B8G8R8A8Srgb => (1, 1, 1),
        }
    }

    /// The number of bytes that one block takes.
    pub fn block_size_in_bytes(&self) -> (r: usize)
        ensures
            r == self.block_size_in_bytes_spec(),
            1 <= r <= 16,
    {
        match self {
            ImageFormat::R8Unorm => 1,
            ImageFormat::R8G8B8A8Unorm => 4,
            ImageFormat::R8G8B8A8Srgb => 4,
            ImageFormat::R32G32B32A32Float => 16,
            ImageFormat::B8G8R8A8Unorm => 4,
            ImageFormat::B8G8R8A8Srgb => 4,
            ImageFormat::BC1Unorm => 8,
            ImageFormat::BC1Srgb => 8,
            ImageFormat::BC2Unorm => 16,
            ImageFormat::BC2Srgb => 16,
            ImageFormat::BC3Unorm => 16,
            ImageFormat::BC3Srgb => 16,
            ImageFormat::BC4Unorm => 8,
            ImageFormat::BC4Snorm => 8,
            ImageFormat::BC5Unorm => 16,
            ImageFormat::BC5Snorm => 16,
            ImageFormat::BC6Ufloat => 16,
            ImageFormat::BC6Sfloat => 16,
            ImageFormat::BC7Unorm => 16,
            ImageFormat::BC7Srgb => 16,
        }
    }
}

} // verus!

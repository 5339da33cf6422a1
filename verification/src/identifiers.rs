//! The numbers by which texture containers name an image format.
//!
//! A container names a format by its DXGI number, or by a code of four
//! characters read as a number, lowest byte first. A number without a format
//! here gives `None`.

use vstd::prelude::*;
use crate::format::ImageFormat;

verus! {

/// The four character code `DXT1`.
pub const FOURCC_DXT1: u32 = 0x3154_5844;

/// The four character code `DXT2`.
pub const FOURCC_DXT2: u32 = 0x3254_5844;

/// The four character code `DXT3`.
pub const FOURCC_DXT3: u32 = 0x3354_5844;

/// The four character code `DXT4`.
pub const FOURCC_DXT4: u32 = 0x3454_5844;

/// The four character code `DXT5`.
pub const FOURCC_DXT5: u32 = 0x3554_5844;

/// The four character code `BC4U`.
pub const FOURCC_BC4U: u32 = 0x5534_4342;

/// The four character code `BC4S`.
pub const FOURCC_BC4S: u32 = 0x5334_4342;

/// The four character code `ATI2`.
pub const FOURCC_ATI2: u32 = 0x3249_5441;

/// The four character code `BC5U`.
pub const FOURCC_BC5U: u32 = 0x5535_4342;

/// The four character code `BC5S`.
pub const FOURCC_BC5S: u32 = 0x5335_4342;

/// The DXGI number of a format.
pub open spec fn dxgi_spec(format: ImageFormat) -> u32 {
    match format {
        ImageFormat::R32G32B32A32Float => 2,
        ImageFormat::R8G8B8A8Unorm => 28,
        ImageFormat::R8G8B8A8Srgb => 29,
        ImageFormat::R8Unorm => 61,
        ImageFormat::BC1Unorm => 71,
        ImageFormat::BC1Srgb => 72,
        ImageFormat::BC2Unorm => 74,
        ImageFormat::BC2Srgb => 75,
        ImageFormat::BC3Unorm => 77,
        ImageFormat::BC3Srgb => 78,
        ImageFormat::BC4Unorm => 80,
        ImageFormat::BC4Snorm => 81,
        ImageFormat::BC5Unorm => 83,
        ImageFormat::BC5Snorm => 84,
        ImageFormat::B8G8R8A8Unorm => 87,
        ImageFormat::B8G8R8A8Srgb => 91,
        ImageFormat::BC6Ufloat => 95,
        ImageFormat::BC6Sfloat => 96,
        ImageFormat::BC7Unorm => 98,
        ImageFormat::BC7Srgb => 99,
    }
}

/// The format with the given DXGI number, if there is one.
pub open spec fn format_of_dxgi(code: u32) -> Option<ImageFormat> {
    if code == 2 {
        Some(ImageFormat::R32G32B32A32Float)
    } else if code == 28 {
        Some(ImageFormat::R8G8B8A8Unorm)
    } else if code == 29 {
        Some(ImageFormat::R8G8B8A8Srgb)
    } else if code == 61 {
        Some(ImageFormat::R8Unorm)
    } else if code == 71 {
        Some(ImageFormat::BC1Unorm)
    } else if code == 72 {
        Some(ImageFormat::BC1Srgb)
    } else if code == 74 {
        Some(ImageFormat::BC2Unorm)
    } else if code == 75 {
        Some(ImageFormat::BC2Srgb)
    } else if code == 77 {
        Some(ImageFormat::BC3Unorm)
    } else if code == 78 {
        Some(ImageFormat::BC3Srgb)
    } else if code == 80 {
        Some(ImageFormat::BC4Unorm)
    } else if code == 81 {
        Some(ImageFormat::BC4Snorm)
    } else if code == 83 {
        Some(ImageFormat::BC5Unorm)
    } else if code == 84 {
        Some(ImageFormat::BC5Snorm)
    } else if code == 87 {
        Some(ImageFormat::B8G8R8A8Unorm)
    } else if code == 91 {
        Some(ImageFormat::B8G8R8A8Srgb)
    } else if code == 95 {
        Some(ImageFormat::BC6Ufloat)
    } else if code == 96 {
        Some(ImageFormat::BC6Sfloat)
    } else if code == 98 {
        Some(ImageFormat::BC7Unorm)
    } else if code == 99 {
        Some(ImageFormat::BC7Srgb)
    } else {
        None
    }
}

/// The format that a four character code names. The codes of premultiplied
/// alpha name the format of their blocks.
pub open spec fn fourcc_spec(code: u32) -> Option<ImageFormat> {
    if code == FOURCC_DXT1 {
        Some(ImageFormat::BC1Unorm)
    } else if code == FOURCC_DXT2 || code == FOURCC_DXT3 {
        Some(ImageFormat::BC2Unorm)
    } else if code == FOURCC_DXT4 || code == FOURCC_DXT5 {
        Some(ImageFormat::BC3Unorm)
    } else if code == FOURCC_BC4U {
        Some(ImageFormat::BC4Unorm)
    } else if code == FOURCC_BC4S {
        Some(ImageFormat::BC4Snorm)
    } else if code == FOURCC_ATI2 || code == FOURCC_BC5U {
        Some(ImageFormat::BC5Unorm)
    } else if code == FOURCC_BC5S {
        Some(ImageFormat::BC5Snorm)
    } else {
        None
    }
}

/// The DXGI number of a format.
pub fn dxgi_from_image_format(format: ImageFormat) -> (r: u32)
    ensures
        r == dxgi_spec(format),
{
    match format {
        ImageFormat::R32G32B32A32Float => 2,
        ImageFormat::R8G8B8A8Unorm => 28,
        ImageFormat::R8G8B8A8Srgb => 29,
        ImageFormat::R8Unorm => 61,
        ImageFormat::BC1Unorm => 71,
        ImageFormat::BC1Srgb => 72,
        ImageFormat::BC2Unorm => 74,
        ImageFormat::BC2Srgb => 75,
        ImageFormat::BC3Unorm => 77,
        ImageFormat::BC3Srgb => 78,
        ImageFormat::BC4Unorm => 80,
        ImageFormat::BC4Snorm => 81,
        ImageFormat::BC5Unorm => 83,
        ImageFormat::BC5Snorm => 84,
        ImageFormat::B8G8R8A8Unorm => 87,
        ImageFormat::B8G8R8A8Srgb => 91,
        ImageFormat::BC6Ufloat => 95,
        ImageFormat::BC6Sfloat => 96,
        ImageFormat::BC7Unorm => 98,
        ImageFormat::BC7Srgb => 99,
    }
}

/// The format with the given DXGI number, if there is one.
pub fn image_format_from_dxgi(code: u32) -> (r: Option<ImageFormat>)
    ensures
        r == format_of_dxgi(code),
{
    let found = match code {
        2 => Some(ImageFormat::R32G32B32A32Float),
        28 => Some(ImageFormat::R8G8B8A8Unorm),
        29 => Some(ImageFormat::R8G8B8A8Srgb),
        61 => Some(ImageFormat::R8Unorm),
        71 => Some(ImageFormat::BC1Unorm),
        72 => Some(ImageFormat::BC1Srgb),
        74 => Some(ImageFormat::BC2Unorm),
        75 => Some(ImageFormat::BC2Srgb),
        77 => Some(ImageFormat::BC3Unorm),
        78 => Some(ImageFormat::BC3Srgb),
        80 => Some(ImageFormat::BC4Unorm),
        81 => Some(ImageFormat::BC4Snorm),
        83 => Some(ImageFormat::BC5Unorm),
        84 => Some(ImageFormat::BC5Snorm),
        87 => Some(ImageFormat::B8G8R8A8Unorm),
        91 => Some(ImageFormat::B8G8R8A8Srgb),
        95 => Some(ImageFormat::BC6Ufloat),
        96 => Some(ImageFormat::BC6Sfloat),
        98 => Some(ImageFormat::BC7Unorm),
        99 => Some(ImageFormat::BC7Srgb),
        _ => None,
    };
    found
}

/// The format that a four character code names, if it names one.
pub fn image_format_from_fourcc(code: u32) -> (r: Option<ImageFormat>)
    ensures
        r == fourcc_spec(code),
{
    if code == FOURCC_DXT1 {
        Some(ImageFormat::BC1Unorm)
    } else if code == FOURCC_DXT2 || code == FOURCC_DXT3 {
        Some(ImageFormat::BC2Unorm)
    } else if code == FOURCC_DXT4 || code == FOURCC_DXT5 {
        Some(ImageFormat::BC3Unorm)
    } else if code == FOURCC_BC4U {
        Some(ImageFormat::BC4Unorm)
    } else if code == FOURCC_BC4S {
        Some(ImageFormat::BC4Snorm)
    } else if code == FOURCC_ATI2 || code == FOURCC_BC5U {
        Some(ImageFormat::BC5Unorm)
    } else if code == FOURCC_BC5S {
        Some(ImageFormat::BC5Snorm)
    } else {
        None
    }
}

/// The format of a container that names it by a DXGI number, by a legacy
/// format that has a four character code, or by a four character code: the
/// first of the three, in this order, that is there and names a format.
pub fn dds_image_format(dxgi: Option<u32>, legacy: Option<u32>, fourcc: Option<u32>) -> (r: Option<
    ImageFormat,
>)
    ensures
        r == (if dxgi is Some && format_of_dxgi(dxgi.unwrap()) is Some {
            format_of_dxgi(dxgi.unwrap())
        } else if legacy is Some && fourcc_spec(legacy.unwrap()) is Some {
            fourcc_spec(legacy.unwrap())
        } else if fourcc is Some {
            fourcc_spec(fourcc.unwrap())
        } else {
            None
        }),
{
    if let Some(code) = dxgi {
        if let Some(format) = image_format_from_dxgi(code) {
            return Some(format);
        }
    }
    if let Some(code) = legacy {
        if let Some(format) = image_format_from_fourcc(code) {
            return Some(format);
        }
    }
    match fourcc {
        Some(code) => image_format_from_fourcc(code),
        None => None,
    }
}

/// A format is found again by its DXGI number, and a number that names a
/// format is the number of that format.
pub proof fn lemma_dxgi_round_trip(format: ImageFormat, code: u32)
    ensures
        format_of_dxgi(dxgi_spec(format)) == Some(format),
        format_of_dxgi(code) == Some(format) ==> dxgi_spec(format) == code,
{
}

/// No two formats have the same DXGI number.
pub proof fn lemma_dxgi_names_one_format(format: ImageFormat, other: ImageFormat)
    requires
        dxgi_spec(format) == dxgi_spec(other),
    ensures
        format == other,
{
}

} // verus!

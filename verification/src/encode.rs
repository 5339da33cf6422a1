//! Encoding of one mip level of RGBA8 pixels.
//!
//! The formats without blocks are written here. The block compressed
//! formats are written by the encoders of `intel_tex_2`, which run kernels
//! that were compiled ahead of time for several instruction sets: what they
//! write may depend on the machine, so only its length is known here.

use vstd::prelude::*;
// Brings in the C++ runtime that the kernels of `intel_tex_2` are linked against.
use link_cplusplus;
use vstd::slice::slice_subrange;
use crate::convert::{unorm8_to_half, unorm8_to_half_spec, unorm8_to_single, unorm8_to_single_spec};
use crate::decode::encoded_size;
use crate::downsample::{pad_rgba8, pad_spec};
use crate::error::CompressSurfaceError;
use crate::format::{ImageFormat, Quality};
use crate::layout::{div_round_up_spec, lemma_mip_size_checked, mip_size};

verus! {

/// The number of bytes per pixel that the encoder of a block compressed
/// format is handed: four half precision numbers for BC6H, RGBA8 for the
/// others.
pub open spec fn encoder_bytes_per_pixel(format: ImageFormat) -> int {
    if format == ImageFormat::BC6Ufloat || format == ImageFormat::BC6Sfloat {
        8
    } else {
        4
    }
}

/// Whether an encoder of `intel_tex_2` can take this: rows of pixels of
/// `per_pixel` bytes each that make whole blocks, of no more bytes together
/// than a signed number of 32 bits counts.
pub open spec fn encoder_input(width: u32, height: u32, per_pixel: int, data: Seq<u8>) -> bool {
    &&& width >= 4 && width % 4 == 0
    &&& height >= 4 && height % 4 == 0
    &&& data.len() == width * height * per_pixel
    &&& data.len() <= 0x7fff_ffff
}

/// The number of bytes of the blocks of a slice in whole blocks.
pub open spec fn blocks_len(format: ImageFormat, width: u32, height: u32) -> int {
    (width / 4) * (height / 4) * format.block_size_in_bytes_spec()
}

/// The settings of the BC6H encoder of `intel_tex_2`.
#[verifier::external_type_specification]
#[verifier::external_body]
pub struct ExBc6hSettings(intel_tex_2::bc6h::EncodeSettings);

/// The settings of the BC7 encoder of `intel_tex_2`.
#[verifier::external_type_specification]
#[verifier::external_body]
pub struct ExBc7Settings(intel_tex_2::bc7::EncodeSettings);

pub assume_specification[ intel_tex_2::bc6h::very_fast_settings ]() -> (r:
    intel_tex_2::bc6h::EncodeSettings)
;

pub assume_specification[ intel_tex_2::bc6h::basic_settings ]() -> (r:
    intel_tex_2::bc6h::EncodeSettings)
;

pub assume_specification[ intel_tex_2::bc6h::slow_settings ]() -> (r:
    intel_tex_2::bc6h::EncodeSettings)
;

pub assume_specification[ intel_tex_2::bc7::alpha_ultra_fast_settings ]() -> (r:
    intel_tex_2::bc7::EncodeSettings)
;

pub assume_specification[ intel_tex_2::bc7::alpha_very_fast_settings ]() -> (r:
    intel_tex_2::bc7::EncodeSettings)
;

pub assume_specification[ intel_tex_2::bc7::alpha_fast_settings ]() -> (r:
    intel_tex_2::bc7::EncodeSettings)
;

/// Calls `intel_tex_2::bc1::compress_blocks` on rows of RGBA8 pixels.
/// Trusted: the result has 8 bytes for each block of 4x4 pixels.
#[verifier::external_body]
fn compress_bc1(width: u32, height: u32, stride: u32, data: &[u8]) -> (r: Vec<u8>)
    requires
        encoder_input(width, height, 4, data@),
        stride == width * 4,
    ensures
        r@.len() == (width / 4) * (height / 4) * 8,
{
    intel_tex_2::bc1::compress_blocks(&intel_tex_2::RgbaSurface { data, width, height, stride })
}

/// Calls `intel_tex_2::bc3::compress_blocks` on rows of RGBA8 pixels.
/// Trusted: the result has 16 bytes for each block of 4x4 pixels.
#[verifier::external_body]
fn compress_bc3(width: u32, height: u32, stride: u32, data: &[u8]) -> (r: Vec<u8>)
    requires
        encoder_input(width, height, 4, data@),
        stride == width * 4,
    ensures
        r@.len() == (width / 4) * (height / 4) * 16,
{
    intel_tex_2::bc3::compress_blocks(&intel_tex_2::RgbaSurface { data, width, height, stride })
}

/// Calls `intel_tex_2::bc4::compress_blocks` on rows of RGBA8 pixels, of
/// which it takes the red channel. Trusted: the result has 8 bytes for each
/// block of 4x4 pixels.
#[verifier::external_body]
fn compress_bc4(width: u32, height: u32, stride: u32, data: &[u8]) -> (r: Vec<u8>)
    requires
        encoder_input(width, height, 4, data@),
        stride == width * 4,
    ensures
        r@.len() == (width / 4) * (height / 4) * 8,
{
    intel_tex_2::bc4::compress_blocks(&intel_tex_2::RgbaSurface { data, width, height, stride })
}

/// Calls `intel_tex_2::bc5::compress_blocks` on rows of RGBA8 pixels, of
/// which it takes the red and green channels. Trusted: the result has 16
/// bytes for each block of 4x4 pixels.
#[verifier::external_body]
fn compress_bc5(width: u32, height: u32, stride: u32, data: &[u8]) -> (r: Vec<u8>)
    requires
        encoder_input(width, height, 4, data@),
        stride == width * 4,
    ensures
        r@.len() == (width / 4) * (height / 4) * 16,
{
    intel_tex_2::bc5::compress_blocks(&intel_tex_2::RgbaSurface { data, width, height, stride })
}

/// Calls `intel_tex_2::bc6h::compress_blocks` on rows of pixels of four half
/// precision numbers. Trusted: the result has 16 bytes for each block of
/// 4x4 pixels.
#[verifier::external_body]
fn compress_bc6h(
    settings: &intel_tex_2::bc6h::EncodeSettings,
    width: u32,
    height: u32,
    stride: u32,
    data: &[u8],
) -> (r: Vec<u8>)
    requires
        encoder_input(width, height, 8, data@),
        stride == width * 8,
    ensures
        r@.len() == (width / 4) * (height / 4) * 16,
{
    let surface = intel_tex_2::RgbaSurface { data, width, height, stride };
    intel_tex_2::bc6h::compress_blocks(settings, &surface)
}

/// Calls `intel_tex_2::bc7::compress_blocks` on rows of RGBA8 pixels.
/// Trusted: the result has 16 bytes for each block of 4x4 pixels.
#[verifier::external_body]
fn compress_bc7(
    settings: &intel_tex_2::bc7::EncodeSettings,
    width: u32,
    height: u32,
    stride: u32,
    data: &[u8],
) -> (r: Vec<u8>)
    requires
        encoder_input(width, height, 4, data@),
        stride == width * 4,
    ensures
        r@.len() == (width / 4) * (height / 4) * 16,
{
    let surface = intel_tex_2::RgbaSurface { data, width, height, stride };
    intel_tex_2::bc7::compress_blocks(settings, &surface)
}

/// Whether the format is one of the two BC2 formats, which have no encoder.
pub open spec fn lacks_encoder(format: ImageFormat) -> bool {
    format == ImageFormat::BC2Unorm || format == ImageFormat::BC2Srgb
}

/// `dim` rounded up to whole blocks of 4 pixels.
pub open spec fn whole_blocks(dim: int) -> int {
    div_round_up_spec(dim, 4) * 4
}

/// Byte `i` of the pixels of `data` in a format without blocks: the red
/// channel alone, the four channels as they are or with red and blue
/// swapped, or each channel as a single precision number, lowest byte first.
pub open spec fn encoded_byte(format: ImageFormat, data: Seq<u8>, i: int) -> u8 {
    match format {
        ImageFormat::R8Unorm => data[4 * i],
        ImageFormat::B8G8R8A8Unorm | ImageFormat::B8G8R8A8Srgb => if i % 4 == 0 {
            data[i + 2]
        } else if i % 4 == 2 {
            data[i - 2]
        } else {
            data[i]
        },
        ImageFormat::R32G32B32A32Float => le_byte(unorm8_to_single_spec(data[i / 4]), i % 4),
        _ => data[i],
    }
}

/// Byte `at` of a number of 32 bits, counted from the lowest.
pub open spec fn le_byte(bits: int, at: int) -> u8 {
    if at == 0 {
        (bits % 0x100) as u8
    } else if at == 1 {
        (bits / 0x100 % 0x100) as u8
    } else if at == 2 {
        (bits / 0x1_0000 % 0x100) as u8
    } else {
        (bits / 0x100_0000 % 0x100) as u8
    }
}

/// The pixels at the start of `data` in a format without blocks.
pub open spec fn encode_spec(format: ImageFormat, pixels: int, data: Seq<u8>) -> Seq<u8> {
    Seq::new(
        (pixels * format.block_size_in_bytes_spec()) as nat,
        |i: int| encoded_byte(format, data, i),
    )
}

/// Why a level of the given size cannot be encoded from `len` bytes of
/// pixels, if it cannot: a dimension is zero or a size is beyond `usize`,
/// fewer pixels are there than the level has, the format has no encoder, or
/// a slice of the level in whole blocks is more than a block encoder is
/// handed.
pub open spec fn encode_error(
    format: ImageFormat,
    width: u32,
    height: u32,
    depth: u32,
    len: int,
) -> Option<CompressSurfaceError> {
    if width == 0 || height == 0 || depth == 0 || width * height * depth * 4 > usize::MAX
        || encoded_size(format, width as int, height as int, depth as int) > usize::MAX {
        Some(CompressSurfaceError::InvalidDimensions { width, height, depth })
    } else if len < width * height * depth * 4 {
        Some(
            CompressSurfaceError::NotEnoughData {
                expected: (width * height * depth * 4) as usize,
                actual: len as usize,
            },
        )
    } else if lacks_encoder(format) {
        Some(CompressSurfaceError::UnsupportedFormat { format })
    } else if format.is_block_compressed() && whole_blocks(width as int) * whole_blocks(
        height as int,
    ) * encoder_bytes_per_pixel(format) > 0x7fff_ffff {
        Some(CompressSurfaceError::InvalidDimensions { width, height, depth })
    } else {
        None
    }
}

/// Every channel as the half precision number nearest to it, lowest byte
/// first: the pixels that the BC6H encoder is handed.
pub fn rgba8_to_halves(data: &[u8]) -> (r: Vec<u8>)
    requires
        data@.len() * 2 <= usize::MAX,
    ensures
        r@.len() == data@.len() * 2,
        forall|i: int|
            0 <= i < r@.len() ==> r@[i] == le_byte(unorm8_to_half_spec(data@[i / 2]), i % 2),
{
    let mut out: Vec<u8> = Vec::new();
    let mut p: usize = 0;
    while p < data.len()
        invariant
            p <= data@.len(),
            out@.len() == p * 2,
            forall|i: int|
                0 <= i < out@.len() ==> out@[i] == le_byte(
                    unorm8_to_half_spec(data@[i / 2]),
                    i % 2,
                ),
        decreases data@.len() - p,
    {
        let bits: u16 = unorm8_to_half(data[p]);
        out.push((bits % 0x100) as u8);
        out.push((bits / 0x100) as u8);
        p = p + 1;
    }
    out
}

/// Encodes one slice of RGBA8 pixels in whole blocks with the encoder of the
/// format, for BC6H as half precision numbers, with the settings that the
/// quality selects.
fn compress_slice(format: ImageFormat, quality: Quality, width: u32, height: u32, data: &[u8]) -> (r:
    Vec<u8>)
    requires
        format.is_block_compressed(),
        !lacks_encoder(format),
        width >= 4 && width % 4 == 0,
        height >= 4 && height % 4 == 0,
        data@.len() == width * height * 4,
        width * height * encoder_bytes_per_pixel(format) <= 0x7fff_ffff,
    ensures
        r@.len() == blocks_len(format, width, height),
{
    proof {
        let w = width as int;
        let h = height as int;
        assert(w * h * 8 == 2 * (w * h * 4) && w * h >= w && w * h * 4 == (w * 4) * h && w * h
            * 8 == (w * 8) * h) by (nonlinear_arith)
            requires
                w >= 4,
                h >= 4,
        ;
    }
    match format {
        ImageFormat::BC1Unorm | ImageFormat::BC1Srgb => compress_bc1(
            width,
            height,
            width * 4,
            data,
        ),
        ImageFormat::BC3Unorm | ImageFormat::BC3Srgb => compress_bc3(
            width,
            height,
            width * 4,
            data,
        ),
        ImageFormat::BC4Unorm | ImageFormat::BC4Snorm => compress_bc4(
            width,
            height,
            width * 4,
            data,
        ),
        ImageFormat::BC5Unorm | ImageFormat::BC5Snorm => compress_bc5(
            width,
            height,
            width * 4,
            data,
        ),
        ImageFormat::BC6Ufloat | ImageFormat::BC6Sfloat => {
            let halves = rgba8_to_halves(data);
            let settings = match quality {
                Quality::Fast => intel_tex_2::bc6h::very_fast_settings(),
                Quality::Normal => intel_tex_2::bc6h::basic_settings(),
                Quality::Slow => intel_tex_2::bc6h::slow_settings(),
            };
            compress_bc6h(&settings, width, height, width * 8, halves.as_slice())
        },
        _ => {
            // BC7 has alpha, so the settings for alpha are used.
            let settings = match quality {
                Quality::Fast => intel_tex_2::bc7::alpha_ultra_fast_settings(),
                Quality::Normal => intel_tex_2::bc7::alpha_very_fast_settings(),
                Quality::Slow => intel_tex_2::bc7::alpha_fast_settings(),
            };
            compress_bc7(&settings, width, height, width * 4, data)
        },
    }
}

/// Writes the first `pixels` pixels of `data` in a format without blocks.
fn encode_pixels(format: ImageFormat, pixels: usize, data: &[u8]) -> (r: Vec<u8>)
    requires
        !format.is_block_compressed(),
        pixels * 4 <= data@.len(),
        pixels * format.block_size_in_bytes_spec() <= usize::MAX,
    ensures
        r@ == encode_spec(format, pixels as int, data@),
{
    let size: usize = format.block_size_in_bytes();
    let len: usize = data.len();
    let total: usize = pixels * size;
    let mut out: Vec<u8> = Vec::new();
    let mut i: usize = 0;
    while i < total
        invariant
            i <= total,
            total == pixels * size,
            size == format.block_size_in_bytes_spec(),
            !format.is_block_compressed(),
            pixels * 4 <= data@.len(),
            data@.len() <= usize::MAX,
            out@.len() == i,
            forall|j: int| 0 <= j < out@.len() ==> out@[j] == encoded_byte(format, data@, j),
        decreases total - i,
    {
        let value: u8 = match format {
            ImageFormat::R8Unorm => data[4 * i],
            ImageFormat::B8G8R8A8Unorm | ImageFormat::B8G8R8A8Srgb => if i % 4 == 0 {
                data[i + 2]
            } else if i % 4 == 2 {
                data[i - 2]
            } else {
                data[i]
            },
            ImageFormat::R32G32B32A32Float => {
                let bits: u32 = unorm8_to_single(data[i / 4]);
                if i % 4 == 0 {
                    (bits % 0x100) as u8
                } else if i % 4 == 1 {
                    (bits / 0x100 % 0x100) as u8
                } else if i % 4 == 2 {
                    (bits / 0x1_0000 % 0x100) as u8
                } else {
                    (bits / 0x100_0000 % 0x100) as u8
                }
            },
            _ => data[i],
        };
        out.push(value);
        i = i + 1;
    }
    assert(out@ =~= encode_spec(format, pixels as int, data@));
    out
}

/// Slice `z` of an image of `width` x `height` pixels per slice, padded with
/// zero pixels to the given size: the pixels that the encoder of a block
/// compressed format is handed for the slice.
pub open spec fn padded_slice_spec(
    width: int,
    height: int,
    z: int,
    padded_width: int,
    padded_height: int,
    data: Seq<u8>,
) -> Seq<u8> {
    pad_spec(
        width,
        height,
        1,
        padded_width,
        padded_height,
        1,
        data.subrange(z * (width * height * 4), z * (width * height * 4) + width * height * 4),
    )
}

/// Slice `z` of an image of `width` x `height` pixels per slice, padded with
/// zero pixels to the given size.
pub fn padded_slice(
    width: usize,
    height: usize,
    z: usize,
    padded_width: usize,
    padded_height: usize,
    data: &[u8],
) -> (r: Vec<u8>)
    requires
        z * (width * height * 4) + width * height * 4 <= data@.len(),
        padded_width * padded_height * 4 <= usize::MAX,
    ensures
        r@ == padded_slice_spec(
            width as int,
            height as int,
            z as int,
            padded_width as int,
            padded_height as int,
            data@,
        ),
        r@.len() == padded_width * padded_height * 4,
{
    let len: usize = data.len();
    proof {
        let w = width as int;
        let h = height as int;
        assert(w * h >= 0 && w * h * 4 >= w * h && z * (w * h * 4) >= 0) by (nonlinear_arith)
            requires
                w >= 0,
                h >= 0,
                z >= 0,
        ;
        assert(padded_width * padded_height * 1 * 4 == padded_width * padded_height * 4)
            by (nonlinear_arith);
    }
    let slice_bytes: usize = width * height * 4;
    let start: usize = z * slice_bytes;
    pad_rgba8(
        width,
        height,
        1,
        padded_width,
        padded_height,
        1,
        slice_subrange(data, start, start + slice_bytes),
    )
}

/// The parts one after another.
pub open spec fn joined(parts: Seq<Vec<u8>>) -> Seq<u8>
    decreases parts.len(),
{
    if parts.len() == 0 {
        Seq::empty()
    } else {
        joined(parts.drop_last()) + parts.last()@
    }
}

/// Parts of one length take that length times their number together.
pub proof fn lemma_joined_len(parts: Seq<Vec<u8>>, len: int)
    requires
        forall|k: int| 0 <= k < parts.len() ==> (#[trigger] parts[k])@.len() == len,
    ensures
        joined(parts).len() == parts.len() * len,
    decreases parts.len(),
{
    if parts.len() > 0 {
        lemma_joined_len(parts.drop_last(), len);
        assert(parts.len() * len == (parts.len() - 1) * len + len) by (nonlinear_arith);
    } else {
        assert(parts.len() * len == 0) by (nonlinear_arith)
            requires
                parts.len() == 0,
        ;
    }
}

/// A level of a block compressed format from the blocks that the encoder
/// gave for its slices: the blocks of the slices one after another, whatever
/// they are.
pub fn level_from_slices(slices: Vec<Vec<u8>>) -> (r: Vec<u8>)
    ensures
        r@ == joined(slices@),
{
    let mut out: Vec<u8> = Vec::new();
    let mut i: usize = 0;
    while i < slices.len()
        invariant
            i <= slices@.len(),
            out@ == joined(slices@.take(i as int)),
        decreases slices@.len() - i,
    {
        let ghost before = out@;
        let mut j: usize = 0;
        while j < slices[i].len()
            invariant
                i < slices@.len(),
                j <= slices@[i as int]@.len(),
                out@ == before + slices@[i as int]@.take(j as int),
            decreases slices@[i as int]@.len() - j,
        {
            out.push(slices[i][j]);
            assert(slices@[i as int]@.take(j + 1) =~= slices@[i as int]@.take(j as int).push(
                slices@[i as int]@[j as int],
            ));
            j = j + 1;
        }
        proof {
            assert(slices@[i as int]@.take(j as int) =~= slices@[i as int]@);
            assert(slices@.take(i + 1).drop_last() =~= slices@.take(i as int));
            assert(slices@.take(i + 1).last() == slices@[i as int]);
        }
        i = i + 1;
    }
    proof {
        assert(slices@.take(i as int) =~= slices@);
    }
    out
}

/// Encodes a mip level of `width` x `height` x `depth` RGBA8 pixels at the
/// start of `data` to the format.
///
/// A level of a block compressed format is first padded with zero pixels to
/// whole blocks, slice by slice, and each slice is encoded on its own. The
/// result takes as many bytes as the layout gives a level of this size. For
/// a format without blocks it is known byte by byte.
pub fn encode_rgba8(
    width: u32,
    height: u32,
    depth: u32,
    data: &[u8],
    format: ImageFormat,
    quality: Quality,
) -> (r: Result<Vec<u8>, CompressSurfaceError>)
    ensures
        match encode_error(format, width, height, depth, data@.len() as int) {
            Some(e) => r == Err::<Vec<u8>, CompressSurfaceError>(e),
            None => r is Ok && r.unwrap()@.len() == encoded_size(
                format,
                width as int,
                height as int,
                depth as int,
            ) && (!format.is_block_compressed() ==> r.unwrap()@ == encode_spec(
                format,
                width * height * depth,
                data@,
            )),
        },
{
    let invalid = CompressSurfaceError::InvalidDimensions { width, height, depth };
    if width == 0 || height == 0 || depth == 0 {
        return Err(invalid);
    }
    let (block_width, block_height, block_depth) = format.block_dimensions();
    let block_size: usize = format.block_size_in_bytes();
    let w: usize = width as usize;
    let h: usize = height as usize;
    let d: usize = depth as usize;
    proof {
        lemma_mip_size_checked(
            w as int,
            h as int,
            d as int,
            block_width as int,
            block_height as int,
            1,
            block_size as int,
        );
        assert(w * h >= 1 && w * h * d >= w * h && w * h * d * 4 >= w * h * d && w * h * 4 <= w
            * h * d * 4) by (nonlinear_arith)
            requires
                w >= 1,
                h >= 1,
                d >= 1,
        ;
    }
    let plane: usize = match w.checked_mul(h) {
        Some(v) => v,
        None => {
            return Err(invalid);
        },
    };
    let pixels: usize = match plane.checked_mul(d) {
        Some(v) => v,
        None => {
            return Err(invalid);
        },
    };
    if pixels > usize::MAX / 4 {
        return Err(invalid);
    }
    let size: usize = match mip_size(
        w,
        h,
        d,
        block_width as usize,
        block_height as usize,
        block_depth as usize,
        block_size,
    ) {
        Some(v) => v,
        None => {
            return Err(invalid);
        },
    };
    if data.len() < pixels * 4 {
        return Err(CompressSurfaceError::NotEnoughData { expected: pixels * 4, actual: data.len() });
    }
    match format {
        ImageFormat::BC2Unorm | ImageFormat::BC2Srgb => {
            return Err(CompressSurfaceError::UnsupportedFormat { format });
        },
        _ => {},
    }
    if block_width == 1 {
        proof {
            assert(size == pixels * block_size) by (nonlinear_arith)
                requires
                    size == ((w + 1 - 1) / 1) * ((h + 1 - 1) / 1) * ((d + 1 - 1) / 1) * block_size,
                    pixels == w * h * d,
            ;
        }
        return Ok(encode_pixels(format, pixels, data));
    }
    if width > 0x7fff_fffc || height > 0x7fff_fffc {
        proof {
            lemma_whole_blocks(width as int, height as int, encoder_bytes_per_pixel(format));
        }
        return Err(invalid);
    }
    let padded_width: u32 = (width + 3) / 4 * 4;
    let padded_height: u32 = (height + 3) / 4 * 4;
    let per_pixel: u64 = match format {
        ImageFormat::BC6Ufloat | ImageFormat::BC6Sfloat => 8,
        _ => 4,
    };
    proof {
        lemma_whole_blocks(width as int, height as int, per_pixel as int);
        assert(padded_width * padded_height <= 0x7fff_fffc * 0x7fff_fffc) by (nonlinear_arith)
            requires
                padded_width <= 0x7fff_fffc,
                padded_height <= 0x7fff_fffc,
        ;
    }
    let padded_plane: u64 = padded_width as u64 * padded_height as u64;
    if padded_plane > 0x7fff_ffff || padded_plane * per_pixel > 0x7fff_ffff {
        return Err(invalid);
    }
    let mut slices: Vec<Vec<u8>> = Vec::new();
    let ghost per_slice = (padded_width / 4) * (padded_height / 4) * block_size;
    let mut z: usize = 0;
    while z < d
        invariant
            z <= d,
            format.is_block_compressed(),
            !lacks_encoder(format),
            padded_width >= 4 && padded_width % 4 == 0,
            padded_height >= 4 && padded_height % 4 == 0,
            padded_width * padded_height * encoder_bytes_per_pixel(format) <= 0x7fff_ffff,
            pixels == w * h * d,
            pixels * 4 <= data@.len(),
            block_size == format.block_size_in_bytes_spec(),
            per_slice == (padded_width / 4) * (padded_height / 4) * block_size,
            slices@.len() == z,
            forall|k: int| 0 <= k < slices@.len() ==> (#[trigger] slices@[k])@.len() == per_slice,
        decreases d - z,
    {
        proof {
            assert(z * (w * h * 4) + w * h * 4 <= pixels * 4) by (nonlinear_arith)
                requires
                    pixels == w * h * d,
                    0 <= z < d,
                    w >= 0,
                    h >= 0,
            ;
            assert(padded_width * padded_height * 4 <= padded_width * padded_height
                * encoder_bytes_per_pixel(format)) by (nonlinear_arith)
                requires
                    encoder_bytes_per_pixel(format) >= 4,
                    padded_width * padded_height >= 0,
            ;
        }
        let padded = padded_slice(w, h, z, padded_width as usize, padded_height as usize, data);
        let blocks: Vec<u8> = compress_slice(
            format,
            quality,
            padded_width,
            padded_height,
            padded.as_slice(),
        );
        slices.push(blocks);
        z = z + 1;
    }
    proof {
        lemma_joined_len(slices@, per_slice);
        assert(d * per_slice == size) by (nonlinear_arith)
            requires
                per_slice == (padded_width / 4) * (padded_height / 4) * block_size,
                size == ((w + 4 - 1) / 4) * ((h + 4 - 1) / 4) * ((d + 1 - 1) / 1) * block_size,
                padded_width / 4 == (w + 4 - 1) / 4,
                padded_height / 4 == (h + 4 - 1) / 4,
        ;
    }
    let out = level_from_slices(slices);
    Ok(out)
}

/// In whole blocks an image is no smaller than it is.
proof fn lemma_whole_blocks(width: int, height: int, per_pixel: int)
    requires
        width >= 1,
        height >= 1,
        per_pixel >= 4,
    ensures
        whole_blocks(width) == (width + 3) / 4 * 4,
        whole_blocks(height) == (height + 3) / 4 * 4,
        whole_blocks(width) * whole_blocks(height) * per_pixel >= width,
        whole_blocks(width) * whole_blocks(height) * per_pixel >= height,
        whole_blocks(width) * whole_blocks(height) * per_pixel >= whole_blocks(width)
            * whole_blocks(height),
{
    let a = whole_blocks(width);
    let b = whole_blocks(height);
    assert(a >= width && b >= height);
    assert(a * b >= a && a * b >= b && a * b * per_pixel >= a * b) by (nonlinear_arith)
        requires
            a >= 1,
            b >= 1,
            per_pixel >= 1,
    ;
}

} // verus!

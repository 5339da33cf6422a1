//! Decoding of single blocks to RGBA8 pixels.
//!
//! A block of a block compressed format covers 4x4 pixels and decodes to 64
//! bytes, row by row. A block of the other formats is a single pixel and
//! decodes to 4 bytes. The block compressed formats are decoded by `bcdec_rs`.

use vstd::prelude::*;
use crate::convert::{half_to_unorm8, half_to_unorm8_spec, single_to_unorm8, single_to_unorm8_spec};
use crate::format::ImageFormat;

verus! {

/// The 16 RGBA8 pixels that `bcdec_rs::bc1` decodes from a block of 8 bytes.
pub uninterp spec fn bc1_pixels(block: Seq<u8>) -> Seq<u8>;

/// The 16 RGBA8 pixels that `bcdec_rs::bc2` decodes from a block of 16 bytes.
pub uninterp spec fn bc2_pixels(block: Seq<u8>) -> Seq<u8>;

/// The 16 RGBA8 pixels that `bcdec_rs::bc3` decodes from a block of 16 bytes.
pub uninterp spec fn bc3_pixels(block: Seq<u8>) -> Seq<u8>;

/// The 16 single channel pixels that `bcdec_rs::bc4` decodes from a block of
/// 8 bytes read as unsigned.
pub uninterp spec fn bc4_pixels(block: Seq<u8>) -> Seq<u8>;

/// The 16 two channel pixels that `bcdec_rs::bc5` decodes from a block of 16
/// bytes read as unsigned.
pub uninterp spec fn bc5_pixels(block: Seq<u8>) -> Seq<u8>;

/// The 16 pixels of three half precision channels each that
/// `bcdec_rs::bc6h_half` decodes from a block of 16 bytes read as unsigned.
pub uninterp spec fn bc6h_pixels(block: Seq<u8>) -> Seq<u16>;

/// The 16 RGBA8 pixels that `bcdec_rs::bc7` decodes from a block of 16 bytes.
pub uninterp spec fn bc7_pixels(block: Seq<u8>) -> Seq<u8>;

/// Calls `bcdec_rs::bc1` on one block, with a buffer of 4 rows of 16 bytes.
/// Trusted: the result is what that function writes into the zeroed buffer.
#[verifier::external_body]
fn decode_bc1(block: &[u8]) -> (r: Vec<u8>)
    requires
        block@.len() == 8,
    ensures
        r@ == bc1_pixels(block@),
        r@.len() == 64,
{
    let mut pixels = vec![0u8; 64];
    bcdec_rs::bc1(block, &mut pixels, 16);
    pixels
}

/// Calls `bcdec_rs::bc2` on one block, with a buffer of 4 rows of 16 bytes.
/// Trusted: the result is what that function writes into the zeroed buffer.
#[verifier::external_body]
fn decode_bc2(block: &[u8]) -> (r: Vec<u8>)
    requires
        block@.len() == 16,
    ensures
        r@ == bc2_pixels(block@),
        r@.len() == 64,
{
    let mut pixels = vec![0u8; 64];
    bcdec_rs::bc2(block, &mut pixels, 16);
    pixels
}

/// Calls `bcdec_rs::bc3` on one block, with a buffer of 4 rows of 16 bytes.
/// Trusted: the result is what that function writes into the zeroed buffer.
#[verifier::external_body]
fn decode_bc3(block: &[u8]) -> (r: Vec<u8>)
    requires
        block@.len() == 16,
    ensures
        r@ == bc3_pixels(block@),
        r@.len() == 64,
{
    let mut pixels = vec![0u8; 64];
    bcdec_rs::bc3(block, &mut pixels, 16);
    pixels
}

/// Calls `bcdec_rs::bc4` on one block, unsigned, with a buffer of 4 rows of
/// 4 bytes. Trusted: the result is what that function writes into the zeroed
/// buffer.
#[verifier::external_body]
fn decode_bc4(block: &[u8]) -> (r: Vec<u8>)
    requires
        block@.len() == 8,
    ensures
        r@ == bc4_pixels(block@),
        r@.len() == 16,
{
    let mut pixels = vec![0u8; 16];
    bcdec_rs::bc4(block, &mut pixels, 4, false);
    pixels
}

/// Calls `bcdec_rs::bc5` on one block, unsigned, with a buffer of 4 rows of
/// 8 bytes. Trusted: the result is what that function writes into the zeroed
/// buffer.
#[verifier::external_body]
fn decode_bc5(block: &[u8]) -> (r: Vec<u8>)
    requires
        block@.len() == 16,
    ensures
        r@ == bc5_pixels(block@),
        r@.len() == 32,
{
    let mut pixels = vec![0u8; 32];
    bcdec_rs::bc5(block, &mut pixels, 8, false);
    pixels
}

/// Calls `bcdec_rs::bc6h_half` on one block, unsigned, with a buffer of 4
/// rows of 12 half precision numbers. Trusted: the result is what that
/// function writes into the zeroed buffer.
#[verifier::external_body]
fn decode_bc6h(block: &[u8]) -> (r: Vec<u16>)
    requires
        block@.len() == 16,
    ensures
        r@ == bc6h_pixels(block@),
        r@.len() == 48,
{
    let mut pixels = vec![0u16; 48];
    bcdec_rs::bc6h_half(block, &mut pixels, 12, false);
    pixels
}

/// Calls `bcdec_rs::bc7` on one block, with a buffer of 4 rows of 16 bytes.
/// Trusted: the result is what that function writes into the zeroed buffer.
#[verifier::external_body]
fn decode_bc7(block: &[u8]) -> (r: Vec<u8>)
    requires
        block@.len() == 16,
    ensures
        r@ == bc7_pixels(block@),
        r@.len() == 64,
{
    let mut pixels = vec![0u8; 64];
    bcdec_rs::bc7(block, &mut pixels, 16);
    pixels
}

/// Byte `i` of 16 RGBA8 pixels that show a single channel as gray.
pub open spec fn gray_byte(pixels: Seq<u8>, i: int) -> u8 {
    if i % 4 == 3 {
        255
    } else {
        pixels[i / 4]
    }
}

/// Byte `i` of 16 RGBA8 pixels that show two channels as red and green, with
/// no blue.
pub open spec fn two_channel_byte(pixels: Seq<u8>, i: int) -> u8 {
    if i % 4 == 0 {
        pixels[2 * (i / 4)]
    } else if i % 4 == 1 {
        pixels[2 * (i / 4) + 1]
    } else if i % 4 == 2 {
        0
    } else {
        255
    }
}

/// Byte `i` of 16 RGBA8 pixels for three half precision channels each.
pub open spec fn half_byte(pixels: Seq<u16>, i: int) -> u8 {
    if i % 4 == 3 {
        255
    } else {
        half_to_unorm8_spec(pixels[3 * (i / 4) + i % 4])
    }
}

/// The 32 bits that start at byte `at`, lowest byte first.
pub open spec fn le_u32(bytes: Seq<u8>, at: int) -> u32 {
    (bytes[at] as int + bytes[at + 1] as int * 0x100 + bytes[at + 2] as int * 0x1_0000 + bytes[at
        + 3] as int * 0x100_0000) as u32
}

/// The RGBA8 pixels of one block of the format: 16 pixels in rows for a
/// block compressed format, and 1 pixel for the others.
///
/// A single channel is shown as gray, two channels as red and green, and
/// where the format has no alpha the pixels are opaque.
pub open spec fn block_rgba(format: ImageFormat, block: Seq<u8>) -> Seq<u8> {
    match format {
        ImageFormat::BC1Unorm | ImageFormat::BC1Srgb => bc1_pixels(block),
        ImageFormat::BC2Unorm | ImageFormat::BC2Srgb => bc2_pixels(block),
        ImageFormat::BC3Unorm | ImageFormat::BC3Srgb => bc3_pixels(block),
        ImageFormat::BC4Unorm | ImageFormat::BC4Snorm => Seq::new(
            64,
            |i: int| gray_byte(bc4_pixels(block), i),
        ),
        ImageFormat::BC5Unorm | ImageFormat::BC5Snorm => Seq::new(
            64,
            |i: int| two_channel_byte(bc5_pixels(block), i),
        ),
        ImageFormat::BC6Ufloat | ImageFormat::BC6Sfloat => Seq::new(
            64,
            |i: int| half_byte(bc6h_pixels(block), i),
        ),
        ImageFormat::BC7Unorm | ImageFormat::BC7Srgb => bc7_pixels(block),
        ImageFormat::R8Unorm => seq![block[0], block[0], block[0], 255u8],
        ImageFormat::R8G8B8A8Unorm | ImageFormat::R8G8B8A8Srgb => block,
        ImageFormat::B8G8R8A8Unorm | ImageFormat::B8G8R8A8Srgb => seq![
            block[2],
            block[1],
            block[0],
            block[3],
        ],
        ImageFormat::R32G32B32A32Float => Seq::new(
            4,
            |i: int| single_to_unorm8_spec(le_u32(block, 4 * i)),
        ),
    }
}

/// The number of bytes that one decoded block of the format has.
pub open spec fn block_rgba_len(format: ImageFormat) -> int {
    if format.is_block_compressed() {
        64
    } else {
        4
    }
}

fn gray_pixels(block: &[u8]) -> (r: Vec<u8>)
    requires
        block@.len() == 8,
    ensures
        r@ == Seq::new(64, |i: int| gray_byte(bc4_pixels(block@), i)),
{
    let pixels = decode_bc4(block);
    let mut out: Vec<u8> = Vec::new();
    let mut i: usize = 0;
    while i < 16
        invariant
            i <= 16,
            pixels@.len() == 16,
            pixels@ == bc4_pixels(block@),
            out@.len() == 4 * i,
            forall|j: int| 0 <= j < out@.len() ==> out@[j] == gray_byte(pixels@, j),
        decreases 16 - i,
    {
        out.push(pixels[i]);
        out.push(pixels[i]);
        out.push(pixels[i]);
        out.push(255);
        i = i + 1;
    }
    assert(out@ =~= Seq::new(64, |i: int| gray_byte(bc4_pixels(block@), i)));
    out
}

fn two_channel_pixels(block: &[u8]) -> (r: Vec<u8>)
    requires
        block@.len() == 16,
    ensures
        r@ == Seq::new(64, |i: int| two_channel_byte(bc5_pixels(block@), i)),
{
    let pixels = decode_bc5(block);
    let mut out: Vec<u8> = Vec::new();
    let mut i: usize = 0;
    while i < 16
        invariant
            i <= 16,
            pixels@.len() == 32,
            pixels@ == bc5_pixels(block@),
            out@.len() == 4 * i,
            forall|j: int| 0 <= j < out@.len() ==> out@[j] == two_channel_byte(pixels@, j),
        decreases 16 - i,
    {
        out.push(pixels[2 * i]);
        out.push(pixels[2 * i + 1]);
        out.push(0);
        out.push(255);
        i = i + 1;
    }
    assert(out@ =~= Seq::new(64, |i: int| two_channel_byte(bc5_pixels(block@), i)));
    out
}

fn half_pixels(block: &[u8]) -> (r: Vec<u8>)
    requires
        block@.len() == 16,
    ensures
        r@ == Seq::new(64, |i: int| half_byte(bc6h_pixels(block@), i)),
{
    let pixels = decode_bc6h(block);
    let mut out: Vec<u8> = Vec::new();
    let mut i: usize = 0;
    while i < 16
        invariant
            i <= 16,
            pixels@.len() == 48,
            pixels@ == bc6h_pixels(block@),
            out@.len() == 4 * i,
            forall|j: int| 0 <= j < out@.len() ==> out@[j] == half_byte(pixels@, j),
        decreases 16 - i,
    {
        out.push(half_to_unorm8(pixels[3 * i]));
        out.push(half_to_unorm8(pixels[3 * i + 1]));
        out.push(half_to_unorm8(pixels[3 * i + 2]));
        out.push(255);
        i = i + 1;
    }
    assert(out@ =~= Seq::new(64, |i: int| half_byte(bc6h_pixels(block@), i)));
    out
}

fn read_le_u32(bytes: &[u8], at: usize) -> (r: u32)
    requires
        at + 4 <= bytes@.len(),
    ensures
        r == le_u32(bytes@, at as int),
{
    bytes[at] as u32 + bytes[at + 1] as u32 * 0x100 + bytes[at + 2] as u32 * 0x1_0000 + bytes[at
        + 3] as u32 * 0x100_0000
}

/// Decodes one block of the format to RGBA8 pixels.
pub fn decode_block(format: ImageFormat, block: &[u8]) -> (r: Vec<u8>)
    requires
        block@.len() == format.block_size_in_bytes_spec(),
    ensures
        r@ == block_rgba(format, block@),
        r@.len() == block_rgba_len(format),
{
    match format {
        ImageFormat::BC1Unorm | ImageFormat::BC1Srgb => decode_bc1(block),
        ImageFormat::BC2Unorm | ImageFormat::BC2Srgb => decode_bc2(block),
        ImageFormat::BC3Unorm | ImageFormat::BC3Srgb => decode_bc3(block),
        ImageFormat::BC4Unorm | ImageFormat::BC4Snorm => gray_pixels(block),
        ImageFormat::BC5Unorm | ImageFormat::BC5Snorm => two_channel_pixels(block),
        ImageFormat::BC6Ufloat | ImageFormat::BC6Sfloat => half_pixels(block),
        ImageFormat::BC7Unorm | ImageFormat::BC7Srgb => decode_bc7(block),
        ImageFormat::R8Unorm => {
            let out = vec![block[0], block[0], block[0], 255u8];
            assert(out@ =~= block_rgba(format, block@));
            out
        },
        ImageFormat::R8G8B8A8Unorm | ImageFormat::R8G8B8A8Srgb => {
            let out = vec![block[0], block[1], block[2], block[3]];
            assert(out@ =~= block_rgba(format, block@));
            out
        },
        ImageFormat::B8G8R8A8Unorm | ImageFormat::B8G8R8A8Srgb => {
            let out = vec![block[2], block[1], block[0], block[3]];
            assert(out@ =~= block_rgba(format, block@));
            out
        },
        ImageFormat::R32G32B32A32Float => {
            let out = vec![
                single_to_unorm8(read_le_u32(block, 0)),
                single_to_unorm8(read_le_u32(block, 4)),
                single_to_unorm8(read_le_u32(block, 8)),
                single_to_unorm8(read_le_u32(block, 12)),
            ];
            assert(out@ =~= block_rgba(format, block@));
            out
        },
    }
}

} // verus!

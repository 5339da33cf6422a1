use image_dds::block::decode_block;
use image_dds::convert::{half_to_unorm8, single_to_unorm8, unorm8_to_half, unorm8_to_single};
use image_dds::downsample::pad_rgba8;
use image_dds::encode::{level_from_slices, padded_slice, rgba8_to_halves};
use image_dds::{
    decode_data_rgba8, downsample_rgba8, encode_rgba8, CompressSurfaceError,
    DecompressSurfaceError, ImageFormat, Quality,
};

fn assert_close(expected: &[u8], actual: &[u8]) {
    assert_eq!(expected.len(), actual.len());
    for (e, a) in expected.iter().zip(actual) {
        assert!((*e as i32 - *a as i32).abs() <= 4, "{} is not close to {}", a, e);
    }
}

#[test]
fn downsample_rgba8_4x4() {
    // Test that a checkerboard is averaged.
    let original: Vec<_> = std::iter::repeat([0u8, 0u8, 0u8, 0u8, 255u8, 255u8, 255u8, 255u8])
        .take(4 * 4 / 2)
        .flatten()
        .collect();
    assert_eq!(
        vec![127u8; 2 * 2 * 1 * 4],
        downsample_rgba8(4, 4, 1, 1, 1, 1, &original)
    );
}

#[test]
fn downsample_rgba8_3x3() {
    // Test that a checkerboard is averaged.
    let original: Vec<_> = std::iter::repeat([
        0u8, 0u8, 0u8, 0u8, 255u8, 255u8, 255u8, 255u8, 0u8, 0u8, 0u8, 0u8,
    ])
    .take(3 * 3 / 3)
    .flatten()
    .collect();
    assert_eq!(
        vec![127u8; 1 * 1 * 4],
        downsample_rgba8(3, 3, 1, 1, 1, 1, &original)
    );
}

#[test]
fn downsample_rgba8_2x2x2() {
    // Test that two slices of 2x2 pixels are averaged.
    let original = vec![
        0, 0, 0, 0, 0, 0, 0, 0, 0, 0, 0, 0, 0, 0, 0, 0, 255, 255, 255, 255, 255, 255, 255, 255,
        255, 255, 255, 255, 255, 255, 255, 255,
    ];
    assert_eq!(
        vec![127u8; 1 * 1 * 1 * 4],
        downsample_rgba8(2, 2, 2, 1, 1, 1, &original)
    );
}

#[test]
fn downsample_rgba8_2x2x2_padded() {
    // Test that the output is correctly padded.
    let original = vec![
        0, 0, 0, 0, 0, 0, 0, 0, 0, 0, 0, 0, 0, 0, 0, 0, 255, 255, 255, 255, 255, 255, 255, 255,
        255, 255, 255, 255, 255, 255, 255, 255,
    ];
    assert_eq!(
        std::iter::repeat(127u8)
            .take(4)
            .chain(std::iter::repeat(0u8).take(4 * 4 * 2 * 4 - 4))
            .collect::<Vec<_>>(),
        downsample_rgba8(2, 2, 2, 4, 4, 2, &original)
    );
}

#[test]
fn downsample_rgba8_0x0() {
    assert_eq!(vec![0u8; 4], downsample_rgba8(0, 0, 1, 1, 1, 1, &[]));
}

#[test]
fn downsample_rgba8_rounds_the_mean_down() {
    let original = vec![0, 1, 2, 255, 0, 1, 2, 255, 0, 1, 2, 255, 255, 2, 5, 254];
    assert_eq!(
        vec![63u8, 1, 2, 254],
        downsample_rgba8(2, 2, 1, 1, 1, 1, &original)
    );
}

#[test]
fn downsample_rgba8_odd_width_keeps_each_column_pair() {
    // 5x1: the last column has no partner and is dropped with the new width of 2.
    let original = vec![
        10, 10, 10, 10, 20, 20, 20, 20, 30, 30, 30, 30, 50, 50, 50, 50, 90, 90, 90, 90,
    ];
    assert_eq!(
        vec![15u8, 15, 15, 15, 40, 40, 40, 40],
        downsample_rgba8(5, 1, 1, 1, 1, 1, &original)
    );
}

#[test]
fn downsample_rgba8_short_data_gives_zeros() {
    assert_eq!(
        vec![0u8; 2 * 2 * 4],
        downsample_rgba8(4, 4, 1, 1, 1, 1, &[255u8; 63])
    );
    assert_eq!(
        vec![255u8; 2 * 2 * 4],
        downsample_rgba8(4, 4, 1, 1, 1, 1, &[255u8; 64])
    );
}

#[test]
fn downsample_rgba8_no_pixels() {
    assert_eq!(Vec::<u8>::new(), downsample_rgba8(1, 1, 1, 0, 1, 1, &[9u8; 4]));
}

#[test]
fn pad_rgba8_fills_with_zero_pixels() {
    let original = vec![1, 2, 3, 4, 5, 6, 7, 8, 9, 10, 11, 12, 13, 14, 15, 16];
    let padded = pad_rgba8(2, 2, 1, 3, 3, 1, &original);
    assert_eq!(
        vec![
            1, 2, 3, 4, 5, 6, 7, 8, 0, 0, 0, 0, 9, 10, 11, 12, 13, 14, 15, 16, 0, 0, 0, 0, 0, 0,
            0, 0, 0, 0, 0, 0, 0, 0, 0, 0
        ],
        padded
    );
}

#[test]
fn pad_rgba8_cuts_off_and_copies() {
    let original: Vec<u8> = (0..2 * 2 * 2 * 4).map(|v| v as u8).collect();
    assert_eq!(original, pad_rgba8(2, 2, 2, 2, 2, 2, &original));
    assert_eq!(
        vec![0u8, 1, 2, 3, 16, 17, 18, 19],
        pad_rgba8(2, 2, 2, 1, 1, 2, &original)
    );
    assert_eq!(vec![0u8; 16], pad_rgba8(2, 2, 2, 2, 2, 1, &original[..31]));
}

#[test]
fn unorm8_to_single_is_the_nearest_number() {
    for u in 0..=255u8 {
        assert_eq!((u as f32 / 255.0).to_bits(), unorm8_to_single(u));
    }
    assert_eq!(0x3F80_0000, unorm8_to_single(255));
    assert_eq!(0x3F00_8081, unorm8_to_single(128));
}

#[test]
fn unorm8_to_half_is_the_nearest_number() {
    assert_eq!(0, unorm8_to_half(0));
    assert_eq!(0x3C00, unorm8_to_half(255));
    assert_eq!(0x3804, unorm8_to_half(128));
    assert_eq!(0x1C04, unorm8_to_half(1));
    for u in 1..=255u8 {
        // Compare with the number itself: at most half a step of the mantissa away.
        let bits = unorm8_to_half(u) as u32;
        let exponent = (bits >> 10) as i32 - 15;
        let value = (1024 + (bits & 1023)) as f64 / 1024.0 * 2f64.powi(exponent);
        let step = 2f64.powi(exponent - 10);
        assert!((value - u as f64 / 255.0).abs() <= step / 2.0);
    }
}

#[test]
fn single_to_unorm8_cuts_off_the_product() {
    for u in 0..=255u8 {
        let number = u as f32 / 255.0;
        assert_eq!((number * 255.0) as u8, single_to_unorm8(number.to_bits()));
    }
    let mut bits: u32 = 0;
    loop {
        let number = f32::from_bits(bits);
        assert_eq!((number * 255.0) as u8, single_to_unorm8(bits), "{}", bits);
        match bits.checked_add(0x0000_FFF1) {
            Some(next) => bits = next,
            None => break,
        }
    }
    for exponent in 0..=255u32 {
        for mantissa in [0u32, 1, 2, 0x40_0000, 0x7F_FFFE, 0x7F_FFFF, 0x00_8080, 0x7F_7F7F] {
            for sign in [0u32, 0x8000_0000] {
                let bits = sign | (exponent << 23) | mantissa;
                let number = f32::from_bits(bits);
                assert_eq!((number * 255.0) as u8, single_to_unorm8(bits), "{}", bits);
            }
        }
    }
}

#[test]
fn half_to_unorm8_cuts_off_the_product() {
    assert_eq!(0, half_to_unorm8(0));
    assert_eq!(255, half_to_unorm8(0x3C00));
    assert_eq!(127, half_to_unorm8(0x3800));
    assert_eq!(255, half_to_unorm8(0x7C00));
    assert_eq!(0, half_to_unorm8(0x7E00));
    assert_eq!(0, half_to_unorm8(0xBC00));
    assert_eq!(0, half_to_unorm8(0x03FF));
    assert_eq!(254, half_to_unorm8(0x3BFF));
    for bits in 0..=0xFFFFu16 {
        let exponent = ((bits >> 10) & 31) as i32;
        let mantissa = (bits & 1023) as f64;
        let number = if exponent == 31 {
            if mantissa == 0.0 {
                f64::INFINITY
            } else {
                f64::NAN
            }
        } else if exponent == 0 {
            mantissa * 2f64.powi(-24)
        } else {
            (1024.0 + mantissa) * 2f64.powi(exponent - 25)
        };
        let number = if bits >= 0x8000 { -number } else { number };
        assert_eq!((number * 255.0) as u8, half_to_unorm8(bits), "{}", bits);
    }
}

#[test]
fn decode_block_of_pixels() {
    assert_eq!(
        vec![7u8, 7, 7, 255],
        decode_block(ImageFormat::R8Unorm, &[7])
    );
    assert_eq!(
        vec![1u8, 2, 3, 4],
        decode_block(ImageFormat::R8G8B8A8Srgb, &[1, 2, 3, 4])
    );
    assert_eq!(
        vec![3u8, 2, 1, 4],
        decode_block(ImageFormat::B8G8R8A8Unorm, &[1, 2, 3, 4])
    );
    let mut block = Vec::new();
    for number in [0.0f32, 0.5, 1.0, 2.0] {
        block.extend_from_slice(&number.to_le_bytes());
    }
    assert_eq!(
        vec![0u8, 127, 255, 255],
        decode_block(ImageFormat::R32G32B32A32Float, &block)
    );
}

#[test]
fn decode_block_bc1_red() {
    let pixels = decode_block(ImageFormat::BC1Unorm, &[0x00, 0xF8, 0, 0, 0, 0, 0, 0]);
    assert_eq!(
        std::iter::repeat([255u8, 0, 0, 255])
            .take(16)
            .flatten()
            .collect::<Vec<_>>(),
        pixels
    );
}

#[test]
fn decode_block_bc1_picks_colors_by_index() {
    // Color 0 is red, color 1 is black; the first row uses color 1.
    let pixels = decode_block(ImageFormat::BC1Srgb, &[0x00, 0xF8, 0, 0, 0b0101_0101, 0, 0, 0]);
    assert_eq!(vec![0u8, 0, 0, 255], pixels[0..4].to_vec());
    assert_eq!(vec![0u8, 0, 0, 255], pixels[12..16].to_vec());
    assert_eq!(vec![255u8, 0, 0, 255], pixels[16..20].to_vec());
    assert_eq!(64, pixels.len());
}

#[test]
fn decode_block_of_each_compressed_format() {
    let opaque_black: Vec<u8> = std::iter::repeat([0u8, 0, 0, 255]).take(16).flatten().collect();
    assert_eq!(opaque_black, decode_block(ImageFormat::BC1Unorm, &[0u8; 8]));
    assert_eq!(vec![0u8; 64], decode_block(ImageFormat::BC2Unorm, &[0u8; 16]));
    assert_eq!(vec![0u8; 64], decode_block(ImageFormat::BC3Unorm, &[0u8; 16]));
    assert_eq!(opaque_black, decode_block(ImageFormat::BC4Unorm, &[0u8; 8]));
    assert_eq!(opaque_black, decode_block(ImageFormat::BC5Unorm, &[0u8; 16]));
    assert_eq!(vec![0u8; 64], decode_block(ImageFormat::BC7Unorm, &[0u8; 16]));
    let half = decode_block(ImageFormat::BC6Ufloat, &[0u8; 16]);
    assert_eq!(64, half.len());
    for pixel in half.chunks(4) {
        assert_eq!(255, pixel[3]);
    }
}

#[test]
fn decode_block_bc2_alpha_and_bc3_alpha() {
    let mut block = [0u8; 16];
    for byte in block.iter_mut().take(8) {
        *byte = 0xFF;
    }
    let pixels = decode_block(ImageFormat::BC2Unorm, &block);
    for pixel in pixels.chunks(4) {
        assert_eq!(255, pixel[3]);
    }
    let mut block = [0u8; 16];
    block[0] = 200;
    block[1] = 200;
    let pixels = decode_block(ImageFormat::BC3Srgb, &block);
    for pixel in pixels.chunks(4) {
        assert_eq!(200, pixel[3]);
    }
}

#[test]
fn decode_block_bc4_gray_and_bc5_red_green() {
    let pixels = decode_block(ImageFormat::BC4Unorm, &[90, 90, 0, 0, 0, 0, 0, 0]);
    assert_eq!(
        std::iter::repeat([90u8, 90, 90, 255]).take(16).flatten().collect::<Vec<_>>(),
        pixels
    );
    let pixels = decode_block(
        ImageFormat::BC5Snorm,
        &[90, 90, 0, 0, 0, 0, 0, 0, 30, 30, 0, 0, 0, 0, 0, 0],
    );
    assert_eq!(
        std::iter::repeat([90u8, 30, 0, 255]).take(16).flatten().collect::<Vec<_>>(),
        pixels
    );
}

#[test]
fn decode_data_rgba8_places_blocks_in_rows() {
    // 8x4 pixels: a red block and then a black block.
    let mut data = vec![0x00u8, 0xF8, 0, 0, 0, 0, 0, 0];
    data.extend_from_slice(&[0u8; 8]);
    let pixels = decode_data_rgba8(8, 4, 1, ImageFormat::BC1Unorm, &data).unwrap();
    assert_eq!(8 * 4 * 4, pixels.len());
    for y in 0..4 {
        for x in 0..8 {
            let at = (y * 8 + x) * 4;
            let expected = if x < 4 { [255u8, 0, 0, 255] } else { [0u8, 0, 0, 255] };
            assert_eq!(expected.to_vec(), pixels[at..at + 4].to_vec());
        }
    }
}

#[test]
fn decode_data_rgba8_cuts_blocks_at_the_edge() {
    // 5x2x2 pixels take 2 blocks per slice.
    let red = [0x00u8, 0xF8, 0, 0, 0, 0, 0, 0];
    let black = [0u8; 8];
    let mut data = Vec::new();
    data.extend_from_slice(&red);
    data.extend_from_slice(&black);
    data.extend_from_slice(&black);
    data.extend_from_slice(&red);
    let pixels = decode_data_rgba8(5, 2, 2, ImageFormat::BC1Unorm, &data).unwrap();
    assert_eq!(5 * 2 * 2 * 4, pixels.len());
    for z in 0..2 {
        for y in 0..2 {
            for x in 0..5 {
                let at = ((z * 2 + y) * 5 + x) * 4;
                let red_here = (x < 4) == (z == 0);
                let expected = if red_here { [255u8, 0, 0, 255] } else { [0u8, 0, 0, 255] };
                assert_eq!(expected.to_vec(), pixels[at..at + 4].to_vec());
            }
        }
    }
}

#[test]
fn decode_data_rgba8_pixels() {
    assert_eq!(
        Ok(vec![1u8, 1, 1, 255, 2, 2, 2, 255]),
        decode_data_rgba8(2, 1, 1, ImageFormat::R8Unorm, &[1, 2, 3])
    );
    assert_eq!(
        Ok(vec![3u8, 2, 1, 4, 7, 6, 5, 8]),
        decode_data_rgba8(1, 2, 1, ImageFormat::B8G8R8A8Srgb, &[1, 2, 3, 4, 5, 6, 7, 8])
    );
    assert_eq!(
        Ok(vec![1u8, 2, 3, 4]),
        decode_data_rgba8(1, 1, 1, ImageFormat::R8G8B8A8Unorm, &[1, 2, 3, 4, 5])
    );
}

#[test]
fn decode_data_rgba8_errors() {
    assert_eq!(
        Err(DecompressSurfaceError::NotEnoughData { expected: 16, actual: 15 }),
        decode_data_rgba8(1, 1, 1, ImageFormat::BC7Unorm, &[0u8; 15])
    );
    assert_eq!(
        Err(DecompressSurfaceError::NotEnoughData { expected: 32, actual: 0 }),
        decode_data_rgba8(8, 4, 1, ImageFormat::BC3Unorm, &[])
    );
    assert_eq!(
        Err(DecompressSurfaceError::InvalidDimensions { width: 0, height: 4 }),
        decode_data_rgba8(0, 4, 1, ImageFormat::BC3Unorm, &[0u8; 64])
    );
    assert_eq!(
        Err(DecompressSurfaceError::InvalidDimensions { width: u32::MAX, height: u32::MAX }),
        decode_data_rgba8(u32::MAX, u32::MAX, u32::MAX, ImageFormat::R8Unorm, &[0u8; 64])
    );
}

#[test]
fn encode_rgba8_pixels() {
    let data = [10u8, 20, 30, 40, 50, 60, 70, 80];
    assert_eq!(
        Ok(vec![10u8, 50]),
        encode_rgba8(2, 1, 1, &data, ImageFormat::R8Unorm, Quality::Fast)
    );
    assert_eq!(
        Ok(data.to_vec()),
        encode_rgba8(1, 2, 1, &data, ImageFormat::R8G8B8A8Unorm, Quality::Normal)
    );
    assert_eq!(
        Ok(vec![30u8, 20, 10, 40, 70, 60, 50, 80]),
        encode_rgba8(1, 1, 2, &data, ImageFormat::B8G8R8A8Srgb, Quality::Slow)
    );
    let mut singles = Vec::new();
    for channel in [10u8, 20, 30, 40] {
        singles.extend_from_slice(&(channel as f32 / 255.0).to_le_bytes());
    }
    assert_eq!(
        Ok(singles),
        encode_rgba8(1, 1, 1, &data, ImageFormat::R32G32B32A32Float, Quality::Fast)
    );
}

#[test]
fn encode_rgba8_errors() {
    assert_eq!(
        Err(CompressSurfaceError::InvalidDimensions { width: 0, height: 4, depth: 1 }),
        encode_rgba8(0, 4, 1, &[0u8; 64], ImageFormat::BC7Unorm, Quality::Fast)
    );
    assert_eq!(
        Err(CompressSurfaceError::InvalidDimensions {
            width: u32::MAX,
            height: u32::MAX,
            depth: u32::MAX
        }),
        encode_rgba8(
            u32::MAX,
            u32::MAX,
            u32::MAX,
            &[0u8; 64],
            ImageFormat::R8Unorm,
            Quality::Fast)
    );
    assert_eq!(
        Err(CompressSurfaceError::NotEnoughData { expected: 64, actual: 63 }),
        encode_rgba8(4, 4, 1, &[0u8; 63], ImageFormat::BC7Unorm, Quality::Fast)
    );
    assert_eq!(
        Err(CompressSurfaceError::UnsupportedFormat { format: ImageFormat::BC2Unorm }),
        encode_rgba8(4, 4, 1, &[0u8; 64], ImageFormat::BC2Unorm, Quality::Fast)
    );
    assert_eq!(
        Err(CompressSurfaceError::UnsupportedFormat { format: ImageFormat::BC2Srgb }),
        encode_rgba8(4, 4, 1, &[0u8; 64], ImageFormat::BC2Srgb, Quality::Slow)
    );
    assert_eq!(
        Err(CompressSurfaceError::NotEnoughData { expected: 64, actual: 0 }),
        encode_rgba8(4, 4, 1, &[], ImageFormat::BC2Srgb, Quality::Slow)
    );
}

#[test]
fn encode_rgba8_block_sizes() {
    let data = vec![128u8; 8 * 8 * 2 * 4];
    for (format, size) in [
        (ImageFormat::BC1Unorm, 8),
        (ImageFormat::BC1Srgb, 8),
        (ImageFormat::BC3Unorm, 16),
        (ImageFormat::BC3Srgb, 16),
        (ImageFormat::BC4Unorm, 8),
        (ImageFormat::BC4Snorm, 8),
        (ImageFormat::BC5Unorm, 16),
        (ImageFormat::BC5Snorm, 16),
        (ImageFormat::BC6Ufloat, 16),
        (ImageFormat::BC6Sfloat, 16),
        (ImageFormat::BC7Unorm, 16),
        (ImageFormat::BC7Srgb, 16),
    ] {
        for quality in [Quality::Fast, Quality::Normal, Quality::Slow] {
            assert_eq!(
                2 * 2 * 2 * size,
                encode_rgba8(8, 8, 2, &data, format, quality).unwrap().len()
            );
            assert_eq!(
                2 * 2 * size,
                encode_rgba8(6, 5, 1, &data, format, quality).unwrap().len()
            );
            assert_eq!(
                size,
                encode_rgba8(1, 1, 1, &data, format, quality).unwrap().len()
            );
        }
    }
}

#[test]
fn decode_block_takes_any_bytes() {
    let mut state: u64 = 0x2545_F491_4F6C_DD1D;
    let mut block = [0u8; 16];
    for _ in 0..20000 {
        for byte in block.iter_mut() {
            state ^= state << 13;
            state ^= state >> 7;
            state ^= state << 17;
            *byte = (state >> 32) as u8;
        }
        for format in [
            ImageFormat::BC1Unorm,
            ImageFormat::BC2Unorm,
            ImageFormat::BC3Unorm,
            ImageFormat::BC4Unorm,
            ImageFormat::BC5Unorm,
            ImageFormat::BC6Ufloat,
            ImageFormat::BC7Unorm,
            ImageFormat::R32G32B32A32Float,
        ] {
            let pixels = decode_block(format, &block[..format.block_size_in_bytes()]);
            assert_eq!(4 * 16 / if format == ImageFormat::R32G32B32A32Float { 16 } else { 1 }, pixels.len());
        }
    }
}

#[test]
fn encode_rgba8_and_decode_a_plain_color() {
    let white = vec![255u8; 4 * 4 * 4];
    for format in [
        ImageFormat::BC1Unorm,
        ImageFormat::BC3Unorm,
        ImageFormat::BC4Unorm,
        ImageFormat::BC7Unorm,
        ImageFormat::BC6Ufloat,
    ] {
        for quality in [Quality::Fast, Quality::Normal, Quality::Slow] {
            let encoded = encode_rgba8(4, 4, 1, &white, format, quality).unwrap();
            let decoded = decode_data_rgba8(4, 4, 1, format, &encoded).unwrap();
            assert_close(&white, &decoded);
        }
    }
    let red_green: Vec<u8> = std::iter::repeat([255u8, 255, 0, 255]).take(16).flatten().collect();
    let encoded = encode_rgba8(4, 4, 1, &white, ImageFormat::BC5Unorm, Quality::Normal).unwrap();
    let decoded = decode_data_rgba8(4, 4, 1, ImageFormat::BC5Unorm, &encoded).unwrap();
    assert_close(&red_green, &decoded);
    let black: Vec<u8> = std::iter::repeat([0u8, 0, 0, 255]).take(16).flatten().collect();
    for format in [ImageFormat::BC1Unorm, ImageFormat::BC6Ufloat, ImageFormat::BC7Srgb] {
        let encoded = encode_rgba8(4, 4, 1, &black, format, Quality::Normal).unwrap();
        let decoded = decode_data_rgba8(4, 4, 1, format, &encoded).unwrap();
        assert_close(&black, &decoded);
    }
}

#[test]
fn encode_rgba8_pads_each_slice_to_whole_blocks() {
    // 5x3x2 pixels: two slices of 8x4 pixels each, gray in one and lighter in the other.
    let mut data = vec![40u8; 5 * 3 * 4];
    data.extend_from_slice(&[200u8; 5 * 3 * 4]);
    let encoded = encode_rgba8(5, 3, 2, &data, ImageFormat::BC4Unorm, Quality::Slow).unwrap();
    assert_eq!(2 * 2 * 8, encoded.len());
    let decoded = decode_data_rgba8(5, 3, 2, ImageFormat::BC4Unorm, &encoded).unwrap();
    let mut expected = Vec::new();
    for gray in [40u8, 200] {
        for _ in 0..5 * 3 {
            expected.extend_from_slice(&[gray, gray, gray, 255]);
        }
    }
    assert_close(&expected, &decoded);
    // What lies beyond the image in its blocks is zero.
    let whole = decode_data_rgba8(8, 4, 2, ImageFormat::BC4Unorm, &encoded).unwrap();
    assert_close(&[0, 0, 0, 255], &whole[(3 * 8 + 7) * 4..(3 * 8 + 8) * 4]);
    assert_close(&[0, 0, 0, 255], &whole[7 * 4..8 * 4]);
}

#[test]
fn encode_rgba8_keeps_two_colors_apart() {
    // The left half is black and the right half is white.
    let mut data = Vec::new();
    for _ in 0..4 {
        data.extend_from_slice(&[0, 0, 0, 255, 0, 0, 0, 255, 255, 255, 255, 255, 255, 255, 255, 255]);
    }
    for format in [ImageFormat::BC1Unorm, ImageFormat::BC3Srgb, ImageFormat::BC7Unorm] {
        let encoded = encode_rgba8(4, 4, 1, &data, format, Quality::Slow).unwrap();
        let decoded = decode_data_rgba8(4, 4, 1, format, &encoded).unwrap();
        assert_close(&data, &decoded);
    }
}

#[test]
fn padded_slice_of_each_slice() {
    // Two slices of 2x1 pixels, each laid into 4x4 pixels.
    let data: Vec<u8> = (1..=16).collect();
    let first = padded_slice(2, 1, 0, 4, 4, &data);
    let mut expected = vec![1u8, 2, 3, 4, 5, 6, 7, 8];
    expected.resize(4 * 4 * 4, 0);
    assert_eq!(expected, first);
    let second = padded_slice(2, 1, 1, 4, 4, &data);
    let mut expected = vec![9u8, 10, 11, 12, 13, 14, 15, 16];
    expected.resize(4 * 4 * 4, 0);
    assert_eq!(expected, second);
}

#[test]
fn level_from_slices_joins_them() {
    assert_eq!(
        vec![1u8, 2, 3],
        level_from_slices(vec![vec![1, 2], vec![], vec![3]])
    );
    assert_eq!(Vec::<u8>::new(), level_from_slices(Vec::new()));
}

#[test]
fn rgba8_to_halves_of_a_pixel() {
    assert_eq!(
        vec![0x00u8, 0x3C, 0x04, 0x38, 0x00, 0x00, 0x04, 0x1C],
        rgba8_to_halves(&[255, 128, 0, 1])
    );
}

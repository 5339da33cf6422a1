use image_dds::mipmaps::level_image;
use image_dds::{
    dds_params, decode_surface_rgba8, encode_surface_rgba8, image_from_surface,
    CompressSurfaceError, CreateImageError, DdsParams, DecompressSurfaceError, ImageFormat,
    ImageRgba8, Mipmaps, Quality, Surface, SurfaceRgba8,
};

#[test]
fn encode_surface_integral_dimensions() {
    // It's ok for mipmaps to not be divisible by the block width.
    let surface = encode_surface_rgba8(
        SurfaceRgba8 {
            width: 4,
            height: 4,
            depth: 1,
            layers: 1,
            mipmaps: 1,
            data: vec![0u8; 64],
        },
        ImageFormat::BC7Srgb,
        Quality::Fast,
        Mipmaps::GeneratedAutomatic,
    )
    .unwrap();

    assert_eq!(4, surface.width);
    assert_eq!(4, surface.height);
    assert_eq!(1, surface.depth);
    assert_eq!(1, surface.layers);
    assert_eq!(3, surface.mipmaps);
    assert_eq!(ImageFormat::BC7Srgb, surface.image_format);
    // Each mipmap must be at least 1 block in size.
    assert_eq!(16 * 3, surface.data.len());
}

#[test]
fn encode_surface_disabled_mipmaps() {
    let surface = encode_surface_rgba8(
        SurfaceRgba8 {
            width: 4,
            height: 4,
            depth: 1,
            layers: 1,
            mipmaps: 3,
            data: vec![0u8; 64 + 16 + 4],
        },
        ImageFormat::BC7Srgb,
        Quality::Fast,
        Mipmaps::Disabled,
    )
    .unwrap();

    assert_eq!(4, surface.width);
    assert_eq!(4, surface.height);
    assert_eq!(1, surface.depth);
    assert_eq!(1, surface.layers);
    assert_eq!(1, surface.mipmaps);
    assert_eq!(ImageFormat::BC7Srgb, surface.image_format);
    assert_eq!(16, surface.data.len());
}

#[test]
fn encode_surface_mipmaps_from_surface() {
    let surface = encode_surface_rgba8(
        SurfaceRgba8 {
            width: 4,
            height: 4,
            depth: 1,
            layers: 1,
            mipmaps: 2,
            data: vec![0u8; 64 + 16],
        },
        ImageFormat::BC7Srgb,
        Quality::Fast,
        Mipmaps::FromSurface,
    )
    .unwrap();

    assert_eq!(4, surface.width);
    assert_eq!(4, surface.height);
    assert_eq!(1, surface.depth);
    assert_eq!(1, surface.layers);
    assert_eq!(2, surface.mipmaps);
    assert_eq!(ImageFormat::BC7Srgb, surface.image_format);
    assert_eq!(16 * 2, surface.data.len());
}

#[test]
fn encode_surface_non_integral_dimensions() {
    // This should still fail even though there is enough data.
    let result = encode_surface_rgba8(
        SurfaceRgba8 {
            width: 3,
            height: 5,
            depth: 2,
            layers: 1,
            mipmaps: 1,
            data: vec![0u8; 256],
        },
        ImageFormat::BC7Srgb,
        Quality::Fast,
        Mipmaps::GeneratedAutomatic,
    );
    assert!(matches!(
        result,
        Err(CompressSurfaceError::NonIntegralDimensionsInBlocks {
            width: 3,
            height: 5,
            depth: 2,
            block_width: 4,
            block_height: 4
        })
    ));
}

fn rgba8(width: u32, height: u32, depth: u32, mipmaps: u32, data: Vec<u8>) -> SurfaceRgba8 {
    SurfaceRgba8 { width, height, depth, layers: 1, mipmaps, data }
}

#[test]
fn encode_surface_exact_counts() {
    for (asked, expected) in [(0u32, 1u32), (1, 1), (2, 2), (5, 5)] {
        let surface = encode_surface_rgba8(
            rgba8(8, 8, 1, 1, vec![9u8; 256]),
            ImageFormat::BC1Unorm,
            Quality::Fast,
            Mipmaps::GeneratedExact(asked),
        )
        .unwrap();
        assert_eq!(expected, surface.mipmaps);
        assert_eq!((4 + expected as usize - 1) * 8, surface.data.len());
    }
}

#[test]
fn encode_surface_generated_levels_are_averages() {
    let data = vec![0u8, 0, 0, 0, 100, 100, 100, 100, 200, 200, 200, 200, 255, 255, 255, 255];
    let surface = encode_surface_rgba8(
        rgba8(2, 2, 1, 1, data.clone()),
        ImageFormat::R8G8B8A8Unorm,
        Quality::Fast,
        Mipmaps::GeneratedAutomatic,
    )
    .unwrap();
    assert_eq!(2, surface.mipmaps);
    let mut expected = data;
    expected.extend_from_slice(&[138u8; 4]);
    assert_eq!(expected, surface.data);
}

#[test]
fn encode_surface_generated_levels_follow_one_another() {
    // 8x1: 8 pixels, then 4, 2 and 1, each the mean of two of the level before.
    let mut data = Vec::new();
    for x in 0..8u8 {
        data.extend_from_slice(&[x * 16; 4]);
    }
    let surface = encode_surface_rgba8(
        rgba8(8, 1, 1, 1, data),
        ImageFormat::R8Unorm,
        Quality::Fast,
        Mipmaps::GeneratedAutomatic,
    )
    .unwrap();
    assert_eq!(4, surface.mipmaps);
    assert_eq!(
        vec![0u8, 16, 32, 48, 64, 80, 96, 112, 8, 40, 72, 104, 24, 88, 56],
        surface.data
    );
}

#[test]
fn encode_surface_levels_from_surface_are_the_callers() {
    // 2x2 and 1x1, not the mean of the base level.
    let mut data = vec![10u8; 16];
    data.extend_from_slice(&[1, 2, 3, 4]);
    let surface = encode_surface_rgba8(
        rgba8(2, 2, 1, 2, data.clone()),
        ImageFormat::B8G8R8A8Unorm,
        Quality::Fast,
        Mipmaps::FromSurface,
    )
    .unwrap();
    assert_eq!(2, surface.mipmaps);
    let mut expected = vec![10u8; 16];
    expected.extend_from_slice(&[3, 2, 1, 4]);
    assert_eq!(expected, surface.data);
}

#[test]
fn encode_surface_pads_levels_from_surface_to_a_block() {
    // The second level has 2x2 pixels and is encoded as one block of 4x4.
    let mut data = vec![255u8; 64];
    data.extend_from_slice(&[255u8; 16]);
    let surface = encode_surface_rgba8(
        rgba8(4, 4, 1, 2, data),
        ImageFormat::BC4Unorm,
        Quality::Normal,
        Mipmaps::FromSurface,
    )
    .unwrap();
    assert_eq!(16, surface.data.len());
    let decoded = decode_surface_rgba8(surface).unwrap();
    assert_eq!(2, decoded.mipmaps);
    assert_eq!(64 + 16, decoded.data.len());
    assert_eq!(vec![255u8; 64], decoded.data[..64].to_vec());
    assert_eq!(vec![255u8; 16], decoded.data[64..].to_vec());
}

#[test]
fn encode_surface_from_surface_without_the_data() {
    let result = encode_surface_rgba8(
        rgba8(4, 4, 1, 2, vec![0u8; 64 + 15]),
        ImageFormat::BC7Srgb,
        Quality::Fast,
        Mipmaps::FromSurface,
    );
    assert_eq!(
        Err(CompressSurfaceError::NotEnoughData { expected: 80, actual: 79 }),
        result
    );
    let result = encode_surface_rgba8(
        rgba8(4, 4, 1, 2, vec![0u8; 63]),
        ImageFormat::BC7Srgb,
        Quality::Fast,
        Mipmaps::FromSurface,
    );
    assert_eq!(
        Err(CompressSurfaceError::NotEnoughData { expected: 64, actual: 63 }),
        result
    );
}

#[test]
fn encode_surface_without_an_encoder() {
    let result = encode_surface_rgba8(
        rgba8(4, 4, 1, 1, vec![0u8; 64]),
        ImageFormat::BC2Unorm,
        Quality::Fast,
        Mipmaps::Disabled,
    );
    assert_eq!(
        Err(CompressSurfaceError::UnsupportedFormat { format: ImageFormat::BC2Unorm }),
        result
    );
}

#[test]
fn encode_surface_with_odd_levels() {
    // 12x12: levels of 12, 6, 3 and 1 pixels take 9, 4, 1 and 1 blocks.
    let surface = encode_surface_rgba8(
        rgba8(12, 12, 1, 1, vec![77u8; 12 * 12 * 4]),
        ImageFormat::BC3Unorm,
        Quality::Fast,
        Mipmaps::GeneratedAutomatic,
    )
    .unwrap();
    assert_eq!(4, surface.mipmaps);
    assert_eq!((9 + 4 + 1 + 1) * 16, surface.data.len());
    let decoded = decode_surface_rgba8(surface).unwrap();
    assert_eq!((144 + 36 + 9 + 1) * 4, decoded.data.len());
}

#[test]
fn get_image_data_of_each_level() {
    let data: Vec<u8> = (0..2 * (16 + 4)).map(|v| v as u8).collect();
    let surface = SurfaceRgba8 { width: 2, height: 2, depth: 1, layers: 2, mipmaps: 2, data };
    assert_eq!(Some(&surface.data[0..16]), surface.get_image_data(0, 0));
    assert_eq!(Some(&surface.data[16..20]), surface.get_image_data(0, 1));
    assert_eq!(Some(&surface.data[20..36]), surface.get_image_data(1, 0));
    assert_eq!(Some(&surface.data[36..40]), surface.get_image_data(1, 1));
    assert_eq!(None, surface.get_image_data(2, 0));
    assert_eq!(None, surface.get_image_data(0, 2));
    assert_eq!(Some((36, 40)), surface.level_range(1, 1));
    assert_eq!(Some((40, 56)), surface.level_range(2, 0));
    let short = SurfaceRgba8 { data: surface.data[..39].to_vec(), ..surface };
    assert_eq!(None, short.get_image_data(1, 1));
    assert_eq!(Some(&short.data[20..36]), short.get_image_data(1, 0));
}

#[test]
fn decode_surface_layers_and_mipmaps() {
    // Two layers of two levels of single bytes: 2x1 pixels and 1x1.
    let surface = Surface {
        width: 2,
        height: 1,
        depth: 1,
        layers: 2,
        mipmaps: 2,
        image_format: ImageFormat::R8Unorm,
        data: vec![1, 2, 3, 4, 5, 6],
    };
    let decoded = decode_surface_rgba8(surface).unwrap();
    assert_eq!(2, decoded.width);
    assert_eq!(1, decoded.height);
    assert_eq!(1, decoded.depth);
    assert_eq!(2, decoded.layers);
    assert_eq!(2, decoded.mipmaps);
    assert_eq!(
        vec![
            1u8, 1, 1, 255, 2, 2, 2, 255, 3, 3, 3, 255, 4, 4, 4, 255, 5, 5, 5, 255, 6, 6, 6, 255
        ],
        decoded.data
    );
}

#[test]
fn decode_surface_without_levels() {
    let surface = Surface {
        width: 2,
        height: 1,
        depth: 1,
        layers: 0,
        mipmaps: 2,
        image_format: ImageFormat::R8Unorm,
        data: vec![],
    };
    assert_eq!(Vec::<u8>::new(), decode_surface_rgba8(surface).unwrap().data);
    let surface = Surface {
        width: 2,
        height: 1,
        depth: 1,
        layers: 3,
        mipmaps: 0,
        image_format: ImageFormat::BC7Unorm,
        data: vec![],
    };
    assert_eq!(Vec::<u8>::new(), decode_surface_rgba8(surface).unwrap().data);
}

#[test]
fn decode_surface_without_the_data() {
    let surface = Surface {
        width: 4,
        height: 4,
        depth: 1,
        layers: 1,
        mipmaps: 2,
        image_format: ImageFormat::BC1Unorm,
        data: vec![0u8; 15],
    };
    assert_eq!(
        Err(DecompressSurfaceError::NotEnoughData { expected: 8, actual: 7 }),
        decode_surface_rgba8(surface)
    );
    let surface = Surface {
        width: 4,
        height: 4,
        depth: 1,
        layers: 2,
        mipmaps: 1,
        image_format: ImageFormat::BC1Unorm,
        data: vec![0u8; 7],
    };
    assert_eq!(
        Err(DecompressSurfaceError::NotEnoughData { expected: 8, actual: 7 }),
        decode_surface_rgba8(surface)
    );
}

#[test]
fn decode_surface_with_an_offset_beyond_the_machine() {
    let surface = Surface {
        width: u32::MAX,
        height: u32::MAX,
        depth: u32::MAX,
        layers: 2,
        mipmaps: 1,
        image_format: ImageFormat::R32G32B32A32Float,
        data: vec![0u8; 7],
    };
    assert_eq!(
        Err(DecompressSurfaceError::InvalidDimensions { width: u32::MAX, height: u32::MAX }),
        decode_surface_rgba8(surface)
    );
}

#[test]
fn encode_and_decode_a_surface_of_pixels() {
    let data: Vec<u8> = (0..4 * 2 * 4).map(|v| v as u8).collect();
    let encoded = encode_surface_rgba8(
        rgba8(4, 2, 1, 1, data.clone()),
        ImageFormat::B8G8R8A8Srgb,
        Quality::Slow,
        Mipmaps::Disabled,
    )
    .unwrap();
    let decoded = decode_surface_rgba8(encoded).unwrap();
    assert_eq!(rgba8(4, 2, 1, 1, data), decoded);
}

#[test]
fn dds_params_of_a_surface() {
    let surface = Surface {
        width: 8,
        height: 4,
        depth: 1,
        layers: 1,
        mipmaps: 1,
        image_format: ImageFormat::BC7Srgb,
        data: vec![0u8; 32],
    };
    assert_eq!(
        DdsParams {
            height: 4,
            width: 8,
            depth: None,
            dxgi_format: 99,
            mipmap_levels: None,
            is_volume: false
        },
        dds_params(&surface)
    );
    let surface = Surface { depth: 2, mipmaps: 3, image_format: ImageFormat::R8Unorm, ..surface };
    assert_eq!(
        DdsParams {
            height: 4,
            width: 8,
            depth: Some(2),
            dxgi_format: 61,
            mipmap_levels: Some(3),
            is_volume: true
        },
        dds_params(&surface)
    );
}

#[test]
fn image_from_surface_of_each_level() {
    let data: Vec<u8> = (0..(2 * 2 * 2 + 1) * 4).map(|v| v as u8).collect();
    let surface = SurfaceRgba8 { width: 2, height: 2, depth: 2, layers: 1, mipmaps: 2, data };
    assert_eq!(
        Ok(ImageRgba8 { width: 4, height: 2, data: surface.data[..32].to_vec() }),
        image_from_surface(&surface, 0, 0)
    );
    assert_eq!(
        Ok(ImageRgba8 { width: 1, height: 1, data: surface.data[32..].to_vec() }),
        image_from_surface(&surface, 0, 1)
    );
    assert_eq!(
        Err(CreateImageError::InvalidSurfaceDimensions { width: 1, height: 1, data_length: 0 }),
        image_from_surface(&surface, 0, 2)
    );
    assert_eq!(
        Err(CreateImageError::InvalidSurfaceDimensions { width: 4, height: 2, data_length: 0 }),
        image_from_surface(&surface, 1, 0)
    );
    let short = SurfaceRgba8 { data: vec![0u8; 35], ..surface };
    assert_eq!(
        Err(CreateImageError::InvalidSurfaceDimensions { width: 1, height: 1, data_length: 0 }),
        image_from_surface(&short, 0, 1)
    );
    let wide = SurfaceRgba8 {
        width: 65536,
        height: 1,
        depth: 65536,
        layers: 1,
        mipmaps: 17,
        data: vec![0u8; 0],
    };
    assert_eq!(
        Err(CreateImageError::InvalidSurfaceDimensions {
            width: u32::MAX,
            height: 1,
            data_length: 0
        }),
        image_from_surface(&wide, 0, 0)
    );
}

#[test]
fn level_image_from_the_level_before_or_from_the_surface() {
    // 4x4 pixels whose second level of 2x2 pixels the surface brings along.
    let mut data = vec![80u8; 64];
    data.extend_from_slice(&[7u8; 16]);
    let surface = rgba8(4, 4, 1, 2, data);
    // For a format of single pixels the level has 2x2 pixels.
    assert_eq!(
        Ok(vec![80u8; 16]),
        level_image(&surface, ImageFormat::R8Unorm, false, 1, &surface.data)
    );
    assert_eq!(
        Ok(vec![7u8; 16]),
        level_image(&surface, ImageFormat::R8Unorm, true, 1, &[])
    );
    // For a format of blocks it has 4x4 pixels: the level in the corner, and zeros.
    let padded = level_image(&surface, ImageFormat::BC1Unorm, true, 1, &[]).unwrap();
    assert_eq!(64, padded.len());
    assert_eq!(vec![7u8, 7, 7, 7, 7, 7, 7, 7, 0, 0, 0, 0, 0, 0, 0, 0], padded[..16].to_vec());
    assert_eq!(vec![0u8; 32], padded[32..].to_vec());
    assert_eq!(
        Err(CompressSurfaceError::NotEnoughData { expected: usize::MAX, actual: 80 }),
        level_image(&surface, ImageFormat::BC1Unorm, true, 2, &[])
    );
}

//! Encoding of an RGBA8 surface with its chain of mip levels.

use vstd::prelude::*;
use vstd::slice::slice_subrange;
use crate::decode::encoded_size;
use crate::downsample::{downsample_rgba8, downsample_spec, downsampled_dimension, pad_rgba8, pad_spec};
use crate::encode::{encode_error, encode_rgba8, encode_spec};
use crate::error::CompressSurfaceError;
use crate::format::{ImageFormat, Mipmaps, Quality};
use crate::layout::{
    lemma_mip_dimension_halves, level_size, levels_size, max_mipmap_count, max_mipmap_count_spec,
    mip_dimension, mip_dimension_spec,
};
use crate::surface::{Surface, SurfaceRgba8};

verus! {

/// The larger of two numbers.
pub open spec fn at_least(value: int, min: int) -> int {
    if value >= min {
        value
    } else {
        min
    }
}

/// The number of mip levels that an encode with the given policy gives a
/// surface: what the policy asks for, and always the base level.
pub open spec fn resolved_mipmaps(
    mipmaps: Mipmaps,
    declared: u32,
    width: u32,
    height: u32,
    depth: u32,
) -> u32 {
    let asked = match mipmaps {
        Mipmaps::Disabled => 1,
        Mipmaps::FromSurface => declared as int,
        Mipmaps::GeneratedExact(count) => count as int,
        Mipmaps::GeneratedAutomatic => max_mipmap_count_spec(
            at_least(at_least(width as int, height as int), depth as int) as nat,
        ) as int,
    };
    at_least(asked, 1) as u32
}

/// The size in pixels in which a level is encoded: its size in the mip
/// chain, but at least one block.
pub open spec fn encoded_dimension(dim: u32, block: u32, mipmap: nat) -> int {
    at_least(mip_dimension_spec(dim as nat, mipmap) as int, block as int)
}

/// The RGBA8 pixels from which a level is encoded.
///
/// The base level is the surface's data. A further level is, where the
/// levels come from the surface, the surface's own level laid into the
/// corner of a zeroed image of the encoded size; else it is the level before
/// it, box filtered.
pub open spec fn level_pixels(
    surface: SurfaceRgba8,
    block: (u32, u32, u32),
    from_surface: bool,
    mipmap: nat,
) -> Seq<u8>
    decreases mipmap,
{
    if mipmap == 0 {
        surface.data@
    } else if from_surface {
        pad_spec(
            mip_dimension_spec(surface.width as nat, mipmap) as int,
            mip_dimension_spec(surface.height as nat, mipmap) as int,
            mip_dimension_spec(surface.depth as nat, mipmap) as int,
            encoded_dimension(surface.width, block.0, mipmap),
            encoded_dimension(surface.height, block.1, mipmap),
            encoded_dimension(surface.depth, block.2, mipmap),
            surface.data@.subrange(
                surface.level_offset(0, mipmap),
                surface.level_end(0, mipmap),
            ),
        )
    } else {
        downsample_spec(
            encoded_dimension(surface.width, block.0, (mipmap - 1) as nat),
            encoded_dimension(surface.height, block.1, (mipmap - 1) as nat),
            encoded_dimension(surface.depth, block.2, (mipmap - 1) as nat),
            block.0 as int,
            block.1 as int,
            block.2 as int,
            level_pixels(surface, block, from_surface, (mipmap - 1) as nat),
        )
    }
}

/// Why a level cannot be encoded, if it cannot.
///
/// A level after the base level fails where its pixels take more bytes than
/// `usize` holds, and, where the levels come from the surface, where the
/// surface's data ends before the level does. Else the encoder of the level
/// decides.
pub open spec fn level_error(
    surface: SurfaceRgba8,
    format: ImageFormat,
    from_surface: bool,
    mipmap: nat,
) -> Option<CompressSurfaceError> {
    let block = format.block_dimensions_spec();
    let width = encoded_dimension(surface.width, block.0, mipmap);
    let height = encoded_dimension(surface.height, block.1, mipmap);
    let depth = encoded_dimension(surface.depth, block.2, mipmap);
    if mipmap > 0 && width * height * depth * 4 > usize::MAX {
        Some(
            CompressSurfaceError::InvalidDimensions {
                width: width as u32,
                height: height as u32,
                depth: depth as u32,
            },
        )
    } else if mipmap > 0 && from_surface && lacks_level(surface, mipmap) {
        Some(
            CompressSurfaceError::NotEnoughData {
                expected: if surface.is_addressable(0, mipmap) {
                    surface.level_end(0, mipmap) as usize
                } else {
                    usize::MAX
                },
                actual: surface.data@.len() as usize,
            },
        )
    } else {
        encode_error(
            format,
            width as u32,
            height as u32,
            depth as u32,
            level_pixels(surface, block, from_surface, mipmap).len() as int,
        )
    }
}

/// The error of the first of `count` levels that cannot be encoded, if there
/// is one.
pub open spec fn first_error(
    surface: SurfaceRgba8,
    format: ImageFormat,
    from_surface: bool,
    count: nat,
) -> Option<CompressSurfaceError>
    decreases count,
{
    if count == 0 {
        None
    } else {
        match first_error(surface, format, from_surface, (count - 1) as nat) {
            Some(e) => Some(e),
            None => level_error(surface, format, from_surface, (count - 1) as nat),
        }
    }
}

/// The first `count` levels in a format without blocks, one after another.
pub open spec fn encoded_levels(
    surface: SurfaceRgba8,
    format: ImageFormat,
    from_surface: bool,
    count: nat,
) -> Seq<u8>
    decreases count,
{
    if count == 0 {
        Seq::empty()
    } else {
        let block = format.block_dimensions_spec();
        encoded_levels(surface, format, from_surface, (count - 1) as nat) + encode_spec(
            format,
            encoded_dimension(surface.width, block.0, (count - 1) as nat) * encoded_dimension(
                surface.height,
                block.1,
                (count - 1) as nat,
            ) * encoded_dimension(surface.depth, block.2, (count - 1) as nat),
            level_pixels(surface, block, from_surface, (count - 1) as nat),
        )
    }
}

/// Once a level cannot be encoded, no number of further levels can.
pub proof fn lemma_first_error_stays(
    surface: SurfaceRgba8,
    format: ImageFormat,
    from_surface: bool,
    count: nat,
    more: nat,
)
    ensures
        first_error(surface, format, from_surface, count) is Some ==> first_error(
            surface,
            format,
            from_surface,
            count + more,
        ) == first_error(surface, format, from_surface, count),
    decreases more,
{
    if more > 0 {
        lemma_first_error_stays(surface, format, from_surface, count, (more - 1) as nat);
    }
}

/// A level encoded at no less than one block takes the bytes that the layout
/// gives the level, and halving its encoded size gives the next level's.
pub proof fn lemma_encoded_level(surface: SurfaceRgba8, format: ImageFormat, mipmap: nat)
    ensures
        ({
            let block = format.block_dimensions_spec();
            let width = encoded_dimension(surface.width, block.0, mipmap);
            let height = encoded_dimension(surface.height, block.1, mipmap);
            let depth = encoded_dimension(surface.depth, block.2, mipmap);
            &&& 1 <= width <= u32::MAX
            &&& 1 <= height <= u32::MAX
            &&& 1 <= depth <= u32::MAX
            &&& encoded_size(format, width, height, depth) == level_size(
                surface.dimensions(),
                block,
                format.block_size_in_bytes_spec(),
                mipmap,
            )
            &&& downsampled_dimension(width, block.0 as int) == encoded_dimension(
                surface.width,
                block.0,
                mipmap + 1,
            )
            &&& downsampled_dimension(height, block.1 as int) == encoded_dimension(
                surface.height,
                block.1,
                mipmap + 1,
            )
            &&& downsampled_dimension(depth, block.2 as int) == encoded_dimension(
                surface.depth,
                block.2,
                mipmap + 1,
            )
        }),
{
    lemma_mip_dimension_halves(surface.width as nat, mipmap);
    lemma_mip_dimension_halves(surface.height as nat, mipmap);
    lemma_mip_dimension_halves(surface.depth as nat, mipmap);
    let block = format.block_dimensions_spec();
    let w = mip_dimension_spec(surface.width as nat, mipmap) as int;
    let h = mip_dimension_spec(surface.height as nat, mipmap) as int;
    let d = mip_dimension_spec(surface.depth as nat, mipmap) as int;
    if format.is_block_compressed() {
        assert(block == (4u32, 4u32, 1u32));
        assert((at_least(w, 4) + 4 - 1) / 4 == (w + 4 - 1) / 4);
        assert((at_least(h, 4) + 4 - 1) / 4 == (h + 4 - 1) / 4);
    } else {
        assert(block == (1u32, 1u32, 1u32));
    }
}

/// The size in pixels in which a level of the surface is encoded.
fn encoded_dimensions(width: u32, height: u32, depth: u32, format: ImageFormat, mipmap: u32) -> (r: (
    u32,
    u32,
    u32,
))
    ensures
        r.0 == encoded_dimension(width, format.block_dimensions_spec().0, mipmap as nat),
        r.1 == encoded_dimension(height, format.block_dimensions_spec().1, mipmap as nat),
        r.2 == encoded_dimension(depth, format.block_dimensions_spec().2, mipmap as nat),
        r.0 >= 1 && r.1 >= 1 && r.2 >= 1,
{
    let (block_width, block_height, block_depth) = format.block_dimensions();
    let level_width: u32 = mip_dimension(width, mipmap);
    let level_height: u32 = mip_dimension(height, mipmap);
    let level_depth: u32 = mip_dimension(depth, mipmap);
    (
        if level_width >= block_width {
            level_width
        } else {
            block_width
        },
        if level_height >= block_height {
            level_height
        } else {
            block_height
        },
        if level_depth >= block_depth {
            level_depth
        } else {
            block_depth
        },
    )
}

/// Whether the RGBA8 pixels of an image of the given size take no more
/// bytes than `usize` holds.
fn pixels_fit(width: u32, height: u32, depth: u32) -> (r: bool)
    requires
        width >= 1 && height >= 1 && depth >= 1,
    ensures
        r == (width * height * depth * 4 <= usize::MAX),
{
    proof {
        let w = width as int;
        let h = height as int;
        let d = depth as int;
        assert(w * h >= 1 && w * h * d >= w * h && w * h * d * 4 >= w * h * d) by (nonlinear_arith)
            requires
                w >= 1,
                h >= 1,
                d >= 1,
        ;
    }
    match (width as usize).checked_mul(height as usize) {
        None => false,
        Some(plane) => match plane.checked_mul(depth as usize) {
            None => false,
            Some(pixels) => pixels <= usize::MAX / 4,
        },
    }
}

/// Whether the surface cannot give one of its own levels: it has no such
/// level, a layer or the level's end is beyond `usize`, or the data ends
/// before the level does.
pub open spec fn lacks_level(surface: SurfaceRgba8, mipmap: nat) -> bool {
    !surface.is_addressable(0, mipmap) || surface.level_end(0, mipmap) > surface.data@.len()
}

/// The RGBA8 pixels from which a level after the base level is encoded,
/// whatever the format: made from the surface's own level, or from the
/// pixels of the level before, which `previous` holds.
pub fn level_image(
    surface: &SurfaceRgba8,
    format: ImageFormat,
    use_surface: bool,
    mipmap: u32,
    previous: &[u8],
) -> (r: Result<Vec<u8>, CompressSurfaceError>)
    requires
        mipmap >= 1,
        !use_surface ==> previous@ == level_pixels(
            *surface,
            format.block_dimensions_spec(),
            use_surface,
            (mipmap - 1) as nat,
        ),
        encoded_dimension(surface.width, format.block_dimensions_spec().0, mipmap as nat)
            * encoded_dimension(surface.height, format.block_dimensions_spec().1, mipmap as nat)
            * encoded_dimension(surface.depth, format.block_dimensions_spec().2, mipmap as nat) * 4
            <= usize::MAX,
    ensures
        use_surface && lacks_level(*surface, mipmap as nat) ==> r == Err::<
            Vec<u8>,
            CompressSurfaceError,
        >(
            CompressSurfaceError::NotEnoughData {
                expected: if surface.is_addressable(0, mipmap as nat) {
                    surface.level_end(0, mipmap as nat) as usize
                } else {
                    usize::MAX
                },
                actual: surface.data@.len() as usize,
            },
        ),
        !(use_surface && lacks_level(*surface, mipmap as nat)) ==> r is Ok && r.unwrap()@
            == level_pixels(
            *surface,
            format.block_dimensions_spec(),
            use_surface,
            mipmap as nat,
        ),
{
    let (block_width, block_height, block_depth) = format.block_dimensions();
    proof {
        lemma_encoded_level(*surface, format, (mipmap - 1) as nat);
        lemma_encoded_level(*surface, format, mipmap as nat);
        lemma_mip_dimension_halves(surface.width as nat, mipmap as nat);
        lemma_mip_dimension_halves(surface.height as nat, mipmap as nat);
        lemma_mip_dimension_halves(surface.depth as nat, mipmap as nat);
        crate::layout::lemma_offset_bounds(
            0,
            mipmap as nat,
            surface.dimensions(),
            crate::surface::pixel_blocks(),
            4,
            surface.mipmaps as nat,
        );
        crate::layout::lemma_level_size_positive(
            surface.dimensions(),
            crate::surface::pixel_blocks(),
            4,
            mipmap as nat,
        );
    }
    if use_surface {
        let len: usize = surface.data.len();
        let level_width: u32 = mip_dimension(surface.width, mipmap);
        let level_height: u32 = mip_dimension(surface.height, mipmap);
        let level_depth: u32 = mip_dimension(surface.depth, mipmap);
        let (mip_width, mip_height, mip_depth) = encoded_dimensions(
            surface.width,
            surface.height,
            surface.depth,
            format,
            mipmap,
        );
        match surface.level_range(0, mipmap) {
            Some((start, end)) => {
                if end > len {
                    return Err(CompressSurfaceError::NotEnoughData { expected: end, actual: len });
                }
                Ok(
                    pad_rgba8(
                        level_width as usize,
                        level_height as usize,
                        level_depth as usize,
                        mip_width as usize,
                        mip_height as usize,
                        mip_depth as usize,
                        slice_subrange(surface.data.as_slice(), start, end),
                    ),
                )
            },
            None => Err(
                CompressSurfaceError::NotEnoughData { expected: usize::MAX, actual: len },
            ),
        }
    } else {
        let (from_width, from_height, from_depth) = encoded_dimensions(
            surface.width,
            surface.height,
            surface.depth,
            format,
            mipmap - 1,
        );
        Ok(
            downsample_rgba8(
                from_width as usize,
                from_height as usize,
                from_depth as usize,
                block_width as usize,
                block_height as usize,
                block_depth as usize,
                previous,
            ),
        )
    }
}

/// Encode an RGBA8 surface to the given `format`.
///
/// The width and height of the base level have to be multiples of the
/// format's block. The number of mip levels follows from `mipmaps`, and the
/// result has a single array layer. Every level is encoded at no less than
/// one block in each dimension, so the result has the length that the layout
/// gives a surface of its size. The first level that cannot be encoded gives
/// the error.
#[verifier::rlimit(60)]
pub fn encode_surface_rgba8(
    surface: SurfaceRgba8,
    format: ImageFormat,
    quality: Quality,
    mipmaps: Mipmaps,
) -> (r: Result<Surface, CompressSurfaceError>)
    ensures
        ({
            let block = format.block_dimensions_spec();
            let count = resolved_mipmaps(
                mipmaps,
                surface.mipmaps,
                surface.width,
                surface.height,
                surface.depth,
            );
            let from_surface = mipmaps == Mipmaps::FromSurface;
            if surface.width % block.0 != 0 || surface.height % block.1 != 0 {
                r == Err::<Surface, CompressSurfaceError>(
                    CompressSurfaceError::NonIntegralDimensionsInBlocks {
                        width: surface.width,
                        height: surface.height,
                        depth: surface.depth,
                        block_width: block.0,
                        block_height: block.1,
                    },
                )
            } else {
                match first_error(surface, format, from_surface, count as nat) {
                    Some(e) => r == Err::<Surface, CompressSurfaceError>(e),
                    None => {
                        &&& r is Ok
                        &&& r.unwrap().width == surface.width
                        &&& r.unwrap().height == surface.height
                        &&& r.unwrap().depth == surface.depth
                        &&& r.unwrap().layers == 1
                        &&& r.unwrap().mipmaps == count
                        &&& r.unwrap().image_format == format
                        &&& r.unwrap().well_formed()
                        &&& !format.is_block_compressed() ==> r.unwrap().data@ == encoded_levels(
                            surface,
                            format,
                            from_surface,
                            count as nat,
                        )
                    },
                }
            }
        }),
{
    let width: u32 = surface.width;
    let height: u32 = surface.height;
    let depth: u32 = surface.depth;
    let (block_width, block_height, block_depth) = format.block_dimensions();
    if width % block_width != 0 || height % block_height != 0 {
        return Err(
            CompressSurfaceError::NonIntegralDimensionsInBlocks {
                width,
                height,
                depth,
                block_width,
                block_height,
            },
        );
    }
    let largest: u32 = if width >= height {
        if width >= depth {
            width
        } else {
            depth
        }
    } else if height >= depth {
        height
    } else {
        depth
    };
    let asked: u32 = match mipmaps {
        Mipmaps::Disabled => 1,
        Mipmaps::FromSurface => surface.mipmaps,
        Mipmaps::GeneratedExact(count) => count,
        Mipmaps::GeneratedAutomatic => max_mipmap_count(largest),
    };
    let num_mipmaps: u32 = if asked >= 1 {
        asked
    } else {
        1
    };
    let use_surface: bool = match mipmaps {
        Mipmaps::FromSurface => true,
        _ => false,
    };
    let ghost block = format.block_dimensions_spec();
    let ghost sizes = format.block_size_in_bytes_spec();
    let ghost dimensions = surface.dimensions();
    proof {
        lemma_mip_dimension_halves(width as nat, 0);
        lemma_mip_dimension_halves(height as nat, 0);
        lemma_mip_dimension_halves(depth as nat, 0);
        lemma_encoded_level(surface, format, 0);
        lemma_first_error_stays(surface, format, use_surface, 1, (num_mipmaps - 1) as nat);
        assert(first_error(surface, format, use_surface, 1) == level_error(
            surface,
            format,
            use_surface,
            0,
        )) by {
            assert(first_error(surface, format, use_surface, 0) is None);
        }
        assert(levels_size(dimensions, block, sizes, 1) == level_size(dimensions, block, sizes, 0))
            by {
            assert(levels_size(dimensions, block, sizes, 0) == 0);
        }
        assert(encoded_levels(surface, format, use_surface, 1) =~= encode_spec(
            format,
            encoded_dimension(width, block.0, 0) * encoded_dimension(height, block.1, 0)
                * encoded_dimension(depth, block.2, 0),
            surface.data@,
        )) by {
            assert(encoded_levels(surface, format, use_surface, 0) =~= Seq::<u8>::empty());
        }
    }
    let base_width: u32 = if width >= block_width {
        width
    } else {
        block_width
    };
    let base_height: u32 = if height >= block_height {
        height
    } else {
        block_height
    };
    let base_depth: u32 = if depth >= block_depth {
        depth
    } else {
        block_depth
    };
    let mut surface_data: Vec<u8> = match encode_rgba8(
        base_width,
        base_height,
        base_depth,
        surface.data.as_slice(),
        format,
        quality,
    ) {
        Ok(v) => v,
        Err(e) => {
            return Err(e);
        },
    };
    let mut previous: Vec<u8> = Vec::new();
    let mut mipmap: u32 = 1;
    while mipmap < num_mipmaps
        invariant
            1 <= mipmap <= num_mipmaps,
            width == surface.width && height == surface.height && depth == surface.depth,
            block == format.block_dimensions_spec(),
            block == (block_width, block_height, block_depth),
            sizes == format.block_size_in_bytes_spec(),
            dimensions == surface.dimensions(),
            use_surface == (mipmaps == Mipmaps::FromSurface),
            width % block.0 == 0 && height % block.1 == 0,
            num_mipmaps == resolved_mipmaps(mipmaps, surface.mipmaps, width, height, depth),
            first_error(surface, format, use_surface, mipmap as nat) is None,
            surface_data@.len() == levels_size(dimensions, block, sizes, mipmap as nat),
            !format.is_block_compressed() ==> surface_data@ == encoded_levels(
                surface,
                format,
                use_surface,
                mipmap as nat,
            ),
            !use_surface && mipmap >= 2 ==> previous@ == level_pixels(
                surface,
                block,
                use_surface,
                (mipmap - 1) as nat,
            ),
        decreases num_mipmaps - mipmap,
    {
        proof {
            lemma_encoded_level(surface, format, (mipmap - 1) as nat);
            lemma_encoded_level(surface, format, mipmap as nat);
            lemma_first_error_stays(
                surface,
                format,
                use_surface,
                (mipmap + 1) as nat,
                (num_mipmaps - mipmap - 1) as nat,
            );
        }
        let (mip_width, mip_height, mip_depth) = encoded_dimensions(
            width,
            height,
            depth,
            format,
            mipmap,
        );
        let invalid = CompressSurfaceError::InvalidDimensions {
            width: mip_width,
            height: mip_height,
            depth: mip_depth,
        };
        let fits: bool = pixels_fit(mip_width, mip_height, mip_depth);
        if !fits {
            return Err(invalid);
        }
        proof {
            assert(first_error(surface, format, use_surface, (mipmap + 1) as nat) == level_error(
                surface,
                format,
                use_surface,
                mipmap as nat,
            ));
            assert(levels_size(dimensions, block, sizes, (mipmap + 1) as nat) == levels_size(
                dimensions,
                block,
                sizes,
                mipmap as nat,
            ) + level_size(dimensions, block, sizes, mipmap as nat));
            assert(encoded_levels(surface, format, use_surface, (mipmap + 1) as nat)
                == encoded_levels(surface, format, use_surface, mipmap as nat) + encode_spec(
                format,
                encoded_dimension(width, block.0, mipmap as nat) * encoded_dimension(
                    height,
                    block.1,
                    mipmap as nat,
                ) * encoded_dimension(depth, block.2, mipmap as nat),
                level_pixels(surface, block, use_surface, mipmap as nat),
            ));
        }
        let source: &[u8] = if mipmap == 1 {
            surface.data.as_slice()
        } else {
            previous.as_slice()
        };
        let mip_image: Vec<u8> = match level_image(&surface, format, use_surface, mipmap, source) {
            Ok(v) => v,
            Err(e) => {
                return Err(e);
            },
        };
        let mut mip_data: Vec<u8> = match encode_rgba8(
            mip_width,
            mip_height,
            mip_depth,
            mip_image.as_slice(),
            format,
            quality,
        ) {
            Ok(v) => v,
            Err(e) => {
                return Err(e);
            },
        };
        surface_data.append(&mut mip_data);
        previous = mip_image;
        mipmap = mipmap + 1;
    }
    proof {
        assert(1 * levels_size(dimensions, block, sizes, num_mipmaps as nat) == levels_size(
            dimensions,
            block,
            sizes,
            num_mipmaps as nat,
        ));
    }
    Ok(
        Surface {
            width,
            height,
            depth,
            layers: 1,
            mipmaps: num_mipmaps,
            image_format: format,
            data: surface_data,
        },
    )
}

} // verus!

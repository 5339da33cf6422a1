//! What a texture container and a flat image take from a surface, as plain
//! values.

use vstd::prelude::*;
use vstd::slice::slice_to_vec;
use crate::error::CreateImageError;
use crate::identifiers::{dxgi_from_image_format, dxgi_spec};
use crate::layout::{
    lemma_level_size_positive, lemma_offset_bounds, mip_dimension, mip_dimension_spec,
};
use crate::surface::{pixel_blocks, Surface, SurfaceRgba8};

verus! {

/// What the header of a DDS file says of a surface.
#[derive(Debug, PartialEq, Eq, Clone, Copy, Structural)]
pub struct DdsParams {
    /// The height of the base level in pixels.
    pub height: u32,
    /// The width of the base level in pixels.
    pub width: u32,
    /// The depth of the base level, for a surface with more than one slice.
    pub depth: Option<u32>,
    /// The DXGI number of the format.
    pub dxgi_format: u32,
    /// The number of mip levels, for a surface with more than the base level.
    pub mipmap_levels: Option<u32>,
    /// Whether the surface is a volume and not a flat texture.
    pub is_volume: bool,
}

/// An image of RGBA8 pixels in rows.
#[derive(Debug, PartialEq, Eq, Clone)]
pub struct ImageRgba8 {
    /// The width in pixels.
    pub width: u32,
    /// The height in pixels.
    pub height: u32,
    /// The pixels, four bytes each.
    pub data: Vec<u8>,
}

/// What the header of a DDS file says of `surface`: its size and format, its
/// depth only where it has more than one slice, and the number of its mip
/// levels only where it has more than one.
pub fn dds_params(surface: &Surface) -> (r: DdsParams)
    ensures
        r == (DdsParams {
            height: surface.height,
            width: surface.width,
            depth: if surface.depth > 1 {
                Some(surface.depth)
            } else {
                None
            },
            dxgi_format: dxgi_spec(surface.image_format),
            mipmap_levels: if surface.mipmaps > 1 {
                Some(surface.mipmaps)
            } else {
                None
            },
            is_volume: surface.depth > 1,
        }),
{
    DdsParams {
        height: surface.height,
        width: surface.width,
        depth: if surface.depth > 1 {
            Some(surface.depth)
        } else {
            None
        },
        dxgi_format: dxgi_from_image_format(surface.image_format),
        mipmap_levels: if surface.mipmaps > 1 {
            Some(surface.mipmaps)
        } else {
            None
        },
        is_volume: surface.depth > 1,
    }
}

/// The width of the image of a level: the widths of its slices together.
pub open spec fn image_width(surface: SurfaceRgba8, mipmap: nat) -> int {
    mip_dimension_spec(surface.width as nat, mipmap) as int * mip_dimension_spec(
        surface.depth as nat,
        mipmap,
    ) as int
}

/// One mip level of one layer as an image, its slices taken as one run of
/// rows that are as wide as all slices together.
///
/// Fails where the surface does not have the level, and where the widths of
/// the slices together are more than a width can be; the error then holds
/// the largest width there is.
pub fn image_from_surface(surface: &SurfaceRgba8, layer: u32, mipmap: u32) -> (r: Result<
    ImageRgba8,
    CreateImageError,
>)
    ensures
        surface.has_level(layer as nat, mipmap as nat) && image_width(*surface, mipmap as nat)
            <= u32::MAX ==> r is Ok && r.unwrap().width == image_width(*surface, mipmap as nat)
            && r.unwrap().height == mip_dimension_spec(surface.height as nat, mipmap as nat)
            && r.unwrap().data@ == surface.data@.subrange(
            surface.level_offset(layer as nat, mipmap as nat),
            surface.level_end(layer as nat, mipmap as nat),
        ),
        !surface.has_level(layer as nat, mipmap as nat) ==> r == Err::<
            ImageRgba8,
            CreateImageError,
        >(
            CreateImageError::InvalidSurfaceDimensions {
                width: if image_width(*surface, mipmap as nat) <= u32::MAX {
                    image_width(*surface, mipmap as nat) as u32
                } else {
                    u32::MAX
                },
                height: mip_dimension_spec(surface.height as nat, mipmap as nat) as u32,
                data_length: 0,
            },
        ),
        surface.has_level(layer as nat, mipmap as nat) && image_width(*surface, mipmap as nat)
            > u32::MAX ==> r == Err::<ImageRgba8, CreateImageError>(
            CreateImageError::InvalidSurfaceDimensions {
                width: u32::MAX,
                height: mip_dimension_spec(surface.height as nat, mipmap as nat) as u32,
                data_length: (surface.level_end(layer as nat, mipmap as nat) - surface.level_offset(
                    layer as nat,
                    mipmap as nat,
                )) as usize,
            },
        ),
{
    proof {
        lemma_offset_bounds(
            layer as nat,
            mipmap as nat,
            surface.dimensions(),
            pixel_blocks(),
            4,
            surface.mipmaps as nat,
        );
        lemma_level_size_positive(surface.dimensions(), pixel_blocks(), 4, mipmap as nat);
    }
    let level_width: u32 = mip_dimension(surface.width, mipmap);
    let height: u32 = mip_dimension(surface.height, mipmap);
    let depth: u32 = mip_dimension(surface.depth, mipmap);
    let joined: Option<u32> = level_width.checked_mul(depth);
    let width: u32 = match joined {
        Some(v) => v,
        None => u32::MAX,
    };
    match surface.get_image_data(layer, mipmap) {
        None => Err(CreateImageError::InvalidSurfaceDimensions { width, height, data_length: 0 }),
        Some(data) => {
            if joined.is_none() {
                Err(
                    CreateImageError::InvalidSurfaceDimensions {
                        width,
                        height,
                        data_length: data.len(),
                    },
                )
            } else {
                Ok(ImageRgba8 { width, height, data: slice_to_vec(data) })
            }
        },
    }
}

} // verus!

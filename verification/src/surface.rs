//! Surfaces: the pixels of every array layer and mip level of a texture in
//! one buffer, and the decoding of a whole surface.

use vstd::prelude::*;
use vstd::arithmetic::div_mod::lemma_fundamental_div_mod_converse;
use vstd::slice::slice_subrange;
use crate::decode::{decode_data_rgba8, decode_error, decode_spec};
use crate::error::DecompressSurfaceError;
use crate::format::ImageFormat;
use crate::layout::{
    calculate_offset, layer_fits, lemma_level_within_layer, lemma_levels_size_monotonic, lemma_offset_bounds, level_size, level_size_checked, levels_size,
    mip_dimension, mip_dimension_spec, offset_spec,
};

verus! {

/// A surface in an image format: `layers` array layers of `mipmaps` mip
/// levels each, every level rounded up to whole blocks, stored layer after
/// layer and level after level with nothing between them.
#[derive(Debug, PartialEq, Eq, Clone)]
pub struct Surface {
    /// The width of the base level in pixels.
    pub width: u32,
    /// The height of the base level in pixels.
    pub height: u32,
    /// The depth of the base level in pixels.
    pub depth: u32,
    /// The number of array layers.
    pub layers: u32,
    /// The number of mip levels of each layer, the base level included.
    pub mipmaps: u32,
    /// The format of the data.
    pub image_format: ImageFormat,
    /// The bytes of all layers and levels.
    pub data: Vec<u8>,
}

/// A surface of RGBA8 pixels of four bytes each, stored like a [`Surface`]
/// with blocks of one pixel.
#[derive(Debug, PartialEq, Eq, Clone)]
pub struct SurfaceRgba8 {
    /// The width of the base level in pixels.
    pub width: u32,
    /// The height of the base level in pixels.
    pub height: u32,
    /// The depth of the base level in pixels.
    pub depth: u32,
    /// The number of array layers.
    pub layers: u32,
    /// The number of mip levels of each layer, the base level included.
    pub mipmaps: u32,
    /// The pixels of all layers and levels.
    pub data: Vec<u8>,
}

/// The blocks of an RGBA8 surface: single pixels.
pub open spec fn pixel_blocks() -> (u32, u32, u32) {
    (1u32, 1u32, 1u32)
}

impl Surface {
    /// The base dimensions.
    pub open spec fn dimensions(self) -> (u32, u32, u32) {
        (self.width, self.height, self.depth)
    }

    /// The number of bytes that the layout gives all layers and levels.
    pub open spec fn expected_len(self) -> int {
        self.layers * levels_size(
            self.dimensions(),
            self.image_format.block_dimensions_spec(),
            self.image_format.block_size_in_bytes_spec(),
            self.mipmaps as nat,
        )
    }

    /// Whether the data has exactly the length that the layout gives it.
    pub open spec fn well_formed(self) -> bool {
        self.data@.len() == self.expected_len()
    }

    /// Whether a layer takes no more bytes than `usize` holds.
    pub open spec fn layer_fits(self) -> bool {
        layer_fits(
            self.dimensions(),
            self.image_format.block_dimensions_spec(),
            self.image_format.block_size_in_bytes_spec(),
            self.mipmaps as nat,
        )
    }

    /// Where a level starts in the data.
    pub open spec fn level_offset(self, layer: nat, mipmap: nat) -> int {
        offset_spec(
            layer,
            mipmap,
            self.dimensions(),
            self.image_format.block_dimensions_spec(),
            self.image_format.block_size_in_bytes_spec(),
            self.mipmaps as nat,
        )
    }

    /// The data from the start of a level on; nothing where the level starts
    /// behind the data.
    pub open spec fn data_from(self, layer: nat, mipmap: nat) -> Seq<u8> {
        if self.level_offset(layer, mipmap) <= self.data@.len() {
            self.data@.subrange(self.level_offset(layer, mipmap), self.data@.len() as int)
        } else {
            Seq::empty()
        }
    }

    /// The RGBA8 pixels of one level, or why it cannot be decoded: a layer or
    /// the level's offset is beyond `usize`, or its own size or data are at
    /// fault.
    pub open spec fn decoded_level(self, layer: nat, mipmap: nat) -> Result<
        Seq<u8>,
        DecompressSurfaceError,
    > {
        let width = mip_dimension_spec(self.width as nat, mipmap) as u32;
        let height = mip_dimension_spec(self.height as nat, mipmap) as u32;
        let depth = mip_dimension_spec(self.depth as nat, mipmap) as u32;
        if !self.layer_fits() || self.level_offset(layer, mipmap) > usize::MAX {
            Err(
                DecompressSurfaceError::InvalidDimensions {
                    width: self.width,
                    height: self.height,
                },
            )
        } else {
            match decode_error(
                self.image_format,
                width,
                height,
                depth,
                self.data_from(layer, mipmap).len() as int,
            ) {
                Some(e) => Err(e),
                None => Ok(
                    decode_spec(
                        self.image_format,
                        width as int,
                        height as int,
                        depth as int,
                        self.data_from(layer, mipmap),
                    ),
                ),
            }
        }
    }

    /// The RGBA8 pixels of the first `count` levels, counted through the
    /// layers, or the error of the first level that cannot be decoded.
    pub open spec fn decoded_levels(self, count: nat) -> Result<Seq<u8>, DecompressSurfaceError>
        decreases count,
    {
        if count == 0 || self.mipmaps == 0 {
            Ok(Seq::empty())
        } else {
            match self.decoded_levels((count - 1) as nat) {
                Err(e) => Err(e),
                Ok(before) => match self.decoded_level(
                    ((count - 1) / self.mipmaps as int) as nat,
                    ((count - 1) % self.mipmaps as int) as nat,
                ) {
                    Err(e) => Err(e),
                    Ok(pixels) => Ok(before + pixels),
                },
            }
        }
    }
}

impl SurfaceRgba8 {
    /// The base dimensions.
    pub open spec fn dimensions(self) -> (u32, u32, u32) {
        (self.width, self.height, self.depth)
    }

    /// The number of bytes that the layout gives all layers and levels.
    pub open spec fn expected_len(self) -> int {
        self.layers * levels_size(self.dimensions(), pixel_blocks(), 4, self.mipmaps as nat)
    }

    /// Whether the data has exactly the length that the layout gives it.
    pub open spec fn well_formed(self) -> bool {
        self.data@.len() == self.expected_len()
    }

    /// Where a level starts in the data.
    pub open spec fn level_offset(self, layer: nat, mipmap: nat) -> int {
        offset_spec(layer, mipmap, self.dimensions(), pixel_blocks(), 4, self.mipmaps as nat)
    }

    /// Where a level ends in the data.
    pub open spec fn level_end(self, layer: nat, mipmap: nat) -> int {
        self.level_offset(layer, mipmap) + level_size(self.dimensions(), pixel_blocks(), 4, mipmap)
    }

    /// Whether a level is one of the levels of a layer, and a layer and the
    /// level's end take no more bytes than `usize` holds.
    pub open spec fn is_addressable(self, layer: nat, mipmap: nat) -> bool {
        mipmap < self.mipmaps && layer_fits(
            self.dimensions(),
            pixel_blocks(),
            4,
            self.mipmaps as nat,
        ) && self.level_end(layer, mipmap) <= usize::MAX
    }

    /// Whether the surface has the level and the data reaches to its end.
    pub open spec fn has_level(self, layer: nat, mipmap: nat) -> bool {
        layer < self.layers && self.is_addressable(layer, mipmap) && self.level_end(layer, mipmap)
            <= self.data@.len()
    }

    /// Where a level of the surface starts and ends, if it is one of the
    /// levels of a layer and a layer and both places fit in `usize`. The data
    /// is not looked at.
    pub fn level_range(&self, layer: u32, mipmap: u32) -> (r: Option<(usize, usize)>)
        ensures
            self.is_addressable(layer as nat, mipmap as nat) ==> r == Some(
                (
                    self.level_offset(layer as nat, mipmap as nat) as usize,
                    self.level_end(layer as nat, mipmap as nat) as usize,
                ),
            ),
            !self.is_addressable(layer as nat, mipmap as nat) ==> r is None,
            r is Some ==> r.unwrap().0 <= r.unwrap().1,
    {
        let dimensions = (self.width, self.height, self.depth);
        proof {
            crate::layout::lemma_level_size_positive(
                dimensions,
                pixel_blocks(),
                4,
                mipmap as nat,
            );
            lemma_levels_size_monotonic(dimensions, pixel_blocks(), 4, 0, mipmap as nat);
            lemma_levels_size_monotonic(dimensions, pixel_blocks(), 4, 0, self.mipmaps as nat);
            if mipmap < self.mipmaps {
                lemma_level_within_layer(
                    dimensions,
                    pixel_blocks(),
                    4,
                    mipmap as nat,
                    self.mipmaps as nat,
                );
            }
            assert(self.layers * levels_size(dimensions, pixel_blocks(), 4, self.mipmaps as nat)
                >= 0 && layer * levels_size(dimensions, pixel_blocks(), 4, self.mipmaps as nat)
                >= 0) by (nonlinear_arith)
                requires
                    levels_size(dimensions, pixel_blocks(), 4, self.mipmaps as nat) >= 0,
            ;
        }
        let start: usize = match calculate_offset(
            layer,
            mipmap,
            dimensions,
            (1, 1, 1),
            4,
            self.mipmaps,
        ) {
            Ok(v) => v,
            Err(_) => {
                return None;
            },
        };
        let size: usize = match level_size_checked(dimensions, (1, 1, 1), 4, mipmap) {
            Some(v) => v,
            None => {
                return None;
            },
        };
        match start.checked_add(size) {
            Some(end) => Some((start, end)),
            None => None,
        }
    }

    /// The pixels of one mip level of one layer, where the surface has that
    /// level and the data reaches to its end.
    pub fn get_image_data(&self, layer: u32, mipmap: u32) -> (r: Option<&[u8]>)
        ensures
            self.has_level(layer as nat, mipmap as nat) ==> r is Some && r.unwrap()@
                == self.data@.subrange(
                self.level_offset(layer as nat, mipmap as nat),
                self.level_end(layer as nat, mipmap as nat),
            ),
            !self.has_level(layer as nat, mipmap as nat) ==> r is None,
    {
        let len: usize = self.data.len();
        proof {
            lemma_offset_bounds(
                layer as nat,
                mipmap as nat,
                self.dimensions(),
                pixel_blocks(),
                4,
                self.mipmaps as nat,
            );
            crate::layout::lemma_level_size_positive(
                self.dimensions(),
                pixel_blocks(),
                4,
                mipmap as nat,
            );
        }
        if layer >= self.layers {
            return None;
        }
        match self.level_range(layer, mipmap) {
            Some((start, end)) => {
                if end <= len {
                    Some(slice_subrange(self.data.as_slice(), start, end))
                } else {
                    None
                }
            },
            None => None,
        }
    }
}

/// Decode all layers and mipmaps from `surface` to RGBA8.
///
/// The pixels of the levels follow one another layer by layer, as the levels
/// do in `surface`. The first level that cannot be decoded gives the error,
/// and nothing is returned of the levels before it.
pub fn decode_surface_rgba8(surface: Surface) -> (r: Result<SurfaceRgba8, DecompressSurfaceError>)
    ensures
        match surface.decoded_levels(surface.layers as nat * surface.mipmaps as nat) {
            Err(e) => r == Err::<SurfaceRgba8, DecompressSurfaceError>(e),
            Ok(pixels) => r is Ok && r.unwrap().data@ == pixels && r.unwrap().width
                == surface.width && r.unwrap().height == surface.height && r.unwrap().depth
                == surface.depth && r.unwrap().layers == surface.layers && r.unwrap().mipmaps
                == surface.mipmaps,
        },
        r is Ok ==> r.unwrap().well_formed(),
{
    let block_dimensions = surface.image_format.block_dimensions();
    let block_size_in_bytes = surface.image_format.block_size_in_bytes();
    let dimensions = (surface.width, surface.height, surface.depth);
    let mipmaps: u32 = surface.mipmaps;
    let mut combined_surface_data: Vec<u8> = Vec::new();
    let ghost layer_len = levels_size(dimensions, pixel_blocks(), 4, mipmaps as nat);
    if mipmaps == 0 {
        assert(surface.decoded_levels(surface.layers as nat * surface.mipmaps as nat) == Ok::<
            Seq<u8>,
            DecompressSurfaceError,
        >(Seq::empty()));
        assert(surface.layers * layer_len == 0) by (nonlinear_arith)
            requires
                layer_len == 0,
        ;
        return Ok(
            SurfaceRgba8 {
                width: surface.width,
                height: surface.height,
                depth: surface.depth,
                layers: surface.layers,
                mipmaps: surface.mipmaps,
                data: combined_surface_data,
            },
        );
    }
    proof {
        assert(0 * layer_len == 0);
    }
    let mut layer: u32 = 0;
    while layer < surface.layers
        invariant
            layer <= surface.layers,
            mipmaps == surface.mipmaps,
            mipmaps > 0,
            dimensions == surface.dimensions(),
            block_dimensions == surface.image_format.block_dimensions_spec(),
            block_size_in_bytes == surface.image_format.block_size_in_bytes_spec(),
            surface.decoded_levels(layer as nat * mipmaps as nat) == Ok::<
                Seq<u8>,
                DecompressSurfaceError,
            >(combined_surface_data@),
            layer_len == levels_size(dimensions, pixel_blocks(), 4, mipmaps as nat),
            combined_surface_data@.len() == layer * layer_len,
        decreases surface.layers - layer,
    {
        let mut mipmap: u32 = 0;
        while mipmap < mipmaps
            invariant
                layer < surface.layers,
                mipmap <= mipmaps,
                mipmaps == surface.mipmaps,
                mipmaps > 0,
                dimensions == surface.dimensions(),
                block_dimensions == surface.image_format.block_dimensions_spec(),
                block_size_in_bytes == surface.image_format.block_size_in_bytes_spec(),
                surface.decoded_levels((layer as nat * mipmaps as nat + mipmap as nat) as nat)
                    == Ok::<Seq<u8>, DecompressSurfaceError>(combined_surface_data@),
                layer_len == levels_size(dimensions, pixel_blocks(), 4, mipmaps as nat),
                combined_surface_data@.len() == layer * layer_len + levels_size(
                    dimensions,
                    pixel_blocks(),
                    4,
                    mipmap as nat,
                ),
            ensures
                mipmap == mipmaps,
                surface.decoded_levels((layer as nat * mipmaps as nat + mipmap as nat) as nat)
                    == Ok::<Seq<u8>, DecompressSurfaceError>(combined_surface_data@),
                combined_surface_data@.len() == layer * layer_len + layer_len,
            decreases mipmaps - mipmap,
        {
            let ghost index = layer as int * mipmaps as int + mipmap as int;
            proof {
                lemma_fundamental_div_mod_converse(
                    index,
                    mipmaps as int,
                    layer as int,
                    mipmap as int,
                );
                assert(layer as nat * mipmaps as nat >= 0) by (nonlinear_arith);
                assert(surface.decoded_levels((index + 1) as nat) == match surface.decoded_levels(
                    index as nat,
                ) {
                    Err(e) => Err(e),
                    Ok(before) => match surface.decoded_level(layer as nat, mipmap as nat) {
                        Err(e) => Err(e),
                        Ok(pixels) => Ok(before + pixels),
                    },
                });
            }
            proof {
                lemma_offset_bounds(
                    layer as nat,
                    mipmap as nat,
                    dimensions,
                    block_dimensions,
                    block_size_in_bytes,
                    mipmaps as nat,
                );
            }
            let ghost ahead = (surface.layers as nat * mipmaps as nat - (index + 1)) as nat;
            proof {
                assert(surface.layers as nat * mipmaps as nat >= index + 1) by (nonlinear_arith)
                    requires
                        index == layer as int * mipmaps as int + mipmap as int,
                        layer < surface.layers,
                        mipmap < mipmaps,
                ;
                lemma_error_stays(surface, (index + 1) as nat, ahead);
            }
            let offset: usize = match calculate_offset(
                layer,
                mipmap,
                dimensions,
                block_dimensions,
                block_size_in_bytes,
                mipmaps,
            ) {
                Ok(v) => v,
                Err(_) => {
                    return Err(
                        DecompressSurfaceError::InvalidDimensions {
                            width: surface.width,
                            height: surface.height,
                        },
                    );
                },
            };
            let len: usize = surface.data.len();
            let start: usize = if offset <= len {
                offset
            } else {
                len
            };
            let data = slice_subrange(surface.data.as_slice(), start, len);
            assert(data@ =~= surface.data_from(layer as nat, mipmap as nat));
            let width = mip_dimension(surface.width, mipmap);
            let height = mip_dimension(surface.height, mipmap);
            let depth = mip_dimension(surface.depth, mipmap);
            let mut pixels = match decode_data_rgba8(
                width,
                height,
                depth,
                surface.image_format,
                data,
            ) {
                Ok(v) => v,
                Err(e) => {
                    return Err(e);
                },
            };
            proof {
                crate::layout::lemma_mip_dimension_halves(surface.width as nat, mipmap as nat);
                crate::layout::lemma_mip_dimension_halves(surface.height as nat, mipmap as nat);
                crate::layout::lemma_mip_dimension_halves(surface.depth as nat, mipmap as nat);
                assert(levels_size(dimensions, pixel_blocks(), 4, (mipmap + 1) as nat)
                    == levels_size(dimensions, pixel_blocks(), 4, mipmap as nat) + level_size(
                    dimensions,
                    pixel_blocks(),
                    4,
                    mipmap as nat,
                ));
                assert(level_size(dimensions, pixel_blocks(), 4, mipmap as nat) == width * height
                    * depth * 4);
            }
            combined_surface_data.append(&mut pixels);
            mipmap = mipmap + 1;
        }
        proof {
            assert((layer as nat + 1) * mipmaps as nat == layer as nat * mipmaps as nat
                + mipmaps as nat) by (nonlinear_arith);
            assert((layer + 1) * layer_len == layer * layer_len + layer_len) by (nonlinear_arith);
        }
        layer = layer + 1;
    }
    Ok(
        SurfaceRgba8 {
            width: surface.width,
            height: surface.height,
            depth: surface.depth,
            layers: surface.layers,
            mipmaps: surface.mipmaps,
            data: combined_surface_data,
        },
    )
}

/// Once a level cannot be decoded, no number of further levels can.
pub proof fn lemma_error_stays(surface: Surface, count: nat, more: nat)
    ensures
        surface.decoded_levels(count) is Err ==> surface.decoded_levels(count + more)
            == surface.decoded_levels(count),
    decreases more,
{
    if more > 0 {
        lemma_error_stays(surface, count, (more - 1) as nat);
    }
}

} // verus!

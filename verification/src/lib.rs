//! Layout, mipmap generation and per-level codec dispatch for packed GPU
//! texture surfaces.
//!
//! A surface stores every array layer and mip level in one byte buffer, layer
//! after layer and level after level with nothing between them. The modules
//! compute where each level lies, build mip chains by box filtering, and hand
//! each level to the codec of its format.

pub mod block;
pub mod container;
pub mod convert;
pub mod decode;
pub mod downsample;
pub mod encode;
pub mod error;
pub mod format;
pub mod identifiers;
pub mod layout;
pub mod mipmaps;
pub mod surface;

pub use container::{dds_params, image_from_surface, DdsParams, ImageRgba8};
pub use decode::decode_data_rgba8;
pub use downsample::downsample_rgba8;
pub use encode::encode_rgba8;
pub use error::{CompressSurfaceError, CreateImageError, DecompressSurfaceError};
pub use format::{ImageFormat, Mipmaps, Quality};
pub use identifiers::{
    dds_image_format, dxgi_from_image_format, image_format_from_dxgi, image_format_from_fourcc,
};
pub use layout::{
    calculate_offset, div_round_up, max_mipmap_count, mip_dimension, mip_size, OffsetError,
};
pub use mipmaps::encode_surface_rgba8;
pub use surface::{decode_surface_rgba8, Surface, SurfaceRgba8};

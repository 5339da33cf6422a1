//! Decoding of one mip level to RGBA8.

use vstd::prelude::*;
use vstd::slice::slice_subrange;
use crate::block::{block_rgba, block_rgba_len, decode_block};
use crate::error::DecompressSurfaceError;
use crate::format::ImageFormat;
use crate::layout::{div_round_up, div_round_up_spec, lemma_mip_size_checked, mip_size, mip_size_spec};

verus! {

/// The number of bytes that a level of the given size takes in the format.
pub open spec fn encoded_size(format: ImageFormat, width: int, height: int, depth: int) -> int {
    mip_size_spec(
        width,
        height,
        depth,
        format.block_dimensions_spec().0 as int,
        format.block_dimensions_spec().1 as int,
        format.block_dimensions_spec().2 as int,
        format.block_size_in_bytes_spec() as int,
    )
}

/// The block with the given index among blocks of `size` bytes each.
pub open spec fn block_at(data: Seq<u8>, index: int, size: int) -> Seq<u8> {
    data.subrange(index * size, index * size + size)
}

/// Byte `i` of the RGBA8 pixels of a level of `width` x `height` pixels per
/// slice: the pixel's channel in the decoded block that covers the pixel.
/// Blocks are stored slice by slice and row by row.
pub open spec fn decoded_byte(
    format: ImageFormat,
    width: int,
    height: int,
    data: Seq<u8>,
    i: int,
) -> u8 {
    let block_width = format.block_dimensions_spec().0 as int;
    let block_height = format.block_dimensions_spec().1 as int;
    let p = i / 4;
    let x = p % width;
    let y = (p / width) % height;
    let z = p / (width * height);
    let columns = div_round_up_spec(width, block_width);
    let rows = div_round_up_spec(height, block_height);
    let index = (z * rows + y / block_height) * columns + x / block_width;
    block_rgba(format, block_at(data, index, format.block_size_in_bytes_spec() as int))[((y
        % block_height) * block_width + x % block_width) * 4 + i % 4]
}

/// The RGBA8 pixels of a level of the given size that `data` holds in the
/// format.
pub open spec fn decode_spec(
    format: ImageFormat,
    width: int,
    height: int,
    depth: int,
    data: Seq<u8>,
) -> Seq<u8> {
    Seq::new(
        (width * height * depth * 4) as nat,
        |i: int| decoded_byte(format, width, height, data, i),
    )
}

/// Why a level of the given size cannot be decoded from `len` bytes, if it
/// cannot: a dimension is zero, the level or its pixels take more bytes than
/// `usize` holds, or fewer bytes are there than the level takes.
pub open spec fn decode_error(
    format: ImageFormat,
    width: u32,
    height: u32,
    depth: u32,
    len: int,
) -> Option<DecompressSurfaceError> {
    if width == 0 || height == 0 || depth == 0 || encoded_size(
        format,
        width as int,
        height as int,
        depth as int,
    ) > usize::MAX || width * height * depth * 4 > usize::MAX {
        Some(DecompressSurfaceError::InvalidDimensions { width, height })
    } else if len < encoded_size(format, width as int, height as int, depth as int) {
        Some(
            DecompressSurfaceError::NotEnoughData {
                expected: encoded_size(format, width as int, height as int, depth as int) as usize,
                actual: len as usize,
            },
        )
    } else {
        None
    }
}

proof fn lemma_block_in_level(
    x: int,
    y: int,
    z: int,
    width: int,
    height: int,
    depth: int,
    block: int,
    size: int,
)
    requires
        0 <= x < width,
        0 <= y < height,
        0 <= z < depth,
        block == 1 || block == 4,
        size >= 1,
    ensures
        ({
            let columns = div_round_up_spec(width, block);
            let rows = div_round_up_spec(height, block);
            let index = (z * rows + y / block) * columns + x / block;
            &&& 0 <= x / block < columns
            &&& 0 <= y / block < rows
            &&& 0 <= z * rows
            &&& 0 <= z * rows + y / block
            &&& 0 <= index
            &&& z * rows + y / block <= index
            &&& index <= index * size
            &&& index * size + size <= columns * rows * depth * size
        }),
{
    let columns = div_round_up_spec(width, block);
    let rows = div_round_up_spec(height, block);
    let bx = x / block;
    let by = y / block;
    if block == 1 {
        assert(x / 1 < (width + 1 - 1) / 1 && y / 1 < (height + 1 - 1) / 1);
    } else {
        assert(x / 4 < (width + 4 - 1) / 4 && y / 4 < (height + 4 - 1) / 4);
    }
    assert(0 <= bx < columns && 0 <= by < rows);
    let r = z * rows + by;
    assert(0 <= z * rows && z * rows <= (depth - 1) * rows && (depth - 1) * rows == depth * rows
        - rows) by (nonlinear_arith)
        requires
            0 <= z <= depth - 1,
            rows >= 1,
    ;
    let n = depth * rows;
    assert(r <= r * columns && r * columns <= (n - 1) * columns && (n - 1) * columns == n
        * columns - columns) by (nonlinear_arith)
        requires
            0 <= r <= n - 1,
            columns >= 1,
    ;
    let index = r * columns + bx;
    let total = columns * rows * depth;
    assert(n * columns == total) by (nonlinear_arith)
        requires
            n == depth * rows,
            total == columns * rows * depth,
    ;
    assert(index <= index * size && index * size + size <= total * size) by (nonlinear_arith)
        requires
            0 <= index <= total - 1,
            size >= 1,
    ;
}

/// Decodes a mip level of `width` x `height` x `depth` pixels from the bytes
/// at the start of `data` to RGBA8.
///
/// Fails where a dimension is zero or the sizes overflow, and where `data`
/// is shorter than the level. Bytes after the level are ignored.
pub fn decode_data_rgba8(
    width: u32,
    height: u32,
    depth: u32,
    image_format: ImageFormat,
    data: &[u8],
) -> (r: Result<Vec<u8>, DecompressSurfaceError>)
    ensures
        match decode_error(image_format, width, height, depth, data@.len() as int) {
            Some(e) => r == Err::<Vec<u8>, DecompressSurfaceError>(e),
            None => r is Ok && r.unwrap()@ == decode_spec(
                image_format,
                width as int,
                height as int,
                depth as int,
                data@,
            ),
        },
{
    let invalid = DecompressSurfaceError::InvalidDimensions { width, height };
    if width == 0 || height == 0 || depth == 0 {
        return Err(invalid);
    }
    let (block_width, block_height, block_depth) = image_format.block_dimensions();
    let block_size: usize = image_format.block_size_in_bytes();
    let w: usize = width as usize;
    let h: usize = height as usize;
    let d: usize = depth as usize;
    let bw: usize = block_width as usize;
    let bh: usize = block_height as usize;
    proof {
        lemma_mip_size_checked(
            w as int,
            h as int,
            d as int,
            bw as int,
            bh as int,
            1,
            block_size as int,
        );
        assert(w * h >= 1 && w * h * d >= w * h && w * h * d * 4 >= w * h * d) by (nonlinear_arith)
            requires
                w >= 1,
                h >= 1,
                d >= 1,
        ;
    }
    let expected: usize = match mip_size(w, h, d, bw, bh, block_depth as usize, block_size) {
        Some(v) => v,
        None => {
            return Err(invalid);
        },
    };
    let plane: usize = match w.checked_mul(h) {
        Some(v) => v,
        None => {
            return Err(invalid);
        },
    };
    let pixels: usize = match plane.checked_mul(d) {
        Some(v) => v,
        None => {
            return Err(invalid);
        },
    };
    if pixels > usize::MAX / 4 {
        return Err(invalid);
    }
    if data.len() < expected {
        return Err(DecompressSurfaceError::NotEnoughData { expected, actual: data.len() });
    }
    let columns: usize = div_round_up(w, bw);
    let rows: usize = div_round_up(h, bh);
    let mut out: Vec<u8> = Vec::new();
    let mut cached: Vec<u8> = Vec::new();
    let mut cached_index: usize = 0;
    let mut filled: bool = false;
    let mut p: usize = 0;
    while p < pixels
        invariant
            p <= pixels,
            pixels * 4 <= usize::MAX,
            w >= 1 && h >= 1 && d >= 1,
            plane == w * h,
            plane >= 1,
            pixels == plane * d,
            bw == image_format.block_dimensions_spec().0,
            bh == image_format.block_dimensions_spec().1,
            bw == 1 || bw == 4,
            bh == bw,
            block_size == image_format.block_size_in_bytes_spec(),
            block_size >= 1,
            columns == div_round_up_spec(w as int, bw as int),
            rows == div_round_up_spec(h as int, bh as int),
            expected == columns * rows * d * block_size,
            expected <= data@.len(),
            filled ==> cached@ == block_rgba(
                image_format,
                block_at(data@, cached_index as int, block_size as int),
            ),
            cached@.len() == if filled { block_rgba_len(image_format) } else { 0 },
            out@.len() == 4 * p,
            forall|i: int|
                0 <= i < out@.len() ==> out@[i] == decoded_byte(
                    image_format,
                    w as int,
                    h as int,
                    data@,
                    i,
                ),
        decreases pixels - p,
    {
        let x: usize = p % w;
        let y: usize = (p / w) % h;
        let z: usize = p / plane;
        proof {
            assert(z < d) by (nonlinear_arith)
                requires
                    z == p as int / plane as int,
                    p < plane * d,
                    plane >= 1,
            ;
            lemma_block_in_level(
                x as int,
                y as int,
                z as int,
                w as int,
                h as int,
                d as int,
                bw as int,
                block_size as int,
            );
        }
        let index: usize = (z * rows + y / bh) * columns + x / bw;
        if !filled || cached_index != index {
            let start: usize = index * block_size;
            cached = decode_block(image_format, slice_subrange(data, start, start + block_size));
            cached_index = index;
            filled = true;
        }
        let at: usize = ((y % bh) * bw + x % bw) * 4;
        out.push(cached[at]);
        out.push(cached[at + 1]);
        out.push(cached[at + 2]);
        out.push(cached[at + 3]);
        p = p + 1;
    }
    proof {
        assert(out@ =~= decode_spec(image_format, w as int, h as int, d as int, data@));
    }
    Ok(out)
}

} // verus!

//! Box filtering of RGBA8 pixels to the next mip level, and padding of a
//! level with zero pixels.
//!
//! Pixels are stored as `pixels[z][y][x]` with four bytes each.

use vstd::prelude::*;

verus! {

/// The size of a dimension after downsampling: half of it, but at least
/// `min`.
pub open spec fn downsampled_dimension(dim: int, min: int) -> int {
    if dim / 2 >= min {
        dim / 2
    } else {
        min
    }
}

/// The position of pixel `(x, y, z)` in an image of the given width and
/// height.
pub open spec fn pixel_index(x: int, y: int, z: int, width: int, height: int) -> int {
    (z * width * height) + (y * width) + x
}

/// Whether `data` holds every pixel of a `width` x `height` x `depth` image
/// that has at least one pixel.
pub open spec fn has_all_pixels(data: Seq<u8>, width: int, height: int, depth: int) -> bool {
    width > 0 && height > 0 && depth > 0 && data.len() >= width * height * depth * 4
}

/// Whether `(x, y, z)` is a pixel of the image.
pub open spec fn in_extent(x: int, y: int, z: int, width: int, height: int, depth: int) -> bool {
    0 <= x < width && 0 <= y < height && 0 <= z < depth
}

/// Channel `c` of pixel `(x, y, z)`, or 0 for a position outside the image.
pub open spec fn sample_value(
    data: Seq<u8>,
    width: int,
    height: int,
    depth: int,
    x: int,
    y: int,
    z: int,
    c: int,
) -> int {
    if in_extent(x, y, z, width, height, depth) {
        data[pixel_index(x, y, z, width, height) * 4 + c] as int
    } else {
        0
    }
}

/// 1 for a position inside the image and 0 for one outside.
pub open spec fn sample_weight(x: int, y: int, z: int, width: int, height: int, depth: int) -> int {
    if in_extent(x, y, z, width, height, depth) {
        1
    } else {
        0
    }
}

/// The sum of channel `c` over the pixels of the image among the 2x2x2
/// pixels that start at `(2x, 2y, 2z)`.
pub open spec fn box_sum(
    data: Seq<u8>,
    width: int,
    height: int,
    depth: int,
    x: int,
    y: int,
    z: int,
    c: int,
) -> int {
    sample_value(data, width, height, depth, 2 * x, 2 * y, 2 * z, c) + sample_value(
        data,
        width,
        height,
        depth,
        2 * x + 1,
        2 * y,
        2 * z,
        c,
    ) + sample_value(data, width, height, depth, 2 * x, 2 * y + 1, 2 * z, c) + sample_value(
        data,
        width,
        height,
        depth,
        2 * x + 1,
        2 * y + 1,
        2 * z,
        c,
    ) + sample_value(data, width, height, depth, 2 * x, 2 * y, 2 * z + 1, c) + sample_value(
        data,
        width,
        height,
        depth,
        2 * x + 1,
        2 * y,
        2 * z + 1,
        c,
    ) + sample_value(data, width, height, depth, 2 * x, 2 * y + 1, 2 * z + 1, c) + sample_value(
        data,
        width,
        height,
        depth,
        2 * x + 1,
        2 * y + 1,
        2 * z + 1,
        c,
    )
}

/// How many of the 2x2x2 pixels that start at `(2x, 2y, 2z)` lie inside the
/// image.
pub open spec fn box_count(width: int, height: int, depth: int, x: int, y: int, z: int) -> int {
    sample_weight(2 * x, 2 * y, 2 * z, width, height, depth) + sample_weight(
        2 * x + 1,
        2 * y,
        2 * z,
        width,
        height,
        depth,
    ) + sample_weight(2 * x, 2 * y + 1, 2 * z, width, height, depth) + sample_weight(
        2 * x + 1,
        2 * y + 1,
        2 * z,
        width,
        height,
        depth,
    ) + sample_weight(2 * x, 2 * y, 2 * z + 1, width, height, depth) + sample_weight(
        2 * x + 1,
        2 * y,
        2 * z + 1,
        width,
        height,
        depth,
    ) + sample_weight(2 * x, 2 * y + 1, 2 * z + 1, width, height, depth) + sample_weight(
        2 * x + 1,
        2 * y + 1,
        2 * z + 1,
        width,
        height,
        depth,
    )
}

/// The mean of channel `c` over the pixels of the image among the 2x2x2
/// pixels that start at `(2x, 2y, 2z)`, rounded down; 0 where none of them
/// lies inside the image.
pub open spec fn box_average(
    data: Seq<u8>,
    width: int,
    height: int,
    depth: int,
    x: int,
    y: int,
    z: int,
    c: int,
) -> int {
    let count = box_count(width, height, depth, x, y, z);
    if count == 0 {
        0
    } else {
        box_sum(data, width, height, depth, x, y, z, c) / count
    }
}

/// Byte `i` of the downsampled image, whose width and height are
/// `new_width` and `new_height`.
pub open spec fn downsampled_byte(
    data: Seq<u8>,
    width: int,
    height: int,
    depth: int,
    new_width: int,
    new_height: int,
    i: int,
) -> u8 {
    let p = i / 4;
    let x = p % new_width;
    let y = (p / new_width) % new_height;
    let z = p / (new_width * new_height);
    if has_all_pixels(data, width, height, depth) {
        box_average(data, width, height, depth, x, y, z, i % 4) as u8
    } else {
        0
    }
}

/// The image of `width` x `height` x `depth` pixels in `data`, box filtered
/// to half its size in each dimension, with every dimension at least the
/// given minimum. Where `data` does not hold the whole image the result is
/// all zero.
pub open spec fn downsample_spec(
    width: int,
    height: int,
    depth: int,
    min_width: int,
    min_height: int,
    min_depth: int,
    data: Seq<u8>,
) -> Seq<u8> {
    let new_width = downsampled_dimension(width, min_width);
    let new_height = downsampled_dimension(height, min_height);
    let new_depth = downsampled_dimension(depth, min_depth);
    Seq::new(
        (new_width * new_height * new_depth * 4) as nat,
        |i: int| downsampled_byte(data, width, height, depth, new_width, new_height, i),
    )
}

/// Byte `i` of the padded image, whose width and height are `new_width` and
/// `new_height`.
pub open spec fn padded_byte(
    data: Seq<u8>,
    width: int,
    height: int,
    depth: int,
    new_width: int,
    new_height: int,
    i: int,
) -> u8 {
    let p = i / 4;
    let x = p % new_width;
    let y = (p / new_width) % new_height;
    let z = p / (new_width * new_height);
    if has_all_pixels(data, width, height, depth) && in_extent(x, y, z, width, height, depth) {
        data[pixel_index(x, y, z, width, height) * 4 + i % 4]
    } else {
        0
    }
}

/// The image of `width` x `height` x `depth` pixels in `data`, laid into the
/// corner at `(0, 0, 0)` of an image of the new size whose other pixels are
/// zero. What does not fit into the new size is cut off. Where `data` does
/// not hold the whole image the result is all zero.
pub open spec fn pad_spec(
    width: int,
    height: int,
    depth: int,
    new_width: int,
    new_height: int,
    new_depth: int,
    data: Seq<u8>,
) -> Seq<u8> {
    Seq::new(
        (new_width * new_height * new_depth * 4) as nat,
        |i: int| padded_byte(data, width, height, depth, new_width, new_height, i),
    )
}

proof fn lemma_index_in_image(x: int, y: int, z: int, width: int, height: int, depth: int)
    requires
        in_extent(x, y, z, width, height, depth),
    ensures
        pixel_index(x, y, z, width, height) == (z * height + y) * width + x,
        0 <= z * height + y < depth * height,
        0 <= (z * height + y) * width + x < width * height * depth,
        width <= width * height * depth,
        height <= width * height * depth,
        depth <= width * height * depth,
        depth * height <= width * height * depth,
{
    let r = z * height + y;
    let dh = depth * height;
    assert(z * height <= (depth - 1) * height && z * height >= 0 && (depth - 1) * height == dh
        - height) by (nonlinear_arith)
        requires
            0 <= z <= depth - 1,
            height > 0,
            dh == depth * height,
    ;
    assert(r * width <= (dh - 1) * width && r * width >= 0 && (dh - 1) * width == dh * width
        - width) by (nonlinear_arith)
        requires
            0 <= r <= dh - 1,
            width > 0,
    ;
    assert(dh * width == width * height * depth && z * width * height + y * width == r * width)
        by (nonlinear_arith)
        requires
            dh == depth * height,
            r == z * height + y,
    ;
    assert(width <= width * height * depth && height <= width * height * depth && depth <= width
        * height * depth && depth * height <= width * height * depth) by (nonlinear_arith)
        requires
            width >= 1,
            height >= 1,
            depth >= 1,
    ;
}

/// Whether `data` holds every pixel of an image of the given size that has
/// at least one pixel.
fn holds_all_pixels(data: &[u8], width: usize, height: usize, depth: usize) -> (r: bool)
    ensures
        r == has_all_pixels(data@, width as int, height as int, depth as int),
{
    let len: usize = data.len();
    if width == 0 || height == 0 || depth == 0 {
        return false;
    }
    proof {
        assert(width * height >= 1 && width * height * depth >= width * height && width * height
            * depth * 4 >= width * height * depth) by (nonlinear_arith)
            requires
                width >= 1,
                height >= 1,
                depth >= 1,
        ;
    }
    match width.checked_mul(height) {
        None => false,
        Some(plane) => match plane.checked_mul(depth) {
            None => false,
            Some(pixels) => match pixels.checked_mul(4) {
                None => false,
                Some(bytes) => len >= bytes,
            },
        },
    }
}

/// Channel `c` of pixel `(2x + dx, 2y + dy, 2z + dz)` and 1, or twice 0
/// where that position lies outside the image.
fn sample(
    data: &[u8],
    width: usize,
    height: usize,
    depth: usize,
    x: usize,
    y: usize,
    z: usize,
    dx: usize,
    dy: usize,
    dz: usize,
    c: usize,
) -> (r: (u16, u16))
    requires
        has_all_pixels(data@, width as int, height as int, depth as int),
        dx <= 1 && dy <= 1 && dz <= 1,
        c < 4,
    ensures
        r.0 == sample_value(
            data@,
            width as int,
            height as int,
            depth as int,
            2 * x + dx,
            2 * y + dy,
            2 * z + dz,
            c as int,
        ),
        r.1 == sample_weight(
            2 * x + dx,
            2 * y + dy,
            2 * z + dz,
            width as int,
            height as int,
            depth as int,
        ),
        r.0 <= 255 * r.1,
        r.1 <= 1,
{
    let len: usize = data.len();
    if x >= width || y >= height || z >= depth {
        return (0, 0);
    }
    proof {
        lemma_index_in_image(
            x as int,
            y as int,
            z as int,
            width as int,
            height as int,
            depth as int,
        );
    }
    let sx: usize = 2 * x + dx;
    let sy: usize = 2 * y + dy;
    let sz: usize = 2 * z + dz;
    if sx >= width || sy >= height || sz >= depth {
        return (0, 0);
    }
    proof {
        lemma_index_in_image(
            sx as int,
            sy as int,
            sz as int,
            width as int,
            height as int,
            depth as int,
        );
    }
    let index: usize = (sz * height + sy) * width + sx;
    (data[index * 4 + c] as u16, 1)
}

/// The mean of channel `c` over the pixels of the image among the 2x2x2
/// pixels that start at `(2x, 2y, 2z)`.
fn average(
    data: &[u8],
    width: usize,
    height: usize,
    depth: usize,
    x: usize,
    y: usize,
    z: usize,
    c: usize,
) -> (r: u8)
    requires
        has_all_pixels(data@, width as int, height as int, depth as int),
        c < 4,
    ensures
        r == box_average(
            data@,
            width as int,
            height as int,
            depth as int,
            x as int,
            y as int,
            z as int,
            c as int,
        ),
{
    let s0 = sample(data, width, height, depth, x, y, z, 0, 0, 0, c);
    let s1 = sample(data, width, height, depth, x, y, z, 1, 0, 0, c);
    let s2 = sample(data, width, height, depth, x, y, z, 0, 1, 0, c);
    let s3 = sample(data, width, height, depth, x, y, z, 1, 1, 0, c);
    let s4 = sample(data, width, height, depth, x, y, z, 0, 0, 1, c);
    let s5 = sample(data, width, height, depth, x, y, z, 1, 0, 1, c);
    let s6 = sample(data, width, height, depth, x, y, z, 0, 1, 1, c);
    let s7 = sample(data, width, height, depth, x, y, z, 1, 1, 1, c);
    let sum: u16 = s0.0 + s1.0 + s2.0 + s3.0 + s4.0 + s5.0 + s6.0 + s7.0;
    let count: u16 = s0.1 + s1.1 + s2.1 + s3.1 + s4.1 + s5.1 + s6.1 + s7.1;
    if count == 0 {
        0
    } else {
        let mean: u16 = sum / count;
        assert(mean <= 255) by (nonlinear_arith)
            requires
                mean == sum as int / count as int,
                sum <= 255 * count,
                count > 0,
        ;
        mean as u8
    }
}

/// Halves an RGBA8 image of `width` x `height` x `depth` pixels in each
/// dimension, down to the given minimum dimensions at most.
///
/// Each new pixel is the mean, rounded down, of those of the 2x2x2 pixels
/// at twice its position that the image has. A pixel of the new image with
/// no such pixel is zero, and so is the whole result where `data` does not
/// hold the whole image.
pub fn downsample_rgba8(
    width: usize,
    height: usize,
    depth: usize,
    min_width: usize,
    min_height: usize,
    min_depth: usize,
    data: &[u8],
) -> (r: Vec<u8>)
    requires
        downsampled_dimension(width as int, min_width as int) * downsampled_dimension(
            height as int,
            min_height as int,
        ) * downsampled_dimension(depth as int, min_depth as int) * 4 <= usize::MAX,
    ensures
        r@ == downsample_spec(
            width as int,
            height as int,
            depth as int,
            min_width as int,
            min_height as int,
            min_depth as int,
            data@,
        ),
        r@.len() == downsampled_dimension(width as int, min_width as int) * downsampled_dimension(
            height as int,
            min_height as int,
        ) * downsampled_dimension(depth as int, min_depth as int) * 4,
{
    let new_width: usize = if width / 2 >= min_width {
        width / 2
    } else {
        min_width
    };
    let new_height: usize = if height / 2 >= min_height {
        height / 2
    } else {
        min_height
    };
    let new_depth: usize = if depth / 2 >= min_depth {
        depth / 2
    } else {
        min_depth
    };
    let mut out: Vec<u8> = Vec::new();
    if new_width == 0 || new_height == 0 || new_depth == 0 {
        proof {
            assert(new_width * new_height * new_depth * 4 == 0) by (nonlinear_arith)
                requires
                    new_width == 0 || new_height == 0 || new_depth == 0,
            ;
            assert(out@ =~= downsample_spec(
                width as int,
                height as int,
                depth as int,
                min_width as int,
                min_height as int,
                min_depth as int,
                data@,
            ));
        }
        return out;
    }
    proof {
        assert(new_width * new_height <= new_width * new_height * new_depth && new_width
            * new_height * new_depth <= new_width * new_height * new_depth * 4 && new_width
            * new_height >= 1) by (nonlinear_arith)
            requires
                new_width >= 1,
                new_height >= 1,
                new_depth >= 1,
        ;
    }
    let plane: usize = new_width * new_height;
    let pixels: usize = plane * new_depth;
    let complete = holds_all_pixels(data, width, height, depth);
    let mut p: usize = 0;
    while p < pixels
        invariant
            p <= pixels,
            pixels * 4 <= usize::MAX,
            plane == new_width * new_height,
            new_width >= 1,
            plane >= 1,
            new_height >= 1,
            complete == has_all_pixels(data@, width as int, height as int, depth as int),
            out@.len() == 4 * p,
            forall|i: int|
                0 <= i < out@.len() ==> out@[i] == downsampled_byte(
                    data@,
                    width as int,
                    height as int,
                    depth as int,
                    new_width as int,
                    new_height as int,
                    i,
                ),
        decreases pixels - p,
    {
        let x: usize = p % new_width;
        let y: usize = (p / new_width) % new_height;
        let z: usize = p / plane;
        let mut c: usize = 0;
        while c < 4
            invariant
                c <= 4,
                p < pixels,
                pixels * 4 <= usize::MAX,
                x == p as int % new_width as int,
                y == (p as int / new_width as int) % new_height as int,
                z == p as int / (new_width * new_height),
                complete == has_all_pixels(data@, width as int, height as int, depth as int),
                out@.len() == 4 * p + c,
                forall|i: int|
                    0 <= i < out@.len() ==> out@[i] == downsampled_byte(
                        data@,
                        width as int,
                        height as int,
                        depth as int,
                        new_width as int,
                        new_height as int,
                        i,
                    ),
            decreases 4 - c,
        {
            let value: u8 = if complete {
                average(data, width, height, depth, x, y, z, c)
            } else {
                0
            };
            out.push(value);
            c = c + 1;
        }
        p = p + 1;
    }
    proof {
        assert(out@ =~= downsample_spec(
            width as int,
            height as int,
            depth as int,
            min_width as int,
            min_height as int,
            min_depth as int,
            data@,
        ));
    }
    out
}

/// Lays an RGBA8 image of `width` x `height` x `depth` pixels into the
/// corner at `(0, 0, 0)` of a zeroed image of the new size, row by row, and
/// cuts off what does not fit. The result is all zero where `data` does not
/// hold the whole image.
pub fn pad_rgba8(
    width: usize,
    height: usize,
    depth: usize,
    new_width: usize,
    new_height: usize,
    new_depth: usize,
    data: &[u8],
) -> (r: Vec<u8>)
    requires
        new_width * new_height * new_depth * 4 <= usize::MAX,
    ensures
        r@ == pad_spec(
            width as int,
            height as int,
            depth as int,
            new_width as int,
            new_height as int,
            new_depth as int,
            data@,
        ),
        r@.len() == new_width * new_height * new_depth * 4,
{
    let mut out: Vec<u8> = Vec::new();
    if new_width == 0 || new_height == 0 || new_depth == 0 {
        proof {
            assert(new_width * new_height * new_depth * 4 == 0) by (nonlinear_arith)
                requires
                    new_width == 0 || new_height == 0 || new_depth == 0,
            ;
            assert(out@ =~= pad_spec(
                width as int,
                height as int,
                depth as int,
                new_width as int,
                new_height as int,
                new_depth as int,
                data@,
            ));
        }
        return out;
    }
    proof {
        assert(new_width * new_height <= new_width * new_height * new_depth && new_width
            * new_height * new_depth <= new_width * new_height * new_depth * 4 && new_width
            * new_height >= 1) by (nonlinear_arith)
            requires
                new_width >= 1,
                new_height >= 1,
                new_depth >= 1,
        ;
    }
    let plane: usize = new_width * new_height;
    let pixels: usize = plane * new_depth;
    let complete = holds_all_pixels(data, width, height, depth);
    let mut p: usize = 0;
    while p < pixels
        invariant
            p <= pixels,
            pixels * 4 <= usize::MAX,
            plane == new_width * new_height,
            new_width >= 1,
            plane >= 1,
            new_height >= 1,
            complete == has_all_pixels(data@, width as int, height as int, depth as int),
            out@.len() == 4 * p,
            forall|i: int|
                0 <= i < out@.len() ==> out@[i] == padded_byte(
                    data@,
                    width as int,
                    height as int,
                    depth as int,
                    new_width as int,
                    new_height as int,
                    i,
                ),
        decreases pixels - p,
    {
        let x: usize = p % new_width;
        let y: usize = (p / new_width) % new_height;
        let z: usize = p / plane;
        let inside = complete && x < width && y < height && z < depth;
        let len: usize = data.len();
        let mut start: usize = 0;
        if inside {
            proof {
                lemma_index_in_image(
                    x as int,
                    y as int,
                    z as int,
                    width as int,
                    height as int,
                    depth as int,
                );
            }
            start = ((z * height + y) * width + x) * 4;
        }
        let mut c: usize = 0;
        while c < 4
            invariant
                c <= 4,
                p < pixels,
                pixels * 4 <= usize::MAX,
                x == p as int % new_width as int,
                y == (p as int / new_width as int) % new_height as int,
                z == p as int / (new_width * new_height),
                inside == (has_all_pixels(data@, width as int, height as int, depth as int)
                    && in_extent(
                    x as int,
                    y as int,
                    z as int,
                    width as int,
                    height as int,
                    depth as int,
                )),
                inside ==> start == pixel_index(
                    x as int,
                    y as int,
                    z as int,
                    width as int,
                    height as int,
                ) * 4 && start + 4 <= data@.len(),
                out@.len() == 4 * p + c,
                forall|i: int|
                    0 <= i < out@.len() ==> out@[i] == padded_byte(
                        data@,
                        width as int,
                        height as int,
                        depth as int,
                        new_width as int,
                        new_height as int,
                        i,
                    ),
            decreases 4 - c,
        {
            let value: u8 = if inside {
                data[start + c]
            } else {
                0
            };
            out.push(value);
            c = c + 1;
        }
        p = p + 1;
    }
    proof {
        assert(out@ =~= pad_spec(
            width as int,
            height as int,
            depth as int,
            new_width as int,
            new_height as int,
            new_depth as int,
            data@,
        ));
    }
    out
}

} // verus!

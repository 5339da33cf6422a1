//! Sizes and offsets of the mip levels of a packed surface.
//!
//! A packed surface holds `surface[layer][mipmap][z][y][x]`: every layer has
//! the same chain of mip levels, each level rounded up to whole blocks, and
//! nothing lies between two levels.

use vstd::prelude::*;
use vstd::arithmetic::div_mod::{
    lemma_basic_div, lemma_div_denominator, lemma_fundamental_div_mod,
    lemma_fundamental_div_mod_converse,
};
use vstd::arithmetic::power2::{
    lemma2_to64, lemma_pow2_pos, lemma_pow2_strictly_increases, lemma_pow2_unfold, pow2,
};
use vstd::bits::lemma_u32_shr_is_div;

verus! {

/// Why an offset into a packed surface could not be computed.
#[derive(Debug, PartialEq, Eq, Clone, Copy, Structural)]
pub enum OffsetError {
    /// The mip level is not below the number of mip levels of a layer.
    MipmapOutOfBounds,
    /// A level, a layer or the offset does not fit in `usize`.
    Overflow,
}

/// The size of a dimension at a mip level: the dimension halved once per
/// level, and never below 1.
pub open spec fn mip_dimension_spec(dim: nat, mipmap: nat) -> nat {
    let q = dim / pow2(mipmap);
    if q >= 1 {
        q
    } else {
        1
    }
}

/// The number of mip levels of a chain that ends when the dimension has
/// reached 1: no level for 0, else one more than for half the dimension.
pub open spec fn max_mipmap_count_spec(max_dimension: nat) -> nat
    decreases max_dimension,
{
    if max_dimension == 0 {
        0
    } else {
        1 + max_mipmap_count_spec(max_dimension / 2)
    }
}

/// `x / d`, rounded up.
pub open spec fn div_round_up_spec(x: int, d: int) -> int {
    (x + d - 1) / d
}

/// The number of bytes of a level of the given size in pixels, rounded up to
/// whole blocks.
pub open spec fn mip_size_spec(
    width: int,
    height: int,
    depth: int,
    block_width: int,
    block_height: int,
    block_depth: int,
    block_size_in_bytes: int,
) -> int {
    div_round_up_spec(width, block_width) * div_round_up_spec(height, block_height)
        * div_round_up_spec(depth, block_depth) * block_size_in_bytes
}

/// What the checked computation of a level's size gives: the size, unless one
/// of the three products leaves `usize`.
pub open spec fn mip_size_checked(
    width: int,
    height: int,
    depth: int,
    block_width: int,
    block_height: int,
    block_depth: int,
    block_size_in_bytes: int,
) -> Option<usize> {
    let a = div_round_up_spec(width, block_width);
    let b = div_round_up_spec(height, block_height);
    let c = div_round_up_spec(depth, block_depth);
    if a * b <= usize::MAX && a * b * c <= usize::MAX && a * b * c * block_size_in_bytes
        <= usize::MAX {
        Some((a * b * c * block_size_in_bytes) as usize)
    } else {
        None
    }
}

/// The number of bytes of mip level `mipmap` of a surface with the given
/// base dimensions.
pub open spec fn level_size(
    dimensions: (u32, u32, u32),
    block_dimensions: (u32, u32, u32),
    block_size_in_bytes: usize,
    mipmap: nat,
) -> int {
    mip_size_spec(
        mip_dimension_spec(dimensions.0 as nat, mipmap) as int,
        mip_dimension_spec(dimensions.1 as nat, mipmap) as int,
        mip_dimension_spec(dimensions.2 as nat, mipmap) as int,
        block_dimensions.0 as int,
        block_dimensions.1 as int,
        block_dimensions.2 as int,
        block_size_in_bytes as int,
    )
}

/// The number of bytes of the first `count` mip levels together.
pub open spec fn levels_size(
    dimensions: (u32, u32, u32),
    block_dimensions: (u32, u32, u32),
    block_size_in_bytes: usize,
    count: nat,
) -> int
    decreases count,
{
    if count == 0 {
        0
    } else {
        levels_size(dimensions, block_dimensions, block_size_in_bytes, (count - 1) as nat)
            + level_size(dimensions, block_dimensions, block_size_in_bytes, (count - 1) as nat)
    }
}

/// Where a level starts in a packed surface: after `layer` whole layers of
/// `mipmaps_per_layer` levels each, and after the first `mipmap` levels of
/// its own layer.
pub open spec fn offset_spec(
    layer: nat,
    mipmap: nat,
    dimensions: (u32, u32, u32),
    block_dimensions: (u32, u32, u32),
    block_size_in_bytes: usize,
    mipmaps_per_layer: nat,
) -> int {
    layer * levels_size(dimensions, block_dimensions, block_size_in_bytes, mipmaps_per_layer)
        + levels_size(dimensions, block_dimensions, block_size_in_bytes, mipmap)
}

/// From one mip level to the next a dimension halves, rounding down, and
/// stays at 1 once it is there.
pub proof fn lemma_mip_dimension_halves(dim: nat, mipmap: nat)
    ensures
        mip_dimension_spec(dim, mipmap) >= 1,
        mip_dimension_spec(dim, mipmap) <= dim || mip_dimension_spec(dim, mipmap) == 1,
        mip_dimension_spec(dim, mipmap + 1) == if mip_dimension_spec(dim, mipmap) / 2 >= 1 {
            mip_dimension_spec(dim, mipmap) / 2
        } else {
            1
        },
        mip_dimension_spec(dim, mipmap) > 1 ==> mip_dimension_spec(dim, mipmap + 1)
            < mip_dimension_spec(dim, mipmap),
        mip_dimension_spec(dim, 0) == if dim >= 1 { dim } else { 1 },
{
    let p = pow2(mipmap) as int;
    lemma_pow2_pos(mipmap);
    lemma_pow2_unfold(mipmap + 1);
    lemma2_to64();
    assert(pow2(mipmap + 1) == p * 2);
    lemma_div_denominator(dim as int, p, 2);
    assert((dim as int / p) / 2 == dim as int / (p * 2));
    assert(dim as int / p <= dim && dim as int / p >= 0) by (nonlinear_arith)
        requires
            p >= 1,
            dim >= 0,
    ;
}

/// A dimension halves `max_mipmap_count_spec(dim) - 1` times before it
/// reaches 1: up to that level it is at least 2, and from there on it is 1.
pub proof fn lemma_mip_chain_ends(dim: nat, mipmap: nat)
    requires
        dim > 0,
    ensures
        mipmap + 1 >= max_mipmap_count_spec(dim) ==> mip_dimension_spec(dim, mipmap) == 1,
        mipmap + 1 < max_mipmap_count_spec(dim) ==> mip_dimension_spec(dim, mipmap) >= 2,
{
    lemma_max_mipmap_count_bounds(dim);
    let c = max_mipmap_count_spec(dim);
    let top = pow2((c - 1) as nat) as int;
    let p = pow2(mipmap) as int;
    lemma_pow2_pos(mipmap);
    lemma_pow2_unfold(c);
    assert(pow2(c) == 2 * top);
    if mipmap + 1 > c {
        if mipmap > c {
            lemma_pow2_strictly_increases(c, mipmap);
        }
        lemma_basic_div(dim as int, p);
    } else if mipmap + 1 == c {
        assert(dim as int / top == 1) by (nonlinear_arith)
            requires
                top <= dim < 2 * top,
                top > 0,
        ;
    } else {
        lemma_pow2_unfold(mipmap + 1);
        if mipmap + 1 < c - 1 {
            lemma_pow2_strictly_increases(mipmap + 1, (c - 1) as nat);
        }
        assert(dim as int / p >= 2) by (nonlinear_arith)
            requires
                dim >= 2 * p,
                p > 0,
        ;
    }
}

/// For a dimension above 0 the count is one more than the whole part of the
/// dimension's binary logarithm.
pub proof fn lemma_max_mipmap_count_bounds(dim: nat)
    requires
        dim > 0,
    ensures
        max_mipmap_count_spec(dim) >= 1,
        max_mipmap_count_spec(dim) <= dim,
        pow2((max_mipmap_count_spec(dim) - 1) as nat) <= dim < pow2(max_mipmap_count_spec(dim)),
    decreases dim,
{
    lemma2_to64();
    if dim == 1 {
        assert(max_mipmap_count_spec(1) == 1 + max_mipmap_count_spec(0));
    } else {
        lemma_max_mipmap_count_bounds(dim / 2);
        let c = max_mipmap_count_spec(dim / 2);
        lemma_pow2_unfold(c);
        lemma_pow2_unfold(c + 1);
    }
}

/// The number of mip levels from a base level whose largest dimension is
/// `max_dimension` down to the level where it is 1; 0 for a dimension of 0.
pub fn max_mipmap_count(max_dimension: u32) -> (r: u32)
    ensures
        r == max_mipmap_count_spec(max_dimension as nat),
        max_dimension == 0 ==> r == 0,
        max_dimension > 0 ==> 1 <= r <= 32 && pow2((r - 1) as nat) <= max_dimension < pow2(
            r as nat,
        ),
{
    let mut count: u32 = 0;
    let mut rest: u32 = max_dimension;
    proof {
        if max_dimension > 0 {
            lemma_max_mipmap_count_bounds(max_dimension as nat);
        }
    }
    while rest > 0
        invariant
            count + max_mipmap_count_spec(rest as nat) == max_mipmap_count_spec(
                max_dimension as nat,
            ),
            max_mipmap_count_spec(max_dimension as nat) <= max_dimension,
        decreases rest,
    {
        rest = rest / 2;
        count = count + 1;
    }
    proof {
        if max_dimension > 0 {
            lemma_max_mipmap_count_bounds(max_dimension as nat);
            lemma2_to64();
            if count > 32 {
                lemma_pow2_strictly_increases(32, (count - 1) as nat);
            }
        }
    }
    count
}

/// The size of a dimension at mip level `mipmap`: `dim` halved once per
/// level, and never below 1.
pub fn mip_dimension(dim: u32, mipmap: u32) -> (r: u32)
    ensures
        r == mip_dimension_spec(dim as nat, mipmap as nat),
        r >= 1,
        r <= dim || r == 1,
        mipmap == 0 && dim >= 1 ==> r == dim,
        mipmap >= 32 ==> r == 1,
{
    proof {
        lemma_mip_dimension_halves(dim as nat, mipmap as nat);
    }
    if mipmap >= 32 {
        proof {
            lemma2_to64();
            if mipmap > 32 {
                lemma_pow2_strictly_increases(32, mipmap as nat);
            }
            lemma_basic_div(dim as int, pow2(mipmap as nat) as int);
        }
        1
    } else {
        proof {
            lemma_u32_shr_is_div(dim, mipmap);
        }
        let halved: u32 = dim >> mipmap;
        if halved >= 1 {
            halved
        } else {
            1
        }
    }
}

/// `x / d`, rounded up.
pub fn div_round_up(x: usize, d: usize) -> (r: usize)
    requires
        d > 0,
    ensures
        r == div_round_up_spec(x as int, d as int),
        r <= x,
        x > 0 ==> r >= 1,
{
    let q: usize = x / d;
    let m: usize = x % d;
    proof {
        lemma_fundamental_div_mod(x as int, d as int);
        assert(d * q <= x);
        assert(q <= x) by (nonlinear_arith)
            requires
                d * q <= x,
                d >= 1,
                q >= 0,
        ;
        if m == 0 {
            assert(x + d - 1 == q * d + (d - 1) && (x > 0 ==> q >= 1)) by (nonlinear_arith)
                requires
                    x == d * q + m,
                    m == 0,
                    q >= 0,
            ;
            lemma_fundamental_div_mod_converse(x + d - 1, d as int, q as int, d - 1);
        } else {
            assert(x + d - 1 == (q + 1) * d + (m - 1)) by (nonlinear_arith)
                requires
                    x == d * q + m,
            ;
            lemma_fundamental_div_mod_converse(x + d - 1, d as int, q + 1, m - 1);
            assert(q + 1 <= x) by (nonlinear_arith)
                requires
                    x == d * q + m,
                    m >= 1,
                    d >= 1,
                    q >= 0,
            ;
        }
    }
    if m == 0 {
        q
    } else {
        q + 1
    }
}

/// The number of bytes of a level of `width` x `height` x `depth` pixels in
/// blocks of the given size, or `None` where a product leaves `usize`.
pub fn mip_size(
    width: usize,
    height: usize,
    depth: usize,
    block_width: usize,
    block_height: usize,
    block_depth: usize,
    block_size_in_bytes: usize,
) -> (r: Option<usize>)
    requires
        block_width > 0,
        block_height > 0,
        block_depth > 0,
    ensures
        r == mip_size_checked(
            width as int,
            height as int,
            depth as int,
            block_width as int,
            block_height as int,
            block_depth as int,
            block_size_in_bytes as int,
        ),
        r is Some ==> r.unwrap() == mip_size_spec(
            width as int,
            height as int,
            depth as int,
            block_width as int,
            block_height as int,
            block_depth as int,
            block_size_in_bytes as int,
        ),
{
    let a: usize = div_round_up(width, block_width);
    let b: usize = div_round_up(height, block_height);
    let c: usize = div_round_up(depth, block_depth);
    match a.checked_mul(b) {
        None => None,
        Some(ab) => match ab.checked_mul(c) {
            None => None,
            Some(abc) => abc.checked_mul(block_size_in_bytes),
        },
    }
}

/// A level of a surface takes at least one byte where a block does, and
/// where the checked computation fails the size is beyond `usize`.
pub proof fn lemma_level_size_positive(
    dimensions: (u32, u32, u32),
    block_dimensions: (u32, u32, u32),
    block_size_in_bytes: usize,
    mipmap: nat,
)
    requires
        block_dimensions.0 > 0,
        block_dimensions.1 > 0,
        block_dimensions.2 > 0,
    ensures
        level_size(dimensions, block_dimensions, block_size_in_bytes, mipmap) >= 0,
        block_size_in_bytes > 0 ==> level_size(
            dimensions,
            block_dimensions,
            block_size_in_bytes,
            mipmap,
        ) >= 1,
        block_size_in_bytes > 0 && mip_size_checked(
            mip_dimension_spec(dimensions.0 as nat, mipmap) as int,
            mip_dimension_spec(dimensions.1 as nat, mipmap) as int,
            mip_dimension_spec(dimensions.2 as nat, mipmap) as int,
            block_dimensions.0 as int,
            block_dimensions.1 as int,
            block_dimensions.2 as int,
            block_size_in_bytes as int,
        ) is None ==> level_size(dimensions, block_dimensions, block_size_in_bytes, mipmap)
            > usize::MAX,
{
    lemma_mip_dimension_halves(dimensions.0 as nat, mipmap);
    lemma_mip_dimension_halves(dimensions.1 as nat, mipmap);
    lemma_mip_dimension_halves(dimensions.2 as nat, mipmap);
    let a = div_round_up_spec(
        mip_dimension_spec(dimensions.0 as nat, mipmap) as int,
        block_dimensions.0 as int,
    );
    let b = div_round_up_spec(
        mip_dimension_spec(dimensions.1 as nat, mipmap) as int,
        block_dimensions.1 as int,
    );
    let c = div_round_up_spec(
        mip_dimension_spec(dimensions.2 as nat, mipmap) as int,
        block_dimensions.2 as int,
    );
    lemma_div_round_up_positive(
        mip_dimension_spec(dimensions.0 as nat, mipmap) as int,
        block_dimensions.0 as int,
    );
    lemma_div_round_up_positive(
        mip_dimension_spec(dimensions.1 as nat, mipmap) as int,
        block_dimensions.1 as int,
    );
    lemma_div_round_up_positive(
        mip_dimension_spec(dimensions.2 as nat, mipmap) as int,
        block_dimensions.2 as int,
    );
    let s = block_size_in_bytes as int;
    assert(a * b >= 1 && a * b * c >= a * b && a * b * c >= 1) by (nonlinear_arith)
        requires
            a >= 1,
            b >= 1,
            c >= 1,
    ;
    assert(a * b * c * s >= 0 && (s >= 1 ==> a * b * c * s >= a * b * c)) by (nonlinear_arith)
        requires
            a * b * c >= 1,
            s >= 0,
    ;
}

/// With no dimension and no block below 1, the checked computation of a
/// level's size fails exactly where the size is beyond `usize`.
pub proof fn lemma_mip_size_checked(
    width: int,
    height: int,
    depth: int,
    block_width: int,
    block_height: int,
    block_depth: int,
    block_size_in_bytes: int,
)
    requires
        width >= 1,
        height >= 1,
        depth >= 1,
        block_width >= 1,
        block_height >= 1,
        block_depth >= 1,
        block_size_in_bytes >= 1,
    ensures
        mip_size_spec(
            width,
            height,
            depth,
            block_width,
            block_height,
            block_depth,
            block_size_in_bytes,
        ) >= 1,
        mip_size_checked(
            width,
            height,
            depth,
            block_width,
            block_height,
            block_depth,
            block_size_in_bytes,
        ) is None <==> mip_size_spec(
            width,
            height,
            depth,
            block_width,
            block_height,
            block_depth,
            block_size_in_bytes,
        ) > usize::MAX,
{
    let a = div_round_up_spec(width, block_width);
    let b = div_round_up_spec(height, block_height);
    let c = div_round_up_spec(depth, block_depth);
    lemma_div_round_up_positive(width, block_width);
    lemma_div_round_up_positive(height, block_height);
    lemma_div_round_up_positive(depth, block_depth);
    let s = block_size_in_bytes;
    assert(a * b >= 1 && a * b * c >= a * b && a * b * c >= 1) by (nonlinear_arith)
        requires
            a >= 1,
            b >= 1,
            c >= 1,
    ;
    assert(a * b * c * s >= a * b * c) by (nonlinear_arith)
        requires
            a * b * c >= 1,
            s >= 1,
    ;
}

/// Rounded up, a quotient of a positive number is positive.
pub proof fn lemma_div_round_up_positive(x: int, d: int)
    requires
        x >= 1,
        d >= 1,
    ensures
        1 <= div_round_up_spec(x, d) <= x,
{
    assert((x + d - 1) / d >= 1 && (x + d - 1) / d <= x) by (nonlinear_arith)
        requires
            x >= 1,
            d >= 1,
    ;
}

/// The first levels of a chain never take more bytes than a longer run of
/// them, and take fewer where a block has at least one byte.
pub proof fn lemma_levels_size_monotonic(
    dimensions: (u32, u32, u32),
    block_dimensions: (u32, u32, u32),
    block_size_in_bytes: usize,
    fewer: nat,
    more: nat,
)
    requires
        block_dimensions.0 > 0,
        block_dimensions.1 > 0,
        block_dimensions.2 > 0,
        fewer <= more,
    ensures
        0 <= levels_size(dimensions, block_dimensions, block_size_in_bytes, fewer) <= levels_size(
            dimensions,
            block_dimensions,
            block_size_in_bytes,
            more,
        ),
        block_size_in_bytes > 0 && fewer < more ==> levels_size(
            dimensions,
            block_dimensions,
            block_size_in_bytes,
            fewer,
        ) < levels_size(dimensions, block_dimensions, block_size_in_bytes, more),
        block_size_in_bytes == 0 ==> levels_size(
            dimensions,
            block_dimensions,
            block_size_in_bytes,
            more,
        ) == 0,
    decreases more,
{
    if more > 0 {
        lemma_level_size_positive(
            dimensions,
            block_dimensions,
            block_size_in_bytes,
            (more - 1) as nat,
        );
        if block_size_in_bytes == 0 {
            assert(level_size(dimensions, block_dimensions, block_size_in_bytes, (more - 1) as nat)
                == 0) by (nonlinear_arith)
                requires
                    level_size(
                        dimensions,
                        block_dimensions,
                        block_size_in_bytes,
                        (more - 1) as nat,
                    ) == mip_size_spec(
                        mip_dimension_spec(dimensions.0 as nat, (more - 1) as nat) as int,
                        mip_dimension_spec(dimensions.1 as nat, (more - 1) as nat) as int,
                        mip_dimension_spec(dimensions.2 as nat, (more - 1) as nat) as int,
                        block_dimensions.0 as int,
                        block_dimensions.1 as int,
                        block_dimensions.2 as int,
                        0,
                    ),
            ;
        }
        if fewer < more {
            lemma_levels_size_monotonic(
                dimensions,
                block_dimensions,
                block_size_in_bytes,
                fewer,
                (more - 1) as nat,
            );
        } else {
            lemma_levels_size_monotonic(
                dimensions,
                block_dimensions,
                block_size_in_bytes,
                (more - 1) as nat,
                (more - 1) as nat,
            );
        }
    }
}

/// No offset lies before the start of the surface, and a level starts no
/// earlier in its layer than the levels before it take.
pub proof fn lemma_offset_bounds(
    layer: nat,
    mipmap: nat,
    dimensions: (u32, u32, u32),
    block_dimensions: (u32, u32, u32),
    block_size_in_bytes: usize,
    mipmaps_per_layer: nat,
)
    requires
        block_dimensions.0 > 0,
        block_dimensions.1 > 0,
        block_dimensions.2 > 0,
    ensures
        0 <= levels_size(dimensions, block_dimensions, block_size_in_bytes, mipmap) <= offset_spec(
            layer,
            mipmap,
            dimensions,
            block_dimensions,
            block_size_in_bytes,
            mipmaps_per_layer,
        ),
{
    lemma_levels_size_monotonic(dimensions, block_dimensions, block_size_in_bytes, 0, mipmap);
    lemma_levels_size_monotonic(
        dimensions,
        block_dimensions,
        block_size_in_bytes,
        0,
        mipmaps_per_layer,
    );
    let total = levels_size(dimensions, block_dimensions, block_size_in_bytes, mipmaps_per_layer);
    assert(layer * total >= 0) by (nonlinear_arith)
        requires
            layer >= 0,
            total >= 0,
    ;
}

/// The first level of the first layer starts the surface.
pub proof fn lemma_offset_of_first_level(
    dimensions: (u32, u32, u32),
    block_dimensions: (u32, u32, u32),
    block_size_in_bytes: usize,
    mipmaps_per_layer: nat,
)
    ensures
        offset_spec(0, 0, dimensions, block_dimensions, block_size_in_bytes, mipmaps_per_layer)
            == 0,
{
}

/// Within a layer the offsets grow from each mip level to the next, as long
/// as a block takes at least one byte.
pub proof fn lemma_offset_increases_with_mipmap(
    layer: nat,
    mipmap: nat,
    later_mipmap: nat,
    dimensions: (u32, u32, u32),
    block_dimensions: (u32, u32, u32),
    block_size_in_bytes: usize,
    mipmaps_per_layer: nat,
)
    requires
        block_dimensions.0 > 0,
        block_dimensions.1 > 0,
        block_dimensions.2 > 0,
        block_size_in_bytes > 0,
        mipmap < later_mipmap,
    ensures
        offset_spec(
            layer,
            mipmap,
            dimensions,
            block_dimensions,
            block_size_in_bytes,
            mipmaps_per_layer,
        ) < offset_spec(
            layer,
            later_mipmap,
            dimensions,
            block_dimensions,
            block_size_in_bytes,
            mipmaps_per_layer,
        ),
{
    lemma_levels_size_monotonic(
        dimensions,
        block_dimensions,
        block_size_in_bytes,
        mipmap,
        later_mipmap,
    );
}

/// A layer starts after as many times the size of one layer as there are
/// layers before it.
pub proof fn lemma_offset_of_layer(
    layer: nat,
    dimensions: (u32, u32, u32),
    block_dimensions: (u32, u32, u32),
    block_size_in_bytes: usize,
    mipmaps_per_layer: nat,
)
    ensures
        offset_spec(
            layer,
            0,
            dimensions,
            block_dimensions,
            block_size_in_bytes,
            mipmaps_per_layer,
        ) == layer * levels_size(
            dimensions,
            block_dimensions,
            block_size_in_bytes,
            mipmaps_per_layer,
        ),
{
}

/// The number of bytes of mip level `mipmap`, or `None` where it is beyond
/// `usize`.
pub fn level_size_checked(
    dimensions: (u32, u32, u32),
    block_dimensions: (u32, u32, u32),
    block_size_in_bytes: usize,
    mipmap: u32,
) -> (r: Option<usize>)
    requires
        block_dimensions.0 > 0,
        block_dimensions.1 > 0,
        block_dimensions.2 > 0,
        block_size_in_bytes > 0,
    ensures
        level_size(dimensions, block_dimensions, block_size_in_bytes, mipmap as nat) <= usize::MAX
            ==> r == Some(
            level_size(dimensions, block_dimensions, block_size_in_bytes, mipmap as nat) as usize,
        ),
        level_size(dimensions, block_dimensions, block_size_in_bytes, mipmap as nat) > usize::MAX
            ==> r is None,
{
    proof {
        lemma_level_size_positive(
            dimensions,
            block_dimensions,
            block_size_in_bytes,
            mipmap as nat,
        );
    }
    mip_size(
        mip_dimension(dimensions.0, mipmap) as usize,
        mip_dimension(dimensions.1, mipmap) as usize,
        mip_dimension(dimensions.2, mipmap) as usize,
        block_dimensions.0 as usize,
        block_dimensions.1 as usize,
        block_dimensions.2 as usize,
        block_size_in_bytes,
    )
}

/// The number of bytes of the first `count` mip levels together, or `None`
/// where it is beyond `usize`.
pub fn levels_size_checked(
    dimensions: (u32, u32, u32),
    block_dimensions: (u32, u32, u32),
    block_size_in_bytes: usize,
    count: u32,
) -> (r: Option<usize>)
    requires
        block_dimensions.0 > 0,
        block_dimensions.1 > 0,
        block_dimensions.2 > 0,
        block_size_in_bytes > 0,
    ensures
        levels_size(dimensions, block_dimensions, block_size_in_bytes, count as nat) <= usize::MAX
            ==> r == Some(
            levels_size(dimensions, block_dimensions, block_size_in_bytes, count as nat) as usize,
        ),
        levels_size(dimensions, block_dimensions, block_size_in_bytes, count as nat) > usize::MAX
            ==> r is None,
{
    let mut total: usize = 0;
    let mut i: u32 = 0;
    while i < count
        invariant
            i <= count,
            block_dimensions.0 > 0,
            block_dimensions.1 > 0,
            block_dimensions.2 > 0,
            block_size_in_bytes > 0,
            total == levels_size(dimensions, block_dimensions, block_size_in_bytes, i as nat),
        decreases count - i,
    {
        proof {
            lemma_levels_size_monotonic(
                dimensions,
                block_dimensions,
                block_size_in_bytes,
                (i + 1) as nat,
                count as nat,
            );
            lemma_level_size_positive(
                dimensions,
                block_dimensions,
                block_size_in_bytes,
                i as nat,
            );
        }
        let size: usize = match level_size_checked(
            dimensions,
            block_dimensions,
            block_size_in_bytes,
            i,
        ) {
            Some(size) => size,
            None => {
                return None;
            },
        };
        total = match total.checked_add(size) {
            Some(sum) => sum,
            None => {
                return None;
            },
        };
        i = i + 1;
    }
    Some(total)
}

/// Whether a whole layer, and with it each of its levels, takes no more
/// bytes than `usize` holds.
pub open spec fn layer_fits(
    dimensions: (u32, u32, u32),
    block_dimensions: (u32, u32, u32),
    block_size_in_bytes: usize,
    mipmaps_per_layer: nat,
) -> bool {
    levels_size(dimensions, block_dimensions, block_size_in_bytes, mipmaps_per_layer)
        <= usize::MAX
}

/// No level of a layer takes more bytes than the layer.
pub proof fn lemma_level_within_layer(
    dimensions: (u32, u32, u32),
    block_dimensions: (u32, u32, u32),
    block_size_in_bytes: usize,
    mipmap: nat,
    mipmaps_per_layer: nat,
)
    requires
        block_dimensions.0 > 0,
        block_dimensions.1 > 0,
        block_dimensions.2 > 0,
        mipmap < mipmaps_per_layer,
    ensures
        0 <= level_size(dimensions, block_dimensions, block_size_in_bytes, mipmap) <= levels_size(
            dimensions,
            block_dimensions,
            block_size_in_bytes,
            mipmaps_per_layer,
        ),
{
    lemma_level_size_positive(dimensions, block_dimensions, block_size_in_bytes, mipmap);
    lemma_levels_size_monotonic(dimensions, block_dimensions, block_size_in_bytes, 0, mipmap);
    lemma_levels_size_monotonic(
        dimensions,
        block_dimensions,
        block_size_in_bytes,
        mipmap + 1,
        mipmaps_per_layer,
    );
    assert(levels_size(dimensions, block_dimensions, block_size_in_bytes, mipmap + 1)
        == levels_size(dimensions, block_dimensions, block_size_in_bytes, mipmap) + level_size(
        dimensions,
        block_dimensions,
        block_size_in_bytes,
        mipmap,
    ));
}

/// The offset in bytes at which mip level `mipmap` of array layer `layer`
/// starts in a packed surface whose layers hold `mipmaps_per_layer` levels
/// each.
///
/// The level has to be one of the layer's levels. The size of every level of
/// a layer, their sum and the offset have to fit in `usize`. Each of the two
/// failures has an error of its own.
pub fn calculate_offset(
    layer: u32,
    mipmap: u32,
    dimensions: (u32, u32, u32),
    block_dimensions: (u32, u32, u32),
    block_size_in_bytes: usize,
    mipmaps_per_layer: u32,
) -> (r: Result<usize, OffsetError>)
    requires
        block_dimensions.0 > 0,
        block_dimensions.1 > 0,
        block_dimensions.2 > 0,
    ensures
        mipmap >= mipmaps_per_layer ==> r == Err::<usize, OffsetError>(
            OffsetError::MipmapOutOfBounds,
        ),
        mipmap < mipmaps_per_layer && layer_fits(
            dimensions,
            block_dimensions,
            block_size_in_bytes,
            mipmaps_per_layer as nat,
        ) && offset_spec(
            layer as nat,
            mipmap as nat,
            dimensions,
            block_dimensions,
            block_size_in_bytes,
            mipmaps_per_layer as nat,
        ) <= usize::MAX ==> r == Ok::<usize, OffsetError>(
            offset_spec(
                layer as nat,
                mipmap as nat,
                dimensions,
                block_dimensions,
                block_size_in_bytes,
                mipmaps_per_layer as nat,
            ) as usize,
        ),
        mipmap < mipmaps_per_layer && (!layer_fits(
            dimensions,
            block_dimensions,
            block_size_in_bytes,
            mipmaps_per_layer as nat,
        ) || offset_spec(
            layer as nat,
            mipmap as nat,
            dimensions,
            block_dimensions,
            block_size_in_bytes,
            mipmaps_per_layer as nat,
        ) > usize::MAX) ==> r == Err::<usize, OffsetError>(OffsetError::Overflow),
        forall|level: nat|
            mipmap < mipmaps_per_layer && level < mipmaps_per_layer && #[trigger] level_size(
                dimensions,
                block_dimensions,
                block_size_in_bytes,
                level,
            ) > usize::MAX ==> r == Err::<usize, OffsetError>(OffsetError::Overflow),
        layer == 0 && mipmap == 0 && mipmaps_per_layer > 0 && layer_fits(
            dimensions,
            block_dimensions,
            block_size_in_bytes,
            mipmaps_per_layer as nat,
        ) ==> r == Ok::<usize, OffsetError>(0),
{
    if mipmap >= mipmaps_per_layer {
        return Err(OffsetError::MipmapOutOfBounds);
    }
    let ghost layer_total = levels_size(
        dimensions,
        block_dimensions,
        block_size_in_bytes,
        mipmaps_per_layer as nat,
    );
    proof {
        lemma_levels_size_monotonic(
            dimensions,
            block_dimensions,
            block_size_in_bytes,
            mipmap as nat,
            mipmaps_per_layer as nat,
        );
        assert(layer * layer_total >= 0 && (layer == 0 ==> layer * layer_total == 0))
            by (nonlinear_arith)
            requires
                layer >= 0,
                layer_total >= 0,
        ;
        assert forall|level: nat| level < mipmaps_per_layer implies #[trigger] level_size(
            dimensions,
            block_dimensions,
            block_size_in_bytes,
            level,
        ) <= layer_total by {
            lemma_level_within_layer(
                dimensions,
                block_dimensions,
                block_size_in_bytes,
                level,
                mipmaps_per_layer as nat,
            );
        }
    }
    if block_size_in_bytes == 0 {
        assert(layer * layer_total == 0) by (nonlinear_arith)
            requires
                layer_total == 0,
        ;
        return Ok(0);
    }
    // The whole layer comes first: a level or a layer that is too large is an
    // error for every level of the surface.
    let layer_size: usize = match levels_size_checked(
        dimensions,
        block_dimensions,
        block_size_in_bytes,
        mipmaps_per_layer,
    ) {
        Some(v) => v,
        None => {
            return Err(OffsetError::Overflow);
        },
    };
    let mip_offset: usize = match levels_size_checked(
        dimensions,
        block_dimensions,
        block_size_in_bytes,
        mipmap,
    ) {
        Some(v) => v,
        None => {
            return Err(OffsetError::Overflow);
        },
    };
    let layer_offset: usize = match (layer as usize).checked_mul(layer_size) {
        Some(v) => v,
        None => {
            return Err(OffsetError::Overflow);
        },
    };
    match layer_offset.checked_add(mip_offset) {
        Some(v) => Ok(v),
        None => Err(OffsetError::Overflow),
    }
}

} // verus!

//! The block grid of a rectangle and the colour of one block: the
//! mathematical model of the mosaic, and the facts about it that the filter
//! and its callers rely on.

use vstd::arithmetic::div_mod::{
    lemma_div_multiples_vanish,
    lemma_fundamental_div_mod,
    lemma_fundamental_div_mod_converse,
    lemma_mod_decreases,
    lemma_mod_pos_bound,
};
use vstd::prelude::*;

verus! {

/// One channel of a colour `(r, g, b, a)`: 0 is red, 1 green, 2 blue and
/// anything else alpha.
pub open spec fn channel(color: (u8, u8, u8, u8), index: int) -> int {
    if index == 0 {
        color.0 as int
    } else if index == 1 {
        color.1 as int
    } else if index == 2 {
        color.2 as int
    } else {
        color.3 as int
    }
}

/// Whether `(px, py)` lies in the rectangle at `(x, y)` of the given size.
pub open spec fn in_block(x: int, y: int, width: int, height: int, px: int, py: int) -> bool {
    x <= px < x + width && y <= py < y + height
}

/// The sum of one channel over the first `width` pixels of row `y`, from
/// column `x` on.
pub open spec fn row_sum(
    pixels: Map<(int, int), (u8, u8, u8, u8)>,
    index: int,
    x: int,
    y: int,
    width: int,
) -> int
    decreases width,
{
    if width <= 0 {
        0
    } else {
        row_sum(pixels, index, x, y, width - 1) + channel(pixels[(x + width - 1, y)], index)
    }
}

/// The sum of one channel over the rectangle at `(x, y)`.
pub open spec fn block_sum(
    pixels: Map<(int, int), (u8, u8, u8, u8)>,
    index: int,
    x: int,
    y: int,
    width: int,
    height: int,
) -> int
    decreases height,
{
    if height <= 0 {
        0
    } else {
        block_sum(pixels, index, x, y, width, height - 1) + row_sum(
            pixels,
            index,
            x,
            y + height - 1,
            width,
        )
    }
}

/// The darkening that comes with the blur strength: the mean is scaled by
/// `1 - 0.03 * strength`, from 0.97 at strength 1 down to 0.70 at strength
/// 10, and rounded down. "Blur" here is this loss of brightness and nothing
/// spatial: no pixel outside the block takes part.
pub open spec fn attenuate(mean: int, strength: int) -> int {
    mean * (100 - 3 * strength) / 100
}

/// The colour that a block is filled with: per channel the mean over the
/// block, rounded down, the three colour channels darkened and alpha kept.
/// A block without pixels has the colour opaque black.
pub open spec fn block_color(
    pixels: Map<(int, int), (u8, u8, u8, u8)>,
    x: int,
    y: int,
    width: int,
    height: int,
    strength: int,
) -> (u8, u8, u8, u8) {
    let count: int = height * width;
    if width <= 0 || height <= 0 {
        (0u8, 0u8, 0u8, 255u8)
    } else {
        (
            attenuate(block_sum(pixels, 0, x, y, width, height) / count, strength) as u8,
            attenuate(block_sum(pixels, 1, x, y, width, height) / count, strength) as u8,
            attenuate(block_sum(pixels, 2, x, y, width, height) / count, strength) as u8,
            (block_sum(pixels, 3, x, y, width, height) / count) as u8,
        )
    }
}

/// Where the block that holds position `at` begins, on an axis whose blocks
/// are laid out from `start` in steps of `block_size`.
pub open spec fn block_origin(start: int, block_size: int, at: int) -> int {
    at - (at - start) % block_size
}

/// How long the block that begins at `origin` is: a full `block_size`, or
/// what is left before `start + length`.
pub open spec fn block_extent(start: int, length: int, block_size: int, origin: int) -> int {
    if block_size <= start + length - origin {
        block_size
    } else {
        start + length - origin
    }
}

/// The colour of `(px, py)` after the mosaic of the rectangle at `(x, y)`:
/// inside the rectangle the colour of the block that holds the pixel, outside
/// it the colour that was there.
pub open spec fn mosaic_pixel(
    pixels: Map<(int, int), (u8, u8, u8, u8)>,
    x: int,
    y: int,
    width: int,
    height: int,
    block_size: int,
    strength: int,
    px: int,
    py: int,
) -> (u8, u8, u8, u8) {
    if in_block(x, y, width, height, px, py) {
        let bx: int = block_origin(x, block_size, px);
        let by: int = block_origin(y, block_size, py);
        block_color(
            pixels,
            bx,
            by,
            block_extent(x, width, block_size, bx),
            block_extent(y, height, block_size, by),
            strength,
        )
    } else {
        pixels[(px, py)]
    }
}

/// Two pixel maps that agree on every coordinate.
pub open spec fn same_pixels(
    a: Map<(int, int), (u8, u8, u8, u8)>,
    b: Map<(int, int), (u8, u8, u8, u8)>,
) -> bool {
    forall|px: int, py: int| #[trigger] a[(px, py)] == b[(px, py)]
}

/// Two pixel maps that agree inside the rectangle at `(x, y)`.
pub open spec fn same_in_block(
    a: Map<(int, int), (u8, u8, u8, u8)>,
    b: Map<(int, int), (u8, u8, u8, u8)>,
    x: int,
    y: int,
    width: int,
    height: int,
) -> bool {
    forall|px: int, py: int|
        in_block(x, y, width, height, px, py) ==> #[trigger] a[(px, py)] == b[(px, py)]
}

/// A row's sum reads only the pixels of that row.
pub proof fn lemma_row_sum_local(
    a: Map<(int, int), (u8, u8, u8, u8)>,
    b: Map<(int, int), (u8, u8, u8, u8)>,
    index: int,
    x: int,
    y: int,
    width: int,
)
    requires
        same_in_block(a, b, x, y, width, 1),
    ensures
        row_sum(a, index, x, y, width) == row_sum(b, index, x, y, width),
    decreases width,
{
    if width > 0 {
        assert(in_block(x, y, width, 1, x + width - 1, y));
        assert(a[(x + width - 1, y)] == b[(x + width - 1, y)]);
        assert forall|px: int, py: int| in_block(x, y, width - 1, 1, px, py) implies #[trigger] a[(
            px,
            py,
        )] == b[(px, py)] by {
            assert(in_block(x, y, width, 1, px, py));
        }
        lemma_row_sum_local(a, b, index, x, y, width - 1);
    }
}

/// A block's sum reads only the pixels of that block.
pub proof fn lemma_block_sum_local(
    a: Map<(int, int), (u8, u8, u8, u8)>,
    b: Map<(int, int), (u8, u8, u8, u8)>,
    index: int,
    x: int,
    y: int,
    width: int,
    height: int,
)
    requires
        same_in_block(a, b, x, y, width, height),
    ensures
        block_sum(a, index, x, y, width, height) == block_sum(b, index, x, y, width, height),
    decreases height,
{
    if height > 0 {
        assert forall|px: int, py: int|
            in_block(x, y + height - 1, width, 1, px, py) implies #[trigger] a[(px, py)] == b[(
            px,
            py,
        )] by {
            assert(in_block(x, y, width, height, px, py));
        }
        lemma_row_sum_local(a, b, index, x, y + height - 1, width);
        assert forall|px: int, py: int|
            in_block(x, y, width, height - 1, px, py) implies #[trigger] a[(px, py)] == b[(
            px,
            py,
        )] by {
            assert(in_block(x, y, width, height, px, py));
        }
        lemma_block_sum_local(a, b, index, x, y, width, height - 1);
    }
}

/// A block's colour is decided by the pixels of that block alone.
pub proof fn lemma_block_color_local(
    a: Map<(int, int), (u8, u8, u8, u8)>,
    b: Map<(int, int), (u8, u8, u8, u8)>,
    x: int,
    y: int,
    width: int,
    height: int,
    strength: int,
)
    requires
        same_in_block(a, b, x, y, width, height),
    ensures
        block_color(a, x, y, width, height, strength) == block_color(
            b,
            x,
            y,
            width,
            height,
            strength,
        ),
{
    lemma_block_sum_local(a, b, 0, x, y, width, height);
    lemma_block_sum_local(a, b, 1, x, y, width, height);
    lemma_block_sum_local(a, b, 2, x, y, width, height);
    lemma_block_sum_local(a, b, 3, x, y, width, height);
}

/// Every position of a block that begins a whole number of blocks after
/// `start` has that block's beginning as its origin.
pub proof fn lemma_origin_of_block(start: int, block_size: int, origin: int, at: int)
    requires
        block_size > 0,
        start <= origin,
        (origin - start) % block_size == 0,
        origin <= at < origin + block_size,
    ensures
        block_origin(start, block_size, at) == origin,
{
    lemma_fundamental_div_mod(origin - start, block_size);
    let q: int = (origin - start) / block_size;
    assert(at - start == q * block_size + (at - origin)) by (nonlinear_arith)
        requires
            origin - start == block_size * q + 0,
    ;
    lemma_fundamental_div_mod_converse(at - start, block_size, q, at - origin);
}

/// The block after a full one begins a whole number of blocks after `start`
/// too.
pub proof fn lemma_next_origin(start: int, block_size: int, origin: int)
    requires
        block_size > 0,
        start <= origin,
        (origin - start) % block_size == 0,
    ensures
        (origin + block_size - start) % block_size == 0,
{
    lemma_fundamental_div_mod(origin - start, block_size);
    let q: int = (origin - start) / block_size;
    assert(origin + block_size - start == (q + 1) * block_size + 0) by (nonlinear_arith)
        requires
            origin - start == block_size * q + 0,
    ;
    lemma_fundamental_div_mod_converse(origin + block_size - start, block_size, q + 1, 0);
}

/// The block that holds a position of the rectangle begins at or before that
/// position, a whole number of blocks after `start`, and ends inside the
/// rectangle and after the position.
pub proof fn lemma_block_holds_position(start: int, length: int, block_size: int, at: int)
    requires
        block_size > 0,
        start <= at < start + length,
    ensures
        start <= block_origin(start, block_size, at) <= at,
        (block_origin(start, block_size, at) - start) % block_size == 0,
        at < block_origin(start, block_size, at) + block_extent(
            start,
            length,
            block_size,
            block_origin(start, block_size, at),
        ) <= start + length,
{
    lemma_mod_pos_bound(at - start, block_size);
    lemma_mod_decreases((at - start) as nat, block_size as nat);
    lemma_fundamental_div_mod(at - start, block_size);
    let q: int = (at - start) / block_size;
    let origin: int = block_origin(start, block_size, at);
    assert(origin - start == q * block_size + 0) by (nonlinear_arith)
        requires
            at - start == block_size * q + (at - start) % block_size,
            origin == at - (at - start) % block_size,
    ;
    lemma_fundamental_div_mod_converse(origin - start, block_size, q, 0);
}

/// The mosaic of a rectangle reads the pixel map only coordinate by
/// coordinate: two maps that agree everywhere give the same colours.
pub proof fn lemma_mosaic_pixel_agrees(
    a: Map<(int, int), (u8, u8, u8, u8)>,
    b: Map<(int, int), (u8, u8, u8, u8)>,
    x: int,
    y: int,
    width: int,
    height: int,
    block_size: int,
    strength: int,
    px: int,
    py: int,
)
    requires
        same_pixels(a, b),
    ensures
        mosaic_pixel(a, x, y, width, height, block_size, strength, px, py) == mosaic_pixel(
            b,
            x,
            y,
            width,
            height,
            block_size,
            strength,
            px,
            py,
        ),
{
    let bx: int = block_origin(x, block_size, px);
    let by: int = block_origin(y, block_size, py);
    lemma_block_color_local(
        a,
        b,
        bx,
        by,
        block_extent(x, width, block_size, bx),
        block_extent(y, height, block_size, by),
        strength,
    );
    assert(a[(px, py)] == b[(px, py)]);
}

/// Whether every pixel of the rectangle at `(x, y)` has the colour `color`.
pub open spec fn is_uniform(
    pixels: Map<(int, int), (u8, u8, u8, u8)>,
    x: int,
    y: int,
    width: int,
    height: int,
    color: (u8, u8, u8, u8),
) -> bool {
    forall|px: int, py: int|
        in_block(x, y, width, height, px, py) ==> #[trigger] pixels[(px, py)] == color
}

proof fn lemma_uniform_row_sum(
    pixels: Map<(int, int), (u8, u8, u8, u8)>,
    index: int,
    x: int,
    y: int,
    width: int,
    color: (u8, u8, u8, u8),
)
    requires
        width >= 0,
        is_uniform(pixels, x, y, width, 1, color),
    ensures
        row_sum(pixels, index, x, y, width) == width * channel(color, index),
    decreases width,
{
    if width > 0 {
        assert(in_block(x, y, width, 1, x + width - 1, y));
        assert(pixels[(x + width - 1, y)] == color);
        assert forall|px: int, py: int| in_block(x, y, width - 1, 1, px, py) implies #[trigger] pixels[(
            px,
            py,
        )] == color by {
            assert(in_block(x, y, width, 1, px, py));
        }
        lemma_uniform_row_sum(pixels, index, x, y, width - 1, color);
        assert((width - 1) * channel(color, index) + channel(color, index) == width * channel(
            color,
            index,
        )) by (nonlinear_arith);
    } else {
        assert(width * channel(color, index) == 0) by (nonlinear_arith)
            requires
                width == 0,
        ;
    }
}

proof fn lemma_uniform_block_sum(
    pixels: Map<(int, int), (u8, u8, u8, u8)>,
    index: int,
    x: int,
    y: int,
    width: int,
    height: int,
    color: (u8, u8, u8, u8),
)
    requires
        width >= 0,
        height >= 0,
        is_uniform(pixels, x, y, width, height, color),
    ensures
        block_sum(pixels, index, x, y, width, height) == (height * width) * channel(color, index),
    decreases height,
{
    let c: int = channel(color, index);
    if height > 0 {
        assert forall|px: int, py: int|
            in_block(x, y + height - 1, width, 1, px, py) implies #[trigger] pixels[(px, py)]
            == color by {
            assert(in_block(x, y, width, height, px, py));
        }
        lemma_uniform_row_sum(pixels, index, x, y + height - 1, width, color);
        assert forall|px: int, py: int|
            in_block(x, y, width, height - 1, px, py) implies #[trigger] pixels[(px, py)]
            == color by {
            assert(in_block(x, y, width, height, px, py));
        }
        lemma_uniform_block_sum(pixels, index, x, y, width, height - 1, color);
        assert(((height - 1) * width) * c + width * c == (height * width) * c)
            by (nonlinear_arith);
    } else {
        assert((height * width) * c == 0) by (nonlinear_arith)
            requires
                height == 0,
        ;
    }
}

/// A block of one colour is filled with that colour darkened: red, green and
/// blue become `c * (100 - 3 * strength) / 100`, rounded down (`c * 97 / 100`
/// at strength 1), and alpha stays as it is.
pub proof fn lemma_uniform_block_color(
    pixels: Map<(int, int), (u8, u8, u8, u8)>,
    x: int,
    y: int,
    width: int,
    height: int,
    strength: int,
    color: (u8, u8, u8, u8),
)
    requires
        width > 0,
        height > 0,
        1 <= strength <= 10,
        is_uniform(pixels, x, y, width, height, color),
    ensures
        block_color(pixels, x, y, width, height, strength) == (
            attenuate(color.0 as int, strength) as u8,
            attenuate(color.1 as int, strength) as u8,
            attenuate(color.2 as int, strength) as u8,
            color.3,
        ),
        strength == 1 ==> attenuate(color.0 as int, strength) == color.0 * 97 / 100,
        0 <= attenuate(color.0 as int, strength) <= color.0,
        0 <= attenuate(color.1 as int, strength) <= color.1,
        0 <= attenuate(color.2 as int, strength) <= color.2,
{
    let count: int = height * width;
    assert(count > 0) by (nonlinear_arith)
        requires
            count == height * width,
            width > 0,
            height > 0,
    ;
    lemma_uniform_block_sum(pixels, 0, x, y, width, height, color);
    lemma_uniform_block_sum(pixels, 1, x, y, width, height, color);
    lemma_uniform_block_sum(pixels, 2, x, y, width, height, color);
    lemma_uniform_block_sum(pixels, 3, x, y, width, height, color);
    lemma_div_multiples_vanish(color.0 as int, count);
    lemma_div_multiples_vanish(color.1 as int, count);
    lemma_div_multiples_vanish(color.2 as int, count);
    lemma_div_multiples_vanish(color.3 as int, count);
    lemma_attenuate_bounds(color.0 as int, strength);
    lemma_attenuate_bounds(color.1 as int, strength);
    lemma_attenuate_bounds(color.2 as int, strength);
}

/// Darkening never brightens and never goes below zero.
pub proof fn lemma_attenuate_bounds(mean: int, strength: int)
    requires
        0 <= mean,
        1 <= strength <= 10,
    ensures
        0 <= attenuate(mean, strength) <= mean,
{
    let keep: int = 100 - 3 * strength;
    assert(0 <= mean * keep <= mean * 100) by (nonlinear_arith)
        requires
            0 <= mean,
            70 <= keep <= 97,
    ;
}

/// The number of the block that holds position `at`, counted from zero at
/// `start`.
pub open spec fn block_index(start: int, block_size: int, at: int) -> int {
    (at - start) / block_size
}

/// After the mosaic, two pixels of the rectangle that lie in the same block
/// of the grid have the same colour.
pub proof fn lemma_block_is_flat(
    pixels: Map<(int, int), (u8, u8, u8, u8)>,
    x: int,
    y: int,
    width: int,
    height: int,
    block_size: int,
    strength: int,
    px: int,
    py: int,
    qx: int,
    qy: int,
)
    requires
        block_size > 0,
        in_block(x, y, width, height, px, py),
        in_block(x, y, width, height, qx, qy),
        block_index(x, block_size, px) == block_index(x, block_size, qx),
        block_index(y, block_size, py) == block_index(y, block_size, qy),
    ensures
        mosaic_pixel(pixels, x, y, width, height, block_size, strength, px, py) == mosaic_pixel(
            pixels,
            x,
            y,
            width,
            height,
            block_size,
            strength,
            qx,
            qy,
        ),
{
    lemma_fundamental_div_mod(px - x, block_size);
    lemma_fundamental_div_mod(qx - x, block_size);
    lemma_fundamental_div_mod(py - y, block_size);
    lemma_fundamental_div_mod(qy - y, block_size);
}

/// The last block along a side of `length` pixels is as long as the
/// remainder of `length` by the block size, or a full block where the
/// division leaves none.
pub proof fn lemma_last_block_extent(start: int, length: int, block_size: int)
    requires
        block_size > 0,
        length > 0,
    ensures
        block_extent(
            start,
            length,
            block_size,
            block_origin(start, block_size, start + length - 1),
        ) == (if length % block_size == 0 {
            block_size
        } else {
            length % block_size
        }),
{
    lemma_fundamental_div_mod(length, block_size);
    lemma_mod_pos_bound(length, block_size);
    let k: int = length / block_size;
    let m: int = length % block_size;
    if m == 0 {
        assert(length - 1 == (k - 1) * block_size + (block_size - 1)) by (nonlinear_arith)
            requires
                length == block_size * k + 0,
        ;
        lemma_fundamental_div_mod_converse(length - 1, block_size, k - 1, block_size - 1);
    } else {
        assert(length - 1 == k * block_size + (m - 1)) by (nonlinear_arith)
            requires
                length == block_size * k + m,
        ;
        lemma_fundamental_div_mod_converse(length - 1, block_size, k, m - 1);
    }
}

} // verus!

//! The mosaic filter: averages each block of a rectangle and fills the block
//! with that colour, for one rectangle or for every configured region.

use crate::canvas::{canvas_height, canvas_pixels, canvas_width, Canvas};
use crate::config::{Config, Region};
use crate::grid::{
    attenuate,
    block_color,
    block_extent,
    block_origin,
    block_sum,
    in_block,
    lemma_block_color_local,
    lemma_block_holds_position,
    lemma_mosaic_pixel_agrees,
    lemma_next_origin,
    lemma_origin_of_block,
    mosaic_pixel,
    row_sum,
    same_pixels,
};
use vstd::prelude::*;

verus! {

pub struct ImageProcessor {
    pub config: Config,
}

/// The pixels of an image of `columns` by `rows` pixels after the mosaic of
/// each of the regions, in their order: each region is placed on the image
/// and pixelated in what the regions before it have left.
pub open spec fn redacted(
    pixels: Map<(int, int), (u8, u8, u8, u8)>,
    regions: Seq<Region>,
    columns: u32,
    rows: u32,
    block_size: int,
    strength: int,
) -> Map<(int, int), (u8, u8, u8, u8)>
    decreases regions.len(),
{
    if regions.len() == 0 {
        pixels
    } else {
        let rect: (int, int, int, int) = regions.last().resolved(columns, rows);
        let prior: Map<(int, int), (u8, u8, u8, u8)> = redacted(
            pixels,
            regions.drop_last(),
            columns,
            rows,
            block_size,
            strength,
        );
        Map::new(
            |at: (int, int)| true,
            |at: (int, int)|
                mosaic_pixel(prior, rect.0, rect.1, rect.2, rect.3, block_size, strength, at.0, at.1),
        )
    }
}

/// The length of the block that begins at `origin`, in a rectangle side that
/// runs from `start` over `length` pixels: `block_size`, or less where the
/// side ends first.
pub fn block_span(start: u32, length: u32, block_size: u32, origin: u32) -> (span: u32)
    requires
        start + length <= u32::MAX,
        start <= origin <= start + length,
    ensures
        span == block_extent(start as int, length as int, block_size as int, origin as int),
{
    let left: u32 = start + length - origin;
    if block_size <= left {
        block_size
    } else {
        left
    }
}

/// The mean of `sum` over `count` pixels, darkened by `strength` when
/// `darken` is set.
fn mean_channel(sum: u128, count: u128, strength: u32, darken: bool) -> (value: u8)
    requires
        count > 0,
        sum <= 255 * count,
        1 <= strength <= 10,
    ensures
        value == (if darken {
            attenuate(sum as int / count as int, strength as int)
        } else {
            sum as int / count as int
        }),
{
    let mean: u128 = sum / count;
    assert(mean <= 255) by (nonlinear_arith)
        requires
            mean == sum / count,
            count > 0,
            sum <= 255 * count,
    ;
    if darken {
        let keep: u32 = 100 - 3 * strength;
        let level: u32 = mean as u32;
        assert(level * keep <= 255 * 97) by (nonlinear_arith)
            requires
                level <= 255,
                keep <= 97,
        ;
        (level * keep / 100) as u8
    } else {
        mean as u8
    }
}

impl ImageProcessor {
    pub fn new(config: Config) -> (processor: ImageProcessor)
        ensures
            processor.config == config,
    {
        ImageProcessor { config }
    }

    /// The colour that the block at `(x, y)` is to be filled with: the mean
    /// of each channel over the block, the colour channels darkened by the
    /// configured blur strength, or opaque black for a block without pixels.
    /// The sums are kept in 128 bits, which no block can overflow.
    pub fn calculate_average_color(
        &self,
        img: &Canvas,
        x: u32,
        y: u32,
        width: u32,
        height: u32,
    ) -> (color: (u8, u8, u8, u8))
        requires
            1 <= self.config.mosaic.blur_strength <= 10,
            x + width <= canvas_width(*img),
            y + height <= canvas_height(*img),
        ensures
            color == block_color(
                canvas_pixels(*img),
                x as int,
                y as int,
                width as int,
                height as int,
                self.config.mosaic.blur_strength as int,
            ),
    {
        let ghost pixels = canvas_pixels(*img);
        let columns: u32 = img.width();
        let rows: u32 = img.height();
        let mut r_sum: u128 = 0;
        let mut g_sum: u128 = 0;
        let mut b_sum: u128 = 0;
        let mut a_sum: u128 = 0;
        let mut count: u128 = 0;
        let mut py: u32 = y;
        while py < y + height
            invariant
                pixels == canvas_pixels(*img),
                columns == canvas_width(*img),
                rows == canvas_height(*img),
                x + width <= columns,
                y + height <= rows,
                y <= py <= y + height,
                count == (py - y) * width,
                r_sum == block_sum(pixels, 0, x as int, y as int, width as int, py - y),
                g_sum == block_sum(pixels, 1, x as int, y as int, width as int, py - y),
                b_sum == block_sum(pixels, 2, x as int, y as int, width as int, py - y),
                a_sum == block_sum(pixels, 3, x as int, y as int, width as int, py - y),
                r_sum <= 255 * count,
                g_sum <= 255 * count,
                b_sum <= 255 * count,
                a_sum <= 255 * count,
            decreases y + height - py,
        {
            let mut px: u32 = x;
            while px < x + width
                invariant
                    pixels == canvas_pixels(*img),
                    columns == canvas_width(*img),
                    rows == canvas_height(*img),
                    x + width <= columns,
                    y + height <= rows,
                    y <= py < y + height,
                    x <= px <= x + width,
                    count == (py - y) * width + (px - x),
                    r_sum == block_sum(pixels, 0, x as int, y as int, width as int, py - y)
                        + row_sum(pixels, 0, x as int, py as int, px - x),
                    g_sum == block_sum(pixels, 1, x as int, y as int, width as int, py - y)
                        + row_sum(pixels, 1, x as int, py as int, px - x),
                    b_sum == block_sum(pixels, 2, x as int, y as int, width as int, py - y)
                        + row_sum(pixels, 2, x as int, py as int, px - x),
                    a_sum == block_sum(pixels, 3, x as int, y as int, width as int, py - y)
                        + row_sum(pixels, 3, x as int, py as int, px - x),
                    r_sum <= 255 * count,
                    g_sum <= 255 * count,
                    b_sum <= 255 * count,
                    a_sum <= 255 * count,
                decreases x + width - px,
            {
                let pixel: (u8, u8, u8, u8) = img.get_pixel(px, py);
                assert(count < 0x1_0000_0000_0000_0000) by (nonlinear_arith)
                    requires
                        count == (py - y) * width + (px - x),
                        0 <= py - y < 0x1_0000_0000,
                        0 <= width < 0x1_0000_0000,
                        0 <= px - x < width,
                ;
                r_sum = r_sum + pixel.0 as u128;
                g_sum = g_sum + pixel.1 as u128;
                b_sum = b_sum + pixel.2 as u128;
                a_sum = a_sum + pixel.3 as u128;
                count = count + 1;
                px = px + 1;
            }
            assert(count == (py + 1 - y) * width) by (nonlinear_arith)
                requires
                    count == (py - y) * width + width,
            ;
            py = py + 1;
        }
        if count == 0 {
            assert(width == 0 || height == 0) by (nonlinear_arith)
                requires
                    height * width == 0,
            ;
            return (0, 0, 0, 255);
        }
        assert(width > 0 && height > 0) by (nonlinear_arith)
            requires
                height * width != 0,
                width >= 0,
                height >= 0,
        ;
        let strength: u32 = self.config.mosaic.blur_strength;
        (
            mean_channel(r_sum, count, strength, true),
            mean_channel(g_sum, count, strength, true),
            mean_channel(b_sum, count, strength, true),
            mean_channel(a_sum, count, strength, false),
        )
    }

    /// Fills the block at `(x, y)` with one colour.
    fn fill_block(img: &mut Canvas, x: u32, y: u32, width: u32, height: u32, color: (u8, u8, u8, u8))
        requires
            x + width <= canvas_width(*old(img)),
            y + height <= canvas_height(*old(img)),
        ensures
            canvas_width(*final(img)) == canvas_width(*old(img)),
            canvas_height(*final(img)) == canvas_height(*old(img)),
            forall|px: int, py: int| #[trigger]
                final(img).pixel(px, py) == (if in_block(
                    x as int,
                    y as int,
                    width as int,
                    height as int,
                    px,
                    py,
                ) {
                    color
                } else {
                    old(img).pixel(px, py)
                }),
    {
        let ghost before = *img;
        let columns: u32 = img.width();
        let rows: u32 = img.height();
        let mut py: u32 = y;
        while py < y + height
            invariant
                columns == canvas_width(*img),
                rows == canvas_height(*img),
                columns == canvas_width(before),
                rows == canvas_height(before),
                x + width <= columns,
                y + height <= rows,
                y <= py <= y + height,
                forall|qx: int, qy: int| #[trigger]
                    img.pixel(qx, qy) == (if in_block(
                        x as int,
                        y as int,
                        width as int,
                        py - y,
                        qx,
                        qy,
                    ) {
                        color
                    } else {
                        before.pixel(qx, qy)
                    }),
            decreases y + height - py,
        {
            let mut px: u32 = x;
            while px < x + width
                invariant
                    columns == canvas_width(*img),
                    rows == canvas_height(*img),
                    columns == canvas_width(before),
                    rows == canvas_height(before),
                    x + width <= columns,
                    y + height <= rows,
                    y <= py < y + height,
                    x <= px <= x + width,
                    forall|qx: int, qy: int| #[trigger]
                        img.pixel(qx, qy) == (if in_block(
                            x as int,
                            y as int,
                            width as int,
                            py - y,
                            qx,
                            qy,
                        ) || in_block(x as int, py as int, px - x, 1, qx, qy) {
                            color
                        } else {
                            before.pixel(qx, qy)
                        }),
                decreases x + width - px,
            {
                img.put_pixel(px, py, color);
                px = px + 1;
            }
            py = py + 1;
        }
    }

    /// Replaces the block at `(x, y)` by its colour.
    fn mosaic_block(&self, img: &mut Canvas, x: u32, y: u32, width: u32, height: u32)
        requires
            1 <= self.config.mosaic.blur_strength <= 10,
            x + width <= canvas_width(*old(img)),
            y + height <= canvas_height(*old(img)),
        ensures
            canvas_width(*final(img)) == canvas_width(*old(img)),
            canvas_height(*final(img)) == canvas_height(*old(img)),
            forall|px: int, py: int| #[trigger]
                final(img).pixel(px, py) == (if in_block(
                    x as int,
                    y as int,
                    width as int,
                    height as int,
                    px,
                    py,
                ) {
                    block_color(
                        canvas_pixels(*old(img)),
                        x as int,
                        y as int,
                        width as int,
                        height as int,
                        self.config.mosaic.blur_strength as int,
                    )
                } else {
                    old(img).pixel(px, py)
                }),
    {
        let color: (u8, u8, u8, u8) = self.calculate_average_color(img, x, y, width, height);
        Self::fill_block(img, x, y, width, height, color);
    }

    /// Replaces one row of blocks of the rectangle at `(x, y)`: the blocks
    /// that begin in row `block_y` and are `rows` pixels high.
    fn mosaic_band(
        &self,
        img: &mut Canvas,
        x: u32,
        y: u32,
        width: u32,
        height: u32,
        block_y: u32,
        rows: u32,
    )
        requires
            self.config.mosaic.well_formed(),
            x + width <= canvas_width(*old(img)),
            y + height <= canvas_height(*old(img)),
            y <= block_y < y + height,
            (block_y - y) % (self.config.mosaic.block_size as int) == 0,
            rows == block_extent(
                y as int,
                height as int,
                self.config.mosaic.block_size as int,
                block_y as int,
            ),
        ensures
            canvas_width(*final(img)) == canvas_width(*old(img)),
            canvas_height(*final(img)) == canvas_height(*old(img)),
            forall|px: int, py: int| #[trigger]
                final(img).pixel(px, py) == (if in_block(
                    x as int,
                    block_y as int,
                    width as int,
                    rows as int,
                    px,
                    py,
                ) {
                    mosaic_pixel(
                        canvas_pixels(*old(img)),
                        x as int,
                        y as int,
                        width as int,
                        height as int,
                        self.config.mosaic.block_size as int,
                        self.config.mosaic.blur_strength as int,
                        px,
                        py,
                    )
                } else {
                    old(img).pixel(px, py)
                }),
    {
        let ghost before = *img;
        let ghost strength = self.config.mosaic.blur_strength as int;
        let block_size: u32 = self.config.mosaic.block_size;
        let limit: u32 = img.width();
        assert(0int % (block_size as int) == 0) by (nonlinear_arith)
            requires
                block_size > 0,
        ;
        let mut block_x: u32 = x;
        while block_x < x + width
            invariant
                self.config.mosaic.well_formed(),
                block_size == self.config.mosaic.block_size,
                strength == self.config.mosaic.blur_strength,
                canvas_width(*img) == canvas_width(before),
                canvas_height(*img) == canvas_height(before),
                x + width <= canvas_width(before),
                y + height <= canvas_height(before),
                limit == canvas_width(before),
                y <= block_y < y + height,
                (block_y - y) % (block_size as int) == 0,
                rows == block_extent(y as int, height as int, block_size as int, block_y as int),
                x <= block_x <= x + width,
                block_x == x + width || (block_x - x) % (block_size as int) == 0,
                forall|px: int, py: int| #[trigger]
                    img.pixel(px, py) == (if in_block(
                        x as int,
                        block_y as int,
                        block_x - x,
                        rows as int,
                        px,
                        py,
                    ) {
                        mosaic_pixel(
                            canvas_pixels(before),
                            x as int,
                            y as int,
                            width as int,
                            height as int,
                            block_size as int,
                            strength,
                            px,
                            py,
                        )
                    } else {
                        before.pixel(px, py)
                    }),
            decreases x + width - block_x,
        {
            let columns: u32 = block_span(x, width, block_size, block_x);
            let ghost current = *img;
            self.mosaic_block(img, block_x, block_y, columns, rows);
            proof {
                assert forall|px: int, py: int|
                    in_block(
                        block_x as int,
                        block_y as int,
                        columns as int,
                        rows as int,
                        px,
                        py,
                    ) implies #[trigger] canvas_pixels(current)[(px, py)] == canvas_pixels(before)[(
                    px,
                    py,
                )] by {
                    assert(current.pixel(px, py) == before.pixel(px, py));
                }
                lemma_block_color_local(
                    canvas_pixels(current),
                    canvas_pixels(before),
                    block_x as int,
                    block_y as int,
                    columns as int,
                    rows as int,
                    strength,
                );
                assert forall|px: int, py: int|
                    in_block(
                        block_x as int,
                        block_y as int,
                        columns as int,
                        rows as int,
                        px,
                        py,
                    ) implies block_origin(x as int, block_size as int, px) == block_x
                    && block_origin(y as int, block_size as int, py) == block_y by {
                    lemma_origin_of_block(x as int, block_size as int, block_x as int, px);
                    lemma_origin_of_block(y as int, block_size as int, block_y as int, py);
                }
                if columns == block_size {
                    lemma_next_origin(x as int, block_size as int, block_x as int);
                }
            }
            block_x = block_x + columns;
        }
    }

    /// Pixelates the rectangle at `(x, y)`: its blocks are laid out from its
    /// top-left corner in steps of the configured block size, cut off at its
    /// right and bottom edges, and each is filled with its own colour. Pixels
    /// outside the rectangle keep their colour, and the image keeps its size.
    /// The darkening is part of every call: a rectangle that is pixelated
    /// twice is darkened twice.
    pub fn apply_mosaic(&self, img: &mut Canvas, x: u32, y: u32, width: u32, height: u32)
        requires
            self.config.mosaic.well_formed(),
            x + width <= canvas_width(*old(img)),
            y + height <= canvas_height(*old(img)),
        ensures
            canvas_width(*final(img)) == canvas_width(*old(img)),
            canvas_height(*final(img)) == canvas_height(*old(img)),
            forall|px: int, py: int| #[trigger]
                final(img).pixel(px, py) == mosaic_pixel(
                    canvas_pixels(*old(img)),
                    x as int,
                    y as int,
                    width as int,
                    height as int,
                    self.config.mosaic.block_size as int,
                    self.config.mosaic.blur_strength as int,
                    px,
                    py,
                ),
    {
        let ghost before = *img;
        let ghost strength = self.config.mosaic.blur_strength as int;
        let block_size: u32 = self.config.mosaic.block_size;
        let limit: u32 = img.height();
        assert(0int % (block_size as int) == 0) by (nonlinear_arith)
            requires
                block_size > 0,
        ;
        let mut block_y: u32 = y;
        while block_y < y + height
            invariant
                self.config.mosaic.well_formed(),
                block_size == self.config.mosaic.block_size,
                strength == self.config.mosaic.blur_strength,
                canvas_width(*img) == canvas_width(before),
                canvas_height(*img) == canvas_height(before),
                x + width <= canvas_width(before),
                y + height <= canvas_height(before),
                limit == canvas_height(before),
                y <= block_y <= y + height,
                block_y == y + height || (block_y - y) % (block_size as int) == 0,
                forall|px: int, py: int| #[trigger]
                    img.pixel(px, py) == (if in_block(
                        x as int,
                        y as int,
                        width as int,
                        block_y - y,
                        px,
                        py,
                    ) {
                        mosaic_pixel(
                            canvas_pixels(before),
                            x as int,
                            y as int,
                            width as int,
                            height as int,
                            block_size as int,
                            strength,
                            px,
                            py,
                        )
                    } else {
                        before.pixel(px, py)
                    }),
            decreases y + height - block_y,
        {
            let rows: u32 = block_span(y, height, block_size, block_y);
            let ghost current = *img;
            self.mosaic_band(img, x, y, width, height, block_y, rows);
            proof {
                assert forall|px: int, py: int|
                    in_block(
                        x as int,
                        block_y as int,
                        width as int,
                        rows as int,
                        px,
                        py,
                    ) implies mosaic_pixel(
                    canvas_pixels(current),
                    x as int,
                    y as int,
                    width as int,
                    height as int,
                    block_size as int,
                    strength,
                    px,
                    py,
                ) == mosaic_pixel(
                    canvas_pixels(before),
                    x as int,
                    y as int,
                    width as int,
                    height as int,
                    block_size as int,
                    strength,
                    px,
                    py,
                ) by {
                    lemma_block_holds_position(x as int, width as int, block_size as int, px);
                    lemma_origin_of_block(y as int, block_size as int, block_y as int, py);
                    let bx: int = block_origin(x as int, block_size as int, px);
                    let columns: int = block_extent(x as int, width as int, block_size as int, bx);
                    assert forall|qx: int, qy: int|
                        in_block(bx, block_y as int, columns, rows as int, qx, qy) implies (
                    #[trigger] canvas_pixels(current)[(qx, qy)]) == canvas_pixels(before)[(
                        qx,
                        qy,
                    )] by {
                        assert(current.pixel(qx, qy) == before.pixel(qx, qy));
                    }
                    lemma_block_color_local(
                        canvas_pixels(current),
                        canvas_pixels(before),
                        bx,
                        block_y as int,
                        columns,
                        rows as int,
                        strength,
                    );
                }
                if rows == block_size {
                    lemma_next_origin(y as int, block_size as int, block_y as int);
                }
            }
            block_y = block_y + rows;
        }
    }

    /// Redacts a decoded image: every configured region, in the order of the
    /// configuration, is placed on the image and pixelated. The image keeps
    /// its size.
    pub fn process_imgae(&self, img: &mut Canvas)
        requires
            self.config.mosaic.well_formed(),
        ensures
            canvas_width(*final(img)) == canvas_width(*old(img)),
            canvas_height(*final(img)) == canvas_height(*old(img)),
            forall|px: int, py: int| #[trigger]
                final(img).pixel(px, py) == redacted(
                    canvas_pixels(*old(img)),
                    self.config.regions@,
                    canvas_width(*old(img)) as u32,
                    canvas_height(*old(img)) as u32,
                    self.config.mosaic.block_size as int,
                    self.config.mosaic.blur_strength as int,
                )[(px, py)],
    {
        let ghost before = *img;
        let ghost block_size = self.config.mosaic.block_size as int;
        let ghost strength = self.config.mosaic.blur_strength as int;
        let columns: u32 = img.width();
        let rows: u32 = img.height();
        let mut done: usize = 0;
        assert(self.config.regions@.take(0).len() == 0);
        while done < self.config.regions.len()
            invariant
                self.config.mosaic.well_formed(),
                block_size == self.config.mosaic.block_size,
                strength == self.config.mosaic.blur_strength,
                columns == canvas_width(before),
                rows == canvas_height(before),
                columns == canvas_width(*img),
                rows == canvas_height(*img),
                done <= self.config.regions@.len(),
                forall|px: int, py: int| #[trigger]
                    img.pixel(px, py) == redacted(
                        canvas_pixels(before),
                        self.config.regions@.take(done as int),
                        columns,
                        rows,
                        block_size,
                        strength,
                    )[(px, py)],
            decreases self.config.regions@.len() - done,
        {
            let rect: (u32, u32, u32, u32) = self.config.regions[done].to_absolute_coords(
                columns,
                rows,
            );
            let ghost current = *img;
            self.apply_mosaic(img, rect.0, rect.1, rect.2, rect.3);
            proof {
                let regions = self.config.regions@;
                let next = regions.take(done + 1);
                let prior = redacted(
                    canvas_pixels(before),
                    regions.take(done as int),
                    columns,
                    rows,
                    block_size,
                    strength,
                );
                assert(next.drop_last() == regions.take(done as int));
                assert(next.last() == regions[done as int]);
                assert(same_pixels(canvas_pixels(current), prior)) by {
                    assert forall|px: int, py: int| #[trigger]
                        canvas_pixels(current)[(px, py)] == prior[(px, py)] by {
                        assert(current.pixel(px, py) == prior[(px, py)]);
                    }
                }
                assert forall|px: int, py: int| #[trigger]
                    img.pixel(px, py) == redacted(
                        canvas_pixels(before),
                        next,
                        columns,
                        rows,
                        block_size,
                        strength,
                    )[(px, py)] by {
                    lemma_mosaic_pixel_agrees(
                        canvas_pixels(current),
                        prior,
                        rect.0 as int,
                        rect.1 as int,
                        rect.2 as int,
                        rect.3 as int,
                        block_size,
                        strength,
                        px,
                        py,
                    );
                }
            }
            done = done + 1;
        }
        assert(self.config.regions@.take(done as int) == self.config.regions@);
    }
}

} // verus!

//! The RGBA8 pixel buffer that the filter works on: the `image` crate's
//! `ImageBuffer`, seen as a width, a height and one colour per coordinate.
//! What this file says of the buffer is taken on trust from that crate's
//! source; the functions at the end are proved from it.

use image::{ImageBuffer, Rgba};
use vstd::prelude::*;

verus! {

/// An `image::ImageBuffer<Rgba<u8>, Vec<u8>>`, opaque to the verifier.
#[verifier::external_body]
pub struct Canvas {
    buffer: ImageBuffer<Rgba<u8>, Vec<u8>>,
}

/// The colour `(r, g, b, a)` that the buffer holds at each `(x, y)`.
pub uninterp spec fn canvas_pixels(canvas: Canvas) -> Map<(int, int), (u8, u8, u8, u8)>;

/// The number of pixel columns of the buffer.
pub uninterp spec fn canvas_width(canvas: Canvas) -> int;

/// The number of pixel rows of the buffer.
pub uninterp spec fn canvas_height(canvas: Canvas) -> int;

/// The pixel at `(x, y)` of a row-major RGBA8 byte sequence whose rows hold
/// `width` pixels.
pub open spec fn raw_pixel(data: Seq<u8>, width: int, x: int, y: int) -> (u8, u8, u8, u8) {
    let at: int = 4 * (y * width + x);
    (data[at], data[at + 1], data[at + 2], data[at + 3])
}

/// `ImageBuffer::from_raw`: accepts the bytes exactly when they are enough
/// for `width * height` pixels of four channels, and then reads pixel
/// `(x, y)` from the four bytes at `4 * (y * width + x)`.
#[verifier::external_body]
fn buffer_from_raw(width: u32, height: u32, data: Vec<u8>) -> (made: Option<Canvas>)
    ensures
        made is Some <==> 4 * width * height <= data@.len(),
        made matches Some(canvas) ==> {
            &&& canvas_width(canvas) == width
            &&& canvas_height(canvas) == height
            &&& forall|x: int, y: int|
                0 <= x < width && 0 <= y < height ==> #[trigger] canvas.pixel(x, y) == raw_pixel(
                    data@,
                    width as int,
                    x,
                    y,
                )
        },
{
    match ImageBuffer::from_raw(width, height, data) {
        Some(buffer) => Some(Canvas { buffer }),
        None => None,
    }
}

/// `ImageBuffer::into_raw`: the bytes behind the buffer, which hold pixel
/// `(x, y)` in the four bytes at `4 * (y * width + x)`.
#[verifier::external_body]
fn buffer_into_raw(canvas: Canvas) -> (data: Vec<u8>)
    ensures
        4 * canvas_width(canvas) * canvas_height(canvas) <= data@.len(),
        forall|x: int, y: int|
            0 <= x < canvas_width(canvas) && 0 <= y < canvas_height(canvas) ==> #[trigger] raw_pixel(
                data@,
                canvas_width(canvas),
                x,
                y,
            ) == canvas.pixel(x, y),
{
    canvas.buffer.into_raw()
}

/// `ImageBuffer::width`: the width that the buffer was made with.
#[verifier::external_body]
fn buffer_width(canvas: &Canvas) -> (width: u32)
    ensures
        width == canvas_width(*canvas),
{
    canvas.buffer.width()
}

/// `ImageBuffer::height`: the height that the buffer was made with.
#[verifier::external_body]
fn buffer_height(canvas: &Canvas) -> (height: u32)
    ensures
        height == canvas_height(*canvas),
{
    canvas.buffer.height()
}

/// `ImageBuffer::get_pixel`, which panics outside the buffer's bounds and
/// inside them returns the pixel stored at `(x, y)`; its four channels are
/// handed back in the order red, green, blue, alpha.
#[verifier::external_body]
fn buffer_get_pixel(canvas: &Canvas, x: u32, y: u32) -> (color: (u8, u8, u8, u8))
    requires
        x < canvas_width(*canvas),
        y < canvas_height(*canvas),
    ensures
        color == canvas_pixels(*canvas)[(x as int, y as int)],
{
    let pixel: &Rgba<u8> = canvas.buffer.get_pixel(x, y);
    (pixel.0[0], pixel.0[1], pixel.0[2], pixel.0[3])
}

/// `ImageBuffer::put_pixel`, which panics outside the buffer's bounds and
/// inside them overwrites the pixel at `(x, y)`, leaving every other pixel
/// and the buffer's size as they were.
#[verifier::external_body]
fn buffer_put_pixel(canvas: &mut Canvas, x: u32, y: u32, color: (u8, u8, u8, u8))
    requires
        x < canvas_width(*old(canvas)),
        y < canvas_height(*old(canvas)),
    ensures
        canvas_width(*final(canvas)) == canvas_width(*old(canvas)),
        canvas_height(*final(canvas)) == canvas_height(*old(canvas)),
        canvas_pixels(*final(canvas)) == canvas_pixels(*old(canvas)).insert(
            (x as int, y as int),
            color,
        ),
{
    canvas.buffer.put_pixel(x, y, Rgba([color.0, color.1, color.2, color.3]));
}

impl Canvas {
    /// The colour at `(x, y)`.
    pub open spec fn pixel(self, x: int, y: int) -> (u8, u8, u8, u8) {
        canvas_pixels(self)[(x, y)]
    }

    /// Whether `(x, y)` is a pixel of the buffer.
    pub open spec fn covers(self, x: int, y: int) -> bool {
        0 <= x < canvas_width(self) && 0 <= y < canvas_height(self)
    }

    /// Makes a buffer of `width` by `height` pixels from row-major RGBA8
    /// bytes, or `None` when the bytes are too few. Bytes beyond the last
    /// pixel are kept and ignored.
    pub fn from_raw(width: u32, height: u32, data: Vec<u8>) -> (made: Option<Canvas>)
        ensures
            made is Some <==> 4 * width * height <= data@.len(),
            made matches Some(canvas) ==> {
                &&& canvas_width(canvas) == width
                &&& canvas_height(canvas) == height
                &&& forall|x: int, y: int|
                    canvas.covers(x, y) ==> #[trigger] canvas.pixel(x, y) == raw_pixel(
                        data@,
                        width as int,
                        x,
                        y,
                    )
            },
    {
        buffer_from_raw(width, height, data)
    }

    /// Gives the buffer's bytes back, row-major, four per pixel.
    pub fn into_raw(self) -> (data: Vec<u8>)
        ensures
            4 * canvas_width(self) * canvas_height(self) <= data@.len(),
            forall|x: int, y: int|
                self.covers(x, y) ==> #[trigger] raw_pixel(data@, canvas_width(self), x, y)
                    == self.pixel(x, y),
    {
        buffer_into_raw(self)
    }

    pub fn width(&self) -> (width: u32)
        ensures
            width == canvas_width(*self),
    {
        buffer_width(self)
    }

    pub fn height(&self) -> (height: u32)
        ensures
            height == canvas_height(*self),
    {
        buffer_height(self)
    }

    /// The colour at `(x, y)`, which must lie inside the buffer.
    pub fn get_pixel(&self, x: u32, y: u32) -> (color: (u8, u8, u8, u8))
        requires
            self.covers(x as int, y as int),
        ensures
            color == self.pixel(x as int, y as int),
    {
        buffer_get_pixel(self, x, y)
    }

    /// Overwrites the colour at `(x, y)`, which must lie inside the buffer.
    /// No other pixel changes.
    pub fn put_pixel(&mut self, x: u32, y: u32, color: (u8, u8, u8, u8))
        requires
            old(self).covers(x as int, y as int),
        ensures
            canvas_width(*final(self)) == canvas_width(*old(self)),
            canvas_height(*final(self)) == canvas_height(*old(self)),
            final(self).pixel(x as int, y as int) == color,
            forall|px: int, py: int|
                (px, py) != (x as int, y as int) ==> #[trigger] final(self).pixel(px, py) == old(
                    self,
                ).pixel(px, py),
    {
        buffer_put_pixel(self, x, y, color)
    }
}

} // verus!

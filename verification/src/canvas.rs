//! The output image: a grey-scale buffer of the `image` crate, one byte per
//! pixel.
//!
//! The buffer's type cannot be shown to the verifier, so it is kept behind
//! [`Canvas`]. The three functions that touch it, [`blank`], [`set_pixel`]
//! and [`raw`], are not proved; their contracts say what the crate's source
//! shows.

use vstd::prelude::*;

verus! {

/// A grey-scale image buffer: an `image::GrayImage`, which is made by
/// [`blank`] alone and so holds exactly one byte per pixel.
#[verifier::external_body]
pub struct Canvas {
    image: image::GrayImage,
}

/// The pixels of an image, row by row from the top, each row from the left:
/// as many rows as the image is high, each as long as the image is wide.
pub uninterp spec fn grid(canvas: Canvas) -> Seq<Seq<u8>>;

/// The rows of a grid one after the other, for rows of one length.
pub open spec fn row_major(rows: Seq<Seq<u8>>) -> Seq<u8> {
    if rows.len() == 0 {
        Seq::empty()
    } else {
        Seq::new(
            rows.len() * rows[0].len(),
            |i: int| rows[i / (rows[0].len() as int)][i % (rows[0].len() as int)],
        )
    }
}

/// `image::ImageBuffer::new`: an image of the given size whose pixels are
/// all zero. The call panics if the number of pixels overflows the size of a
/// vector, which the precondition excludes.
#[verifier::external_body]
pub(crate) fn blank(width: u32, height: u32) -> (canvas: Canvas)
    requires
        width * height <= isize::MAX,
    ensures
        grid(canvas) == Seq::new(height as nat, |y: int| Seq::new(width as nat, |x: int| 0u8)),
{
    Canvas { image: image::GrayImage::new(width, height) }
}

/// `image::ImageBuffer::get_pixel_mut`, assigned through: the pixel in
/// column `x` of row `y` becomes `value` and no other pixel changes. The
/// call panics outside the image, which the precondition excludes.
#[verifier::external_body]
pub(crate) fn set_pixel(canvas: &mut Canvas, x: u32, y: u32, value: u8)
    requires
        y < grid(*old(canvas)).len(),
        x < grid(*old(canvas))[y as int].len(),
    ensures
        grid(*final(canvas)) == grid(*old(canvas)).update(
            y as int,
            grid(*old(canvas))[y as int].update(x as int, value),
        ),
{
    *canvas.image.get_pixel_mut(x, y) = image::Luma([value]);
}

/// `image::ImageBuffer::into_raw`: the buffer that the image was made with,
/// which holds the rows one after the other.
#[verifier::external_body]
pub(crate) fn raw(canvas: Canvas) -> (bytes: Vec<u8>)
    ensures
        bytes@ == row_major(grid(canvas)),
{
    canvas.image.into_raw()
}

impl Canvas {
    /// Hands the image out as its bytes, the rows one after the other from
    /// the top.
    pub fn into_bytes(self) -> (bytes: Vec<u8>)
        ensures
            bytes@ == row_major(grid(self)),
    {
        raw(self)
    }
}

} // verus!

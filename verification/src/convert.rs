//! Passes over buffers and images.
use crate::error::ShiftError;
use crate::pixels::{dimensions_fit, dimensions_match, pixel_shifted, shifted, CHANNELS};
use vstd::prelude::*;

verus! {

/// Rewrites the colour of every pixel of an RGBA buffer in place.
///
/// `kernel` is asked once per pixel, in buffer order, for the new red, green
/// and blue of that pixel; alpha bytes are left alone.  A buffer that is not a
/// whole number of pixels is refused before anything is written.
pub fn color_shift_rgba_vec<F: Fn(u8, u8, u8) -> (u8, u8, u8)>(vec: &mut Vec<u8>, kernel: F) -> (r:
    Result<(), ShiftError>)
    requires
        forall|red: u8, green: u8, blue: u8| call_requires(kernel, (red, green, blue)),
    ensures
        old(vec)@.len() % CHANNELS as nat == 0 ==> r is Ok && shifted(
            old(vec)@,
            final(vec)@,
            kernel,
        ),
        old(vec)@.len() % CHANNELS as nat != 0 ==> r == Err::<(), ShiftError>(ShiftError::Dimension)
            && final(vec)@ == old(vec)@,
{
    let n: usize = vec.len();
    if n % CHANNELS != 0 {
        return Err(ShiftError::Dimension);
    }
    let mut j: usize = 0;
    while j < n
        invariant
            n == vec@.len(),
            n == old(vec)@.len(),
            n % CHANNELS == 0,
            j % CHANNELS == 0,
            j <= n,
            forall|red: u8, green: u8, blue: u8| call_requires(kernel, (red, green, blue)),
            forall|p: int|
                0 <= p < j / CHANNELS ==> #[trigger] pixel_shifted(old(vec)@, vec@, kernel, p),
            forall|i: int| j <= i < n ==> vec@[i] == old(vec)@[i],
        decreases n - j,
    {
        let ghost prev = vec@;
        let (red, green, blue) = kernel(vec[j], vec[j + 1], vec[j + 2]);
        vec[j] = red;
        vec[j + 1] = green;
        vec[j + 2] = blue;
        proof {
            let q = (j / CHANNELS) as int;
            assert(CHANNELS * q == j);
            assert forall|p: int| 0 <= p < q + 1 implies #[trigger] pixel_shifted(
                old(vec)@,
                vec@,
                kernel,
                p,
            ) by {
                if p < q {
                    assert(pixel_shifted(old(vec)@, prev, kernel, p));
                }
            }
        }
        j += CHANNELS;
    }
    Ok(())
}

/// Rewrites the colour of every pixel of a `width` x `height` RGBA buffer in
/// place, after checking that the buffer has exactly that size.
///
/// On a mismatch the buffer is returned as it came.
pub fn apply_shift<F: Fn(u8, u8, u8) -> (u8, u8, u8)>(
    buffer: &mut Vec<u8>,
    width: u32,
    height: u32,
    kernel: F,
) -> (r: Result<(), ShiftError>)
    requires
        forall|red: u8, green: u8, blue: u8| call_requires(kernel, (red, green, blue)),
    ensures
        dimensions_match(old(buffer)@.len() as int, width as int, height as int) ==> r is Ok
            && shifted(old(buffer)@, final(buffer)@, kernel),
        !dimensions_match(old(buffer)@.len() as int, width as int, height as int) ==> r == Err::<
            (),
            ShiftError,
        >(ShiftError::Dimension) && final(buffer)@ == old(buffer)@,
{
    if !dimensions_fit(buffer.len(), width, height) {
        return Err(ShiftError::Dimension);
    }
    proof {
        let area = width as int * height as int;
        assert(CHANNELS * width * height == 4 * area) by (nonlinear_arith)
            requires
                area == width as int * height as int,
        ;
    }
    color_shift_rgba_vec(buffer, kernel)
}

/// An RGBA image of the `image` crate, eight bits per channel.
///
/// Nothing is proved of the image itself.  Its bytes are known here as
/// `raster_bytes` and its width and height as `raster_size`, and those names
/// mean what the four methods below are taken to return.
#[verifier::external_body]
pub struct Raster {
    pub image: image::RgbaImage,
}

/// The channel bytes that the image holds, in storage order: what
/// `image::ImageBuffer::into_vec` hands out.
pub uninterp spec fn raster_bytes(raster: Raster) -> Seq<u8>;

/// The width and the height of the image, in pixels: what
/// `image::ImageBuffer::width` and `image::ImageBuffer::height` report.
pub uninterp spec fn raster_size(raster: Raster) -> (u32, u32);

/// `image::ImageBuffer::width`: reads the width that the image was made
/// with.
#[verifier::external_body]
fn raster_width(raster: &Raster) -> (width: u32)
    ensures
        width == raster_size(*raster).0,
{
    raster.image.width()
}

/// `image::ImageBuffer::height`: reads the height that the image was made
/// with.
#[verifier::external_body]
fn raster_height(raster: &Raster) -> (height: u32)
    ensures
        height == raster_size(*raster).1,
{
    raster.image.height()
}

/// `image::ImageBuffer::into_vec`: gives up the image for the buffer that
/// holds its bytes, unchanged and in full.
#[verifier::external_body]
fn raster_into_vec(raster: Raster) -> (bytes: Vec<u8>)
    ensures
        bytes@ == raster_bytes(raster),
{
    raster.image.into_vec()
}

/// `image::ImageBuffer::from_vec`: makes an image of the given width and
/// height that holds `bytes` as they are.  It declines exactly when four
/// bytes per pixel, counted in `usize` first over the width and then over
/// the height, overflow or come to more than `bytes` holds; a buffer with
/// bytes to spare is accepted.
#[verifier::external_body]
fn raster_from_vec(width: u32, height: u32, bytes: Vec<u8>) -> (made: Option<Raster>)
    ensures
        made is Some <==> (4 * width <= usize::MAX && 4 * width * height <= bytes@.len()),
        made is Some ==> raster_bytes(made->0) == bytes@,
        made is Some ==> raster_size(made->0).0 == width,
        made is Some ==> raster_size(made->0).1 == height,
{
    match image::RgbaImage::from_vec(width, height, bytes) {
        Some(image) => Some(Raster { image }),
        None => None,
    }
}

/// The image's buffer is exactly as long as its width and height ask for,
/// and a row of it can be counted in `usize`.
pub open spec fn well_sized(raster: Raster) -> bool {
    &&& dimensions_match(
        raster_bytes(raster).len() as int,
        raster_size(raster).0 as int,
        raster_size(raster).1 as int,
    )
    &&& CHANNELS * raster_size(raster).0 <= usize::MAX
}

/// Rewrites the colour of every pixel of an image and hands the image back
/// with its width and height.
///
/// `kernel` is asked once per pixel for the new red, green and blue of that
/// pixel; alpha bytes are left alone.  An image whose buffer does not have
/// the size that its width and height ask for is refused.
pub fn color_shift<F: Fn(u8, u8, u8) -> (u8, u8, u8)>(image: Raster, kernel: F) -> (r: Result<
    Raster,
    ShiftError,
>)
    requires
        forall|red: u8, green: u8, blue: u8| call_requires(kernel, (red, green, blue)),
    ensures
        r is Ok <==> well_sized(image),
        r matches Ok(out) ==> raster_size(out) == raster_size(image) && shifted(
            raster_bytes(image),
            raster_bytes(out),
            kernel,
        ),
        r matches Err(e) ==> e == ShiftError::Dimension,
{
    let width: u32 = raster_width(&image);
    let height: u32 = raster_height(&image);
    let mut bytes = raster_into_vec(image);
    match apply_shift(&mut bytes, width, height, kernel) {
        Err(e) => Err(e),
        Ok(()) => match raster_from_vec(width, height, bytes) {
            Some(out) => Ok(out),
            None => Err(ShiftError::Dimension),
        },
    }
}

} // verus!

//! The pixel buffer of a tile: an image of the `image` crate, seen through
//! the coordinates and colors it holds.

use vstd::prelude::*;

verus! {

/// `image::DynamicImage`, taken as it is: nothing inside it is read here,
/// and all that is known of an image is what the two names below stand for.
#[verifier::external_type_specification]
#[verifier::external_body]
pub struct ExDynamicImage(image::DynamicImage);

/// The pixels of an image: for each coordinate `(x, y)` within its bounds,
/// the red, green, blue and alpha bytes that `get_pixel(x, y)` reads there.
pub uninterp spec fn image_pixels(img: image::DynamicImage) -> Map<(int, int), (u8, u8, u8, u8)>;

/// Whether an image stores three bytes, red, green and blue, for each pixel.
pub uninterp spec fn image_is_rgb8(img: image::DynamicImage) -> bool;

/// The coordinates of an image `width` pixels wide and `height` pixels high.
pub open spec fn grid(width: int, height: int) -> Set<(int, int)> {
    Set::new(|p: (int, int)| 0 <= p.0 < width && 0 <= p.1 < height)
}

/// Calls `DynamicImage::new_rgb8`.
///
/// Trusted: the new image is an rgb image of the given size whose pixels are
/// all black and opaque. The outside function panics when the byte length
/// `3 * width * height` is more than a vector can hold, which the
/// precondition rules out.
#[verifier::external_body]
pub(crate) fn new_rgb8(width: u32, height: u32) -> (img: image::DynamicImage)
    requires
        3 * width * height <= isize::MAX,
    ensures
        image_is_rgb8(img),
        image_pixels(img) == Map::new(
            |p: (int, int)| grid(width as int, height as int).contains(p),
            |p: (int, int)| (0u8, 0u8, 0u8, 255u8),
        ),
{
    image::DynamicImage::new_rgb8(width, height)
}

/// Calls `GenericImage::put_pixel` on a `DynamicImage`.
///
/// Trusted: on an rgb image the pixel at `(x, y)` takes the given red, green
/// and blue bytes and reads back as opaque, whatever `alpha` was given; every
/// other pixel stays as it was. The outside function panics on a coordinate
/// out of bounds, which the precondition rules out.
#[verifier::external_body]
pub(crate) fn put_pixel(
    img: &mut image::DynamicImage,
    x: u32,
    y: u32,
    red: u8,
    green: u8,
    blue: u8,
    alpha: u8,
)
    requires
        image_is_rgb8(*old(img)),
        image_pixels(*old(img)).dom().contains((x as int, y as int)),
    ensures
        image_is_rgb8(*final(img)),
        image_pixels(*final(img)) == image_pixels(*old(img)).insert(
            (x as int, y as int),
            (red, green, blue, 255u8),
        ),
{
    image::GenericImage::put_pixel(img, x, y, image::Rgba([red, green, blue, alpha]));
}

} // verus!

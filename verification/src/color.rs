use crate::utility::{integer_sqrt, lemma_sqrt_floor, lemma_sqrt_floor_monotonic, sqrt_floor};
use crate::vec3::Vec3;
use vstd::prelude::*;

verus! {

/// A colour: the linear intensities of red, green and blue in `x`, `y` and
/// `z`, in levels of which `LEVELS_PER_UNIT` make the intensity 1.
pub type Color = Vec3;

/// The number of levels of linear intensity that make the intensity 1. It
/// is the square of the number of values of a byte, so that the square root
/// of a level is a byte on the scale on which 256 stands for 1.
pub const LEVELS_PER_UNIT: i64 = 65536;

/// An image under way: an `image::RgbImage`, of which the library knows the
/// size and the bytes by the names `image_size` and `image_bytes`.
#[verifier::external_body]
pub struct OutputImage {
    inner: image::RgbImage,
}

/// The bytes of an image, row by row from the top, three to the pixel.
pub uninterp spec fn image_bytes(img: OutputImage) -> Seq<u8>;

/// The width and the height of an image, in pixels.
pub uninterp spec fn image_size(img: OutputImage) -> (u32, u32);

/// The place of the first byte of pixel `(x, y)` in an image of width
/// `width`.
pub open spec fn pixel_offset(width: u32, x: u32, y: u32) -> int {
    3 * (y * width + x)
}

/// `image::ImageBuffer::new`: an image of the given size in which every byte
/// is 0. The function panics where the bytes of the image are more than a
/// vector can hold, which is why their number is bounded.
#[verifier::external_body]
fn blank_image(width: u32, height: u32) -> (img: OutputImage)
    requires
        3 * width * height <= isize::MAX,
    ensures
        image_size(img) == (width, height),
        image_bytes(img) == Seq::new((3 * width * height) as nat, |i: int| 0u8),
{
    OutputImage { inner: image::ImageBuffer::new(width, height) }
}

/// `image::ImageBuffer::width`: the width that the image was made with.
#[verifier::external_body]
fn image_width(img: &OutputImage) -> (w: u32)
    ensures
        w == image_size(*img).0,
{
    img.inner.width()
}

/// `image::ImageBuffer::height`: the height that the image was made with.
#[verifier::external_body]
fn image_height(img: &OutputImage) -> (h: u32)
    ensures
        h == image_size(*img).1,
{
    img.inner.height()
}

/// `image::ImageBuffer::into_raw`: the buffer that underlies the image,
/// which holds its bytes.
#[verifier::external_body]
fn raw_bytes(img: OutputImage) -> (bytes: Vec<u8>)
    ensures
        bytes@ == image_bytes(img),
{
    img.inner.into_raw()
}

/// `image::ImageBuffer::put_pixel`: the three bytes of pixel `(x, y)` become
/// `rgb` and nothing else changes. The function panics where `(x, y)` is not
/// a pixel of the image.
#[verifier::external_body]
fn put_pixel(img: &mut OutputImage, x: u32, y: u32, rgb: [u8; 3])
    requires
        x < image_size(*old(img)).0,
        y < image_size(*old(img)).1,
    ensures
        image_size(*final(img)) == image_size(*old(img)),
        image_bytes(*final(img)) == image_bytes(*old(img)).update(
            pixel_offset(image_size(*old(img)).0, x, y),
            rgb@[0],
        ).update(pixel_offset(image_size(*old(img)).0, x, y) + 1, rgb@[1]).update(
            pixel_offset(image_size(*old(img)).0, x, y) + 2,
            rgb@[2],
        ),
{
    img.inner.put_pixel(x, y, image::Rgb(rgb))
}

/// The tone curve of gamma 2: the square root of a linear intensity, on
/// the scale on which 256 stands for 1. What is not above 0 gives 0.
pub open spec fn gamma_of(linear_component: i64) -> i64 {
    if linear_component > 0 {
        sqrt_floor(linear_component as nat) as i64
    } else {
        0
    }
}

/// The byte that stands for a linear intensity: its square root on the scale
/// of 256, held below 256.
pub open spec fn byte_level(linear_component: i64) -> u8 {
    if gamma_of(linear_component) >= 255 {
        255
    } else {
        gamma_of(linear_component) as u8
    }
}

/// The three bytes that stand for a colour.
pub open spec fn byte_levels(color: Color) -> Seq<u8> {
    seq![byte_level(color.x), byte_level(color.y), byte_level(color.z)]
}

/// The root of a level is a number of at most 32 bits.
proof fn lemma_gamma_fits(linear_component: i64)
    ensures
        0 <= gamma_of(linear_component) <= u32::MAX,
        linear_component > 0 ==> gamma_of(linear_component) == sqrt_floor(linear_component as nat),
        linear_component < 65025 ==> gamma_of(linear_component) < 255,
        linear_component >= 65025 ==> gamma_of(linear_component) >= 255,
{
    if linear_component > 0 {
        let n = linear_component as nat;
        lemma_sqrt_floor(n);
        let r = sqrt_floor(n) as int;
        assert(r <= 0xffff_ffff) by (nonlinear_arith)
            requires
                r >= 0,
                r * r <= 0x7fff_ffff_ffff_ffff,
        ;
        if linear_component < 65025 {
            assert(r < 255) by (nonlinear_arith)
                requires
                    r >= 0,
                    r * r < 65025,
            ;
        } else {
            assert(r >= 255) by (nonlinear_arith)
                requires
                    r >= 0,
                    (r + 1) * (r + 1) > 65025,
            ;
        }
    }
}

/// The bounds of quantization. Black gives the byte 0; the intensity 1, and
/// every intensity from `255 * 255` levels on, gives the byte 255; and no
/// intensity gives a byte outside `0..=255`. A brighter intensity never gives
/// a lesser byte.
pub proof fn lemma_byte_level_bounds(darker: i64, brighter: i64)
    requires
        darker <= brighter,
    ensures
        byte_level(0) == 0,
        byte_level(LEVELS_PER_UNIT) == 255,
        brighter >= 255 * 255 ==> byte_level(brighter) == 255,
        darker <= 0 ==> byte_level(darker) == 0,
        0 <= byte_level(darker) <= byte_level(brighter) <= 255,
{
    lemma_gamma_fits(LEVELS_PER_UNIT);
    lemma_gamma_fits(darker);
    lemma_gamma_fits(brighter);
    if darker > 0 {
        lemma_sqrt_floor_monotonic(darker as nat, brighter as nat);
    }
}

/// The square root of a linear intensity on the scale on which 256 stands
/// for 1; 0 for an intensity that is not above 0.
#[verifier::when_used_as_spec(gamma_of)]
pub fn linear_to_gamma(linear_component: i64) -> (gamma: i64)
    ensures
        gamma == gamma_of(linear_component),
{
    if linear_component > 0 {
        proof {
            lemma_gamma_fits(linear_component);
        }
        return integer_sqrt(linear_component as u64) as i64;
    }
    0
}

/// The byte that stands for a linear intensity.
#[verifier::when_used_as_spec(byte_level)]
pub fn quantize(linear_component: i64) -> (byte: u8)
    ensures
        byte == byte_level(linear_component),
{
    let gamma = linear_to_gamma(linear_component);
    if gamma >= 255 {
        255
    } else {
        proof {
            lemma_gamma_fits(linear_component);
        }
        gamma as u8
    }
}

/// Writes the colour of pixel `(x, y)`, which must be a pixel of the image:
/// its three bytes become those that stand for `pixel_color`.
pub fn write_color(x: u32, y: u32, pixel_color: &Color, img: &mut OutputImage)
    requires
        x < image_size(*old(img)).0,
        y < image_size(*old(img)).1,
    ensures
        image_size(*final(img)) == image_size(*old(img)),
        image_bytes(*final(img)) == image_bytes(*old(img)).update(
            pixel_offset(image_size(*old(img)).0, x, y),
            byte_level(pixel_color.x),
        ).update(
            pixel_offset(image_size(*old(img)).0, x, y) + 1,
            byte_level(pixel_color.y),
        ).update(pixel_offset(image_size(*old(img)).0, x, y) + 2, byte_level(pixel_color.z)),
{
    let r = quantize(pixel_color.x);
    let g = quantize(pixel_color.y);
    let b = quantize(pixel_color.z);
    put_pixel(img, x, y, [r, g, b]);
}

impl OutputImage {
    /// The image of the given size in which every byte is 0; `None` where
    /// the bytes of such an image are more than a vector can hold.
    pub fn new(width: u32, height: u32) -> (made: Option<OutputImage>)
        ensures
            made is Some <==> 3 * width * height <= isize::MAX,
            match made {
                Some(img) => image_size(img) == (width, height) && image_bytes(img) == Seq::new(
                    (3 * width * height) as nat,
                    |i: int| 0u8,
                ),
                None => true,
            },
    {
        assert(3 * width * height <= 3 * 0xffff_ffff * 0xffff_ffff) by (nonlinear_arith)
            requires
                0 <= width <= 0xffff_ffff,
                0 <= height <= 0xffff_ffff,
        ;
        let bytes: u128 = 3 * (width as u128) * (height as u128);
        if bytes > isize::MAX as u128 {
            return None;
        }
        Some(blank_image(width, height))
    }

    /// The width of the image in pixels.
    pub fn width(&self) -> (w: u32)
        ensures
            w == image_size(*self).0,
    {
        image_width(self)
    }

    /// The height of the image in pixels.
    pub fn height(&self) -> (h: u32)
        ensures
            h == image_size(*self).1,
    {
        image_height(self)
    }

    /// The bytes of the image, row by row from the top, three to the pixel.
    pub fn into_raw(self) -> (bytes: Vec<u8>)
        ensures
            bytes@ == image_bytes(self),
    {
        raw_bytes(self)
    }
}

} // verus!

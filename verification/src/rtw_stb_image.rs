use stb_image::image::LoadResult;
use vstd::prelude::*;

verus! {

/// The number of bytes that a pixel takes: red, green and blue.
pub const BYTES_PER_PIXEL: usize = 3;

/// A decoded raster image: rows of pixels from the top down, each pixel
/// three bytes. An image without data is the sign of a picture that could
/// not be had, and shows in magenta.
pub struct RtwImage {
    data: Vec<u8>,
    image_width: usize,
    image_height: usize,
    bytes_per_scanline: usize,
}

/// `x` brought into `[low, high)`: `low` where it is less, `high - 1` where
/// it is not below `high`.
pub open spec fn clamp_index(x: int, low: int, high: int) -> int {
    if x < low {
        low
    } else if x < high {
        x
    } else {
        high - 1
    }
}

/// A decoded buffer is an image: it has `BYTES_PER_PIXEL` bytes to the
/// pixel, a row of it can be addressed, and its length is that of `height`
/// rows of `width` pixels.
pub open spec fn fits_image(width: usize, height: usize, depth: usize, len: nat) -> bool {
    &&& depth == BYTES_PER_PIXEL
    &&& 3 * width <= usize::MAX
    &&& len == height * (3 * width)
}

/// `stb_image::image::load_from_memory_with_depth`, with `BYTES_PER_PIXEL`
/// bytes forced to the pixel and without conversion of high dynamic range:
/// width, height, bytes to the pixel and the bytes of the picture that the
/// file is decoded to, or `None` where the decoder fails or decodes to an
/// image of high dynamic range. Nothing is promised of the outcome. The
/// function hands the length of the file on as a C `int`, so a file of more
/// than `i32::MAX` bytes is not for it.
#[verifier::external_body]
fn decode_rgb(file: &[u8]) -> (picture: Option<(usize, usize, usize, Vec<u8>)>)
    requires
        file@.len() <= i32::MAX,
{
    match stb_image::image::load_from_memory_with_depth(file, BYTES_PER_PIXEL, false) {
        LoadResult::Error(_) => None,
        LoadResult::ImageU8(image) => Some((image.width, image.height, image.depth, image.data)),
        LoadResult::ImageF32(_) => None,
    }
}

/// `dir`, a stroke and `name`.
pub open spec fn joined(dir: Seq<char>, name: Seq<char>) -> Seq<char> {
    dir + seq!['/'] + name
}

/// `format!` with the pattern of a directory and a name: the two with a
/// stroke between them.
#[verifier::external_body]
fn join(dir: &str, name: &str) -> (path: String)
    ensures
        path@ == joined(dir@, name@),
{
    format!("{}/{}", dir, name)
}

/// The places at which a picture named `filename` is looked for, in their
/// order: below `imagedir`, if that is not empty; as named; below `assets`;
/// below `images`; and below `images` in each of the six directories above.
pub open spec fn search_order(imagedir: Seq<char>, filename: Seq<char>) -> Seq<Seq<char>> {
    let first = if imagedir.len() == 0 {
        Seq::<Seq<char>>::empty()
    } else {
        seq![joined(imagedir, filename)]
    };
    first + seq![
        filename,
        joined("assets"@, filename),
        joined("images"@, filename),
        joined("../images"@, filename),
        joined("../../images"@, filename),
        joined("../../../images"@, filename),
        joined("../../../../images"@, filename),
        joined("../../../../../images"@, filename),
        joined("../../../../../../images"@, filename),
    ]
}

/// The places at which a picture named `filename` is looked for, in their
/// order. `imagedir` is the directory that the user keeps pictures in; it is
/// passed over where it is empty.
pub fn search_paths(imagedir: &str, filename: &str) -> (paths: Vec<String>)
    ensures
        paths@.len() == search_order(imagedir@, filename@).len(),
        forall|k: int|
            0 <= k < paths@.len() ==> (#[trigger] paths@[k])@ == search_order(
                imagedir@,
                filename@,
            )[k],
{
    let mut paths: Vec<String> = Vec::new();
    if !imagedir.is_empty() {
        paths.push(join(imagedir, filename));
    }
    paths.push(filename.to_owned());
    paths.push(join("assets", filename));
    paths.push(join("images", filename));
    paths.push(join("../images", filename));
    paths.push(join("../../images", filename));
    paths.push(join("../../../images", filename));
    paths.push(join("../../../../images", filename));
    paths.push(join("../../../../../images", filename));
    paths.push(join("../../../../../../images", filename));
    paths
}

/// The offset of a pixel from that of its row stays within the row, and the
/// row within the image.
proof fn lemma_pixel_in_bounds(x: int, y: int, width: int, height: int)
    by (nonlinear_arith)
    requires
        0 <= x < width,
        0 <= y < height,
    ensures
        0 <= y * (3 * width),
        y * (3 * width) + x * 3 + 3 <= height * (3 * width),
{
}

impl RtwImage {
    #[verifier::type_invariant]
    spec fn well_formed(self) -> bool {
        &&& self.bytes_per_scanline == BYTES_PER_PIXEL * self.image_width
        &&& self.data@.len() == self.image_height * self.bytes_per_scanline
    }

    /// The bytes of the image, row by row.
    pub closed spec fn bytes(self) -> Seq<u8> {
        self.data@
    }

    /// The width that the image was loaded with.
    pub closed spec fn loaded_width(self) -> nat {
        self.image_width as nat
    }

    /// The height that the image was loaded with.
    pub closed spec fn loaded_height(self) -> nat {
        self.image_height as nat
    }

    /// The width in pixels; 0 for an image without data.
    pub open spec fn spec_width(&self) -> usize {
        if self.bytes().len() == 0 {
            0
        } else {
            self.loaded_width() as usize
        }
    }

    /// The height in pixels; 0 for an image without data.
    pub open spec fn spec_height(&self) -> usize {
        if self.bytes().len() == 0 {
            0
        } else {
            self.loaded_height() as usize
        }
    }

    /// The three bytes of the pixel in column `x` of row `y`, both clamped to
    /// the image; magenta for an image without data.
    pub open spec fn spec_pixel_data(&self, x: usize, y: usize) -> Seq<u8> {
        if self.bytes().len() == 0 {
            seq![255u8, 0u8, 255u8]
        } else {
            let column = clamp_index(x as int, 0, self.loaded_width() as int);
            let row = clamp_index(y as int, 0, self.loaded_height() as int);
            let first = row * (3 * self.loaded_width()) + column * 3;
            self.bytes().subrange(first, first + 3)
        }
    }

    /// The image without data.
    pub fn new() -> (r: RtwImage)
        ensures
            r.bytes().len() == 0,
            r.loaded_width() == 0,
            r.loaded_height() == 0,
    {
        RtwImage { data: Vec::new(), image_width: 0, image_height: 0, bytes_per_scanline: 0 }
    }

    /// Decodes the bytes of an image file and takes the picture over. Whether
    /// that succeeds is for the decoder to say, and for `load_pixels`, which
    /// is handed what the decoder gives. A file of more than `i32::MAX`
    /// bytes is never decoded. Where the load does not succeed the image is
    /// left as it was and `false` is returned.
    pub fn load(&mut self, file: &[u8]) -> (ok: bool)
        ensures
            file@.len() > i32::MAX ==> !ok,
            ok ==> final(self).bytes().len() == final(self).loaded_height() * (3 * final(
                self
            ).loaded_width()),
            !ok ==> *final(self) == *old(self),
    {
        if file.len() > 0x7fff_ffff {
            return false;
        }
        match decode_rgb(file) {
            Some((width, height, depth, data)) => self.load_pixels(width, height, depth, data),
            None => false,
        }
    }

    /// Takes over a decoded image of `width` by `height` pixels with `depth`
    /// bytes to the pixel. This succeeds where `fits_image` holds; else the
    /// image is left as it was and `false` is returned.
    pub fn load_pixels(&mut self, width: usize, height: usize, depth: usize, data: Vec<u8>) -> (ok:
        bool)
        ensures
            ok == fits_image(width, height, depth, data@.len()),
            ok ==> final(self).bytes() == data@ && final(self).loaded_width() == width
                && final(self).loaded_height() == height,
            !ok ==> *final(self) == *old(self),
    {
        let len = data.len();
        if depth != BYTES_PER_PIXEL {
            return false;
        }
        let bytes_per_scanline = match BYTES_PER_PIXEL.checked_mul(width) {
            Some(n) => n,
            None => {
                return false;
            },
        };
        proof {
            assert(height * bytes_per_scanline == height * (3 * width)) by (nonlinear_arith)
                requires
                    bytes_per_scanline == 3 * width,
            ;
        }
        let total = match height.checked_mul(bytes_per_scanline) {
            Some(n) => n,
            None => {
                return false;
            },
        };
        if len != total {
            return false;
        }
        *self = RtwImage { data, image_width: width, image_height: height, bytes_per_scanline };
        true
    }

    /// The width in pixels; 0 for an image without data.
    #[verifier::when_used_as_spec(spec_width)]
    pub fn width(&self) -> (w: usize)
        ensures
            w == self.spec_width(),
            self.bytes().len() == self.loaded_height() * (3 * self.loaded_width()),
    {
        proof {
            use_type_invariant(self);
        }
        if self.data.is_empty() {
            0
        } else {
            self.image_width
        }
    }

    /// The height in pixels; 0 for an image without data.
    #[verifier::when_used_as_spec(spec_height)]
    pub fn height(&self) -> (h: usize)
        ensures
            h == self.spec_height(),
            self.bytes().len() == self.loaded_height() * (3 * self.loaded_width()),
    {
        proof {
            use_type_invariant(self);
        }
        if self.data.is_empty() {
            0
        } else {
            self.image_height
        }
    }

    /// `x` brought into `[low, high)`, as `clamp_index` tells. `high` may be
    /// 0 only where `x` is below `low`.
    pub fn clamp(x: usize, low: usize, high: usize) -> (r: usize)
        requires
            x < low || high > 0,
        ensures
            r == clamp_index(x as int, low as int, high as int),
    {
        if x < low {
            return low;
        }
        if x < high {
            return x;
        }
        high - 1
    }

    /// The three bytes of the pixel in column `x` of row `y`. Coordinates
    /// beyond the image are clamped to it; an image without data gives
    /// magenta.
    pub fn pixel_data(&self, x: usize, y: usize) -> (pixel: [u8; 3])
        ensures
            pixel@ == self.spec_pixel_data(x, y),
            self.bytes().len() == self.loaded_height() * (3 * self.loaded_width()),
    {
        proof {
            use_type_invariant(self);
        }
        if self.data.len() == 0 {
            [255, 0, 255]
        } else {
            proof {
                assert(self.image_width > 0 && self.image_height > 0) by (nonlinear_arith)
                    requires
                        self.data@.len() == self.image_height * self.bytes_per_scanline,
                        self.bytes_per_scanline == 3 * self.image_width,
                        self.data@.len() > 0,
                ;
            }
            let x = Self::clamp(x, 0, self.image_width);
            let y = Self::clamp(y, 0, self.image_height);
            proof {
                lemma_pixel_in_bounds(
                    x as int,
                    y as int,
                    self.image_width as int,
                    self.image_height as int,
                );
                assert(y * self.bytes_per_scanline == y * (3 * self.image_width)
                    && self.image_height * self.bytes_per_scanline == self.image_height * (3
                    * self.image_width)) by (nonlinear_arith)
                    requires
                        self.bytes_per_scanline == 3 * self.image_width,
                ;
            }
            let first = y * self.bytes_per_scanline + x * BYTES_PER_PIXEL;
            [self.data[first], self.data[first + 1], self.data[first + 2]]
        }
    }
}

} // verus!

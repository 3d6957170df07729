use crate::rtw_stb_image::RtwImage;
use vstd::prelude::*;

verus! {

/// A texture that takes its colours from a raster image.
pub struct ImageTexture {
    image: RtwImage,
}

impl ImageTexture {
    /// The image that the texture reads.
    pub closed spec fn image(self) -> RtwImage {
        self.image
    }

    pub fn new(image: RtwImage) -> (r: ImageTexture)
        ensures
            r.image() == image,
    {
        ImageTexture { image }
    }

    /// The bytes of the texel in column `i` of row `j`, clamped to the
    /// image. An image without rows has no texels: the result is `None`, and
    /// the caller shows the colour that it keeps for a missing picture.
    pub fn texel(&self, i: usize, j: usize) -> (r: Option<[u8; 3]>)
        ensures
            self.image().spec_height() == 0 ==> r is None,
            self.image().spec_height() != 0 ==> r is Some && r->0@ == self.image().spec_pixel_data(
                i,
                j,
            ),
    {
        if self.image.height() == 0 {
            return None;
        }
        Some(self.image.pixel_data(i, j))
    }
}

} // verus!

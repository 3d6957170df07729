use crate::color::{
    byte_level, image_bytes, image_size, pixel_offset, write_color, Color, OutputImage,
};
use crate::utility::{integer_sqrt, lemma_sqrt_floor, sqrt_floor};
use crate::vec3::Vec3;
use vstd::arithmetic::div_mod::lemma_fundamental_div_mod_converse;
use vstd::prelude::*;

verus! {

/// The parameters of a render that are counted rather than measured: the
/// size of the image, the number of samples of each pixel and the number of
/// bounces of each path. `image_height` and `sqrt_spp` are derived from the
/// others by `initialize`.
#[derive(Clone, Copy, Debug, PartialEq, Eq, Structural)]
pub struct Camera {
    /// The width of the image in pixels.
    pub image_width: u32,
    /// The aspect ratio of the image, width over height, as a fraction.
    pub aspect_width: u32,
    pub aspect_height: u32,
    /// The number of samples asked for each pixel.
    pub samples_per_pixel: u32,
    /// The number of bounces after which a path is given up.
    pub max_depth: i32,
    /// The height of the image in pixels.
    pub image_height: u32,
    /// The number of strata along each side of a pixel.
    pub sqrt_spp: u32,
}

/// What a ray of a path came upon.
#[derive(Clone, Copy, Debug, PartialEq, Eq, Structural)]
pub enum Event {
    /// The ray hit nothing.
    Missed,
    /// The ray hit a material that does not scatter, such as a light.
    Absorbed,
    /// The ray hit a specular material, which names the one ray to follow.
    Reflected,
    /// The ray hit a material that scatters at large, and a direction was
    /// drawn from the mixture of the lights and the material.
    /// `density_is_zero` tells that the mixture has no density in that
    /// direction.
    Scattered { density_is_zero: bool },
}

/// What the estimate of the radiance along a ray is made of.
#[derive(Clone, Copy, Debug, PartialEq, Eq, Structural)]
pub enum Step {
    /// Black: the path has no bounce left.
    Exhausted,
    /// The colour of the background.
    Background,
    /// What the surface emits, and no more.
    Emission,
    /// What the surface emits and, weighed by the attenuation, the radiance
    /// along the ray that the material named, with `depth` bounces left.
    FollowReflection { depth: i32 },
    /// What the surface emits and, weighed by the attenuation and by the
    /// density of scattering over the density of the mixture, the radiance
    /// along the direction drawn, with `depth` bounces left.
    FollowSample { depth: i32 },
}

/// The step that the estimator takes for a ray with `depth` bounces left.
/// Without a bounce left nothing is looked at. A direction in which the
/// mixture has no density adds nothing to the emission: a quotient by that
/// density is never formed.
pub open spec fn step_for(depth: i32, event: Event) -> Step {
    if depth <= 0 {
        Step::Exhausted
    } else {
        match event {
            Event::Missed => Step::Background,
            Event::Absorbed => Step::Emission,
            Event::Reflected => Step::FollowReflection { depth: (depth - 1) as i32 },
            Event::Scattered { density_is_zero } => if density_is_zero {
                Step::Emission
            } else {
                Step::FollowSample { depth: (depth - 1) as i32 }
            },
        }
    }
}

/// The bounces that a path with `depth` bounces left can still make.
pub open spec fn bounces_left(depth: i32) -> nat {
    if depth <= 0 {
        0
    } else {
        depth as nat
    }
}

/// The depth with which a step goes on, if it goes on.
pub open spec fn next_depth(step: Step) -> Option<i32> {
    match step {
        Step::FollowReflection { depth } => Some(depth),
        Step::FollowSample { depth } => Some(depth),
        _ => None,
    }
}

/// A path ends: every step that goes on leaves one bounce less, so that a
/// path of `depth` bounces is followed through `depth` rays at most.
pub proof fn lemma_paths_end(depth: i32, event: Event)
    ensures
        match next_depth(step_for(depth, event)) {
            Some(next) => bounces_left(next) + 1 == bounces_left(depth),
            None => true,
        },
{
}

/// The height of an image of width `image_width` and of aspect ratio
/// `aspect_width / aspect_height`: the quotient `image_width * aspect_height
/// / aspect_width` rounded down, but at least 1 and at most `u32::MAX`. A
/// ratio of nought over something stands for an image of the greatest
/// height.
pub open spec fn height_for(image_width: u32, aspect_width: u32, aspect_height: u32) -> u32 {
    let exact: int = if aspect_width == 0 {
        if image_width == 0 || aspect_height == 0 {
            0
        } else {
            u32::MAX as int
        }
    } else {
        (image_width * aspect_height) / (aspect_width as int)
    };
    if exact < 1 {
        1
    } else if exact > u32::MAX {
        u32::MAX
    } else {
        exact as u32
    }
}

/// The cells of a grid of `columns` by `rows`, row by row: cell `k` lies in
/// column `k % columns` of row `k / columns`.
pub open spec fn is_grid(cells: Seq<(u32, u32)>, columns: u32, rows: u32) -> bool {
    &&& cells.len() == columns * rows
    &&& forall|k: int|
        0 <= k < cells.len() ==> #[trigger] cells[k] == ((k % (columns as int)) as u32, (k / (
            columns as int
        )) as u32)
}

fn grid(columns: u32, rows: u32) -> (cells: Vec<(u32, u32)>)
    ensures
        is_grid(cells@, columns, rows),
{
    let mut cells: Vec<(u32, u32)> = Vec::new();
    let mut j: u32 = 0;
    while j < rows
        invariant
            j <= rows,
            cells@.len() == columns * j,
            forall|k: int|
                0 <= k < cells@.len() ==> #[trigger] cells@[k] == ((k % (columns as int)) as u32, (k
                    / (columns as int)) as u32),
        decreases rows - j,
    {
        let mut i: u32 = 0;
        while i < columns
            invariant
                i <= columns,
                j < rows,
                cells@.len() == columns * j + i,
                forall|k: int|
                    0 <= k < cells@.len() ==> #[trigger] cells@[k] == (
                        (k % (columns as int)) as u32,
                        (k / (columns as int)) as u32,
                    ),
            decreases columns - i,
        {
            proof {
                assert(columns * j == j * columns) by (nonlinear_arith);
                lemma_fundamental_div_mod_converse(
                    columns * j + i,
                    columns as int,
                    j as int,
                    i as int,
                );
            }
            cells.push((i, j));
            i += 1;
        }
        proof {
            assert(columns * j + columns == columns * (j + 1)) by (nonlinear_arith);
        }
        j += 1;
    }
    cells
}

/// The mean of `sum` over `count` samples, rounded down. A sum that is not
/// above 0 has the mean 0, and so has any sum of no samples.
pub open spec fn mean_level(sum: i64, count: u64) -> i64 {
    if sum <= 0 || count == 0 {
        0
    } else {
        (sum as int / count as int) as i64
    }
}

fn mean(sum: i64, count: u64) -> (m: i64)
    ensures
        m == mean_level(sum, count),
{
    if sum <= 0 || count == 0 {
        0
    } else {
        let m: i128 = sum as i128 / count as i128;
        assert(0 <= sum as int / count as int <= sum) by (nonlinear_arith)
            requires
                sum > 0,
                count > 0,
        ;
        m as i64
    }
}

/// Pixel `k` of `bytes` shows the mean of `sum` over `count` samples.
pub open spec fn shows(bytes: Seq<u8>, k: int, sum: Color, count: u64) -> bool {
    &&& bytes[3 * k] == byte_level(mean_level(sum.x, count))
    &&& bytes[3 * k + 1] == byte_level(mean_level(sum.y, count))
    &&& bytes[3 * k + 2] == byte_level(mean_level(sum.z, count))
}

/// A pixel of an image lies within its rows, and its bytes within the bytes
/// of the image.
proof fn lemma_pixel_place(width: int, height: int, i: int, j: int)
    by (nonlinear_arith)
    requires
        0 <= i < width,
        0 <= j < height,
    ensures
        0 <= j * width <= j * width + i < width * height,
        j * width + width <= width * height,
        3 * (j * width + i) + 3 <= 3 * width * height,
{
}

impl Camera {
    /// The derived parameters are those that `initialize` gives.
    pub open spec fn is_initialized(&self) -> bool {
        &&& self.image_height == height_for(self.image_width, self.aspect_width, self.aspect_height)
        &&& self.sqrt_spp == sqrt_floor(self.samples_per_pixel as nat)
    }

    /// Derives the height of the image, which is at least one pixel, and the
    /// number of strata along each side of a pixel, which is the square root
    /// of the samples asked for, rounded down.
    pub fn initialize(&mut self)
        ensures
            final(self).is_initialized(),
            final(self).image_width == old(self).image_width,
            final(self).aspect_width == old(self).aspect_width,
            final(self).aspect_height == old(self).aspect_height,
            final(self).samples_per_pixel == old(self).samples_per_pixel,
            final(self).max_depth == old(self).max_depth,
            final(self).image_height >= 1,
    {
        let exact: u64 = if self.aspect_width == 0 {
            if self.image_width == 0 || self.aspect_height == 0 {
                0
            } else {
                u32::MAX as u64
            }
        } else {
            assert(self.image_width * self.aspect_height <= u32::MAX * u32::MAX) by (nonlinear_arith)
                requires
                    self.image_width <= u32::MAX,
                    self.aspect_height <= u32::MAX,
            ;
            (self.image_width as u64 * self.aspect_height as u64) / (self.aspect_width as u64)
        };
        self.image_height = if exact < 1 {
            1
        } else if exact > u32::MAX as u64 {
            u32::MAX
        } else {
            exact as u32
        };
        self.sqrt_spp = integer_sqrt(self.samples_per_pixel as u64) as u32;
    }

    /// The step that the estimator of radiance takes for a ray with `depth`
    /// bounces left. `look` tells what the ray comes upon; it is asked only
    /// where a bounce is left, so that a path that is exhausted costs no
    /// search of the scene.
    pub fn ray_color<E: FnOnce() -> Event>(depth: i32, look: E) -> (step: Step)
        requires
            call_requires(look, ()),
        ensures
            depth <= 0 ==> step == Step::Exhausted,
            depth > 0 ==> exists|event: Event|
                call_ensures(look, (), event) && step == #[trigger] step_for(depth, event),
    {
        if depth <= 0 {
            return Step::Exhausted;
        }
        let event = look();
        let step = match event {
            Event::Missed => Step::Background,
            Event::Absorbed => Step::Emission,
            Event::Reflected => Step::FollowReflection { depth: depth - 1 },
            Event::Scattered { density_is_zero } => {
                if density_is_zero {
                    Step::Emission
                } else {
                    Step::FollowSample { depth: depth - 1 }
                }
            },
        };
        assert(step == step_for(depth, event));
        step
    }

    /// The number of samples that are taken of each pixel: one for each
    /// stratum. It is the number by which the sum of the samples is divided.
    pub fn sample_count(&self) -> (n: u64)
        ensures
            n == self.sqrt_spp * self.sqrt_spp,
            self.is_initialized() ==> n <= self.samples_per_pixel,
    {
        assert(self.sqrt_spp * self.sqrt_spp <= u32::MAX * u32::MAX) by (nonlinear_arith)
            requires
                self.sqrt_spp <= u32::MAX,
        ;
        proof {
            lemma_sqrt_floor(self.samples_per_pixel as nat);
        }
        self.sqrt_spp as u64 * self.sqrt_spp as u64
    }

    /// The strata of a pixel in the order in which they are sampled: pairs
    /// `(s_i, s_j)`, all of row `s_j = 0` first.
    pub fn strata(&self) -> (cells: Vec<(u32, u32)>)
        ensures
            is_grid(cells@, self.sqrt_spp, self.sqrt_spp),
    {
        grid(self.sqrt_spp, self.sqrt_spp)
    }

    /// Makes the image of the sums of the samples of each pixel, in the
    /// order of `pixels`: each sum is divided by the number of samples taken
    /// and the mean is written as `write_color` tells. There is no image
    /// where `sums` has not one sum for each pixel, or where the bytes of the
    /// image are more than a vector can hold.
    pub fn render(&self, sums: &Vec<Color>) -> (made: Option<OutputImage>)
        ensures
            made is Some <==> sums@.len() == self.image_width * self.image_height && 3
                * self.image_width * self.image_height <= isize::MAX,
            match made {
                Some(img) => {
                    &&& image_size(img) == (self.image_width, self.image_height)
                    &&& image_bytes(img).len() == 3 * self.image_width * self.image_height
                    &&& forall|k: int|
                        0 <= k < sums@.len() ==> shows(
                            image_bytes(img),
                            k,
                            #[trigger] sums@[k],
                            (self.sqrt_spp * self.sqrt_spp) as u64,
                        )
                },
                None => true,
            },
    {
        let width = self.image_width;
        let height = self.image_height;
        assert(width * height <= 0xffff_ffff * 0xffff_ffff && width * height >= 0)
            by (nonlinear_arith)
            requires
                0 <= width <= 0xffff_ffff,
                0 <= height <= 0xffff_ffff,
        ;
        if sums.len() as u128 != width as u128 * height as u128 {
            return None;
        }
        let mut img = match OutputImage::new(width, height) {
            Some(img) => img,
            None => {
                return None;
            },
        };
        let count = self.sample_count();
        let mut j: u32 = 0;
        while j < height
            invariant
                j <= height,
                width == self.image_width,
                height == self.image_height,
                count == self.sqrt_spp * self.sqrt_spp,
                sums@.len() == width * height,
                sums@.len() <= usize::MAX,
                image_size(img) == (width, height),
                image_bytes(img).len() == 3 * width * height,
                forall|k: int|
                    0 <= k < j * width && k < sums@.len() ==> shows(
                        image_bytes(img),
                        k,
                        #[trigger] sums@[k],
                        count,
                    ),
            decreases height - j,
        {
            let mut i: u32 = 0;
            while i < width
                invariant
                    i <= width,
                    j < height,
                    width == self.image_width,
                    height == self.image_height,
                    count == self.sqrt_spp * self.sqrt_spp,
                    sums@.len() == width * height,
                    sums@.len() <= usize::MAX,
                sums@.len() <= usize::MAX,
                    image_size(img) == (width, height),
                    image_bytes(img).len() == 3 * width * height,
                    forall|k: int|
                        0 <= k < j * width + i && k < sums@.len() ==> shows(
                            image_bytes(img),
                            k,
                            #[trigger] sums@[k],
                            count,
                        ),
                decreases width - i,
            {
                proof {
                    lemma_pixel_place(width as int, height as int, i as int, j as int);
                }
                let k: usize = j as usize * width as usize + i as usize;
                let sum = sums[k];
                let color = Vec3::new(mean(sum.x, count), mean(sum.y, count), mean(sum.z, count));
                let ghost before = image_bytes(img);
                write_color(i, j, &color, &mut img);
                proof {
                    assert(pixel_offset(width, i, j) == 3 * k);
                    assert forall|m: int| 0 <= m < j * width + i + 1 && m < sums@.len() implies shows(
                        image_bytes(img),
                        m,
                        #[trigger] sums@[m],
                        count,
                    ) by {
                        if m < k {
                            assert(shows(before, m, sums@[m], count));
                        }
                    }
                }
                i += 1;
            }
            proof {
                assert(j * width + width == (j + 1) * width) by (nonlinear_arith);
            }
            j += 1;
        }
        proof {
            assert(height * width == width * height) by (nonlinear_arith);
        }
        Some(img)
    }

    /// The pixels of the image in the order in which they are rendered:
    /// pairs `(i, j)` of column and row, all of row 0 first.
    pub fn pixels(&self) -> (cells: Vec<(u32, u32)>)
        ensures
            is_grid(cells@, self.image_width, self.image_height),
    {
        grid(self.image_width, self.image_height)
    }
}

} // verus!

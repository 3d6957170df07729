//! The exact core of a path tracer.
//!
//! A path tracer measures light in floating point, and this library leaves
//! the measuring to the renderer that uses it. It holds what a renderer
//! counts, orders and decides, in whole numbers, so that every result is
//! exact and every function is proved to do what its contract says:
//!
//! - intervals, bounding boxes and rays on an integer lattice, with the
//!   slab test in exact arithmetic (`interval`, `aabb`, `ray`, `vec3`);
//! - the linear search of a list of objects and the bounding-volume
//!   hierarchy, which are proved to find the same nearest hit
//!   (`hittable`, `hittable_list`, `bvh`);
//! - the plan of a render: the size of the image, the strata of a pixel,
//!   the steps of a path, and the bytes of the finished image (`camera`,
//!   `color`);
//! - the addressing of texels, the permutation tables of gradient noise and
//!   the faces of a triangle mesh (`rtw_stb_image`, `texture`, `perlin`,
//!   `obj`).
//!
//! Lengths are `i64` values of a lattice whose unit is half of the least
//! thickness of a bounding box. Ray parameters are `i64` as well; to the
//! searches they are keys of which only the order matters. The tests of
//! single objects against a ray are the renderer's and are handed in as
//! closures.

pub mod aabb;
pub mod bvh;
pub mod camera;
pub mod color;
pub mod hittable;
pub mod hittable_list;
pub mod interval;
pub mod obj;
pub mod perlin;
pub mod ray;
pub mod rtw_stb_image;
pub mod texture;
pub mod utility;
pub mod vec3;

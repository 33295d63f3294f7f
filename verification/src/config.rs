//! Render configuration: image geometry, sampling budget, camera
//! parameters, and the scene itself.
//!
//! A render request is validated before any per-pixel work starts: zero or
//! single-pixel dimensions would make the screen-coordinate normalization
//! `(width - 1)` / `(height - 1)` meaningless, so they are rejected up
//! front.

use vstd::prelude::*;

use crate::fixed::{COORD_MAX, SCALE};
use crate::object::{world_wf, Object};
use crate::primitive::{bounded, Point};

verus! {

/// Image geometry and sampling budget, plus the optional deterministic
/// seed; `None` asks for machine entropy.
#[derive(Clone, Copy, Debug, PartialEq, Eq, Structural)]
pub struct ImageConfig {
    pub width: u32,
    pub height: u32,
    pub samples_per_pixel: usize,
    pub max_ray_depth: i32,
    pub seed: Option<u64>,
}

/// The image configurations a render accepts: both dimensions at least two
/// so screen coordinates are well defined, and caps that keep pixel sums
/// inside the fixed-point domain.
pub open spec fn image_config_wf(c: ImageConfig) -> bool {
    &&& 2 <= c.width <= 16384
    &&& 2 <= c.height <= 16384
    &&& 1 <= c.samples_per_pixel <= 65536
    &&& 1 <= c.max_ray_depth <= 4096
}

impl ImageConfig {
    /// Fail-fast validation, to run before any rendering begins.
    pub fn validate(&self) -> (r: bool)
        ensures
            r == image_config_wf(*self),
    {
        2 <= self.width && self.width <= 16384 && 2 <= self.height && self.height <= 16384
            && 1 <= self.samples_per_pixel && self.samples_per_pixel <= 65536
            && 1 <= self.max_ray_depth && self.max_ray_depth <= 4096
    }
}

/// Where the camera stands and looks, and its thin-lens parameters.
/// `focus_dist` of `None` defaults to the look-from/look-to distance.
#[derive(Clone, Copy, Debug, PartialEq, Eq, Structural)]
pub struct CameraConfig {
    pub look_from: Point,
    pub look_to: Point,
    pub vertical_fov: i64,
    pub aperture: i64,
    pub focus_dist: Option<i64>,
}

/// The camera configurations a render accepts: endpoints within a quarter
/// of the coordinate domain, a field of view under 160 degrees, an aperture
/// of at most four units and a nonnegative focus distance.
pub open spec fn camera_config_wf(c: CameraConfig) -> bool {
    &&& bounded(c.look_from, 0x10000000)
    &&& bounded(c.look_to, 0x10000000)
    &&& 0 < c.vertical_fov <= 10485760
    &&& 0 <= c.aperture <= 262144
    &&& (match c.focus_dist {
        Option::Some(f) => 0 <= f <= COORD_MAX,
        Option::None => true,
    })
}

impl CameraConfig {
    /// Fail-fast validation, to run before any rendering begins.
    pub fn validate(&self) -> (r: bool)
        ensures
            r == camera_config_wf(*self),
    {
        let e: bool = -0x10000000 <= self.look_from.x && self.look_from.x <= 0x10000000
            && -0x10000000 <= self.look_from.y && self.look_from.y <= 0x10000000 && -0x10000000
            <= self.look_from.z && self.look_from.z <= 0x10000000;
        let o: bool = -0x10000000 <= self.look_to.x && self.look_to.x <= 0x10000000 && -0x10000000
            <= self.look_to.y && self.look_to.y <= 0x10000000 && -0x10000000 <= self.look_to.z
            && self.look_to.z <= 0x10000000;
        let f: bool = match self.focus_dist {
            Option::Some(d) => 0 <= d && d <= COORD_MAX,
            Option::None => true,
        };
        e && o && f && 0 < self.vertical_fov && self.vertical_fov <= 10485760 && 0
            <= self.aperture && self.aperture <= 262144
    }
}

/// A whole render request: camera, image, scene.
#[derive(Debug)]
pub struct Config {
    pub camera: CameraConfig,
    pub image: ImageConfig,
    pub world: Vec<Object>,
}

/// Every part of the request is within the tracer's domain.
pub open spec fn config_wf(c: &Config) -> bool {
    &&& camera_config_wf(c.camera)
    &&& image_config_wf(c.image)
    &&& world_wf(c.world@)
}

} // verus!

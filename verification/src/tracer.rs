//! The integrator: per-pixel Monte Carlo estimation of radiance.
//!
//! For every pixel the tracer jitters the screen coordinate, fires a camera
//! ray, and follows it through scatter bounces up to a depth bound,
//! multiplying attenuations and adding the sky's contribution when the ray
//! escapes.  Rows are written bottom-up into the byte buffer (row `j` of
//! the image lands at buffer row `height - 1 - j`), each row drawing from a
//! sampler seeded from the render seed and the row index, so the whole
//! buffer is a pure function of scene, camera, configuration and seed.

use vstd::prelude::*;

use crate::camera::{camera_new_spec, camera_wf, get_ray_spec, Camera};
use crate::config::{camera_config_wf, image_config_wf, CameraConfig, ImageConfig};
use crate::fixed::{div_floor_i64, RAY_MAX, SCALE, T_CAP};
use crate::material::{material_scatter_spec, ScatterResult};
use crate::object::{hit_world_spec, object_hit_spec, ray_wf, world_wf, HitRecord, Object};
use crate::primitive::{
    bounded, in64, lemma_div_scale_bound, rgb_byte_spec, unit_spec, vadd, vscale, Color, Ray, Vec3,
};
use crate::rng::{resolve_seed, sm_next_state, sm_word, wrap_add, Sampler};

verus! {

/// The lower ray-parameter bound of every scene query (about 0.001 units),
/// which keeps a scattered ray from re-hitting its own origin.
pub const SHADOW_EPS: i64 = 66;

/// Pure white.
pub open spec fn white_spec() -> Color {
    Color { x: SCALE, y: SCALE, z: SCALE }
}

/// The sky's horizon-to-zenith gradient color.
pub open spec fn sky_blue_spec() -> Color {
    Color { x: 32768, y: 45875, z: SCALE }
}

/// Componentwise product of two colors.
pub open spec fn colmul(a: Color, b: Color) -> Color {
    Vec3 {
        x: (a.x * b.x / (SCALE as int)) as i64,
        y: (a.y * b.y / (SCALE as int)) as i64,
        z: (a.z * b.z / (SCALE as int)) as i64,
    }
}

/// A color channel sum after `n` samples stays within `n` units.
pub open spec fn color_in_unit(c: Color) -> bool {
    &&& 0 <= c.x <= SCALE
    &&& 0 <= c.y <= SCALE
    &&& 0 <= c.z <= SCALE
}

/// The sky color for a unit direction: blend white into blue by height.
pub open spec fn sky_spec(dir: Vec3) -> Color {
    let u = unit_spec(dir);
    let t0 = (u.y + SCALE) / 2;
    let t = if t0 < 0 {
        0
    } else if t0 > SCALE {
        SCALE as int
    } else {
        t0
    };
    vadd(vscale(white_spec(), (SCALE - t) as i64), vscale(sky_blue_spec(), t as i64))
}

/// The radiance carried back along a ray, iterated to a depth bound: at a
/// hit the path attenuation picks up the scatter's attenuation and the ray
/// continues; a miss contributes the sky and ends the path; absorption or
/// an exhausted depth budget, or a scattered ray that leaves the numeric
/// domain, contribute nothing.
pub open spec fn ray_color_spec(
    world: Seq<Object>,
    ray: Ray,
    depth: int,
    attenuation: Color,
    s0: u64,
) -> (Color, u64)
    decreases depth,
{
    if depth <= 0 {
        (Color { x: 0, y: 0, z: 0 }, s0)
    } else {
        match hit_world_spec(world, ray, SHADOW_EPS, T_CAP) {
            Option::Some(rec) => {
                let (sc, s1) = material_scatter_spec(rec.material, ray, rec, s0);
                match sc {
                    Option::Some(res) => {
                        if ray_wf(res.ray) {
                            ray_color_spec(
                                world,
                                res.ray,
                                depth - 1,
                                colmul(attenuation, res.attenuation),
                                s1,
                            )
                        } else {
                            (Color { x: 0, y: 0, z: 0 }, s1)
                        }
                    },
                    Option::None => (Color { x: 0, y: 0, z: 0 }, s1),
                }
            },
            Option::None => (colmul(attenuation, sky_spec(ray.direction)), s0),
        }
    }
}

/// A product of two unit-range channels is a unit-range channel.
pub proof fn lemma_colmul_unit(a: Color, b: Color)
    requires
        color_in_unit(a),
        color_in_unit(b),
    ensures
        color_in_unit(colmul(a, b)),
        in64(a.x * b.x / (SCALE as int)),
        in64(a.y * b.y / (SCALE as int)),
        in64(a.z * b.z / (SCALE as int)),
{
    assert({
        &&& 0 <= a.x * b.x <= 0x100000000
        &&& 0 <= a.y * b.y <= 0x100000000
        &&& 0 <= a.z * b.z <= 0x100000000
    }) by (nonlinear_arith)
        requires
            color_in_unit(a),
            color_in_unit(b),
            SCALE == 65536,
    {
    }
    vstd::arithmetic::div_mod::lemma_div_pos_is_pos(a.x * b.x, SCALE as int);
    vstd::arithmetic::div_mod::lemma_div_pos_is_pos(a.y * b.y, SCALE as int);
    vstd::arithmetic::div_mod::lemma_div_pos_is_pos(a.z * b.z, SCALE as int);
    vstd::arithmetic::div_mod::lemma_div_is_ordered(a.x * b.x, 0x100000000, SCALE as int);
    vstd::arithmetic::div_mod::lemma_div_is_ordered(a.y * b.y, 0x100000000, SCALE as int);
    vstd::arithmetic::div_mod::lemma_div_is_ordered(a.z * b.z, 0x100000000, SCALE as int);
    assert(0x100000000int / 65536int == 65536int);
}

/// The sky color has unit-range channels.
pub proof fn lemma_sky_unit(dir: Vec3)
    ensures
        color_in_unit(sky_spec(dir)),
{
    let u = unit_spec(dir);
    let t0 = (u.y + SCALE) / 2;
    let t = if t0 < 0 {
        0int
    } else if t0 > SCALE {
        SCALE as int
    } else {
        t0
    };
    assert(65536 * (65536 - t) / 65536 == 65536 - t) by (nonlinear_arith)
        requires
            0 <= t <= 65536,
    {
    }
    vstd::arithmetic::div_mod::lemma_div_pos_is_pos(32768 * t, SCALE as int);
    vstd::arithmetic::div_mod::lemma_div_pos_is_pos(45875 * t, SCALE as int);
    vstd::arithmetic::div_mod::lemma_div_pos_is_pos(65536 * t, SCALE as int);
    assert(32768 * t <= 65536 * t && 45875 * t <= 65536 * t) by (nonlinear_arith)
        requires
            0 <= t,
    {
    }
    vstd::arithmetic::div_mod::lemma_div_is_ordered(32768 * t, 65536 * t, SCALE as int);
    vstd::arithmetic::div_mod::lemma_div_is_ordered(45875 * t, 65536 * t, SCALE as int);
    assert(65536 * t / 65536 == t) by (nonlinear_arith)
        requires
            0 <= t,
    {
    }
}

/// Follow one ray through the scene, up to `depth` bounces.
#[verifier::loop_isolation(false)]
#[verifier::rlimit(100)]
pub fn ray_color(rng: &mut Sampler, ray: Ray, world: &[Object], depth: i32) -> (r: Color)
    requires
        world_wf(world@),
        ray_wf(ray),
        0 <= depth <= 4096,
    ensures
        ({
            let (c, s) = ray_color_spec(world@, ray, depth as int, white_spec(), old(rng).state);
            r == c && final(rng).state == s
        }),
        color_in_unit(r),
{
    let mut attenuation: Color = Vec3::new(SCALE, SCALE, SCALE);
    let mut current_ray: Ray = ray;
    let mut d: i32 = depth;
    while d > 0
        invariant
            ray_wf(current_ray),
            0 <= d <= depth,
            color_in_unit(attenuation),
            ray_color_spec(world@, ray, depth as int, white_spec(), old(rng).state)
                == ray_color_spec(world@, current_ray, d as int, attenuation, rng.state),
        decreases d,
    {
        let hit_res: Option<HitRecord> = crate::object::hit(world, current_ray, SHADOW_EPS, T_CAP);
        match hit_res {
            Option::Some(rec) => {
                proof {
                    let i = choose|i: int|
                        0 <= i < world@.len() && object_hit_spec(#[trigger] world@[i], current_ray,
                        SHADOW_EPS, T_CAP) == Option::Some(rec);
                    crate::object::lemma_object_hit_material(world@[i], current_ray, SHADOW_EPS,
                        T_CAP);
                    assert(crate::object::object_wf(world@[i]));
                }
                let sc: Option<ScatterResult> = rec.material.scatter(rng, &current_ray, &rec);
                match sc {
                    Option::Some(res) => {
                        let o: Vec3 = res.ray.origin;
                        if -RAY_MAX <= o.x && o.x <= RAY_MAX && -RAY_MAX <= o.y && o.y <= RAY_MAX
                            && -RAY_MAX <= o.z && o.z <= RAY_MAX {
                            proof {
                                lemma_colmul_unit(attenuation, res.attenuation);
                            }
                            attenuation = attenuation.mul(res.attenuation);
                            current_ray = res.ray;
                            d = d - 1;
                        } else {
                            return Vec3::new(0, 0, 0);
                        }
                    },
                    Option::None => {
                        return Vec3::new(0, 0, 0);
                    },
                }
            },
            Option::None => {
                let sky: Color = sky_color(current_ray.direction);
                proof {
                    lemma_colmul_unit(attenuation, sky);
                }
                return attenuation.mul(sky);
            },
        }
    }
    Vec3::new(0, 0, 0)
}

/// The sky gradient for a ray direction, executable form of `sky_spec`.
pub fn sky_color(dir: Vec3) -> (r: Color)
    requires
        bounded(dir, RAY_MAX as int),
    ensures
        r == sky_spec(dir),
        color_in_unit(r),
{
    let u: Vec3 = dir.unit_vector();
    let t0: i64 = div_floor_i64(u.y + SCALE, 2);
    let t: i64 = if t0 < 0 {
        0
    } else if t0 > SCALE {
        SCALE
    } else {
        t0
    };
    proof {
        lemma_div_scale_bound(65536 * ((SCALE - t) as int), SCALE as int, 0x100000000);
        lemma_div_scale_bound(32768 * (t as int), SCALE as int, 0x100000000);
        lemma_div_scale_bound(45875 * (t as int), SCALE as int, 0x100000000);
        lemma_div_scale_bound(65536 * (t as int), SCALE as int, 0x100000000);
        lemma_sky_unit(dir);
    }
    let white: Color = Vec3::new(SCALE, SCALE, SCALE);
    let blue: Color = Vec3::new(32768, 45875, SCALE);
    white.scale(SCALE - t).add(blue.scale(t))
}

/// One Monte Carlo sample of one pixel: jitter the screen coordinate,
/// build the camera ray, and trace it.
pub open spec fn pixel_sample_spec(
    world: Seq<Object>,
    cam: Camera,
    width: u32,
    height: u32,
    depth: i32,
    i: u32,
    j: u32,
    s0: u64,
) -> (Color, u64) {
    let jx = sm_word(s0) as int % (SCALE as int);
    let s1 = sm_next_state(s0);
    let jy = sm_word(s1) as int % (SCALE as int);
    let s2 = sm_next_state(s1);
    let u0 = (i * 65536 + jx) / ((width - 1) as int);
    let u = if u0 > SCALE {
        SCALE as int
    } else {
        u0
    };
    let v0 = (j * 65536 + jy) / ((height - 1) as int);
    let v = if v0 > SCALE {
        SCALE as int
    } else {
        v0
    };
    let (ray, s3) = get_ray_spec(cam, u as i64, v as i64, s2);
    ray_color_spec(world, ray, depth as int, white_spec(), s3)
}

/// The sum of the first `n` samples of a pixel.
pub open spec fn pixel_accum_spec(
    world: Seq<Object>,
    cam: Camera,
    width: u32,
    height: u32,
    depth: i32,
    i: u32,
    j: u32,
    n: int,
    s0: u64,
) -> (Color, u64)
    decreases n,
{
    if n <= 0 {
        (Color { x: 0, y: 0, z: 0 }, s0)
    } else {
        let (acc, s1) = pixel_accum_spec(world, cam, width, height, depth, i, j, n - 1, s0);
        let (c, s2) = pixel_sample_spec(world, cam, width, height, depth, i, j, s1);
        (Vec3 { x: (acc.x + c.x) as i64, y: (acc.y + c.y) as i64, z: (acc.z + c.z) as i64 }, s2)
    }
}

/// The three bytes of one pixel: sample sums averaged, gamma corrected and
/// quantized.
pub open spec fn pixel_bytes_spec(
    world: Seq<Object>,
    cam: Camera,
    width: u32,
    height: u32,
    spp: usize,
    depth: i32,
    i: u32,
    j: u32,
    s0: u64,
) -> (Seq<u8>, u64) {
    let (acc, s1) = pixel_accum_spec(world, cam, width, height, depth, i, j, spp as int, s0);
    let scale = (SCALE as int) / (spp as int);
    (
        seq![
            rgb_byte_spec(acc.x as int, scale),
            rgb_byte_spec(acc.y as int, scale),
            rgb_byte_spec(acc.z as int, scale),
        ],
        s1,
    )
}

/// Where image row `j`'s sampler starts: a mix of the render seed and the
/// row index, so rows are independent and the whole render is a function of
/// the seed.
pub open spec fn row_start_state(seed: u64, j: u32) -> u64 {
    sm_word(wrap_add(seed, j as u64))
}

/// The bytes of the first `n` pixels of image row `j`.
pub open spec fn row_accum_spec(
    world: Seq<Object>,
    cam: Camera,
    width: u32,
    height: u32,
    spp: usize,
    depth: i32,
    j: u32,
    seed: u64,
    n: int,
) -> (Seq<u8>, u64)
    decreases n,
{
    if n <= 0 {
        (Seq::empty(), row_start_state(seed, j))
    } else {
        let (bytes, s1) = row_accum_spec(world, cam, width, height, spp, depth, j, seed, n - 1);
        let (b3, s2) = pixel_bytes_spec(
            world,
            cam,
            width,
            height,
            spp,
            depth,
            (n - 1) as u32,
            j,
            s1,
        );
        (bytes + b3, s2)
    }
}

/// The bytes of one whole image row.
pub open spec fn row_bytes_spec(
    world: Seq<Object>,
    cam: Camera,
    width: u32,
    height: u32,
    spp: usize,
    depth: i32,
    j: u32,
    seed: u64,
) -> Seq<u8> {
    row_accum_spec(world, cam, width, height, spp, depth, j, seed, width as int).0
}

/// The first `n` buffer rows: buffer row `r` holds image row
/// `height - 1 - r`, the vertical flip of the coordinate mapping.
pub open spec fn render_rows_spec(
    world: Seq<Object>,
    cam: Camera,
    width: u32,
    height: u32,
    spp: usize,
    depth: i32,
    seed: u64,
    n: int,
) -> Seq<u8>
    decreases n,
{
    if n <= 0 {
        Seq::empty()
    } else {
        render_rows_spec(world, cam, width, height, spp, depth, seed, n - 1) + row_bytes_spec(
            world,
            cam,
            width,
            height,
            spp,
            depth,
            (height - n) as u32,
            seed,
        )
    }
}

/// The whole rendered buffer as a function of scene, camera, image
/// configuration and seed.
pub open spec fn render_spec(
    world: Seq<Object>,
    cam: Camera,
    width: u32,
    height: u32,
    spp: usize,
    depth: i32,
    seed: u64,
) -> Seq<u8> {
    render_rows_spec(world, cam, width, height, spp, depth, seed, height as int)
}

/// Estimate one pixel: average `spp` jittered samples, gamma correct and
/// quantize.
#[verifier::loop_isolation(false)]
#[verifier::rlimit(100)]
pub fn render_pixel(
    world: &[Object],
    cam: &Camera,
    width: u32,
    height: u32,
    spp: usize,
    depth: i32,
    i: u32,
    j: u32,
    rng: &mut Sampler,
) -> (r: [u8; 3])
    requires
        world_wf(world@),
        camera_wf(*cam),
        2 <= width <= 16384,
        2 <= height <= 16384,
        1 <= spp <= 65536,
        0 <= depth <= 4096,
        i < width,
        j < height,
    ensures
        ({
            let (bytes, s) = pixel_bytes_spec(
                world@,
                *cam,
                width,
                height,
                spp,
                depth,
                i,
                j,
                old(rng).state,
            );
            r@ == bytes && final(rng).state == s
        }),
{
    let mut acc: Color = Vec3::new(0, 0, 0);
    let mut n: usize = 0;
    while n < spp
        invariant
            0 <= acc.x <= n * 65536,
            0 <= acc.y <= n * 65536,
            0 <= acc.z <= n * 65536,
            n <= spp,
            (acc, rng.state) == pixel_accum_spec(
                world@,
                *cam,
                width,
                height,
                depth,
                i,
                j,
                n as int,
                old(rng).state,
            ),
        decreases spp - n,
    {
        let jx: i64 = rng.next_below(SCALE);
        let jy: i64 = rng.next_below(SCALE);
        let nu: i64 = (i as i64) * 65536 + jx;
        let u0: i64 = div_floor_i64(nu, (width - 1) as i64);
        proof {
            vstd::arithmetic::div_mod::lemma_div_pos_is_pos(nu as int, (width - 1) as int);
        }
        let u: i64 = if u0 > SCALE {
            SCALE
        } else {
            u0
        };
        let nv: i64 = (j as i64) * 65536 + jy;
        let v0: i64 = div_floor_i64(nv, (height - 1) as i64);
        proof {
            vstd::arithmetic::div_mod::lemma_div_pos_is_pos(nv as int, (height - 1) as int);
        }
        let v: i64 = if v0 > SCALE {
            SCALE
        } else {
            v0
        };
        let ray: Ray = cam.get_ray(rng, u, v);
        let c: Color = ray_color(rng, ray, world, depth);
        acc = acc.add(c);
        n = n + 1;
    }
    let scale: i64 = div_floor_i64(SCALE, spp as i64);
    proof {
        vstd::arithmetic::div_mod::lemma_div_pos_is_pos(SCALE as int, spp as int);
        vstd::arithmetic::div_mod::lemma_div_is_ordered(SCALE as int, SCALE as int, 1);
        vstd::arithmetic::div_mod::lemma_div_is_ordered_by_denominator(SCALE as int, 1, spp as int);
    }
    let bytes: [u8; 3] = acc.to_rgb(scale);
    proof {
        let (bspec, s) = pixel_bytes_spec(
            world@,
            *cam,
            width,
            height,
            spp,
            depth,
            i,
            j,
            old(rng).state,
        );
        assert(bytes@ =~= bspec);
    }
    bytes
}

/// Render one whole image row; the row's sampler is derived from the seed
/// and the row index alone.
#[verifier::loop_isolation(false)]
#[verifier::rlimit(100)]
pub fn render_row(
    world: &[Object],
    cam: &Camera,
    width: u32,
    height: u32,
    spp: usize,
    depth: i32,
    j: u32,
    seed: u64,
) -> (row: Vec<u8>)
    requires
        world_wf(world@),
        camera_wf(*cam),
        2 <= width <= 16384,
        2 <= height <= 16384,
        1 <= spp <= 65536,
        0 <= depth <= 4096,
        j < height,
    ensures
        row@ == row_bytes_spec(world@, *cam, width, height, spp, depth, j, seed),
        row@.len() == width * 3,
{
    let mut seeder: Sampler = Sampler::new(crate::rng::wrap_add_exec(seed, j as u64));
    let w0: u64 = seeder.next_u64();
    let mut rng: Sampler = Sampler::new(w0);
    let mut row: Vec<u8> = Vec::new();
    let mut i: u32 = 0;
    while i < width
        invariant
            i <= width,
            ({
                let (bytes, s) = row_accum_spec(
                    world@,
                    *cam,
                    width,
                    height,
                    spp,
                    depth,
                    j,
                    seed,
                    i as int,
                );
                row@ == bytes && rng.state == s
            }),
            row@.len() == i * 3,
        decreases width - i,
    {
        let px: [u8; 3] = render_pixel(world, cam, width, height, spp, depth, i, j, &mut rng);
        let b0: u8 = px[0];
        let b1: u8 = px[1];
        let b2: u8 = px[2];
        row.push(b0);
        row.push(b1);
        row.push(b2);
        proof {
            let (bytes, s) = row_accum_spec(
                world@,
                *cam,
                width,
                height,
                spp,
                depth,
                j,
                seed,
                i as int + 1,
            );
            assert(row@ =~= bytes);
        }
        i = i + 1;
    }
    row
}

/// The renderer: a pixel buffer, the camera, and the sampling budget.
pub struct Tracer {
    pub pixels: Vec<u8>,
    pub camera: Camera,
    pub config: ImageConfig,
    pub spp: usize,
}

/// The tracers `render` accepts.
pub open spec fn tracer_wf(t: &Tracer) -> bool {
    &&& camera_wf(t.camera)
    &&& image_config_wf(t.config)
    &&& 1 <= t.spp <= 65536
}

/// The aspect ratio a tracer builds its camera with: width over height in
/// fixed point, clamped into the camera's accepted range.
pub open spec fn aspect_spec(width: u32, height: u32) -> int {
    let a = (width * 65536) as int / (height as int);
    if a < 1 {
        1
    } else if a > 1048576 {
        1048576
    } else {
        a
    }
}

impl Tracer {
    /// Set up a renderer: build the camera from the image's aspect ratio
    /// and start from an all-black buffer.
    pub fn new(config: ImageConfig, camera: CameraConfig) -> (r: Self)
        requires
            image_config_wf(config),
            camera_config_wf(camera),
        ensures
            r.config == config,
            r.spp == config.samples_per_pixel,
            r.camera == camera_new_spec(camera, aspect_spec(config.width, config.height) as i64),
            tracer_wf(&r),
            r.buffer_view().len() == config.width * config.height * 3,
            forall|k: int| 0 <= k < r.buffer_view().len() ==> r.buffer_view()[k] == 0u8,
    {
        let wi: i64 = (config.width as i64) * 65536;
        let a0: i64 = div_floor_i64(wi, config.height as i64);
        proof {
            vstd::arithmetic::div_mod::lemma_div_pos_is_pos(wi as int, config.height as int);
            lemma_div_scale_bound(wi as int, config.height as int, 0x40000000000);
        }
        let aspect: i64 = if a0 < 1 {
            1
        } else if a0 > 1048576 {
            1048576
        } else {
            a0
        };
        let cam: Camera = Camera::new(camera, aspect);
        proof {
            assert((config.width as int) * (config.height as int) * 3 <= 0x30000000 && (
            config.width as int) * (config.height as int) <= 0x10000000) by (nonlinear_arith)
                requires
                    2 <= config.width <= 16384,
                    2 <= config.height <= 16384,
            {
            }
        }
        let wh: usize = (config.width as usize) * (config.height as usize);
        let total: usize = wh * 3;
        let mut pixels: Vec<u8> = Vec::new();
        let mut k: usize = 0;
        while k < total
            invariant
                k <= total,
                pixels@.len() == k,
                forall|q: int| 0 <= q < k ==> pixels@[q] == 0u8,
            decreases total - k,
        {
            pixels.push(0u8);
            k = k + 1;
        }
        proof {
            assert(total == config.width * config.height * 3) by (nonlinear_arith)
                requires
                    2 <= config.width <= 16384,
                    2 <= config.height <= 16384,
                    total == (config.width as usize) * (config.height as usize) * 3,
            {
            }
        }
        Tracer { pixels, camera: cam, config, spp: config.samples_per_pixel }
    }

    /// The rendered bytes, as a mathematical sequence.
    pub open spec fn buffer_view(&self) -> Seq<u8> {
        self.pixels@
    }

    /// Mutable access to the raw byte buffer, for display or encoding.
    pub fn buffer_mut(&mut self) -> (r: &mut Vec<u8>)
        ensures
            (*r)@ == old(self).buffer_view(),
            final(self).buffer_view() == (*final(r))@,
            final(self).camera == old(self).camera,
            final(self).config == old(self).config,
            final(self).spp == old(self).spp,
    {
        &mut self.pixels
    }

    /// Render the scene into the buffer, bottom row of the image last.
    /// With a configured seed the buffer is exactly `render_spec` at that
    /// seed; without one, at some entropy word.
    #[verifier::loop_isolation(false)]
    #[verifier::rlimit(100)]
    pub fn render(&mut self, world: &[Object])
        requires
            tracer_wf(&*old(self)),
            world_wf(world@),
        ensures
            final(self).camera == old(self).camera,
            final(self).config == old(self).config,
            final(self).spp == old(self).spp,
            tracer_wf(&*final(self)),
            final(self).buffer_view().len() == old(self).config.height * (3 * old(
                self,
            ).config.width),
            exists|e: u64|
                #![auto]
                final(self).buffer_view() == render_spec(
                    world@,
                    old(self).camera,
                    old(self).config.width,
                    old(self).config.height,
                    old(self).spp,
                    old(self).config.max_ray_depth,
                    e,
                ) && (match old(self).config.seed {
                    Option::Some(s) => e == s,
                    Option::None => true,
                }),
    {
        let seed: u64 = resolve_seed(self.config.seed);
        let width: u32 = self.config.width;
        let height: u32 = self.config.height;
        let cam: Camera = self.camera;
        let spp: usize = self.spp;
        let depth: i32 = self.config.max_ray_depth;
        let mut buf: Vec<u8> = Vec::new();
        let mut r: u32 = 0;
        while r < height
            invariant
                r <= height,
                buf@ == render_rows_spec(world@, cam, width, height, spp, depth, seed, r as int),
            decreases height - r,
        {
            let j: u32 = height - 1 - r;
            let mut rowv: Vec<u8> = render_row(world, &cam, width, height, spp, depth, j, seed);
            buf.append(&mut rowv);
            r = r + 1;
        }
        proof {
            assert(buf@ == render_spec(world@, cam, width, height, spp, depth, seed));
            lemma_render_rows_len(world@, cam, width, height, spp, depth, seed, height as int);
        }
        self.pixels = buf;
    }
}

/// A ray that hits nothing contributes exactly the sky gradient, at any
/// positive depth budget.
pub proof fn lemma_miss_gives_sky(world: Seq<Object>, ray: Ray, depth: int, s0: u64)
    requires
        hit_world_spec(world, ray, SHADOW_EPS, T_CAP) matches Option::None,
        depth >= 1,
    ensures
        ray_color_spec(world, ray, depth, white_spec(), s0) == (sky_spec(ray.direction), s0),
{
    let sky = sky_spec(ray.direction);
    lemma_sky_unit(ray.direction);
    vstd::arithmetic::div_mod::lemma_div_multiples_vanish(sky.x as int, SCALE as int);
    vstd::arithmetic::div_mod::lemma_div_multiples_vanish(sky.y as int, SCALE as int);
    vstd::arithmetic::div_mod::lemma_div_multiples_vanish(sky.z as int, SCALE as int);
    assert(white_spec().x * sky.x == (SCALE as int) * (sky.x as int)) by (nonlinear_arith) {}
    assert(white_spec().y * sky.y == (SCALE as int) * (sky.y as int)) by (nonlinear_arith) {}
    assert(white_spec().z * sky.z == (SCALE as int) * (sky.z as int)) by (nonlinear_arith) {}
    assert(colmul(white_spec(), sky) == sky);
}

/// Two renders of the same scene, camera, image configuration and seed
/// produce byte-identical buffers: the render is a pure function of its
/// inputs and the seed.
pub proof fn lemma_render_deterministic(
    b1: Seq<u8>,
    b2: Seq<u8>,
    world: Seq<Object>,
    cam: Camera,
    width: u32,
    height: u32,
    spp: usize,
    depth: i32,
    seed: u64,
)
    requires
        b1 == render_spec(world, cam, width, height, spp, depth, seed),
        b2 == render_spec(world, cam, width, height, spp, depth, seed),
    ensures
        b1 == b2,
{
}

/// A row's bytes are three per pixel.
#[verifier::rlimit(100)]
pub proof fn lemma_row_accum_len(
    world: Seq<Object>,
    cam: Camera,
    width: u32,
    height: u32,
    spp: usize,
    depth: i32,
    j: u32,
    seed: u64,
    n: int,
)
    requires
        0 <= n,
    ensures
        row_accum_spec(world, cam, width, height, spp, depth, j, seed, n).0.len() == 3 * n,
    decreases n,
{
    if n > 0 {
        lemma_row_accum_len(world, cam, width, height, spp, depth, j, seed, n - 1);
    }
}

/// A rendered buffer holds `3 * width` bytes per row.
pub proof fn lemma_render_rows_len(
    world: Seq<Object>,
    cam: Camera,
    width: u32,
    height: u32,
    spp: usize,
    depth: i32,
    seed: u64,
    n: int,
)
    requires
        0 <= n,
    ensures
        render_rows_spec(world, cam, width, height, spp, depth, seed, n).len() == n * (3 * (
        width as int)),
    decreases n,
{
    if n > 0 {
        lemma_render_rows_len(world, cam, width, height, spp, depth, seed, n - 1);
        lemma_row_accum_len(world, cam, width, height, spp, depth, (height - n) as u32, seed,
            width as int);
        assert(n * (3 * (width as int)) == (n - 1) * (3 * (width as int)) + 3 * (width as int))
            by (nonlinear_arith)
        {
        }
    } else {
        assert(n * (3 * (width as int)) == 0) by (nonlinear_arith)
            requires
                n == 0,
        {
        }
    }
}

proof fn lemma_rows_flip(
    world: Seq<Object>,
    cam: Camera,
    width: u32,
    height: u32,
    spp: usize,
    depth: i32,
    seed: u64,
    n: int,
    r: int,
)
    requires
        0 <= r < n <= height,
    ensures
        render_rows_spec(world, cam, width, height, spp, depth, seed, n).subrange(
            r * (3 * (width as int)),
            (r + 1) * (3 * (width as int)),
        ) == row_bytes_spec(world, cam, width, height, spp, depth, (height - 1 - r) as u32, seed),
    decreases n,
{
    let w3 = 3 * (width as int);
    lemma_render_rows_len(world, cam, width, height, spp, depth, seed, n - 1);
    lemma_render_rows_len(world, cam, width, height, spp, depth, seed, n);
    lemma_row_accum_len(world, cam, width, height, spp, depth, (height - n) as u32, seed,
        width as int);
    assert(0 <= r * w3 && (r + 1) * w3 == r * w3 + w3 && r * w3 <= (n - 1) * w3 && n * w3 == (n
        - 1) * w3 + w3) by (nonlinear_arith)
        requires
            0 <= r < n,
            0 <= w3,
    {
    }
    if r == n - 1 {
        assert(render_rows_spec(world, cam, width, height, spp, depth, seed, n).subrange(
            r * w3,
            (r + 1) * w3,
        ) =~= row_bytes_spec(world, cam, width, height, spp, depth, (height - n) as u32, seed));
    } else {
        lemma_rows_flip(world, cam, width, height, spp, depth, seed, n - 1, r);
        assert((r + 1) * w3 <= (n - 1) * w3) by (nonlinear_arith)
            requires
                r + 1 <= n - 1,
                0 <= w3,
        {
        }
        assert(render_rows_spec(world, cam, width, height, spp, depth, seed, n).subrange(
            r * w3,
            (r + 1) * w3,
        ) =~= render_rows_spec(world, cam, width, height, spp, depth, seed, n - 1).subrange(
            r * w3,
            (r + 1) * w3,
        ));
    }
}

/// The vertical flip of the coordinate mapping: buffer row `r` of a render
/// holds exactly image row `height - 1 - r`, so the top buffer row shows
/// the top of the image (screen coordinate `v` near one) and the last
/// buffer row the bottom (`v` near zero).
pub proof fn lemma_vertical_flip(
    world: Seq<Object>,
    cam: Camera,
    width: u32,
    height: u32,
    spp: usize,
    depth: i32,
    seed: u64,
    r: int,
)
    requires
        0 <= r < height,
    ensures
        render_spec(world, cam, width, height, spp, depth, seed).subrange(
            r * (3 * (width as int)),
            (r + 1) * (3 * (width as int)),
        ) == row_bytes_spec(world, cam, width, height, spp, depth, (height - 1 - r) as u32, seed),
{
    lemma_rows_flip(world, cam, width, height, spp, depth, seed, height as int, r);
}

} // verus!

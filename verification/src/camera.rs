//! The thin-lens camera: maps normalized image-plane coordinates and a lens
//! sample to a world-space ray, and supports free-fly movement and
//! mouse-look for an interactive shell.
//!
//! The vertical field of view is turned into a viewport height through a
//! rational approximation of the sine (exact at 0, 45 and 90 degrees), so
//! camera construction stays inside integer arithmetic.  Values that
//! rounding could push outside the tracer's numeric domain are clamped, and
//! every clamp is part of the specification.

use vstd::prelude::*;

use crate::config::{camera_config_wf, CameraConfig};
use crate::fixed::{div_floor_i128, div_floor_i64, SCALE};
use crate::object::ray_wf;
use crate::primitive::{
    bounded, disk_sample_spec, dot_spec, in64, lemma_div_scale_bound, lemma_dot_bound,
    lemma_muldiv_bound, len_spec, muldiv, unit_spec, vadd, vcross, vscale, vsub, Point, Ray, Vec3,
};
use crate::rng::Sampler;

verus! {

/// World-units moved per key press (0.1 unit).
pub const MOVE_SPEED: i64 = 6554;

/// Radians turned per pixel of mouse travel (about 0.001).
pub const ROTATE_SPEED: i64 = 66;

/// 180 degrees in fixed point.
pub const HALF_TURN: i64 = 11796480;

/// 90 degrees in fixed point.
pub const QUARTER_TURN: i64 = 5898240;

/// The constant term of the rational sine's denominator, `40500 * SCALE^2`.
pub const SINE_DEN: i64 = 173946175488000;

/// Ceiling for the half-angle tangent (16 units).
pub const TAN_CAP: i64 = 1048576;

/// Ceiling for viewport extents (32 units).
pub const VIEW_CAP: i64 = 2097152;

/// Ceiling for the focus distance (1024 units).
pub const FOCUS_CAP: i64 = 67108864;

/// One half in fixed point.
pub const HALF: i64 = 32768;

/// The rational sine of an angle `d` given in fixed-point degrees, clamped
/// to at most two units; exact at 0, 45 and 90 degrees.
pub open spec fn bsin_spec(d: int) -> int {
    let g = d * (HALF_TURN - d);
    let q = (4 * g * 65536) / (SINE_DEN - g);
    if q > 131072 {
        131072
    } else {
        q
    }
}

/// The tangent of half the angle `fov` (fixed-point degrees), as the ratio
/// of the rational sine to the rational cosine, clamped to `TAN_CAP`.
pub open spec fn tan_half_spec(fov: int) -> int {
    let theta = fov / 2;
    let s = bsin_spec(theta);
    let c = bsin_spec(QUARTER_TURN - theta);
    if c <= 0 {
        TAN_CAP as int
    } else {
        let q = s * SCALE / c;
        if q > TAN_CAP {
            TAN_CAP as int
        } else {
            q
        }
    }
}

/// Rational sine, executable form of `bsin_spec`.
fn bsin(d: i64) -> (r: i64)
    requires
        0 <= d <= HALF_TURN,
    ensures
        r == bsin_spec(d as int),
        0 <= r <= 131072,
{
    proof {
        assert(0 <= d as int * (HALF_TURN - d) <= 34789235097600) by (nonlinear_arith)
            requires
                0 <= d <= 11796480,
                HALF_TURN == 11796480,
        {
            assert((2 * d - 11796480) * (2 * d - 11796480) >= 0);
        }
    }
    let g: i128 = (d as i128) * ((HALF_TURN - d) as i128);
    let num: i128 = 4 * g * 65536;
    let den: i128 = (SINE_DEN as i128) - g;
    let q: i128 = div_floor_i128(num, den);
    proof {
        vstd::arithmetic::div_mod::lemma_div_pos_is_pos(num as int, den as int);
    }
    if q > 131072 {
        131072
    } else {
        q as i64
    }
}

/// Half-angle tangent, executable form of `tan_half_spec`.
pub fn tan_half(fov: i64) -> (r: i64)
    requires
        0 < fov <= 10485760,
    ensures
        r == tan_half_spec(fov as int),
        0 <= r <= TAN_CAP,
{
    let theta: i64 = div_floor_i64(fov, 2);
    let s: i64 = bsin(theta);
    let c: i64 = bsin(QUARTER_TURN - theta);
    if c <= 0 {
        TAN_CAP
    } else {
        proof {
            lemma_div_scale_bound(s as int * SCALE, c as int, 0x200000000);
            vstd::arithmetic::div_mod::lemma_div_pos_is_pos(s as int * SCALE, c as int);
        }
        let q: i64 = muldiv(s, SCALE, c);
        if q > TAN_CAP {
            TAN_CAP
        } else {
            q
        }
    }
}

/// Per-frame camera state: viewport extents, position, unit view direction
/// (pointing from the look-at target toward the camera), lens parameters
/// and the configuration it was built from.
#[derive(Clone, Copy, Debug)]
pub struct Camera {
    pub viewport: (i64, i64),
    pub origin: Point,
    pub direction: Vec3,
    pub aperture: i64,
    pub focus_dist: i64,
    pub config: CameraConfig,
}

/// The cameras `get_ray` accepts: all fields inside the numeric domain.
pub open spec fn camera_wf(c: Camera) -> bool {
    &&& bounded(c.origin, 0x10000000)
    &&& bounded(c.direction, 4 * SCALE)
    &&& 0 <= c.aperture <= 262144
    &&& 0 <= c.focus_dist <= FOCUS_CAP
    &&& 0 <= c.viewport.0 <= VIEW_CAP
    &&& 0 <= c.viewport.1 <= VIEW_CAP
}

/// What `Camera::new` builds, including every clamp.
pub open spec fn camera_new_spec(config: CameraConfig, aspect_ratio: i64) -> Camera {
    let vh = 2 * tan_half_spec(config.vertical_fov as int);
    let vw0 = aspect_ratio * vh / (SCALE as int);
    let vw = if vw0 > VIEW_CAP {
        VIEW_CAP as int
    } else {
        vw0
    };
    let oc = vsub(config.look_from, config.look_to);
    let dir = unit_spec(oc);
    let focus0 = match config.focus_dist {
        Option::Some(f) => f as int,
        Option::None => len_spec(oc),
    };
    let focus = if focus0 > FOCUS_CAP {
        FOCUS_CAP as int
    } else {
        focus0
    };
    Camera {
        viewport: (vw as i64, vh as i64),
        origin: config.look_from,
        direction: dir,
        aperture: config.aperture,
        focus_dist: focus as i64,
        config: CameraConfig { focus_dist: Option::Some(focus as i64), ..config },
    }
}

impl Camera {
    /// Build the per-frame camera state from its configuration and the
    /// image's aspect ratio (a fixed-point scalar).
    pub fn new(config: CameraConfig, aspect_ratio: i64) -> (r: Self)
        requires
            camera_config_wf(config),
            0 < aspect_ratio <= 1048576,
        ensures
            r == camera_new_spec(config, aspect_ratio),
            camera_wf(r),
    {
        let th: i64 = tan_half(config.vertical_fov);
        let vh: i64 = 2 * th;
        proof {
            lemma_muldiv_bound(aspect_ratio as int, vh as int, 1048576, VIEW_CAP as int);
            vstd::arithmetic::div_mod::lemma_div_pos_is_pos(aspect_ratio as int * vh as int,
                SCALE as int);
        }
        let vw0: i64 = muldiv(aspect_ratio, vh, SCALE);
        let vw: i64 = if vw0 > VIEW_CAP {
            VIEW_CAP
        } else {
            vw0
        };
        let oc: Vec3 = config.look_from.sub(config.look_to);
        proof {
            assert(bounded(oc, 0x20000000));
            lemma_dot_bound(oc, oc, 0x20000000, 0x20000000);
        }
        let dir: Vec3 = oc.unit_vector();
        let focus0: i64 = match config.focus_dist {
            Option::Some(f) => f,
            Option::None => {
                proof {
                    crate::primitive::lemma_dot_self_nonneg(oc);
                    assert(dot_spec(oc, oc) * SCALE >= 0) by (nonlinear_arith)
                        requires
                            dot_spec(oc, oc) >= 0,
                            SCALE == 65536,
                    {
                    }
                    crate::fixed::lemma_sqrt_floor_exists(dot_spec(oc, oc) * SCALE);
                }
                let l: i64 = oc.length();
                l
            },
        };
        let focus: i64 = if focus0 > FOCUS_CAP {
            FOCUS_CAP
        } else {
            focus0
        };
        Camera {
            viewport: (vw, vh),
            origin: config.look_from,
            direction: dir,
            aperture: config.aperture,
            focus_dist: focus,
            config: CameraConfig { focus_dist: Option::Some(focus), ..config },
        }
    }
}

/// The world up direction.
pub open spec fn up_spec() -> Vec3 {
    Vec3 { x: 0, y: SCALE, z: 0 }
}

/// The camera's right axis: view direction crossed with up.
pub open spec fn right_spec(cam: Camera) -> Vec3 {
    vcross(cam.direction, up_spec())
}

/// What `get_ray` returns for screen coordinates `(s, t)` and a sampler at
/// `s0`: a thin-lens ray through the viewport, with the lens offset drawn
/// from the unit disk.
pub open spec fn get_ray_spec(cam: Camera, s: i64, t: i64, s0: u64) -> (Ray, u64) {
    let u = unit_spec(vcross(up_spec(), cam.direction));
    let v0 = vcross(cam.direction, u);
    let v = if bounded(v0, 4 * SCALE) {
        v0
    } else {
        up_spec()
    };
    let (rd, s1) = disk_sample_spec(s0, crate::primitive::SAMPLE_ATTEMPTS as nat);
    let ard = vscale(vscale(rd, cam.aperture), HALF);
    let offset = vadd(vscale(u, ard.x), vscale(v, ard.y));
    let horizontal = vscale(vscale(u, cam.focus_dist), cam.viewport.0);
    let vertical = vscale(vscale(v, cam.focus_dist), cam.viewport.1);
    let lower_left = vsub(
        vsub(vsub(cam.origin, vscale(horizontal, HALF)), vscale(vertical, HALF)),
        vscale(cam.direction, cam.focus_dist),
    );
    let dir = vsub(
        vsub(vadd(vadd(lower_left, vscale(horizontal, s)), vscale(vertical, t)), cam.origin),
        offset,
    );
    (Ray { origin: vadd(cam.origin, offset), direction: dir }, s1)
}

/// One step of free-fly movement and first-order mouse-look: at most one
/// translation applies (in the listed priority), the view direction turns
/// by small-angle yaw then pitch and is renormalized, and an origin pushed
/// outside the camera domain stays where it was.
pub open spec fn move_camera_spec(cam: Camera, mv: CameraMove) -> Camera {
    let origin1 = if mv.forward {
        vsub(cam.origin, vscale(cam.direction, MOVE_SPEED))
    } else if mv.back {
        vadd(cam.origin, vscale(cam.direction, MOVE_SPEED))
    } else if mv.left {
        vadd(cam.origin, vscale(right_spec(cam), MOVE_SPEED))
    } else if mv.right {
        vsub(cam.origin, vscale(right_spec(cam), MOVE_SPEED))
    } else if mv.up {
        vadd(cam.origin, vscale(up_spec(), MOVE_SPEED))
    } else if mv.down {
        vsub(cam.origin, vscale(up_spec(), MOVE_SPEED))
    } else {
        cam.origin
    };
    let origin = if bounded(origin1, 0x10000000) {
        origin1
    } else {
        cam.origin
    };
    let direction = if mv.delta_x != 0 || mv.delta_y != 0 {
        let yaw = (-mv.delta_x * ROTATE_SPEED) as i64;
        let pitch = (mv.delta_y * ROTATE_SPEED) as i64;
        let w1 = vadd(cam.direction, vscale(vcross(up_spec(), cam.direction), yaw));
        let w2 = vadd(w1, vscale(vcross(right_spec(cam), w1), pitch));
        unit_spec(w2)
    } else {
        cam.direction
    };
    Camera { origin, direction, ..cam }
}

/// One frame of movement input for the camera, as plain values: which
/// translation keys are held and how far the pointer moved.
#[derive(Clone, Copy, Debug, PartialEq, Eq, Structural, Default)]
pub struct CameraMove {
    pub forward: bool,
    pub back: bool,
    pub left: bool,
    pub right: bool,
    pub up: bool,
    pub down: bool,
    pub delta_x: i64,
    pub delta_y: i64,
}

impl Camera {
    /// Map normalized image-plane coordinates (fixed-point, `[0, 1]`) and a
    /// lens sample to a world-space ray.
    #[verifier::rlimit(100)]
    pub fn get_ray(&self, rng: &mut Sampler, s: i64, t: i64) -> (r: Ray)
        requires
            camera_wf(*self),
            0 <= s <= SCALE,
            0 <= t <= SCALE,
        ensures
            (r, final(rng).state) == get_ray_spec(*self, s, t, old(rng).state),
            ray_wf(r),
    {
        let upv: Vec3 = Vec3::new(0, SCALE, 0);
        proof {
            lemma_cross_ok(upv, self.direction, 65536, 262144);
        }
        let u0: Vec3 = upv.cross(self.direction);
        proof {
            assert(bounded(u0, 0x80001));
        }
        let u: Vec3 = u0.unit_vector();
        proof {
            lemma_cross_ok(self.direction, u, 262144, 262144);
        }
        let v0: Vec3 = self.direction.cross(u);
        let v: Vec3 = if -4 * SCALE <= v0.x && v0.x <= 4 * SCALE && -4 * SCALE <= v0.y && v0.y <= 4
            * SCALE && -4 * SCALE <= v0.z && v0.z <= 4 * SCALE {
            v0
        } else {
            upv
        };
        let rd: Vec3 = Vec3::new_random_in_unit_disk(rng);
        proof {
            lemma_scale_ok(rd, self.aperture, 65536, 262144);
        }
        let rd1: Vec3 = rd.scale(self.aperture);
        proof {
            lemma_scale_ok(rd1, HALF, 262145, 32768);
        }
        let ard: Vec3 = rd1.scale(HALF);
        proof {
            assert(bounded(ard, 131074));
            lemma_scale_ok(u, ard.x, 262144, 131074);
            lemma_scale_ok(v, ard.y, 262144, 131074);
        }
        let offset: Vec3 = u.scale(ard.x).add(v.scale(ard.y));
        proof {
            lemma_scale_ok(u, self.focus_dist, 262144, FOCUS_CAP as int);
            lemma_scale_ok(v, self.focus_dist, 262144, FOCUS_CAP as int);
        }
        let uf: Vec3 = u.scale(self.focus_dist);
        let vf: Vec3 = v.scale(self.focus_dist);
        proof {
            lemma_scale_ok(uf, self.viewport.0, 0x10000001, VIEW_CAP as int);
            lemma_scale_ok(vf, self.viewport.1, 0x10000001, VIEW_CAP as int);
        }
        let horizontal: Vec3 = uf.scale(self.viewport.0);
        let vertical: Vec3 = vf.scale(self.viewport.1);
        proof {
            lemma_scale_ok(horizontal, HALF, 0x200000021, 32768);
            lemma_scale_ok(vertical, HALF, 0x200000021, 32768);
            lemma_scale_ok(self.direction, self.focus_dist, 262144, FOCUS_CAP as int);
        }
        let lower_left: Vec3 = self.origin.sub(horizontal.scale(HALF)).sub(
            vertical.scale(HALF),
        ).sub(self.direction.scale(self.focus_dist));
        proof {
            lemma_scale_ok(horizontal, s, 0x200000021, 65536);
            lemma_scale_ok(vertical, t, 0x200000021, 65536);
        }
        let dir: Vec3 = lower_left.add(horizontal.scale(s)).add(vertical.scale(t)).sub(
            self.origin,
        ).sub(offset);
        Ray::new(self.origin.add(offset), dir)
    }

    /// Apply one frame of movement input: translate along the view, right
    /// or up axis, and turn by the pointer delta.
    pub fn move_camera(&mut self, mv: CameraMove)
        requires
            camera_wf(*old(self)),
            -65536 <= mv.delta_x <= 65536,
            -65536 <= mv.delta_y <= 65536,
        ensures
            *final(self) == move_camera_spec(*old(self), mv),
            camera_wf(*final(self)),
    {
        let upv: Vec3 = Vec3::new(0, SCALE, 0);
        proof {
            lemma_cross_ok(self.direction, upv, 262144, 65536);
            lemma_scale_ok(self.direction, MOVE_SPEED, 262144, 6554);
            lemma_scale_ok(upv, MOVE_SPEED, 65536, 6554);
        }
        let right: Vec3 = self.direction.cross(upv);
        proof {
            assert(bounded(right, 0x80001));
            lemma_scale_ok(right, MOVE_SPEED, 0x80001, 6554);
        }
        let origin1: Vec3 = if mv.forward {
            self.origin.sub(self.direction.scale(MOVE_SPEED))
        } else if mv.back {
            self.origin.add(self.direction.scale(MOVE_SPEED))
        } else if mv.left {
            self.origin.add(right.scale(MOVE_SPEED))
        } else if mv.right {
            self.origin.sub(right.scale(MOVE_SPEED))
        } else if mv.up {
            self.origin.add(upv.scale(MOVE_SPEED))
        } else if mv.down {
            self.origin.sub(upv.scale(MOVE_SPEED))
        } else {
            self.origin
        };
        let origin: Vec3 = if -0x10000000 <= origin1.x && origin1.x <= 0x10000000 && -0x10000000
            <= origin1.y && origin1.y <= 0x10000000 && -0x10000000 <= origin1.z && origin1.z
            <= 0x10000000 {
            origin1
        } else {
            self.origin
        };
        if mv.delta_x != 0 || mv.delta_y != 0 {
            let yaw: i64 = -mv.delta_x * ROTATE_SPEED;
            let pitch: i64 = mv.delta_y * ROTATE_SPEED;
            proof {
                lemma_cross_ok(upv, self.direction, 65536, 262144);
            }
            let c1: Vec3 = upv.cross(self.direction);
            proof {
                assert(bounded(c1, 0x80001));
                lemma_scale_ok(c1, yaw, 0x80001, 0x420000);
            }
            let w1: Vec3 = self.direction.add(c1.scale(yaw));
            proof {
                assert(bounded(w1, 0x4000000));
                lemma_cross_ok(right, w1, 0x80001, 0x4000000);
            }
            let c2: Vec3 = right.cross(w1);
            proof {
                assert(bounded(c2, 0x80000000));
                lemma_scale_ok(c2, pitch, 0x80000000, 0x420000);
            }
            let w2: Vec3 = w1.add(c2.scale(pitch));
            proof {
                assert(bounded(w2, crate::primitive::UNIT_MAX as int));
            }
            let direction: Vec3 = w2.unit_vector();
            self.origin = origin;
            self.direction = direction;
        } else {
            self.origin = origin;
        }
    }
}

/// Componentwise bounds under which a cross product neither overflows nor
/// exceeds twice the product of the bounds over `SCALE`, plus one.
pub proof fn lemma_cross_ok(a: Vec3, b: Vec3, m: int, n: int)
    requires
        0 <= m <= 0x100000000,
        0 <= n <= 0x100000000,
        bounded(a, m),
        bounded(b, n),
    ensures
        in64((a.y * b.z - a.z * b.y) / (SCALE as int)),
        in64((a.z * b.x - a.x * b.z) / (SCALE as int)),
        in64((a.x * b.y - a.y * b.x) / (SCALE as int)),
        bounded(vcross(a, b), 2 * m * n / (SCALE as int) + 1),
{
    assert({
        &&& -(2 * m * n) <= a.y * b.z - a.z * b.y <= 2 * m * n
        &&& -(2 * m * n) <= a.z * b.x - a.x * b.z <= 2 * m * n
        &&& -(2 * m * n) <= a.x * b.y - a.y * b.x <= 2 * m * n
        &&& 0 <= 2 * m * n <= 0x20000000000000000
    }) by (nonlinear_arith)
        requires
            0 <= m <= 0x100000000,
            0 <= n <= 0x100000000,
            bounded(a, m),
            bounded(b, n),
    {
    }
    vstd::arithmetic::div_mod::lemma_div_is_ordered(2 * m * n, 0x20000000000000000, SCALE as int);
    lemma_div_sym_shrink(a.y * b.z - a.z * b.y, 2 * m * n);
    lemma_div_sym_shrink(a.z * b.x - a.x * b.z, 2 * m * n);
    lemma_div_sym_shrink(a.x * b.y - a.y * b.x, 2 * m * n);
}

/// Componentwise bounds under which a scalar multiplication neither
/// overflows nor exceeds the product of the bounds over `SCALE`, plus one.
pub proof fn lemma_scale_ok(v: Vec3, k: i64, m: int, kb: int)
    requires
        0 <= m <= 0x1000000000,
        0 <= kb <= 0x8000000,
        bounded(v, m),
        -kb <= k <= kb,
    ensures
        in64(v.x * k / (SCALE as int)),
        in64(v.y * k / (SCALE as int)),
        in64(v.z * k / (SCALE as int)),
        bounded(vscale(v, k), m * kb / (SCALE as int) + 1),
{
    assert(0 <= m * kb <= 0x8000000000000000) by (nonlinear_arith)
        requires
            0 <= m <= 0x1000000000,
            0 <= kb <= 0x8000000,
    {
    }
    vstd::arithmetic::div_mod::lemma_div_is_ordered(m * kb, 0x8000000000000000, SCALE as int);
    lemma_muldiv_bound(v.x as int, k as int, m, kb);
    lemma_muldiv_bound(v.y as int, k as int, m, kb);
    lemma_muldiv_bound(v.z as int, k as int, m, kb);
    lemma_div_sym_shrink(v.x * k, m * kb);
    lemma_div_sym_shrink(v.y * k, m * kb);
    lemma_div_sym_shrink(v.z * k, m * kb);
}

/// A dividend within `[-m, m]` has its quotient by `SCALE` within
/// `[-(m / SCALE + 1), m / SCALE + 1]`.
pub proof fn lemma_div_sym_shrink(e: int, m: int)
    requires
        0 <= m,
        -m <= e <= m,
    ensures
        -(m / (SCALE as int) + 1) <= e / (SCALE as int) <= m / (SCALE as int) + 1,
{
    vstd::arithmetic::div_mod::lemma_div_is_ordered(e, m, SCALE as int);
    vstd::arithmetic::div_mod::lemma_div_is_ordered(-m, e, SCALE as int);
    vstd::arithmetic::div_mod::lemma_fundamental_div_mod(-m, SCALE as int);
    vstd::arithmetic::div_mod::lemma_fundamental_div_mod(m, SCALE as int);
    assert((-m) / (SCALE as int) + m / (SCALE as int) >= -1) by (nonlinear_arith)
        requires
            -m == (SCALE as int) * ((-m) / (SCALE as int)) + (-m) % (SCALE as int),
            m == (SCALE as int) * (m / (SCALE as int)) + m % (SCALE as int),
            0 <= (-m) % (SCALE as int) < (SCALE as int),
            0 <= m % (SCALE as int) < (SCALE as int),
            SCALE == 65536,
    {
    }
}

} // verus!

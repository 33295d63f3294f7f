//! Scene geometry: spheres, hit records, and the nearest-hit scene query.
//!
//! `Sphere::hit` solves the fixed-point quadratic for a ray/sphere
//! intersection and always returns a normal facing the ray origin's side.
//! A scene is a slice of objects scanned linearly; the query keeps the
//! closest hit by shrinking the upper parameter bound, and its contract says
//! the returned hit is a genuine hit of some object and no object hits
//! strictly closer.

use vstd::prelude::*;

use crate::fixed::{div_floor_i128, isqrt_u128, sqrt_floor, COORD_MAX, RAY_MAX, SCALE, T_CAP};
use crate::material::Material;
use crate::primitive::{
    at_spec, bounded, dot_spec, dot_wide, lemma_div_scale_bound, lemma_dot_bound,
    lemma_dot_self_nonneg, lemma_muldiv_bound, muldiv, neg_spec, vsub, Point, Ray, Vec3,
};

verus! {

/// Magnitude cap accepted for the offset of a hit point from its sphere's
/// center; a rounding excursion past it counts as a miss.
pub const DELTA_CAP: i64 = 4294967296;

/// The result of a successful ray/geometry intersection.
#[derive(Clone, Copy, Debug, PartialEq, Eq, Structural)]
pub struct HitRecord {
    pub point: Point,
    pub normal: Vec3,
    pub t: i64,
    pub is_front_face: bool,
    pub material: Material,
}

impl HitRecord {
    /// Assemble a hit record from its parts.
    pub fn new(point: Point, normal: Vec3, t: i64, is_front_face: bool, material: Material) -> (r:
        Self)
        ensures
            r == (HitRecord { point, normal, t, is_front_face, material }),
    {
        HitRecord { point, normal, t, is_front_face, material }
    }
}

/// A ray the tracer may follow: both endpoints within the numeric domain.
pub open spec fn ray_wf(ray: Ray) -> bool {
    &&& bounded(ray.origin, RAY_MAX as int)
    &&& bounded(ray.direction, RAY_MAX as int)
}

/// A sphere the tracer may intersect: center within the scene domain and a
/// radius of at least a few model steps.
pub open spec fn sphere_wf(s: Sphere) -> bool {
    &&& bounded(s.center, COORD_MAX as int)
    &&& 4 <= s.radius <= COORD_MAX
}

#[derive(Clone, Copy, Debug, PartialEq, Eq, Structural)]
pub struct Sphere {
    pub center: Point,
    pub radius: i64,
    pub material: Material,
}

impl Sphere {
    /// Create a sphere from center, radius and material.
    pub fn new(center: Point, radius: i64, material: Material) -> (r: Self)
        ensures
            r == (Sphere { center, radius, material }),
    {
        Sphere { center, radius, material }
    }
}

/// A well-formed hit record as `Sphere::hit` produces it, for a query over
/// `[t_min, t_max]`.
pub open spec fn hit_rec_wf(rec: HitRecord, t_min: i64, t_max: i64) -> bool {
    &&& t_min <= rec.t <= t_max
    &&& bounded(rec.point, 0x4000000000000)
    &&& bounded(rec.normal, 4 * SCALE)
}

/// The hit record built once a ray parameter `t` inside the interval has
/// been chosen, or `None` if rounding pushed the hit out of the numeric
/// domain.
pub open spec fn finish_hit_spec(s: Sphere, ray: Ray, t: i64) -> Option<HitRecord> {
    let point = at_spec(ray, t);
    let delta = vsub(point, s.center);
    if !bounded(delta, DELTA_CAP as int) {
        Option::None
    } else {
        let outward = Vec3 {
            x: (delta.x * SCALE / (s.radius as int)) as i64,
            y: (delta.y * SCALE / (s.radius as int)) as i64,
            z: (delta.z * SCALE / (s.radius as int)) as i64,
        };
        if !bounded(outward, 4 * SCALE) {
            Option::None
        } else {
            let front = dot_spec(ray.direction, outward) < 0;
            let normal = if front {
                outward
            } else {
                neg_spec(outward)
            };
            Option::Some(
                HitRecord { point, normal, t, is_front_face: front, material: s.material },
            )
        }
    }
}

/// Ray/sphere intersection: the smaller quadratic root if it lies in
/// `[t_min, t_max]`, else the larger, else no hit.
pub open spec fn sphere_hit_spec(s: Sphere, ray: Ray, t_min: i64, t_max: i64) -> Option<
    HitRecord,
> {
    let a = dot_spec(ray.direction, ray.direction);
    let h = dot_spec(vsub(ray.origin, s.center), ray.direction);
    let c = dot_spec(vsub(ray.origin, s.center), vsub(ray.origin, s.center)) - s.radius * s.radius
        / (SCALE as int);
    if a <= 0 {
        Option::None
    } else {
        let disc = h * h - a * c;
        if disc < 0 {
            Option::None
        } else {
            let sq = sqrt_floor(disc);
            let t1 = (-h - sq) * SCALE / a;
            let t2 = (-h + sq) * SCALE / a;
            if t_min <= t1 <= t_max {
                finish_hit_spec(s, ray, t1 as i64)
            } else if t_min <= t2 <= t_max {
                finish_hit_spec(s, ray, t2 as i64)
            } else {
                Option::None
            }
        }
    }
}

/// Geometry that can report its nearest intersection with a ray inside a
/// parameter interval.
pub trait Hittable {
    /// The mathematical meaning of `hit` for this piece of geometry.
    spec fn hit_spec(&self, ray: Ray, t_min: i64, t_max: i64) -> Option<HitRecord>;

    /// The domain this geometry keeps its coordinates in.
    spec fn wf(&self) -> bool;

    /// Nearest intersection of `ray` with this geometry in `[t_min, t_max]`.
    fn hit(&self, ray: Ray, t_min: i64, t_max: i64) -> (r: Option<HitRecord>)
        requires
            self.wf(),
            ray_wf(ray),
            0 <= t_min,
            t_max <= T_CAP,
        ensures
            r == self.hit_spec(ray, t_min, t_max),
            (match r {
                Option::Some(rec) => hit_rec_wf(rec, t_min, t_max) && dot_spec(
                    ray.direction,
                    rec.normal,
                ) <= 0,
                Option::None => true,
            }),
    ;
}

impl Hittable for Sphere {
    open spec fn hit_spec(&self, ray: Ray, t_min: i64, t_max: i64) -> Option<HitRecord> {
        sphere_hit_spec(*self, ray, t_min, t_max)
    }

    open spec fn wf(&self) -> bool {
        sphere_wf(*self)
    }

    #[verifier::rlimit(100)]
    fn hit(&self, ray: Ray, t_min: i64, t_max: i64) -> (r: Option<HitRecord>) {
        proof {
            lemma_dot_bound(ray.direction, ray.direction, RAY_MAX as int, RAY_MAX as int);
            lemma_dot_self_nonneg(ray.direction);
        }
        let oc: Vec3 = ray.origin.sub(self.center);
        proof {
            assert(bounded(oc, 0x880000000));
            lemma_dot_bound(oc, ray.direction, 0x880000000, RAY_MAX as int);
            lemma_dot_bound(oc, oc, 0x880000000, 0x880000000);
            lemma_dot_self_nonneg(oc);
            lemma_muldiv_bound(self.radius as int, self.radius as int, COORD_MAX as int,
                COORD_MAX as int);
        }
        let a: i64 = ray.direction.length_squared();
        let h: i64 = oc.dot(ray.direction);
        let r2: i64 = muldiv(self.radius, self.radius, SCALE);
        let c: i64 = oc.length_squared() - r2;
        if a <= 0 {
            return Option::None;
        }
        proof {
            assert(-0x200000000000000 <= h <= 0x200000000000000);
            assert(-0x200000000000000 <= a <= 0x200000000000000);
            assert(-0x200000000000000 <= c <= 0x200000000000000);
            assert({
                &&& -0x40000000000000000000000000000 <= h * h <= 0x40000000000000000000000000000
                &&& -0x40000000000000000000000000000 <= a * c <= 0x40000000000000000000000000000
            }) by (nonlinear_arith)
                requires
                    -0x200000000000000 <= h <= 0x200000000000000,
                    -0x200000000000000 <= a <= 0x200000000000000,
                    -0x200000000000000 <= c <= 0x200000000000000,
            {
            }
        }
        let disc: i128 = (h as i128) * (h as i128) - (a as i128) * (c as i128);
        if disc < 0 {
            return Option::None;
        }
        let sq128: u128 = isqrt_u128(disc as u128);
        proof {
            assert(sq128 <= 0x400000000000000u128) by (nonlinear_arith)
                requires
                    sq128 * sq128 <= disc as u128,
                    disc as u128 <= 0x80000000000000000000000000000u128,
            {
            }
        }
        let sq: i128 = sq128 as i128;
        let num1: i128 = (-(h as i128) - sq) * 65536i128;
        let t1: i128 = div_floor_i128(num1, a as i128);
        if (t_min as i128) <= t1 && t1 <= (t_max as i128) {
            self.finish(ray, t1 as i64)
        } else {
            let num2: i128 = (-(h as i128) + sq) * 65536i128;
            let t2: i128 = div_floor_i128(num2, a as i128);
            if (t_min as i128) <= t2 && t2 <= (t_max as i128) {
                self.finish(ray, t2 as i64)
            } else {
                Option::None
            }
        }
    }
}

impl Sphere {
    /// Build the hit record for a chosen in-interval parameter.
    fn finish(&self, ray: Ray, t: i64) -> (r: Option<HitRecord>)
        requires
            sphere_wf(*self),
            ray_wf(ray),
            0 <= t <= T_CAP,
        ensures
            r == finish_hit_spec(*self, ray, t),
            (match r {
                Option::Some(rec) => rec.t == t && bounded(rec.point, 0x4000000000000) && bounded(
                    rec.normal,
                    4 * SCALE,
                ) && dot_spec(ray.direction, rec.normal) <= 0 && rec.material == self.material,
                Option::None => true,
            }),
    {
        let point: Point = ray.at(t);
        let delta: Vec3 = point.sub(self.center);
        if !(-DELTA_CAP <= delta.x && delta.x <= DELTA_CAP && -DELTA_CAP <= delta.y && delta.y
            <= DELTA_CAP && -DELTA_CAP <= delta.z && delta.z <= DELTA_CAP) {
            return Option::None;
        }
        proof {
            lemma_div_scale_bound(delta.x * SCALE, self.radius as int, 0x1000000000000);
            lemma_div_scale_bound(delta.y * SCALE, self.radius as int, 0x1000000000000);
            lemma_div_scale_bound(delta.z * SCALE, self.radius as int, 0x1000000000000);
        }
        let outward = Vec3 {
            x: muldiv(delta.x, SCALE, self.radius),
            y: muldiv(delta.y, SCALE, self.radius),
            z: muldiv(delta.z, SCALE, self.radius),
        };
        if !(-4 * SCALE <= outward.x && outward.x <= 4 * SCALE && -4 * SCALE <= outward.y
            && outward.y <= 4 * SCALE && -4 * SCALE <= outward.z && outward.z <= 4 * SCALE) {
            return Option::None;
        }
        proof {
            lemma_dot_bound(ray.direction, outward, RAY_MAX as int, 4 * SCALE as int);
        }
        let d: i64 = ray.direction.dot(outward);
        let front: bool = d < 0;
        if front {
            Option::Some(
                HitRecord {
                    point,
                    normal: outward,
                    t,
                    is_front_face: front,
                    material: self.material,
                },
            )
        } else {
            proof {
                lemma_dot_neg(ray.direction, outward);
            }
            let normal: Vec3 = outward.neg();
            Option::Some(
                HitRecord { point, normal, t, is_front_face: front, material: self.material },
            )
        }
    }
}

/// Negating the second argument negates the wide dot product, and a
/// nonnegative fixed-point dot becomes nonpositive.
proof fn lemma_dot_neg(a: Vec3, b: Vec3)
    requires
        bounded(b, 4 * SCALE),
        dot_spec(a, b) >= 0,
    ensures
        dot_spec(a, neg_spec(b)) <= 0,
{
    assert(dot_wide(a, neg_spec(b)) == -dot_wide(a, b)) by (nonlinear_arith)
        requires
            bounded(b, 4 * SCALE as int),
            neg_spec(b).x == -b.x && neg_spec(b).y == -b.y && neg_spec(b).z == -b.z,
    {
    }
    if dot_wide(a, b) >= 0 {
        vstd::arithmetic::div_mod::lemma_div_is_ordered(-dot_wide(a, b), 0, SCALE as int);
    } else {
        vstd::arithmetic::div_mod::lemma_div_is_ordered(dot_wide(a, b), -1, SCALE as int);
        assert((-1) / (SCALE as int) == -1);
        assert(false);
    }
}


/// An axis-aligned box, kept as scene tooling.
#[derive(Clone, Copy, Debug, PartialEq, Eq, Structural)]
pub struct Aabb {
    pub minimum: Point,
    pub maximum: Point,
}

impl Aabb {
    /// Create a box from its two corners.
    pub fn new(minimum: Point, maximum: Point) -> (r: Self)
        ensures
            r == (Aabb { minimum, maximum }),
    {
        Aabb { minimum, maximum }
    }

    /// Conservative overlap test: never rules an intersection out, so every
    /// true hit passes; a finer test may reject more.
    pub fn hit(&self, ray: &Ray, t_min: i64, t_max: i64) -> (r: bool)
        ensures
            r,
    {
        true
    }
}

/// The closed set of scene primitives.
#[derive(Clone, Copy, Debug, PartialEq, Eq, Structural)]
pub enum Object {
    Sphere(Sphere),
}

/// What `hit` means for an object.
pub open spec fn object_hit_spec(o: Object, ray: Ray, t_min: i64, t_max: i64) -> Option<
    HitRecord,
> {
    match o {
        Object::Sphere(s) => sphere_hit_spec(s, ray, t_min, t_max),
    }
}

/// An object the tracer accepts: geometry and material in range.
pub open spec fn object_wf(o: Object) -> bool {
    match o {
        Object::Sphere(s) => sphere_wf(s) && crate::material::material_wf(s.material),
    }
}

/// The material an object is made of.
pub open spec fn object_material(o: Object) -> Material {
    match o {
        Object::Sphere(s) => s.material,
    }
}

impl Hittable for Object {
    open spec fn hit_spec(&self, ray: Ray, t_min: i64, t_max: i64) -> Option<HitRecord> {
        object_hit_spec(*self, ray, t_min, t_max)
    }

    open spec fn wf(&self) -> bool {
        object_wf(*self)
    }

    fn hit(&self, ray: Ray, t_min: i64, t_max: i64) -> (r: Option<HitRecord>) {
        match self {
            Object::Sphere(s) => s.hit(ray, t_min, t_max),
        }
    }
}

/// Every object of the scene is within the tracer's domain.
pub open spec fn world_wf(world: Seq<Object>) -> bool {
    forall|i: int| 0 <= i < world.len() ==> object_wf(#[trigger] world[i])
}

/// The nearest-hit reduction over a scene, scanning objects in order and
/// shrinking the upper parameter bound to the closest hit so far.
pub open spec fn hit_world_spec(world: Seq<Object>, ray: Ray, t_min: i64, t_max: i64) -> Option<
    HitRecord,
>
    decreases world.len(),
{
    if world.len() == 0 {
        Option::None
    } else {
        let prev = hit_world_spec(world.drop_last(), ray, t_min, t_max);
        let cur_max = match prev {
            Option::Some(rec) => rec.t,
            Option::None => t_max,
        };
        match object_hit_spec(world.last(), ray, t_min, cur_max) {
            Option::Some(rec2) => Option::Some(rec2),
            Option::None => prev,
        }
    }
}

/// `o` either misses or hits no closer than `t`.
pub open spec fn hits_no_closer_than(o: Option<HitRecord>, t: i64) -> bool {
    match o {
        Option::Some(rec) => rec.t >= t,
        Option::None => true,
    }
}

/// Shrinking the upper parameter bound of a sphere query cannot invent a
/// hit: a hit found under the smaller bound is the hit under the larger
/// one, and a hit under the larger bound that fits under the smaller one is
/// found there too.
pub proof fn lemma_sphere_hit_monotone(s: Sphere, ray: Ray, t_min: i64, tm1: i64, tm2: i64)
    requires
        tm1 <= tm2,
    ensures
        (match sphere_hit_spec(s, ray, t_min, tm1) {
            Option::Some(rec) => sphere_hit_spec(s, ray, t_min, tm2) == Option::Some(rec),
            Option::None => true,
        }),
        (match sphere_hit_spec(s, ray, t_min, tm2) {
            Option::Some(rec) => rec.t <= tm1 ==> sphere_hit_spec(s, ray, t_min, tm1)
                == Option::Some(rec),
            Option::None => true,
        }),
{
    let a = dot_spec(ray.direction, ray.direction);
    let h = dot_spec(vsub(ray.origin, s.center), ray.direction);
    let c = dot_spec(vsub(ray.origin, s.center), vsub(ray.origin, s.center)) - s.radius * s.radius
        / (SCALE as int);
    if a > 0 {
        let disc = h * h - a * c;
        if disc >= 0 {
            let sq = sqrt_floor(disc);
            crate::fixed::lemma_sqrt_floor_exists(disc);
            let t1 = (-h - sq) * SCALE / a;
            let t2 = (-h + sq) * SCALE / a;
            assert((-h - sq) * SCALE <= (-h + sq) * SCALE) by (nonlinear_arith)
                requires
                    sq >= 0,
                    SCALE == 65536,
            {
            }
            vstd::arithmetic::div_mod::lemma_div_is_ordered((-h - sq) * SCALE, (-h + sq) * SCALE,
                a);
            assert(t1 <= t2);
            match finish_hit_spec(s, ray, t1 as i64) {
                Option::Some(rec) => {
                    assert(rec.t == t1 as i64);
                },
                Option::None => {},
            }
            match finish_hit_spec(s, ray, t2 as i64) {
                Option::Some(rec) => {
                    assert(rec.t == t2 as i64);
                },
                Option::None => {},
            }
        }
    }
}

/// The same two facts for any object of the scene.
pub proof fn lemma_object_hit_monotone(o: Object, ray: Ray, t_min: i64, tm1: i64, tm2: i64)
    requires
        tm1 <= tm2,
    ensures
        (match object_hit_spec(o, ray, t_min, tm1) {
            Option::Some(rec) => object_hit_spec(o, ray, t_min, tm2) == Option::Some(rec),
            Option::None => true,
        }),
        (match object_hit_spec(o, ray, t_min, tm2) {
            Option::Some(rec) => rec.t <= tm1 ==> object_hit_spec(o, ray, t_min, tm1)
                == Option::Some(rec),
            Option::None => true,
        }),
{
    match o {
        Object::Sphere(s) => lemma_sphere_hit_monotone(s, ray, t_min, tm1, tm2),
    }
}


/// A hit carries the material of the object that produced it.
pub proof fn lemma_object_hit_material(o: Object, ray: Ray, t_min: i64, t_max: i64)
    ensures
        (match object_hit_spec(o, ray, t_min, t_max) {
            Option::Some(rec) => rec.material == object_material(o),
            Option::None => true,
        }),
{
    match o {
        Object::Sphere(s) => {
            match sphere_hit_spec(s, ray, t_min, t_max) {
                Option::Some(rec) => {
                    assert(rec.material == s.material);
                },
                Option::None => {},
            }
        },
    }
}

/// Nearest hit of a ray against a whole scene: a linear scan that keeps the
/// closest hit.  The returned record is a genuine hit of some object, and no
/// object of the scene hits strictly closer.
pub fn hit(world: &[Object], ray: Ray, t_min: i64, t_max: i64) -> (r: Option<HitRecord>)
    requires
        world_wf(world@),
        ray_wf(ray),
        0 <= t_min,
        t_max <= T_CAP,
    ensures
        r == hit_world_spec(world@, ray, t_min, t_max),
        (match r {
            Option::Some(rec) => {
                &&& hit_rec_wf(rec, t_min, t_max)
                &&& dot_spec(ray.direction, rec.normal) <= 0
                &&& exists|i: int|
                    0 <= i < world@.len() && object_hit_spec(#[trigger] world@[i], ray, t_min,
                    t_max) == Option::Some(rec)
                &&& forall|i: int|
                    0 <= i < world@.len() ==> hits_no_closer_than(
                        object_hit_spec(#[trigger] world@[i], ray, t_min, t_max),
                        rec.t,
                    )
            },
            Option::None => forall|i: int|
                0 <= i < world@.len() ==> object_hit_spec(#[trigger] world@[i], ray, t_min, t_max)
                    is None,
        }),
{
    let mut closest: Option<HitRecord> = Option::None;
    let mut closest_so_far: i64 = t_max;
    let mut idx: usize = 0;
    while idx < world.len()
        invariant
            world_wf(world@),
            ray_wf(ray),
            0 <= t_min,
            t_max <= T_CAP,
            idx <= world@.len(),
            closest == hit_world_spec(world@.take(idx as int), ray, t_min, t_max),
            (match closest {
                Option::Some(rec) => {
                    &&& closest_so_far == rec.t
                    &&& hit_rec_wf(rec, t_min, t_max)
                    &&& dot_spec(ray.direction, rec.normal) <= 0
                    &&& exists|i: int|
                        0 <= i < idx && object_hit_spec(#[trigger] world@[i], ray, t_min, t_max)
                            == Option::Some(rec)
                    &&& forall|i: int|
                        0 <= i < idx ==> hits_no_closer_than(
                            object_hit_spec(#[trigger] world@[i], ray, t_min, t_max),
                            rec.t,
                        )
                },
                Option::None => {
                    &&& closest_so_far == t_max
                    &&& forall|i: int|
                        0 <= i < idx ==> object_hit_spec(#[trigger] world@[i], ray, t_min, t_max)
                            is None
                },
            }),
        decreases world@.len() - idx,
    {
        let obj: &Object = &world[idx];
        let ghost prev_closest = closest;
        let ghost prev_max = closest_so_far;
        let found: Option<HitRecord> = obj.hit(ray, t_min, closest_so_far);
        proof {
            assert(world@.take(idx as int + 1).drop_last() =~= world@.take(idx as int));
            assert(world@.take(idx as int + 1).last() == world@[idx as int]);
            lemma_object_hit_monotone(world@[idx as int], ray, t_min, prev_max, t_max);
        }
        match found {
            Option::Some(rec2) => {
                proof {
                    assert(object_hit_spec(world@[idx as int], ray, t_min, t_max)
                        == Option::Some(rec2));
                    assert(forall|i: int|
                        0 <= i < idx + 1 ==> hits_no_closer_than(
                            object_hit_spec(#[trigger] world@[i], ray, t_min, t_max),
                            rec2.t,
                        ));
                }
                closest = Option::Some(rec2);
                closest_so_far = rec2.t;
            },
            Option::None => {
                proof {
                    match object_hit_spec(world@[idx as int], ray, t_min, t_max) {
                        Option::Some(full_rec) => {
                            assert(full_rec.t > prev_max);
                        },
                        Option::None => {},
                    }
                }
            },
        }
        idx = idx + 1;
    }
    proof {
        assert(world@.take(world@.len() as int) =~= world@);
    }
    closest
}

/// A ray fired from outside a sphere straight at its center hits it at
/// exactly the center distance minus the radius: here stated for a unit
/// direction along the z axis and whole-unit radius and distance, where the
/// fixed-point arithmetic is exact.
pub proof fn lemma_sphere_head_on(center: Point, radius: i64, material: Material, dist: i64)
    requires
        bounded(center, 0x10000000),
        radius as int % (SCALE as int) == 0,
        dist as int % (SCALE as int) == 0,
        4 <= radius,
        radius < dist <= COORD_MAX,
    ensures
        ({
            let ray = Ray {
                origin: vsub(center, Vec3 { x: 0, y: 0, z: dist }),
                direction: Vec3 { x: 0, y: 0, z: SCALE },
            };
            match sphere_hit_spec(Sphere { center, radius, material }, ray, 66, T_CAP) {
                Option::Some(rec) => rec.t == dist - radius,
                Option::None => false,
            }
        }),
{
    let s = Sphere { center, radius, material };
    let ray = Ray {
        origin: vsub(center, Vec3 { x: 0int as i64, y: 0, z: dist }),
        direction: Vec3 { x: 0int as i64, y: 0, z: SCALE },
    };
    let oc = vsub(ray.origin, s.center);
    assert(oc == (Vec3 { x: 0int as i64, y: 0, z: (-(dist as int)) as i64 }));
    let dir = ray.direction;
    // a = |dir|^2 / SCALE is exactly SCALE
    assert(dot_wide(dir, dir) == (SCALE as int) * (SCALE as int)) by (nonlinear_arith)
        requires
            dir.x == 0 && dir.y == 0 && dir.z == SCALE,
    {
    }
    vstd::arithmetic::div_mod::lemma_div_multiples_vanish(SCALE as int, SCALE as int);
    let a = dot_spec(dir, dir);
    assert(a == SCALE);
    // h = oc . dir is exactly -dist
    assert(dot_wide(oc, dir) == (SCALE as int) * (-(dist as int))) by (nonlinear_arith)
        requires
            oc.x == 0 && oc.y == 0 && oc.z == -(dist as int),
            dir.x == 0 && dir.y == 0 && dir.z == SCALE,
    {
    }
    vstd::arithmetic::div_mod::lemma_div_multiples_vanish(-(dist as int), SCALE as int);
    let h = dot_spec(vsub(ray.origin, s.center), ray.direction);
    assert(h == -(dist as int));
    // both squares divide evenly by SCALE
    let md = dist as int / (SCALE as int);
    vstd::arithmetic::div_mod::lemma_fundamental_div_mod(dist as int, SCALE as int);
    assert(dist == (SCALE as int) * md);
    assert(dot_wide(oc, oc) == dist * dist) by (nonlinear_arith)
        requires
            oc.x == 0 && oc.y == 0 && oc.z == -(dist as int),
    {
    }
    assert(dist * dist == (SCALE as int) * (md * dist)) by (nonlinear_arith)
        requires
            dist == (SCALE as int) * md,
    {
    }
    vstd::arithmetic::div_mod::lemma_div_multiples_vanish(md * dist, SCALE as int);
    assert(dot_spec(oc, oc) == md * dist);
    let mr = radius as int / (SCALE as int);
    vstd::arithmetic::div_mod::lemma_fundamental_div_mod(radius as int, SCALE as int);
    assert(radius == (SCALE as int) * mr);
    assert(radius * radius == (SCALE as int) * (mr * radius)) by (nonlinear_arith)
        requires
            radius == (SCALE as int) * mr,
    {
    }
    vstd::arithmetic::div_mod::lemma_div_multiples_vanish(mr * radius, SCALE as int);
    let c = dot_spec(oc, oc) - s.radius * s.radius / (SCALE as int);
    assert(c == md * dist - mr * radius);
    // the discriminant collapses to radius^2
    let disc = h * h - a * c;
    assert(disc == radius * radius) by (nonlinear_arith)
        requires
            disc == h * h - a * c,
            h == -(dist as int),
            a == SCALE,
            c == md * dist - mr * radius,
            dist * dist == (SCALE as int) * (md * dist),
            radius * radius == (SCALE as int) * (mr * radius),
    {
    }
    assert(radius * radius < (radius + 1) * (radius + 1) && 0 <= radius * radius)
        by (nonlinear_arith)
        requires
            radius >= 0,
    {
    }
    crate::fixed::lemma_sqrt_floor_is(disc, radius as int);
    let sq = sqrt_floor(disc);
    assert(sq == radius);
    // the nearer root is exactly dist - radius
    assert((-h - sq) * SCALE == (SCALE as int) * (dist - radius)) by (nonlinear_arith)
        requires
            h == -(dist as int),
            sq == radius,
    {
    }
    vstd::arithmetic::div_mod::lemma_div_multiples_vanish(dist - radius, SCALE as int);
    let t1 = (-h - sq) * SCALE / a;
    assert(t1 == dist - radius);
    assert(66 <= t1 <= T_CAP);
    // the hit record: point, offset and outward normal are all exact
    let t = t1 as i64;
    let point = at_spec(ray, t);
    assert(0int * t == 0) by (nonlinear_arith) {}
    assert(0int / 65536int == 0int);
    assert((SCALE as int) * t / (SCALE as int) == t) by {
        vstd::arithmetic::div_mod::lemma_div_multiples_vanish(t as int, SCALE as int);
        assert(dir.z * t == (SCALE as int) * (t as int)) by (nonlinear_arith)
            requires
                dir.z == SCALE,
        {
        }
    }
    assert(point == (Vec3 {
        x: ray.origin.x,
        y: ray.origin.y,
        z: (ray.origin.z + t) as i64,
    }));
    let delta = vsub(point, s.center);
    assert(delta == (Vec3 { x: 0int as i64, y: 0, z: (-(radius as int)) as i64 }));
    assert(bounded(delta, DELTA_CAP as int));
    assert(delta.z * SCALE == (radius as int) * (-(SCALE as int))) by (nonlinear_arith)
        requires
            delta.z == -(radius as int),
    {
    }
    vstd::arithmetic::div_mod::lemma_div_multiples_vanish(-(SCALE as int), radius as int);
    assert(delta.z * SCALE / (s.radius as int) == -(SCALE as int));
    assert(0int / (radius as int) == 0int) by {
        vstd::arithmetic::div_mod::lemma_div_multiples_vanish(0int, radius as int);
        assert((radius as int) * 0 == 0) by (nonlinear_arith) {}
    }
    let outward = Vec3 {
        x: (delta.x * SCALE / (s.radius as int)) as i64,
        y: (delta.y * SCALE / (s.radius as int)) as i64,
        z: (delta.z * SCALE / (s.radius as int)) as i64,
    };
    assert(outward == (Vec3 { x: 0int as i64, y: 0, z: (-(SCALE as int)) as i64 }));
    assert(bounded(outward, 4 * SCALE));
    assert(dot_wide(dir, outward) == (SCALE as int) * (-(SCALE as int))) by (nonlinear_arith)
        requires
            dir.x == 0 && dir.y == 0 && dir.z == SCALE,
            outward.x == 0 && outward.y == 0 && outward.z == -(SCALE as int),
    {
    }
    vstd::arithmetic::div_mod::lemma_div_multiples_vanish(-(SCALE as int), SCALE as int);
    assert(dot_spec(dir, outward) == -(SCALE as int));
    assert(finish_hit_spec(s, ray, t) matches Option::Some(rec) && rec.t == t);
}

} // verus!

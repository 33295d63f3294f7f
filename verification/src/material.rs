//! Material scattering: diffuse, fuzzy-reflective and refractive surfaces.
//!
//! `scatter` turns an incoming ray and a hit record into an outgoing ray and
//! a color attenuation, or absorbs the ray; every variant's behavior is
//! given exactly by a specification function over the sampler state, so a
//! scatter is a pure function of material, hit, ray and sampler state.

use vstd::prelude::*;

use crate::fixed::SCALE;
use crate::object::HitRecord;
use crate::fixed::sqrt_floor;
use crate::primitive::{
    bounded, dot_spec, imin, in64, lemma_div_scale_bound, lemma_dot_bound, lemma_muldiv_bound,
    muldiv, neg_spec, reflect_spec, refract_spec, sphere_sample_spec, sqrt_fixed, unit_spec, vadd,
    Color, Ray, Vec3, SAMPLE_ATTEMPTS,
};
use crate::rng::{sm_next_state, sm_word, Sampler};

verus! {

/// A diffuse surface that scatters into the normal's hemisphere.
#[derive(Clone, Copy, Debug, PartialEq, Eq, Structural)]
pub struct Lambertian {
    pub albedo: Color,
}

/// A reflective surface with a fuzz radius perturbing the mirror direction.
#[derive(Clone, Copy, Debug, PartialEq, Eq, Structural)]
pub struct Metal {
    pub albedo: Color,
    pub fuzz: i64,
}

/// A clear surface that reflects or refracts by Schlick's approximation.
#[derive(Clone, Copy, Debug, PartialEq, Eq, Structural)]
pub struct Dielectric {
    pub refractive_index: i64,
}

/// An outgoing ray and the color attenuation it carries.
#[derive(Clone, Copy, Debug, PartialEq, Eq, Structural)]
pub struct ScatterResult {
    pub attenuation: Color,
    pub ray: Ray,
}

/// The closed set of scattering behaviors.
#[derive(Clone, Copy, Debug, PartialEq, Eq, Structural)]
pub enum Material {
    Lambertian(Lambertian),
    Metal(Metal),
    Dielectric(Dielectric),
}

/// A color with every channel in `[0, 1]`.
pub open spec fn color_wf(c: Color) -> bool {
    &&& 0 <= c.x <= SCALE
    &&& 0 <= c.y <= SCALE
    &&& 0 <= c.z <= SCALE
}

/// Parameter ranges under which scattering is defined: unit-range albedo
/// and fuzz, refractive index between 1/16 and 16.
pub open spec fn material_wf(m: Material) -> bool {
    match m {
        Material::Lambertian(l) => color_wf(l.albedo),
        Material::Metal(mt) => color_wf(mt.albedo) && 0 <= mt.fuzz <= SCALE,
        Material::Dielectric(d) => 4096 <= d.refractive_index <= 0x100000,
    }
}

/// The hit records scattering accepts: point inside the ray domain and a
/// unit-sized normal.
pub open spec fn scatter_rec_wf(rec: HitRecord) -> bool {
    &&& bounded(rec.point, 0x4000000000000)
    &&& bounded(rec.normal, 4 * SCALE)
}

/// What a scatter result must look like: origin at the hit point, direction
/// within the ray domain, attenuation a valid color.
pub open spec fn scatter_out_wf(r: Option<ScatterResult>, rec: HitRecord) -> bool {
    match r {
        Option::Some(s) => s.ray.origin == rec.point && bounded(
            s.ray.direction,
            crate::fixed::RAY_MAX as int,
        ) && color_wf(s.attenuation),
        Option::None => true,
    }
}

/// Diffuse scattering: the normal plus a random unit vector, with the
/// normal itself as a fallback when the sum cancels to zero.
pub open spec fn lambertian_scatter_spec(l: Lambertian, rec: HitRecord, s0: u64) -> (Option<
    ScatterResult,
>, u64) {
    let (p, s1) = sphere_sample_spec(s0, SAMPLE_ATTEMPTS as nat);
    let u = unit_spec(p);
    let d0 = vadd(rec.normal, u);
    let dir = if d0.x == 0 && d0.y == 0 && d0.z == 0 {
        rec.normal
    } else {
        d0
    };
    (
        Option::Some(
            ScatterResult {
                attenuation: l.albedo,
                ray: Ray { origin: rec.point, direction: dir },
            },
        ),
        s1,
    )
}

/// Metal scattering: mirror the unit incoming direction, perturb it by a
/// fuzz-scaled sphere sample, and absorb rays that end up under the surface.
pub open spec fn metal_scatter_spec(m: Metal, ray: Ray, rec: HitRecord, s0: u64) -> (Option<
    ScatterResult,
>, u64) {
    let u = unit_spec(ray.direction);
    let refl = reflect_spec(u, rec.normal);
    let (p, s1) = sphere_sample_spec(s0, SAMPLE_ATTEMPTS as nat);
    let fv = Vec3 {
        x: (p.x * m.fuzz / (SCALE as int)) as i64,
        y: (p.y * m.fuzz / (SCALE as int)) as i64,
        z: (p.z * m.fuzz / (SCALE as int)) as i64,
    };
    let dir = vadd(fv, refl);
    if dot_spec(dir, rec.normal) > 0 {
        (
            Option::Some(
                ScatterResult {
                    attenuation: m.albedo,
                    ray: Ray { origin: rec.point, direction: dir },
                },
            ),
            s1,
        )
    } else {
        (Option::None, s1)
    }
}

/// Schlick's reflectance approximation in fixed point.
pub open spec fn reflectance_spec(cos: int, ratio: int) -> int {
    let r0a = (SCALE - ratio) * SCALE / (SCALE + ratio);
    let r0 = r0a * r0a / (SCALE as int);
    let p1 = SCALE - cos;
    let p2 = p1 * p1 / (SCALE as int);
    let p3 = p2 * p1 / (SCALE as int);
    let p4 = p3 * p1 / (SCALE as int);
    let p5 = p4 * p1 / (SCALE as int);
    r0 + (SCALE - r0) * p5 / (SCALE as int)
}

/// Dielectric scattering: refract by Snell's law unless total internal
/// reflection or a Schlick-probability draw forces a mirror reflection;
/// attenuation is always white.
pub open spec fn dielectric_scatter_spec(d: Dielectric, ray: Ray, rec: HitRecord, s0: u64) -> (
    Option<ScatterResult>, u64) {
    let ratio = if rec.is_front_face {
        SCALE * SCALE / (d.refractive_index as int)
    } else {
        d.refractive_index as int
    };
    let u = unit_spec(ray.direction);
    let cos0 = imin(dot_spec(neg_spec(u), rec.normal), SCALE as int);
    let cos = if cos0 < -(SCALE as int) {
        -(SCALE as int)
    } else {
        cos0
    };
    let sin_sq = SCALE - cos * cos / (SCALE as int);
    let sin = sqrt_floor(sin_sq * SCALE);
    let cannot_refract = ratio * sin / (SCALE as int) > SCALE;
    let draw = sm_word(s0) as int % (SCALE as int);
    let s1 = sm_next_state(s0);
    let should_reflect = reflectance_spec(cos, ratio) > draw;
    let dir = if cannot_refract || should_reflect {
        reflect_spec(u, rec.normal)
    } else {
        refract_spec(u, rec.normal, ratio as i64)
    };
    (
        Option::Some(
            ScatterResult {
                attenuation: Color { x: SCALE, y: SCALE, z: SCALE },
                ray: Ray { origin: rec.point, direction: dir },
            },
        ),
        s1,
    )
}

/// Scattering for the whole closed set of materials.
pub open spec fn material_scatter_spec(m: Material, ray: Ray, rec: HitRecord, s0: u64) -> (Option<
    ScatterResult,
>, u64) {
    match m {
        Material::Lambertian(l) => lambertian_scatter_spec(l, rec, s0),
        Material::Metal(mt) => metal_scatter_spec(mt, ray, rec, s0),
        Material::Dielectric(dl) => dielectric_scatter_spec(dl, ray, rec, s0),
    }
}

/// Diffuse scatter; never absorbs.
fn scatter_lambertian(material: &Lambertian, rng: &mut Sampler, rec: &HitRecord) -> (r: Option<
    ScatterResult,
>)
    requires
        color_wf(material.albedo),
        scatter_rec_wf(*rec),
    ensures
        (r, final(rng).state) == lambertian_scatter_spec(*material, *rec, old(rng).state),
        scatter_out_wf(r, *rec),
{
    let u: Vec3 = Vec3::new_random_unit_vector(rng);
    let d0: Vec3 = rec.normal.add(u);
    let dir: Vec3 = if d0.is_near_zero() {
        rec.normal
    } else {
        d0
    };
    Option::Some(ScatterResult { attenuation: material.albedo, ray: Ray::new(rec.point, dir) })
}

/// Fuzzy mirror scatter for Metal; absorbs rays scattered under the surface.
pub fn scatter(material: &Metal, rng: &mut Sampler, r_in: &Ray, rec: &HitRecord) -> (r: Option<
    ScatterResult,
>)
    requires
        color_wf(material.albedo),
        0 <= material.fuzz <= SCALE,
        crate::object::ray_wf(*r_in),
        scatter_rec_wf(*rec),
    ensures
        (r, final(rng).state) == metal_scatter_spec(*material, *r_in, *rec, old(rng).state),
        scatter_out_wf(r, *rec),
{
    let u: Vec3 = r_in.direction.unit_vector();
    let refl: Vec3 = u.reflect(rec.normal);
    let p: Vec3 = Vec3::new_random_in_unit_sphere(rng);
    proof {
        lemma_muldiv_bound(p.x as int, material.fuzz as int, SCALE as int, SCALE as int);
        lemma_muldiv_bound(p.y as int, material.fuzz as int, SCALE as int, SCALE as int);
        lemma_muldiv_bound(p.z as int, material.fuzz as int, SCALE as int, SCALE as int);
    }
    let fv: Vec3 = p.scale(material.fuzz);
    let dir: Vec3 = fv.add(refl);
    proof {
        lemma_dot_bound(dir, rec.normal, 0x80110000, 4 * SCALE as int);
    }
    let d: i64 = dir.dot(rec.normal);
    if d > 0 {
        Option::Some(
            ScatterResult { attenuation: material.albedo, ray: Ray::new(rec.point, dir) },
        )
    } else {
        Option::None
    }
}

/// Schlick's reflectance approximation.
fn reflectance(cosine: i64, ref_idx: i64) -> (r: i64)
    requires
        -SCALE <= cosine <= SCALE,
        0 < ref_idx <= 0x100000,
    ensures
        r == reflectance_spec(cosine as int, ref_idx as int),
{
    proof {
        lemma_div_scale_bound((SCALE - ref_idx) * SCALE, SCALE as int + ref_idx as int,
            0x1000000000);
    }
    let r0a: i64 = muldiv(SCALE - ref_idx, SCALE, SCALE + ref_idx);
    proof {
        lemma_muldiv_bound(r0a as int, r0a as int, 0x1000000000, 0x1000000000);
    }
    let r0: i64 = muldiv(r0a, r0a, SCALE);
    let p1: i64 = SCALE - cosine;
    proof {
        lemma_muldiv_bound(p1 as int, p1 as int, 131072, 131072);
    }
    let p2: i64 = muldiv(p1, p1, SCALE);
    proof {
        lemma_muldiv_bound(p2 as int, p1 as int, 262144, 131072);
    }
    let p3: i64 = muldiv(p2, p1, SCALE);
    proof {
        lemma_muldiv_bound(p3 as int, p1 as int, 524288, 131072);
    }
    let p4: i64 = muldiv(p3, p1, SCALE);
    proof {
        lemma_muldiv_bound(p4 as int, p1 as int, 1048576, 131072);
    }
    let p5: i64 = muldiv(p4, p1, SCALE);
    proof {
        lemma_muldiv_bound((SCALE - r0) as int, p5 as int, 0x200000000000000, 2097152);
    }
    let tail: i64 = muldiv(SCALE - r0, p5, SCALE);
    r0 + tail
}

/// Refract-or-reflect scatter for Dielectric; never absorbs.
#[verifier::rlimit(100)]
fn scatter_dielectric(material: &Dielectric, rng: &mut Sampler, r_in: &Ray, rec: &HitRecord) -> (r:
    Option<ScatterResult>)
    requires
        4096 <= material.refractive_index <= 0x100000,
        crate::object::ray_wf(*r_in),
        scatter_rec_wf(*rec),
    ensures
        (r, final(rng).state) == dielectric_scatter_spec(*material, *r_in, *rec, old(rng).state),
        scatter_out_wf(r, *rec),
{
    let ratio: i64 = if rec.is_front_face {
        proof {
            lemma_div_scale_bound(SCALE as int * SCALE as int, material.refractive_index as int,
                0x100000000);
            vstd::arithmetic::div_mod::lemma_div_non_zero(SCALE as int * SCALE as int,
                material.refractive_index as int);
            vstd::arithmetic::div_mod::lemma_div_is_ordered_by_denominator(
                SCALE as int * SCALE as int, 4096, material.refractive_index as int);
            assert(SCALE as int * SCALE as int / 4096 == 0x100000);
        }
        muldiv(SCALE, SCALE, material.refractive_index)
    } else {
        material.refractive_index
    };
    let u: Vec3 = r_in.direction.unit_vector();
    let nu: Vec3 = u.neg();
    proof {
        assert(nu == neg_spec(u));
        lemma_dot_bound(nu, rec.normal, 4 * SCALE as int, 4 * SCALE as int);
    }
    let mut cos: i64 = nu.dot(rec.normal);
    if cos > SCALE {
        cos = SCALE;
    }
    if cos < -SCALE {
        cos = -SCALE;
    }
    proof {
        lemma_muldiv_bound(cos as int, cos as int, SCALE as int, SCALE as int);
        assert(0 <= cos as int * cos as int) by (nonlinear_arith) {}
        vstd::arithmetic::div_mod::lemma_div_pos_is_pos(cos as int * cos as int, SCALE as int);
    }
    let sin_sq: i64 = SCALE - muldiv(cos, cos, SCALE);
    let sin: i64 = sqrt_fixed(sin_sq);
    proof {
        crate::fixed::lemma_sqrt_floor_exists(sin_sq as int * SCALE as int);
        assert(0 <= sin <= 1048576) by (nonlinear_arith)
            requires
                0 <= sin,
                sin * sin <= sin_sq * SCALE,
                0 <= sin_sq <= SCALE,
                SCALE == 65536,
        {
        }
        lemma_muldiv_bound(ratio as int, sin as int, 0x100000000, 1048576);
    }
    let refr_sin: i64 = muldiv(ratio, sin, SCALE);
    let cannot_refract: bool = refr_sin > SCALE;
    let refl_p: i64 = reflectance(cos, ratio);
    let draw: i64 = rng.next_below(SCALE);
    let should_reflect: bool = refl_p > draw;
    let dir: Vec3 = if cannot_refract || should_reflect {
        u.reflect(rec.normal)
    } else {
        u.refract(rec.normal, ratio)
    };
    Option::Some(
        ScatterResult {
            attenuation: Color { x: SCALE, y: SCALE, z: SCALE },
            ray: Ray::new(rec.point, dir),
        },
    )
}

impl Material {
    /// Scatter an incoming ray off this material at a hit, or absorb it.
    pub fn scatter(&self, rng: &mut Sampler, r_in: &Ray, record: &HitRecord) -> (r: Option<
        ScatterResult,
    >)
        requires
            material_wf(*self),
            crate::object::ray_wf(*r_in),
            scatter_rec_wf(*record),
        ensures
            (r, final(rng).state) == material_scatter_spec(
                *self,
                *r_in,
                *record,
                old(rng).state,
            ),
            scatter_out_wf(r, *record),
    {
        match self {
            Material::Lambertian(l) => scatter_lambertian(l, rng, record),
            Material::Metal(m) => scatter(m, rng, r_in, record),
            Material::Dielectric(d) => scatter_dielectric(d, rng, r_in, record),
        }
    }
}

/// A Lambertian scatter's attenuation never exceeds the configured albedo
/// in any channel: diffuse bounces cannot gain energy.
pub proof fn lemma_lambertian_energy(l: Lambertian, rec: HitRecord, s0: u64)
    ensures
        ({
            let (r, s) = lambertian_scatter_spec(l, rec, s0);
            match r {
                Option::Some(res) => res.attenuation.x <= l.albedo.x && res.attenuation.y
                    <= l.albedo.y && res.attenuation.z <= l.albedo.z,
                Option::None => false,
            }
        }),
{
}

/// A fuzz-free Metal whose mirrored direction points into or along the
/// surface absorbs the ray: no scatter comes back.
pub proof fn lemma_metal_absorbs_grazing(m: Metal, ray: Ray, rec: HitRecord, s0: u64)
    requires
        m.fuzz == 0,
        dot_spec(reflect_spec(unit_spec(ray.direction), rec.normal), rec.normal) <= 0,
    ensures
        ({
            let (r, s) = metal_scatter_spec(m, ray, rec, s0);
            match r {
                Option::Some(res) => false,
                Option::None => true,
            }
        }),
{
    let u = unit_spec(ray.direction);
    let refl = reflect_spec(u, rec.normal);
    let (p, s1) = crate::primitive::sphere_sample_spec(s0, crate::primitive::SAMPLE_ATTEMPTS as nat);
    assert(p.x * 0int == 0 && p.y * 0int == 0 && p.z * 0int == 0) by (nonlinear_arith) {}
    assert(0int / 65536int == 0int);
    let fv = Vec3 {
        x: (p.x * m.fuzz / (SCALE as int)) as i64,
        y: (p.y * m.fuzz / (SCALE as int)) as i64,
        z: (p.z * m.fuzz / (SCALE as int)) as i64,
    };
    assert(fv == (Vec3 { x: 0i64, y: 0i64, z: 0i64 }));
    assert(vadd(fv, refl) == refl);
}

/// A dielectric with matched refractive index met head on never absorbs,
/// never reflects (its Schlick reflectance is zero, so no draw of the
/// sampler can force a mirror), and passes the ray through unchanged.
pub proof fn lemma_dielectric_matched_head_on(d: Dielectric, ray: Ray, rec: HitRecord, s0: u64)
    requires
        d.refractive_index == SCALE,
        rec.is_front_face,
        ray.direction == (Vec3 { x: 0i64, y: 0i64, z: -65536i64 }),
        rec.normal == (Vec3 { x: 0i64, y: 0i64, z: 65536i64 }),
    ensures
        ({
            let (r, s1) = dielectric_scatter_spec(d, ray, rec, s0);
            match r {
                Option::Some(res) => res.ray.direction == ray.direction && res.attenuation == (
                Color { x: 65536i64, y: 65536i64, z: 65536i64 }),
                Option::None => false,
            }
        }),
{
    let v = ray.direction;
    let n = rec.normal;
    // the incoming direction is already unit: normalizing returns it
    assert(crate::primitive::dot_wide(v, v) == (SCALE as int) * (SCALE as int))
        by (nonlinear_arith)
        requires
            v.x == 0 && v.y == 0 && v.z == -65536,
            SCALE == 65536,
    {
    }
    vstd::arithmetic::div_mod::lemma_div_multiples_vanish(SCALE as int, SCALE as int);
    assert(dot_spec(v, v) == SCALE);
    assert((SCALE as int) * SCALE <= dot_spec(v, v) * SCALE) by (nonlinear_arith)
        requires
            dot_spec(v, v) == SCALE,
    {
    }
    crate::fixed::lemma_sqrt_floor_is(dot_spec(v, v) * SCALE, SCALE as int);
    let len = crate::primitive::len_spec(v);
    assert(len == SCALE) by {
        assert(dot_spec(v, v) * SCALE == (SCALE as int) * (SCALE as int)) by (nonlinear_arith)
            requires
                dot_spec(v, v) == SCALE,
        {
        }
        assert((SCALE as int) * (SCALE as int) < (SCALE as int + 1) * (SCALE as int + 1))
            by (nonlinear_arith)
        {
        }
    }
    vstd::arithmetic::div_mod::lemma_div_multiples_vanish(-65536, SCALE as int);
    vstd::arithmetic::div_mod::lemma_div_multiples_vanish(0, SCALE as int);
    assert(v.z * SCALE == (SCALE as int) * (-65536)) by (nonlinear_arith)
        requires
            v.z == -65536,
            SCALE == 65536,
    {
    }
    assert(0int * SCALE == (SCALE as int) * 0) by (nonlinear_arith) {}
    let u = unit_spec(v);
    assert(u == v);
    // the refraction ratio collapses to one
    vstd::arithmetic::div_mod::lemma_div_multiples_vanish(1, SCALE as int);
    assert((SCALE as int) * SCALE == (SCALE as int) * 1 * SCALE) by (nonlinear_arith) {}
    assert(SCALE * SCALE / (d.refractive_index as int) == SCALE) by {
        assert((SCALE as int) * (SCALE as int) == (SCALE as int) * (SCALE as int));
        vstd::arithmetic::div_mod::lemma_div_multiples_vanish(SCALE as int, SCALE as int);
        assert(SCALE * SCALE == (SCALE as int) * (SCALE as int)) by (nonlinear_arith) {}
    }
    // head on: the cosine is exactly one, so the sine vanishes and the
    // Schlick reflectance is exactly zero
    let nu = neg_spec(u);
    assert(crate::primitive::dot_wide(nu, n) == (SCALE as int) * (SCALE as int))
        by (nonlinear_arith)
        requires
            nu.x == 0 && nu.y == 0 && nu.z == 65536,
            n.x == 0 && n.y == 0 && n.z == 65536,
            SCALE == 65536,
    {
    }
    assert(dot_spec(nu, n) == SCALE);
    let cos = SCALE as int;
    assert(cos * cos == (SCALE as int) * (SCALE as int)) by (nonlinear_arith)
        requires
            cos == SCALE as int,
    {
    }
    assert(cos * cos / (SCALE as int) == SCALE);
    // sin_sq == 0
    assert((0int) * SCALE == 0) by (nonlinear_arith) {}
    crate::fixed::lemma_sqrt_floor_is(0, 0);
    // reflectance(1, 1) == 0
    assert((SCALE - SCALE as int) * SCALE == (SCALE as int + SCALE) * 0) by (nonlinear_arith) {}
    vstd::arithmetic::div_mod::lemma_div_multiples_vanish(0, SCALE as int + SCALE);
    assert(reflectance_spec(cos, SCALE as int) == 0) by {
        assert((SCALE - SCALE as int) * SCALE / (SCALE as int + SCALE) == 0);
        assert(0int * 0 == 0) by (nonlinear_arith) {}
        assert(0int / (SCALE as int) == 0);
        assert((SCALE as int - 0) * 0 == 0) by (nonlinear_arith) {}
    }
    // no draw is below zero, so the mirror branch is never taken
    assert(sm_word(s0) as int % (SCALE as int) >= 0);
    assert(0int * SCALE == 0) by (nonlinear_arith) {}
    assert((SCALE as int) * 0 / (SCALE as int) == 0);
    // and refraction at ratio one is the identity
    assert((v.x * v.x + v.y * v.y) % (SCALE as int) == 0) by {
        assert(v.x * v.x + v.y * v.y == 0) by (nonlinear_arith)
            requires
                v.x == 0 && v.y == 0,
        {
        }
    }
    assert(v.x * v.x + v.y * v.y + v.z * v.z == SCALE * SCALE) by (nonlinear_arith)
        requires
            v.x == 0 && v.y == 0 && v.z == -65536,
            SCALE == 65536,
    {
    }
    crate::primitive::lemma_refract_matched(v);
}

} // verus!

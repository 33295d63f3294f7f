use raytracing::fixed::{SCALE, T_CAP};
use raytracing::material::{scatter, Dielectric, Lambertian, Material, Metal};
use raytracing::object::{hit, HitRecord, Hittable, Object, Sphere};
use raytracing::primitive::{rgb_byte, sqrt_fixed, Ray, Vec3};
use raytracing::rng::Sampler;
use raytracing::AppState;

fn gray(v: i64) -> Vec3 {
    Vec3::new(v, v, v)
}

#[test]
fn vector_algebra_is_exact() {
    let a = Vec3::new(196608, 262144, 0); // (3, 4, 0)
    assert_eq!(a.length_squared(), 25 * SCALE);
    assert_eq!(a.length(), 5 * SCALE);
    let u = a.unit_vector();
    // (3/5, 4/5, 0)
    assert_eq!(u, Vec3::new(39321, 52428, 0));
    assert_eq!(a.dot(a), 25 * SCALE);
    let x = Vec3::new(SCALE, 0, 0);
    let y = Vec3::new(0, SCALE, 0);
    assert_eq!(x.cross(y), Vec3::new(0, 0, SCALE));
    assert_eq!(a.add(a), Vec3::new(393216, 524288, 0));
    assert_eq!(a.sub(a), Vec3::new(0, 0, 0));
    assert_eq!(a.neg(), Vec3::new(-196608, -262144, 0));
    assert_eq!(a.scale(SCALE / 2), Vec3::new(98304, 131072, 0));
    assert!(Vec3::new(0, 0, 0).is_near_zero());
    assert!(!Vec3::new(1, 0, 0).is_near_zero());
    assert_eq!(sqrt_fixed(4 * SCALE), 2 * SCALE);
}

#[test]
fn reflect_mirrors_about_the_normal() {
    // incoming straight down onto an upward normal bounces straight up
    let v = Vec3::new(0, -SCALE, 0);
    let n = Vec3::new(0, SCALE, 0);
    assert_eq!(v.reflect(n), Vec3::new(0, SCALE, 0));
    // a 45 degree incoming keeps its tangential part
    let d = Vec3::new(SCALE, -SCALE, 0);
    assert_eq!(d.reflect(n), Vec3::new(SCALE, SCALE, 0));
}

#[test]
fn ray_at_walks_the_parameter() {
    let r = Ray::new(Vec3::new(SCALE, 0, 0), Vec3::new(0, 0, SCALE));
    assert_eq!(r.at(2 * SCALE), Vec3::new(SCALE, 0, 2 * SCALE));
}

#[test]
fn sphere_head_on_hit_distance() {
    // a unit ray from the origin straight at a sphere of radius 1 centered
    // three units away hits at t = 2
    let s = Sphere::new(
        Vec3::new(0, 0, 3 * SCALE),
        SCALE,
        Material::Lambertian(Lambertian { albedo: gray(32768) }),
    );
    let ray = Ray::new(Vec3::new(0, 0, 0), Vec3::new(0, 0, SCALE));
    let rec = s.hit(ray, 66, T_CAP).expect("head-on ray must hit");
    assert_eq!(rec.t, 2 * SCALE);
    assert_eq!(rec.point, Vec3::new(0, 0, 2 * SCALE));
    assert_eq!(rec.normal, Vec3::new(0, 0, -SCALE));
    assert!(rec.is_front_face);
}

#[test]
fn sphere_miss_returns_none() {
    let s = Sphere::new(
        Vec3::new(0, 0, 3 * SCALE),
        SCALE,
        Material::Lambertian(Lambertian { albedo: gray(32768) }),
    );
    // aimed away from the sphere
    let ray = Ray::new(Vec3::new(0, 0, 0), Vec3::new(0, 0, -SCALE));
    assert!(s.hit(ray, 66, T_CAP).is_none());
}

#[test]
fn normal_always_opposes_the_ray() {
    let s = Sphere::new(
        Vec3::new(0, 0, 3 * SCALE),
        SCALE,
        Material::Lambertian(Lambertian { albedo: gray(32768) }),
    );
    // from outside: front face
    let outside = Ray::new(Vec3::new(0, 0, 0), Vec3::new(0, 0, SCALE));
    let rec = s.hit(outside, 66, T_CAP).unwrap();
    assert!(outside.direction.dot(rec.normal) <= 0);
    // from the center: back face, the normal is flipped inward
    let inside = Ray::new(Vec3::new(0, 0, 3 * SCALE), Vec3::new(0, 0, SCALE));
    let rec2 = s.hit(inside, 66, T_CAP).unwrap();
    assert!(!rec2.is_front_face);
    assert!(inside.direction.dot(rec2.normal) <= 0);
}

#[test]
fn nearest_hit_wins_regardless_of_order() {
    let mat = Material::Lambertian(Lambertian { albedo: gray(32768) });
    let near = Object::Sphere(Sphere::new(Vec3::new(0, 0, 3 * SCALE), SCALE, mat));
    let far = Object::Sphere(Sphere::new(Vec3::new(0, 0, 5 * SCALE), SCALE, mat));
    let ray = Ray::new(Vec3::new(0, 0, 0), Vec3::new(0, 0, SCALE));
    let world_a = vec![near, far];
    let world_b = vec![far, near];
    let ra = hit(&world_a, ray, 66, T_CAP).unwrap();
    let rb = hit(&world_b, ray, 66, T_CAP).unwrap();
    assert_eq!(ra.t, 2 * SCALE);
    assert_eq!(rb.t, 2 * SCALE);
    assert!(hit(&Vec::new(), ray, 66, T_CAP).is_none());
    // two overlapping spheres: the nearer surface along the ray wins, in
    // either scan order
    let big_a = Object::Sphere(Sphere::new(Vec3::new(0, 0, 3 * SCALE), 3 * SCALE / 2, mat));
    let big_b = Object::Sphere(Sphere::new(Vec3::new(0, 0, 7 * SCALE / 2), 3 * SCALE / 2, mat));
    let oa = hit(&vec![big_a, big_b], ray, 66, T_CAP).unwrap();
    let ob = hit(&vec![big_b, big_a], ray, 66, T_CAP).unwrap();
    assert_eq!(oa.t, 3 * SCALE / 2);
    assert_eq!(ob.t, 3 * SCALE / 2);
}

fn front_hit() -> HitRecord {
    HitRecord::new(
        Vec3::new(0, 0, 2 * SCALE),
        Vec3::new(0, 0, -SCALE),
        2 * SCALE,
        true,
        Material::Lambertian(Lambertian { albedo: gray(32768) }),
    )
}

#[test]
fn lambertian_attenuation_is_the_albedo() {
    let albedo = Vec3::new(52428, 39321, 26214);
    let mat = Material::Lambertian(Lambertian { albedo });
    let ray = Ray::new(Vec3::new(0, 0, 0), Vec3::new(0, 0, SCALE));
    let mut rng = Sampler::new(7);
    let res = mat.scatter(&mut rng, &ray, &front_hit()).expect("diffuse never absorbs");
    assert_eq!(res.attenuation, albedo);
    assert!(res.attenuation.x <= albedo.x);
    assert!(res.attenuation.y <= albedo.y);
    assert!(res.attenuation.z <= albedo.z);
    assert_eq!(res.ray.origin, Vec3::new(0, 0, 2 * SCALE));
}

#[test]
fn metal_absorbs_reflection_into_the_surface() {
    // the hit normal points along +z but the incoming ray also runs along
    // +z, so the mirrored direction dives under the surface: absorbed
    let m = Metal { albedo: gray(45875), fuzz: 0 };
    let rec = HitRecord::new(
        Vec3::new(0, 0, 2 * SCALE),
        Vec3::new(0, 0, SCALE),
        2 * SCALE,
        true,
        Material::Metal(m),
    );
    let ray = Ray::new(Vec3::new(0, 0, 0), Vec3::new(0, 0, SCALE));
    let mut rng = Sampler::new(7);
    assert!(scatter(&m, &mut rng, &ray, &rec).is_none());
}

#[test]
fn metal_reflects_off_a_facing_surface() {
    let m = Metal { albedo: gray(45875), fuzz: 0 };
    let rec = front_hit();
    let rec = HitRecord::new(rec.point, rec.normal, rec.t, true, Material::Metal(m));
    let ray = Ray::new(Vec3::new(0, 0, 0), Vec3::new(0, 0, SCALE));
    let mut rng = Sampler::new(7);
    let res = scatter(&m, &mut rng, &ray, &rec).expect("mirror off a facing surface");
    assert_eq!(res.ray.direction, Vec3::new(0, 0, -SCALE));
    assert_eq!(res.attenuation, gray(45875));
}

#[test]
fn dielectric_with_matched_index_passes_through() {
    let d = Dielectric { refractive_index: SCALE };
    let rec = HitRecord::new(
        Vec3::new(0, 0, -2 * SCALE),
        Vec3::new(0, 0, SCALE),
        2 * SCALE,
        true,
        Material::Dielectric(d),
    );
    let ray = Ray::new(Vec3::new(0, 0, 0), Vec3::new(0, 0, -SCALE));
    let mut rng = Sampler::new(7);
    let res = Material::Dielectric(d).scatter(&mut rng, &ray, &rec).expect(
        "dielectrics never absorb",
    );
    assert_eq!(res.ray.direction, Vec3::new(0, 0, -SCALE));
    assert_eq!(res.attenuation, gray(SCALE));
}

#[test]
fn random_samples_stay_inside_their_domains() {
    let mut rng = Sampler::new(99);
    for _ in 0..32 {
        let p = Vec3::new_random_in_unit_sphere(&mut rng);
        assert!(p.length_squared() < SCALE);
        let q = Vec3::new_random_in_unit_disk(&mut rng);
        assert!(q.length_squared() < SCALE);
        assert_eq!(q.z(), 0);
        let w = Vec3::new_random_range(&mut rng, -SCALE, SCALE);
        assert!(w.x() >= -SCALE && w.x() < SCALE);
        let n = Vec3::new(0, SCALE, 0);
        let h = Vec3::new_random_in_hemisphere(&mut rng, n);
        assert!(h.dot(n) >= 0 || h.neg().dot(n) > 0);
    }
}

#[test]
fn sampler_streams_are_reproducible() {
    let mut a = Sampler::new(1234);
    let mut b = Sampler::new(1234);
    let mut c = Sampler::new(1235);
    let mut same = true;
    let mut all_equal_c = true;
    for _ in 0..16 {
        let x = a.next_u64();
        let y = b.next_u64();
        let z = c.next_u64();
        same = same && x == y;
        all_equal_c = all_equal_c && x == z;
    }
    assert!(same);
    assert!(!all_equal_c);
}

#[test]
fn channel_quantization_formula() {
    assert_eq!(rgb_byte(SCALE, SCALE), 255); // full white clamps to 0.999
    assert_eq!(rgb_byte(0, SCALE), 0);
    // 0.25 -> sqrt = 0.5 -> 128
    assert_eq!(rgb_byte(SCALE / 4, SCALE), 128);
    let mut c = Vec3::new(SCALE / 4, 0, SCALE);
    c.correct_color(SCALE);
    assert_eq!(c, Vec3::new(128, 0, 255));
    assert_eq!(c.r(), 128);
    assert_eq!(c.g(), 0);
    assert_eq!(c.b(), 255);
    let rgb = Vec3::new(SCALE / 4, 0, SCALE).to_rgb(SCALE);
    assert_eq!(rgb, [128, 0, 255]);
}

#[test]
fn refract_matched_identity_on_vector() {
    let v = Vec3::new(0, 0, -SCALE);
    let n = Vec3::new(0, 0, SCALE);
    assert_eq!(v.refract(n, SCALE), v);
}

#[test]
fn app_state_button_labels() {
    assert_eq!(AppState::Running.to_button_str(), "Pause");
    assert_eq!(AppState::Paused.to_button_str(), "Run");
    assert_eq!(AppState::Moving.to_button_str(), "Run");
}

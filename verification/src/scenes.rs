//! Built-in scenes.
//!
//! The showcase scene: a large ground sphere, a grid of small randomly
//! placed and randomly colored spheres, and three large feature spheres
//! (glass, diffuse, metal), seen from a distance through a narrow lens.

use vstd::prelude::*;

use crate::config::{config_wf, CameraConfig, Config, ImageConfig};
use crate::fixed::SCALE;
use crate::material::{Dielectric, Lambertian, Material, Metal};
use crate::object::{object_wf, Object, Sphere};
use crate::primitive::{bounded, lemma_dot_bound, lemma_muldiv_bound, muldiv, Color, Vec3};
use crate::rng::Sampler;

verus! {

/// The well-formedness that every object of the showcase scene satisfies.
pub open spec fn showcase_wf(world: Seq<Object>) -> bool {
    forall|i: int| 0 <= i < world.len() ==> object_wf(#[trigger] world[i])
}

/// Build the showcase scene.  The small spheres' positions and colors come
/// from machine entropy; everything else is fixed, and every object is
/// within the tracer's domain.
#[verifier::loop_isolation(false)]
#[verifier::rlimit(100)]
pub fn final_scene() -> (r: Config)
    ensures
        config_wf(&r),
        r.image == (ImageConfig {
            width: 1200u32,
            height: 800u32,
            samples_per_pixel: 10usize,
            max_ray_depth: 50i32,
            seed: Option::None,
        }),
        r.camera == (CameraConfig {
            look_from: Vec3 { x: 851968, y: 131072, z: 196608 },
            look_to: Vec3 { x: 0, y: 0, z: 0 },
            vertical_fov: 1310720,
            aperture: 6554,
            focus_dist: Option::Some(655360i64),
        }),
        r.world@.len() >= 4,
        r.world@[0] == Object::Sphere(
            Sphere {
                center: Vec3 { x: 0, y: -65536000i64, z: 0 },
                radius: 65536000,
                material: Material::Lambertian(
                    Lambertian { albedo: Vec3 { x: 32768, y: 32768, z: 32768 } },
                ),
            },
        ),
        r.world@[r.world@.len() - 3] == Object::Sphere(
            Sphere {
                center: Vec3 { x: 0, y: 65536, z: 0 },
                radius: 65536,
                material: Material::Dielectric(Dielectric { refractive_index: 98304 }),
            },
        ),
        r.world@[r.world@.len() - 2] == Object::Sphere(
            Sphere {
                center: Vec3 { x: -262144i64, y: 65536, z: 0 },
                radius: 65536,
                material: Material::Lambertian(
                    Lambertian { albedo: Vec3 { x: 26214, y: 13107, z: 6554 } },
                ),
            },
        ),
        r.world@[r.world@.len() - 1] == Object::Sphere(
            Sphere {
                center: Vec3 { x: 262144, y: 65536, z: 0 },
                radius: 65536,
                material: Material::Metal(
                    Metal { albedo: Vec3 { x: 45875, y: 39322, z: 32768 }, fuzz: 0 },
                ),
            },
        ),
{
    let ground = Material::Lambertian(
        Lambertian { albedo: Vec3::new(32768, 32768, 32768) },
    );
    let mut world: Vec<Object> = Vec::new();
    world.push(
        Object::Sphere(Sphere::new(Vec3::new(0, -65536000, 0), 65536000, ground)),
    );
    let mut rng: Sampler = Sampler::from_entropy();
    let mut a: i64 = -11;
    while a < 11
        invariant
            -11 <= a <= 11,
            world@.len() >= 1,
            world@[0] == Object::Sphere(
                Sphere {
                    center: Vec3 { x: 0, y: -65536000i64, z: 0 },
                    radius: 65536000,
                    material: Material::Lambertian(
                        Lambertian { albedo: Vec3 { x: 32768, y: 32768, z: 32768 } },
                    ),
                },
            ),
            showcase_wf(world@),
        decreases 11 - a,
    {
        let mut b: i64 = -11;
        while b < 11
            invariant
                -11 <= a < 11,
                -11 <= b <= 11,
                world@.len() >= 1,
                world@[0] == Object::Sphere(
                    Sphere {
                        center: Vec3 { x: 0, y: -65536000i64, z: 0 },
                        radius: 65536000,
                        material: Material::Lambertian(
                            Lambertian { albedo: Vec3 { x: 32768, y: 32768, z: 32768 } },
                        ),
                    },
                ),
                showcase_wf(world@),
            decreases 11 - b,
        {
            let choose_mat: i64 = rng.next_below(SCALE);
            let jx: i64 = rng.next_below(SCALE);
            let jz: i64 = rng.next_below(SCALE);
            proof {
                lemma_muldiv_bound(jx as int, 58982, 65536, 65536);
                lemma_muldiv_bound(jz as int, 58982, 65536, 65536);
            }
            let center = Vec3::new(
                a * 65536 + muldiv(jx, 58982, SCALE),
                13107,
                b * 65536 + muldiv(jz, 58982, SCALE),
            );
            proof {
                assert(bounded(center, 0x100000));
            }
            let anchor = Vec3::new(262144, 13107, 0);
            let d: Vec3 = center.sub(anchor);
            proof {
                assert(bounded(d, 0x200000));
                lemma_dot_bound(d, d, 0x200000, 0x200000);
            }
            let dist: i64 = d.length();
            if dist > 58982 {
                if choose_mat < 52429 {
                    let c1: Color = Vec3::new_random(&mut rng);
                    let c2: Color = Vec3::new_random(&mut rng);
                    proof {
                        lemma_muldiv_bound(c1.x as int, c2.x as int, 65536, 65536);
                        lemma_muldiv_bound(c1.y as int, c2.y as int, 65536, 65536);
                        lemma_muldiv_bound(c1.z as int, c2.z as int, 65536, 65536);
                        vstd::arithmetic::div_mod::lemma_div_pos_is_pos(c1.x * c2.x, SCALE as int);
                        vstd::arithmetic::div_mod::lemma_div_pos_is_pos(c1.y * c2.y, SCALE as int);
                        vstd::arithmetic::div_mod::lemma_div_pos_is_pos(c1.z * c2.z, SCALE as int);
                        vstd::arithmetic::div_mod::lemma_div_is_ordered(c1.x * c2.x, 0x100000000,
                            SCALE as int);
                        vstd::arithmetic::div_mod::lemma_div_is_ordered(c1.y * c2.y, 0x100000000,
                            SCALE as int);
                        vstd::arithmetic::div_mod::lemma_div_is_ordered(c1.z * c2.z, 0x100000000,
                            SCALE as int);
                    }
                    let albedo: Color = c1.mul(c2);
                    world.push(
                        Object::Sphere(
                            Sphere::new(
                                center,
                                13107,
                                Material::Lambertian(Lambertian { albedo }),
                            ),
                        ),
                    );
                } else if choose_mat < 62259 {
                    world.push(
                        Object::Sphere(
                            Sphere::new(
                                center,
                                13107,
                                Material::Dielectric(Dielectric { refractive_index: 98304 }),
                            ),
                        ),
                    );
                }
            }
            b = b + 1;
        }
        a = a + 1;
    }
    world.push(
        Object::Sphere(
            Sphere::new(
                Vec3::new(0, 65536, 0),
                65536,
                Material::Dielectric(Dielectric { refractive_index: 98304 }),
            ),
        ),
    );
    world.push(
        Object::Sphere(
            Sphere::new(
                Vec3::new(-262144, 65536, 0),
                65536,
                Material::Lambertian(Lambertian { albedo: Vec3::new(26214, 13107, 6554) }),
            ),
        ),
    );
    world.push(
        Object::Sphere(
            Sphere::new(
                Vec3::new(262144, 65536, 0),
                65536,
                Material::Metal(Metal { albedo: Vec3::new(45875, 39322, 32768), fuzz: 0 }),
            ),
        ),
    );
    let look_from = Vec3::new(851968, 131072, 196608);
    let look_to = Vec3::new(0, 0, 0);
    Config {
        camera: CameraConfig {
            look_from,
            look_to,
            vertical_fov: 1310720,
            aperture: 6554,
            focus_dist: Option::Some(655360),
        },
        image: ImageConfig {
            width: 1200,
            height: 800,
            samples_per_pixel: 10,
            max_ray_depth: 50,
            seed: Option::None,
        },
        world,
    }
}

} // verus!

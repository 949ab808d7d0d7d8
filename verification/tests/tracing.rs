//! Exercises of the tracer, the direct-light estimator and the renderer.

use pyrite::color::Color;
use pyrite::film::{Film, Sample};
use pyrite::fixed::FX_ONE;
use pyrite::math::Math;
use pyrite::renderer::{render_tile, Camera, Renderer, Tile};
use pyrite::rng::rng_from_seed;
use pyrite::tracer::{trace, trace_direct, Brdf, Material, Object, Sky, Sphere, World};
use pyrite::vector::{Ray3, Vec3};

const FX: i64 = 65536;

fn fx_of(units: i64) -> i64 {
    units * FX
}

fn constant(v: i64) -> Math {
    Math::Value(Color::Constant(v))
}

fn sky_of(v: i64) -> Sky {
    Sky::Color(constant(v))
}

fn sphere_at(x: i64, y: i64, z: i64, radius: i64) -> Sphere {
    Sphere::new(Vec3::new(x, y, z), radius)
}

fn forward_ray() -> Ray3 {
    Ray3::new(Vec3::new(0, 0, 0), Vec3::new(0, 0, -FX))
}

#[test]
fn empty_scene_sees_the_sky() {
    // Sky 0.5, no objects: the single sample comes back with exactly 0.5.
    let world = World { sky: sky_of(FX / 2), lights: vec![], objects: vec![] };
    let mut rng = rng_from_seed(7);
    let finished = trace(&mut rng, forward_ray(), vec![fx_of(500)], &world, 4, 1);
    assert_eq!(finished.len(), 1);
    assert_eq!(finished[0].wavelength, fx_of(500));
    assert_eq!(finished[0].brightness, FX / 2);
    assert_eq!(finished[0].weight, FX_ONE);
}

#[test]
fn emissive_sphere_fills_the_view() {
    // The camera sits inside a sphere that emits 2.0 at every wavelength.
    let world = World {
        sky: sky_of(0),
        lights: vec![0],
        objects: vec![Object {
            shape: sphere_at(0, 0, 0, FX),
            material: Material::Emission { color: constant(fx_of(2)) },
        }],
    };
    let mut rng = rng_from_seed(11);
    let finished = trace(&mut rng, forward_ray(), vec![fx_of(540)], &world, 4, 1);
    assert_eq!(finished.len(), 1);
    assert_eq!(finished[0].brightness, fx_of(2));
}

#[test]
fn passthrough_mirror_conserves_the_sky() {
    // A perfect mirror under a constant sky: any path that escapes
    // carries exactly the sky's brightness.
    let world = World {
        sky: sky_of(FX / 2),
        lights: vec![],
        objects: vec![Object {
            shape: sphere_at(0, 0, -fx_of(6), FX),
            material: Material::Mirror { color: constant(FX) },
        }],
    };
    let mut rng = rng_from_seed(13);
    let finished = trace(&mut rng, forward_ray(), vec![fx_of(500), fx_of(600)], &world, 4, 1);
    assert_eq!(finished.len(), 2);
    for ws in &finished {
        assert_eq!(ws.brightness, FX / 2);
    }
}

#[test]
fn direct_light_is_zero_without_lights() {
    let world = World { sky: sky_of(FX), lights: vec![], objects: vec![] };
    let mut rng = rng_from_seed(17);
    let normal = Ray3::new(Vec3::new(0, 0, 0), Vec3::new(0, 0, FX));
    let sums = trace_direct(
        &mut rng,
        8,
        &vec![fx_of(450), fx_of(550), fx_of(650)],
        &Vec3::new(0, 0, -FX),
        &normal,
        &world,
        Brdf::Lambertian,
    );
    assert_eq!(sums.len(), 3);
    assert!(sums.iter().all(|&s| s == 0));
}

#[test]
fn dispersion_splits_into_per_wavelength_emissions() {
    // Two wavelengths, a dispersive emitter with one color per branch:
    // each sample banks its own branch's value.
    let world = World {
        sky: sky_of(0),
        lights: vec![],
        objects: vec![Object {
            shape: sphere_at(0, 0, 0, FX),
            material: Material::DispersiveEmission {
                colors: vec![constant(fx_of(1)), constant(fx_of(2))],
            },
        }],
    };
    let mut rng = rng_from_seed(19);
    let finished = trace(&mut rng, forward_ray(), vec![fx_of(500), fx_of(600)], &world, 4, 1);
    assert_eq!(finished.len(), 2);
    assert_eq!(finished[0].wavelength, fx_of(500));
    assert_eq!(finished[0].brightness, fx_of(1));
    assert_eq!(finished[1].wavelength, fx_of(600));
    assert_eq!(finished[1].brightness, fx_of(2));
}

#[test]
fn diffuse_sphere_under_constant_sky_averages_to_one() {
    // Lambertian estimator sanity: reflectance one under a unit sky gives
    // an expected brightness of one.
    let world = World {
        sky: sky_of(FX),
        lights: vec![],
        objects: vec![Object {
            shape: sphere_at(0, 0, -fx_of(6), FX),
            material: Material::Diffuse { color: constant(FX) },
        }],
    };
    let mut rng = rng_from_seed(23);
    let mut total: i128 = 0;
    let runs: i128 = 400;
    for _ in 0..runs {
        let finished = trace(&mut rng, forward_ray(), vec![fx_of(500)], &world, 3, 0);
        total += finished[0].brightness as i128;
    }
    let mean = total / runs;
    assert!(
        mean > (FX as i128) * 6 / 10 && mean < (FX as i128) * 14 / 10,
        "mean brightness was {} / 65536",
        mean
    );
}

#[test]
fn emissive_light_reaches_a_diffuse_surface_directly() {
    // One emitting sphere above a diffuse sphere: the estimator finds it.
    let world = World {
        sky: sky_of(0),
        lights: vec![1],
        objects: vec![
            Object {
                shape: sphere_at(0, 0, -fx_of(6), FX),
                material: Material::Diffuse { color: constant(FX) },
            },
            Object {
                shape: sphere_at(0, fx_of(3), -fx_of(3), FX),
                material: Material::Emission { color: constant(fx_of(8)) },
            },
        ],
    };
    let mut rng = rng_from_seed(29);
    let mut lit = false;
    for _ in 0..50 {
        let finished = trace(&mut rng, forward_ray(), vec![fx_of(550)], &world, 2, 4);
        if finished[0].brightness > 0 {
            lit = true;
        }
    }
    assert!(lit, "no direct light ever arrived");
}

#[test]
fn trace_returns_one_sample_per_wavelength() {
    let world = World {
        sky: sky_of(FX),
        lights: vec![],
        objects: vec![Object {
            shape: sphere_at(0, 0, -fx_of(6), FX),
            material: Material::Mirror { color: constant(FX / 2) },
        }],
    };
    let mut rng = rng_from_seed(31);
    let wavelengths = vec![fx_of(420), fx_of(520), fx_of(620), fx_of(720)];
    let finished = trace(&mut rng, forward_ray(), wavelengths.clone(), &world, 6, 1);
    assert_eq!(finished.len(), wavelengths.len());
    for ws in &finished {
        assert!(wavelengths.contains(&ws.wavelength));
        assert_eq!(ws.weight, FX_ONE);
    }
}

#[test]
fn film_wavelengths_stay_in_range_and_seeds_are_deterministic() {
    let film = Film::new(4, 4, fx_of(380), fx_of(780));
    let mut a = rng_from_seed(99);
    let mut b = rng_from_seed(99);
    for _ in 0..100 {
        let wa = film.sample_wavelength(&mut a);
        let wb = film.sample_wavelength(&mut b);
        assert_eq!(wa, wb);
        assert!(wa >= fx_of(380) && wa < fx_of(780));
    }
}

#[test]
fn a_black_mirror_absorbs_the_path() {
    // The first hit multiplies throughput by zero: the sample completes
    // with nothing banked, and the sky is never reached.
    let world = World {
        sky: sky_of(FX),
        lights: vec![],
        objects: vec![Object {
            shape: sphere_at(0, 0, -fx_of(6), FX),
            material: Material::Mirror { color: constant(0) },
        }],
    };
    let mut rng = rng_from_seed(43);
    let finished = trace(&mut rng, forward_ray(), vec![fx_of(500)], &world, 8, 1);
    assert_eq!(finished.len(), 1);
    assert_eq!(finished[0].brightness, 0);
}

#[test]
fn merged_films_add_their_exposures() {
    let mut a = Film::new(1, 1, fx_of(380), fx_of(780));
    let mut b = Film::new(1, 1, fx_of(380), fx_of(780));
    a.expose(0, 0, Sample { wavelength: fx_of(550), brightness: FX, weight: FX_ONE });
    b.expose(0, 0, Sample { wavelength: fx_of(550), brightness: fx_of(2), weight: FX_ONE });
    b.expose(0, 0, Sample { wavelength: fx_of(550), brightness: fx_of(2), weight: FX_ONE });
    a.merge(&b);
    assert_eq!(a.pixels[0].count, 3);
    assert_eq!(a.pixels[0].green, 5 * b.pixels[0].green / 4);
}

#[test]
fn render_tile_exposes_every_pixel_of_its_tile() {
    let mut film = Film::new(2, 2, fx_of(380), fx_of(780));
    let world = World { sky: sky_of(FX / 2), lights: vec![], objects: vec![] };
    let camera = Camera {
        position: Vec3::new(0, 0, 0),
        forward: Vec3::new(0, 0, -FX),
        right: Vec3::new(FX, 0, 0),
        up: Vec3::new(0, FX, 0),
    };
    let renderer = Renderer {
        threads: 1,
        tile_size: 2,
        pixel_samples: 3,
        spectrum_samples: 2,
        bounces: 4,
        light_samples: 1,
    };
    let mut rng = rng_from_seed(37);
    let tile = Tile { x: 0, y: 0, width: 2, height: 2 };
    render_tile(&mut film, tile, &camera, &world, &renderer, &mut rng);
    for pixel in &film.pixels {
        assert_eq!(pixel.count, 6);
    }
    let image = film.develop();
    assert_eq!(image.len(), 4);
}

//! Exercises of the scalar model, the spectra and the value graph.

use pyrite::color::{decode_color, decode_rgb, decode_spectrum, Color};
use pyrite::expression::{ComplexExpression, ComplexKind, DecodeError, Expression, Prelude};
use pyrite::film::{clamp_channel, Film, Sample};
use pyrite::fixed::{fx_add, fx_div, fx_mul, fx_sqrt, FX_MAX, FX_ONE};
use pyrite::math::{ortho, schlick, solid_angle, Curve, Math, NoOp, Operator, BinaryOperator};
use pyrite::renderer::make_tiles;
use pyrite::spectrum::Interpolated;
use pyrite::tracer::RenderContext;
use pyrite::tracer::ParametricValue;
use pyrite::vector::Vec3;

const FX: i64 = 65536;

fn fx_of(units: i64) -> i64 {
    units * FX
}

fn ctx_at(wavelength: i64) -> RenderContext {
    RenderContext {
        wavelength,
        normal: Vec3::new(0, 0, FX),
        incident: Vec3::new(0, 0, -FX),
    }
}

#[test]
fn fixed_point_arithmetic_is_exact_on_halves() {
    assert_eq!(fx_mul(fx_of(2), fx_of(3)), fx_of(6));
    assert_eq!(fx_mul(FX / 2, fx_of(3)), fx_of(3) / 2);
    assert_eq!(fx_div(fx_of(3), fx_of(2)), FX + FX / 2);
    assert_eq!(fx_add(fx_of(1), -fx_of(1)), 0);
    assert_eq!(fx_sqrt(fx_of(4)), fx_of(2));
    assert_eq!(fx_sqrt(FX), FX);
}

#[test]
fn division_by_zero_saturates() {
    assert_eq!(fx_div(fx_of(1), 0), FX_MAX);
    assert_eq!(fx_div(-fx_of(1), 0), -FX_MAX);
    assert_eq!(fx_div(0, 0), 0);
}

#[test]
fn spectrum_interpolates_and_vanishes_outside() {
    // A triangle spectrum: zero at 400 nm and 600 nm, one at 500 nm.
    let spectrum = Interpolated {
        points: vec![(fx_of(400), 0), (fx_of(500), FX), (fx_of(600), 0)],
    };
    assert_eq!(spectrum.get(fx_of(400)), 0);
    assert_eq!(spectrum.get(fx_of(450)), FX / 2);
    assert_eq!(spectrum.get(fx_of(500)), FX);
    assert_eq!(spectrum.get(fx_of(550)), FX / 2);
    assert_eq!(spectrum.get(fx_of(600)), 0);
    assert_eq!(spectrum.get(fx_of(700)), 0);
    assert_eq!(spectrum.get(fx_of(399)), 0);
}

#[test]
fn spectrum_returns_points_exactly() {
    let spectrum = Interpolated {
        points: vec![(fx_of(400), 1234), (fx_of(470), 999), (fx_of(530), 4321)],
    };
    assert_eq!(spectrum.get(fx_of(400)), 1234);
    assert_eq!(spectrum.get(fx_of(470)), 999);
    assert_eq!(spectrum.get(fx_of(530)), 4321);
}

#[test]
fn segment_sums_approximate_the_trapezoid_integral() {
    let spectrum = Interpolated {
        points: vec![(fx_of(400), 0), (fx_of(500), FX), (fx_of(600), 0)],
    };
    // The trapezoid integral over [400, 600] of the triangle is 100 units
    // of (nanometer * value); measure it with two segment counts.
    let mut sums: Vec<i128> = Vec::new();
    for n in [4usize, 16usize] {
        let mut cursor = spectrum.segments_between(fx_of(400), fx_of(600), n);
        let mut total: i128 = 0;
        while let Some(((x0, y0), (x1, y1))) = cursor.next() {
            total += (y0 as i128 + y1 as i128) * (x1 as i128 - x0 as i128) / 2;
        }
        sums.push(total);
    }
    let expected: i128 = 100 * (FX as i128) * (FX as i128);
    for total in sums {
        let error = (total - expected).abs();
        assert!(error < expected / 100, "segment sum {} is far from {}", total, expected);
    }
}

#[test]
fn segments_extend_endpoint_values() {
    let spectrum = Interpolated { points: vec![(fx_of(500), FX)] };
    let mut cursor = spectrum.segments_between(fx_of(400), fx_of(600), 2);
    let ((_, y0), (_, y1)) = cursor.next().unwrap();
    assert_eq!(y0, FX);
    assert_eq!(y1, FX);
    assert!(cursor.next().is_some());
    assert!(cursor.next().is_none());
}

#[test]
fn schlick_head_on_reflectance_matches_the_formula() {
    // n1 = 1, n2 = 1.5 head on: r0^2 = ((1 - 1.5) / 2.5)^2 = 0.04.
    let normal = Vec3::new(0, 0, FX);
    let incident = Vec3::new(0, 0, -FX);
    let r = schlick(fx_of(1), FX + FX / 2, normal, incident);
    let expected = (FX as f64) * 0.04;
    assert!((r as f64 - expected).abs() < 40.0, "schlick gave {}", r);
}

#[test]
fn schlick_agrees_across_orientations_at_grazing_incidence() {
    // Equal indices and a grazing ray: the two orientation conventions
    // agree (the symmetry proved in the library).
    let normal = Vec3::new(0, 0, FX);
    let incident = Vec3::new(FX, 0, 0);
    let a = schlick(fx_of(2), fx_of(2), normal, incident);
    let b = schlick(fx_of(2), fx_of(2), normal.neg(), incident);
    assert_eq!(a, b);
}

#[test]
fn total_internal_reflection_returns_one() {
    // Leaving a dense medium at a steep angle reflects everything.
    let normal = Vec3::new(0, 0, FX);
    // A mostly-tangential incident direction.
    let incident = Vec3::new(64000, 0, -14000);
    let r = schlick(fx_of(3), fx_of(1), normal, incident);
    assert_eq!(r, FX);
}

fn number(v: i64) -> Expression {
    Expression::Number(v)
}

#[test]
fn operators_evaluate_to_their_combinations() {
    let ctx = ctx_at(fx_of(500));
    let add = Math::from_expression(Expression::Complex(ComplexExpression::Add {
        a: Box::new(number(fx_of(2))),
        b: Box::new(number(fx_of(3))),
    }))
    .unwrap();
    assert_eq!(add.get(&ctx), fx_of(5));
    let sub = Math::from_expression(Expression::Complex(ComplexExpression::Sub {
        a: Box::new(number(fx_of(2))),
        b: Box::new(number(fx_of(3))),
    }))
    .unwrap();
    assert_eq!(sub.get(&ctx), -fx_of(1));
    let mul = Math::from_expression(Expression::Complex(ComplexExpression::Mul {
        a: Box::new(number(fx_of(2))),
        b: Box::new(number(fx_of(3))),
    }))
    .unwrap();
    assert_eq!(mul.get(&ctx), fx_of(6));
    let div = Math::from_expression(Expression::Complex(ComplexExpression::Div {
        a: Box::new(number(fx_of(3))),
        b: Box::new(number(fx_of(2))),
    }))
    .unwrap();
    assert_eq!(div.get(&ctx), FX + FX / 2);
}

#[test]
fn mix_clamps_its_factor() {
    let ctx = ctx_at(fx_of(500));
    let mix_over = Math::from_expression(Expression::Complex(ComplexExpression::Mix {
        a: Box::new(number(fx_of(1))),
        b: Box::new(number(fx_of(5))),
        factor: Box::new(number(fx_of(2))),
    }))
    .unwrap();
    let mix_at_one = Math::from_expression(Expression::Complex(ComplexExpression::Mix {
        a: Box::new(number(fx_of(1))),
        b: Box::new(number(fx_of(5))),
        factor: Box::new(number(fx_of(1))),
    }))
    .unwrap();
    assert_eq!(mix_over.get(&ctx), mix_at_one.get(&ctx));
    assert_eq!(mix_over.get(&ctx), fx_of(5));
}

#[test]
fn booleans_are_rejected_in_numeric_contexts() {
    let r = Math::from_expression(Expression::Boolean(true));
    assert_eq!(r.unwrap_err(), DecodeError::BooleanInContext);
}

#[test]
fn vectors_are_rejected_with_their_reason() {
    let r = Math::from_expression(Expression::Complex(ComplexExpression::Vector {
        x: Box::new(number(0)),
        y: Box::new(number(0)),
        z: Box::new(number(0)),
    }));
    let err = r.unwrap_err();
    assert_eq!(err, DecodeError::Rejected(ComplexKind::Vector));
    assert_eq!(err.message(), "vectors cannot be used in this context");
}

#[test]
fn no_op_contexts_reject_every_structure() {
    let err = NoOp::try_from(ComplexExpression::Texture).unwrap_err();
    assert_eq!(err, DecodeError::Rejected(ComplexKind::Texture));
    assert_eq!(err.message(), "textures cannot be used in this context");
    let err = NoOp::try_from(ComplexExpression::Rgb { red: FX, green: 0, blue: 0 }).unwrap_err();
    assert_eq!(err, DecodeError::Rejected(ComplexKind::Rgb));
}

#[test]
fn unsorted_spectra_are_refused() {
    let r = decode_spectrum(vec![(fx_of(500), FX), (fx_of(400), 0)]);
    assert_eq!(r.unwrap_err(), DecodeError::UnsortedSpectrum);
    let r = decode_spectrum(vec![(fx_of(400), -1)]);
    assert_eq!(r.unwrap_err(), DecodeError::UnsortedSpectrum);
}

#[test]
fn decoded_spectra_and_rgb_evaluate() {
    let ctx = ctx_at(fx_of(450));
    let spectrum = decode_spectrum(vec![(fx_of(400), 0), (fx_of(500), FX)]).unwrap();
    assert_eq!(spectrum.get(&ctx), FX / 2);
    let rgb = decode_rgb(FX, 0, 0).unwrap();
    // 450 nm lies outside the red response triangle.
    assert_eq!(rgb.get(&ctx), 0);
    let c = decode_color(number(fx_of(2))).unwrap();
    assert_eq!(c.get(&ctx), fx_of(2));
}

#[test]
fn fresnel_defaults_its_environment_index() {
    let ctx = ctx_at(fx_of(500));
    let fresnel = Math::from_expression(Expression::Complex(ComplexExpression::Fresnel {
        ior: Box::new(number(FX + FX / 2)),
        env_ior: None,
    }))
    .unwrap();
    // Head-on front-face hit: same as schlick(1, 1.5, N, I).
    let direct = schlick(fx_of(1), FX + FX / 2, ctx.normal, ctx.incident);
    assert_eq!(fresnel.get(&ctx), direct);
}

#[test]
fn from_binary_builds_the_asked_operator() {
    let op = Operator::from_binary(BinaryOperator::Mul, number(fx_of(4)), number(fx_of(2)))
        .unwrap();
    let m = Math::Operator(op);
    assert_eq!(m.get(&ctx_at(fx_of(500))), fx_of(8));
}

#[test]
fn curves_need_points_and_look_up_their_input() {
    let err = Curve::new(Math::Value(Color::Constant(0)), vec![]).unwrap_err();
    assert_eq!(err, DecodeError::EmptyCurve);
    let curve = Curve::new(
        Math::Value(Color::Constant(fx_of(450))),
        vec![(fx_of(400), 0), (fx_of(500), FX)],
    )
    .unwrap();
    let m = Math::Curve(curve);
    assert_eq!(m.get(&ctx_at(fx_of(999))), FX / 2);
}

#[test]
fn registries_collect_the_offered_types() {
    let mut prelude = Prelude::new();
    pyrite::color::register_types(&mut prelude);
    pyrite::tracer::register_types(&mut prelude);
    assert_eq!(prelude.entries.len(), 3);
}

#[test]
fn clamp_channel_maps_the_unit_interval() {
    assert_eq!(clamp_channel(-fx_of(1)), 0);
    assert_eq!(clamp_channel(0), 0);
    assert_eq!(clamp_channel(FX / 2), 127);
    assert_eq!(clamp_channel(FX), 255);
    assert_eq!(clamp_channel(fx_of(7)), 255);
}

#[test]
fn ortho_and_sphere_samples_are_perpendicular_or_unit() {
    let v = Vec3::new(FX, 0, 0);
    let o = ortho(v);
    assert_eq!(v.dot(&o), 0);
    let mut rng = pyrite::rng::rng_from_seed(41);
    for _ in 0..20 {
        let s = pyrite::rng::sample_sphere(&mut rng);
        let len2 = s.dot(&s);
        assert!((len2 - FX).abs() < FX / 16, "sphere sample length^2 was {}", len2);
        let h = pyrite::rng::sample_hemisphere(&mut rng, v);
        assert!(h.dot(&v) >= 0);
        let c = pyrite::rng::sample_cone(&mut rng, v, FX / 2);
        let lc = c.dot(&c);
        assert!((lc - FX).abs() < FX / 16 || c == v);
    }
}

#[test]
fn solid_angle_covers_nothing_beyond_a_closed_cone() {
    assert_eq!(solid_angle(FX), 0);
    assert!(solid_angle(0) > 0);
}

#[test]
fn tiles_partition_the_image() {
    let tiles = make_tiles(100, 60, 32);
    assert_eq!(tiles.len(), 8);
    assert_eq!(tiles[0].x, 0);
    assert_eq!(tiles[0].y, 0);
    assert_eq!(tiles[0].width, 32);
    assert_eq!(tiles[0].height, 32);
    let last = tiles[7];
    assert_eq!(last.x, 96);
    assert_eq!(last.y, 32);
    assert_eq!(last.width, 4);
    assert_eq!(last.height, 28);
    // Every pixel is covered exactly once.
    let mut covered = vec![0u32; 100 * 60];
    for t in &tiles {
        for dy in 0..t.height {
            for dx in 0..t.width {
                covered[(t.y + dy) * 100 + (t.x + dx)] += 1;
            }
        }
    }
    assert!(covered.iter().all(|&c| c == 1));
}

#[test]
fn rgb_red_round_trips_through_the_film() {
    // Evaluate Rgb(1, 0, 0) across the visible range and project the
    // samples back through the same response curves.
    let mut film = Film::new(1, 1, fx_of(380), fx_of(780));
    let red = decode_rgb(FX, 0, 0).unwrap();
    for nm in 380..=780 {
        let wl = fx_of(nm);
        let value = red.get(&ctx_at(wl));
        film.expose(0, 0, Sample { wavelength: wl, brightness: value, weight: FX });
    }
    let image = film.develop();
    assert_eq!(image.len(), 1);
    let (r, g, b) = image[0];
    assert!(r >= 245, "red channel came back as {}", r);
    assert!(g <= 10, "green channel came back as {}", g);
    assert!(b <= 10, "blue channel came back as {}", b);
}

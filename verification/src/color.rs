//! Colors: the leaves of the value graph.
//!
//! A color is a constant, a measured spectrum, or an RGB triple evaluated
//! through three fixed piecewise-linear response curves spanning the
//! visible range. The same three curves later project accumulated
//! per-wavelength brightness back to RGB, so an RGB color round-trips
//! through the spectral pipeline.

use vstd::prelude::*;
use crate::expression::{
    DecodeError, DecoderKind, Expression, Prelude, TypeGroup, TypeName, TypeEntry, expr_valid,
};
use crate::fixed::{fx_ok, fx_add, fx_mul, fx_add_spec, fx_mul_spec, FX_MAX};
use crate::math::{Math, math_wf, math_matches_expr};
use crate::spectrum::{Interpolated, interp_spec, points_ok, lemma_interp_in_range};
use crate::tracer::{ParametricValue, RenderContext, context_ok};

verus! {

/// A color resolves to a scalar per wavelength.
#[derive(Debug)]
pub enum Color {
    /// A measured spectrum, interpolated piecewise linearly.
    Spectrum(Interpolated),
    /// A linear-space RGB triple, reprojected onto the response curves.
    Rgb { red: i64, green: i64, blue: i64 },
    /// A scalar independent of wavelength.
    Constant(i64),
}

/// Well-formed color: spectra sorted and in range, channels finite.
pub open spec fn color_wf(c: Color) -> bool {
    match c {
        Color::Spectrum(s) => points_ok(s.points@),
        Color::Rgb { red, green, blue } => fx_ok(red) && fx_ok(green) && fx_ok(blue),
        Color::Constant(k) => fx_ok(k),
    }
}

/// The red response curve: a triangle over the long visible wavelengths,
/// in 16.16 nanometers.
pub open spec fn red_response_points() -> Seq<(i64, i64)> {
    seq![(41943040i64, 0i64), (46530560i64, 65536i64), (51118080i64, 0i64)]
}

/// The green response curve: a triangle over the middle of the range.
pub open spec fn green_response_points() -> Seq<(i64, i64)> {
    seq![(33423360i64, 0i64), (37683200i64, 65536i64), (41943040i64, 0i64)]
}

/// The blue response curve: a triangle over the short wavelengths.
pub open spec fn blue_response_points() -> Seq<(i64, i64)> {
    seq![(24903680i64, 0i64), (29163520i64, 65536i64), (33423360i64, 0i64)]
}

/// A three-point table is well formed when its x's ascend and its y's are
/// nonnegative scalars.
proof fn lemma_three_points_ok(s: Seq<(i64, i64)>)
    requires
        s.len() == 3,
        s[0].0 < s[1].0 < s[2].0,
        fx_ok(s[0].0) && fx_ok(s[1].0) && fx_ok(s[2].0),
        0 <= s[0].1 <= FX_MAX,
        0 <= s[1].1 <= FX_MAX,
        0 <= s[2].1 <= FX_MAX,
    ensures
        points_ok(s),
{
    assert forall|i: int| 0 <= i && i + 1 < s.len() implies (#[trigger] s[i]).0 < s[i + 1].0 by {
        if i == 0 {
        } else {
            assert(i == 1);
        }
    }
    assert forall|i: int| 0 <= i < s.len() implies fx_ok((#[trigger] s[i]).0) && 0 <= s[i].1
        <= FX_MAX by {
        if i == 0 {
        } else if i == 1 {
        } else {
            assert(i == 2);
        }
    }
}

/// The red response curve as an evaluable table.
pub fn red_response() -> (r: Interpolated)
    ensures
        r.points@ == red_response_points(),
        points_ok(r.points@),
{
    let points: Vec<(i64, i64)> = vec![
        (41943040i64, 0i64),
        (46530560i64, 65536i64),
        (51118080i64, 0i64),
    ];
    proof {
        assert(points@ =~= red_response_points());
        lemma_three_points_ok(points@);
    }
    Interpolated { points }
}

/// The green response curve as an evaluable table.
pub fn green_response() -> (r: Interpolated)
    ensures
        r.points@ == green_response_points(),
        points_ok(r.points@),
{
    let points: Vec<(i64, i64)> = vec![
        (33423360i64, 0i64),
        (37683200i64, 65536i64),
        (41943040i64, 0i64),
    ];
    proof {
        assert(points@ =~= green_response_points());
        lemma_three_points_ok(points@);
    }
    Interpolated { points }
}

/// The blue response curve as an evaluable table.
pub fn blue_response() -> (r: Interpolated)
    ensures
        r.points@ == blue_response_points(),
        points_ok(r.points@),
{
    let points: Vec<(i64, i64)> = vec![
        (24903680i64, 0i64),
        (29163520i64, 65536i64),
        (33423360i64, 0i64),
    ];
    proof {
        assert(points@ =~= blue_response_points());
        lemma_three_points_ok(points@);
    }
    Interpolated { points }
}

/// The response tables are well formed.
pub proof fn lemma_response_points_ok()
    ensures
        points_ok(red_response_points()),
        points_ok(green_response_points()),
        points_ok(blue_response_points()),
{
    lemma_three_points_ok(red_response_points());
    lemma_three_points_ok(green_response_points());
    lemma_three_points_ok(blue_response_points());
}

/// What a color evaluates to at a context: spectra interpolate at the
/// wavelength, RGB is the response-weighted channel sum, constants stand.
pub open spec fn color_eval(c: Color, ctx: RenderContext) -> int {
    match c {
        Color::Spectrum(s) => interp_spec(s.points@, ctx.wavelength as int),
        Color::Rgb { red, green, blue } => fx_add_spec(
            fx_add_spec(
                fx_mul_spec(red as int, interp_spec(red_response_points(), ctx.wavelength as int)),
                fx_mul_spec(
                    green as int,
                    interp_spec(green_response_points(), ctx.wavelength as int),
                ),
            ),
            fx_mul_spec(blue as int, interp_spec(blue_response_points(), ctx.wavelength as int)),
        ),
        Color::Constant(k) => k as int,
    }
}

impl ParametricValue for Color {
    open spec fn pv_wf(&self) -> bool {
        color_wf(*self)
    }

    open spec fn pv_eval(&self, i: &RenderContext) -> int {
        color_eval(*self, *i)
    }

    fn get(&self, i: &RenderContext) -> (r: i64) {
        match self {
            Color::Spectrum(s) => s.get(i.wavelength),
            Color::Rgb { red, green, blue } => {
                let rr = red_response();
                let gr = green_response();
                let br = blue_response();
                let red_part: i64 = fx_mul(*red, rr.get(i.wavelength));
                let green_part: i64 = fx_mul(*green, gr.get(i.wavelength));
                let blue_part: i64 = fx_mul(*blue, br.get(i.wavelength));
                fx_add(fx_add(red_part, green_part), blue_part)
            },
            Color::Constant(k) => *k,
        }
    }
}


/// Register the color types a scene file may name: a spectrum and an RGB
/// triple, both in the color group.
pub fn register_types(context: &mut Prelude)
    ensures
        final(context).entries@ == old(context).entries@.push(
            TypeEntry {
                group: TypeGroup::Color,
                name: TypeName::Spectrum,
                decoder: DecoderKind::ColorSpectrum,
            },
        ).push(
            TypeEntry {
                group: TypeGroup::Color,
                name: TypeName::Rgb,
                decoder: DecoderKind::ColorRgb,
            },
        ),
{
    context.insert_grouped_type(TypeGroup::Color, TypeName::Spectrum, DecoderKind::ColorSpectrum);
    context.insert_grouped_type(TypeGroup::Color, TypeName::Rgb, DecoderKind::ColorRgb);
}

/// Decode a color-valued entry: a bare number is a constant color, and
/// anything else goes through the full expression translation.
pub fn decode_color(entry: Expression) -> (r: Result<Math, DecodeError>)
    ensures
        r is Ok <==> expr_valid(entry),
        r matches Ok(m) ==> math_wf(m) && math_matches_expr(m, entry),
{
    Math::from_expression(entry)
}

/// Decode a spectrum color from its point table.
pub fn decode_spectrum(points: Vec<(i64, i64)>) -> (r: Result<Math, DecodeError>)
    ensures
        r is Ok <==> points_ok(points@),
        r matches Ok(m) ==> math_wf(m) && (m matches Math::Value(Color::Spectrum(t)) && t.points@
            == points@),
        !points_ok(points@) ==> r == Err::<Math, DecodeError>(DecodeError::UnsortedSpectrum),
{
    if crate::spectrum::check_points(&points) {
        let m = Math::Value(Color::Spectrum(Interpolated { points }));
        proof {
            assert(math_wf(m));
        }
        Ok(m)
    } else {
        Err(DecodeError::UnsortedSpectrum)
    }
}

/// Decode an RGB color from its three linear channels.
pub fn decode_rgb(red: i64, green: i64, blue: i64) -> (r: Result<Math, DecodeError>)
    ensures
        r is Ok <==> fx_ok(red) && fx_ok(green) && fx_ok(blue),
        r matches Ok(m) ==> math_wf(m) && m == Math::Value(Color::Rgb { red, green, blue }),
        !(fx_ok(red) && fx_ok(green) && fx_ok(blue)) ==> r == Err::<Math, DecodeError>(
            DecodeError::NumberOutOfRange,
        ),
{
    if -FX_MAX <= red && red <= FX_MAX && -FX_MAX <= green && green <= FX_MAX && -FX_MAX <= blue
        && blue <= FX_MAX {
        let m = Math::Value(Color::Rgb { red, green, blue });
        proof {
            assert(math_wf(m));
        }
        Ok(m)
    } else {
        Err(DecodeError::NumberOutOfRange)
    }
}

} // verus!

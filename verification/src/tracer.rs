//! The path tracer and its material protocol.

use vstd::prelude::*;
use vstd::multiset::Multiset;
use crate::fixed::{
    fx_ok, fx_add, fx_sub, fx_mul, fx_sqrt, fx_add_spec, fx_sub_spec, fx_mul_spec, fx_div_spec,
    fx_sqrt_spec, FX_ONE, FX_TWO, FX_FOUR_PI, FX_MAX,
};
use crate::color::{Color, color_eval};
use crate::expression::{
    DecodeError, DecoderKind, Expression, FieldKind, Prelude, TypeGroup, TypeName, TypeEntry,
    expr_valid,
};
use crate::math::{Math, math_wf, math_eval, math_matches_expr, FX_DIST_EPSILON};
use crate::vector::{
    Vec3, Ray3, vec3_ok, ray3_ok, dot_spec, sub_spec, add_spec, scale_spec, neg_spec,
    normalize_spec,
};

verus! {

/// The evaluation environment a parametric value sees: the wavelength of
/// the sample and the geometry of the scattering event. Immutable for the
/// duration of one evaluation.
pub struct RenderContext {
    pub wavelength: i64,
    pub normal: Vec3,
    pub incident: Vec3,
}

/// All parts of a context are finite.
pub open spec fn context_ok(c: RenderContext) -> bool {
    fx_ok(c.wavelength) && vec3_ok(c.normal) && vec3_ok(c.incident)
}

/// A scalar that depends on a render context: the interface of every node
/// of the value graph.
pub trait ParametricValue {
    /// The node is well formed: evaluation may be asked of it.
    spec fn pv_wf(&self) -> bool;

    /// What evaluation returns.
    spec fn pv_eval(&self, i: &RenderContext) -> int;

    /// Evaluate at a context.
    fn get(&self, i: &RenderContext) -> (r: i64)
        requires
            self.pv_wf(),
            context_ok(*i),
        ensures
            r == self.pv_eval(i),
            fx_ok(r),
    ;
}

/// A bare scalar is the simplest parametric value: itself at every
/// context.
impl ParametricValue for i64 {
    open spec fn pv_wf(&self) -> bool {
        fx_ok(*self)
    }

    open spec fn pv_eval(&self, i: &RenderContext) -> int {
        *self as int
    }

    fn get(&self, i: &RenderContext) -> (r: i64) {
        *self
    }
}

/// A sphere: the one scene shape.
#[derive(Debug)]
pub struct Sphere {
    pub position: Vec3,
    pub radius: i64,
}

/// Well-formed sphere: a finite center and a positive finite radius.
pub open spec fn sphere_wf(s: Sphere) -> bool {
    vec3_ok(s.position) && fx_ok(s.radius) && s.radius > 0
}

/// What intersecting a sphere returns: the surface hit as a ray whose
/// origin is the hit point and whose direction is the outward normal
/// direction, together with the parametric distance; `None` for a miss.
/// From inside the sphere the exit point is hit; from outside, the entry
/// point, and only for rays that head toward the sphere.
///
/// On the inside branch the distance is `sqrt(a1^2 - a0) - a1` with
/// `a0 <= 0`; when the origin lies exactly on the surface and the ray
/// points outward, rounding can put it one step below zero, never lower.
/// Callers accept hits only beyond the geometric tolerance, which absorbs
/// this.
pub open spec fn sphere_intersect_spec(s: Sphere, ray: Ray3) -> Option<(Ray3, i64)> {
    let diff = sub_spec(ray.origin, s.position);
    let a0 = fx_sub_spec(dot_spec(diff, diff), fx_mul_spec(s.radius as int, s.radius as int));
    let a1 = dot_spec(ray.direction, diff);
    if a0 <= 0 {
        let discr = fx_sub_spec(fx_mul_spec(a1, a1), a0);
        let root = fx_sqrt_spec(discr);
        let dist = fx_sub_spec(root, a1);
        let hit = add_spec(ray.origin, scale_spec(ray.direction, dist));
        Some((Ray3 { origin: hit, direction: sub_spec(hit, s.position) }, dist as i64))
    } else if a1 >= 0 {
        None
    } else {
        let discr = fx_sub_spec(fx_mul_spec(a1, a1), a0);
        if discr < 0 {
            None
        } else {
            let root = fx_sqrt_spec(discr);
            let dist = fx_sub_spec(-a1, root);
            let hit = add_spec(ray.origin, scale_spec(ray.direction, dist));
            Some((Ray3 { origin: hit, direction: sub_spec(hit, s.position) }, dist as i64))
        }
    }
}

impl Sphere {
    /// Build a sphere.
    pub fn new(position: Vec3, radius: i64) -> (r: Sphere)
        ensures
            r == (Sphere { position, radius }),
    {
        Sphere { position, radius }
    }

    /// Intersect a ray with the sphere.
    pub fn intersect(&self, ray: &Ray3) -> (r: Option<(Ray3, i64)>)
        requires
            sphere_wf(*self),
            ray3_ok(*ray),
        ensures
            r == sphere_intersect_spec(*self, *ray),
            r matches Some((hit, dist)) ==> ray3_ok(hit) && fx_ok(dist),
    {
        let diff: Vec3 = ray.origin.sub(&self.position);
        let a0: i64 = fx_sub(diff.dot(&diff), fx_mul(self.radius, self.radius));
        let a1: i64 = ray.direction.dot(&diff);
        if a0 <= 0 {
            proof {
                crate::fixed::lemma_square_nonneg(a1 as int);
            }
            let discr: i64 = fx_sub(fx_mul(a1, a1), a0);
            let root: i64 = fx_sqrt(discr);
            let dist: i64 = fx_sub(root, a1);
            let hit: Vec3 = ray.origin.add(&ray.direction.scale(dist));
            Some((Ray3::new(hit, hit.sub(&self.position)), dist))
        } else if a1 >= 0 {
            None
        } else {
            let discr: i64 = fx_sub(fx_mul(a1, a1), a0);
            if discr < 0 {
                None
            } else {
                let root: i64 = fx_sqrt(discr);
                let dist: i64 = fx_sub(-a1, root);
                let hit: Vec3 = ray.origin.add(&ray.direction.scale(dist));
                Some((Ray3::new(hit, hit.sub(&self.position)), dist))
            }
        }
    }

    /// The surface area, `4 pi r^2`.
    pub fn surface_area(&self) -> (r: i64)
        requires
            sphere_wf(*self),
        ensures
            r == fx_mul_spec(
                FX_FOUR_PI as int,
                fx_mul_spec(self.radius as int, self.radius as int),
            ),
            fx_ok(r),
    {
        fx_mul(FX_FOUR_PI, fx_mul(self.radius, self.radius))
    }

    /// The axis-aligned box that encloses the sphere.
    pub fn get_bounds(&self) -> (r: BoundingBox)
        requires
            sphere_wf(*self),
        ensures
            r.from == sub_spec(
                self.position,
                Vec3 { x: self.radius, y: self.radius, z: self.radius },
            ),
            r.to == add_spec(
                self.position,
                Vec3 { x: self.radius, y: self.radius, z: self.radius },
            ),
    {
        let extent = Vec3::new(self.radius, self.radius, self.radius);
        BoundingBox { from: self.position.sub(&extent), to: self.position.add(&extent) }
    }

    /// A point drawn over the surface, as a hit: the point itself with the
    /// outward normal direction there.
    pub fn sample_point(&self, rng: &mut rand_xorshift::XorShiftRng) -> (r: Ray3)
        requires
            sphere_wf(*self),
        ensures
            ray3_ok(r),
            r.origin == add_spec(self.position, scale_spec(r.direction, self.radius as int)),
    {
        let dir: Vec3 = crate::rng::sample_sphere(rng);
        Ray3::new(self.position.add(&dir.scale(self.radius)), dir)
    }
}

/// An axis-aligned box around a shape.
#[derive(Clone, Copy, PartialEq, Eq, Structural, Debug)]
pub struct BoundingBox {
    pub from: Vec3,
    pub to: Vec3,
}

/// The scalar reflectance model a material may expose for direct light
/// sampling.
#[derive(Clone, Copy, PartialEq, Eq, Structural, Debug)]
pub enum Brdf {
    /// The Lambertian model paired with uniform hemisphere sampling:
    /// twice the cosine against the surface normal.
    Lambertian,
}

/// What a reflectance model returns for a pair of directions at a normal.
pub open spec fn brdf_eval_spec(b: Brdf, ray_in: Vec3, normal: Vec3, ray_out: Vec3) -> int {
    match b {
        Brdf::Lambertian => {
            let c = dot_spec(normal, ray_out);
            fx_mul_spec(FX_TWO as int, if c >= 0 { c } else { -c })
        },
    }
}

/// Evaluate a reflectance model.
pub fn brdf_eval(b: Brdf, ray_in: &Vec3, normal: &Vec3, ray_out: &Vec3) -> (r: i64)
    requires
        vec3_ok(*ray_in),
        vec3_ok(*normal),
        vec3_ok(*ray_out),
    ensures
        r == brdf_eval_spec(b, *ray_in, *normal, *ray_out),
        fx_ok(r),
{
    match b {
        Brdf::Lambertian => fx_mul(FX_TWO, crate::fixed::fx_abs(normal.dot(ray_out))),
    }
}

/// What a material answers a reflection query with.
pub enum Reflection<'a> {
    /// The path terminates here; the color contributes if the caller's
    /// policy admits emission at this vertex.
    Emit(&'a Math),
    /// Continue along the new ray; throughput is scaled by the color and
    /// the scalar, and the optional reflectance model permits direct
    /// light sampling.
    Reflect(Ray3, &'a Math, i64, Option<Brdf>),
    /// One branch per wavelength of the querying sample set; each
    /// wavelength continues independently.
    Disperse(Vec<Reflection<'a>>),
}

/// The surface normal oriented against the incoming direction.
pub open spec fn oriented_spec(normal: Vec3, incident: Vec3) -> Vec3 {
    if dot_spec(incident, normal) < 0 {
        normal
    } else {
        neg_spec(normal)
    }
}

/// The mirror direction: the incident direction reflected about the
/// normal.
pub open spec fn mirror_dir_spec(incident: Vec3, normal: Vec3) -> Vec3 {
    sub_spec(incident, scale_spec(normal, fx_mul_spec(FX_TWO as int, dot_spec(incident, normal))))
}

/// A surface material: one of the built-in models.
#[derive(Debug)]
pub enum Material {
    /// Emits its color; paths terminate on it.
    Emission { color: Math },
    /// Lambertian scattering with uniform hemisphere sampling.
    Diffuse { color: Math },
    /// Perfect specular reflection; no direct light sampling.
    Mirror { color: Math },
    /// Emits a separate color per wavelength of the querying sample set,
    /// as a dispersion of emissions.
    DispersiveEmission { colors: Vec<Math> },
}

/// Well-formed material: every color graph well formed, and at least one
/// color where one is picked per wavelength.
pub open spec fn material_wf(m: Material) -> bool {
    match m {
        Material::Emission { color } => math_wf(color),
        Material::Diffuse { color } => math_wf(color),
        Material::Mirror { color } => math_wf(color),
        Material::DispersiveEmission { colors } => colors@.len() > 0 && forall|i: int|
            0 <= i < colors@.len() ==> math_wf(#[trigger] colors@[i]),
    }
}

impl Material {
    /// Answer a reflection query: what happens to light arriving along
    /// `ray_in` at the surface point `normal`.
    pub fn reflect<'a>(
        &'a self,
        wavelengths: &Vec<i64>,
        ray_in: &Ray3,
        normal: &Ray3,
        rng: &mut rand_xorshift::XorShiftRng,
    ) -> (r: Reflection<'a>)
        requires
            material_wf(*self),
            ray3_ok(*ray_in),
            ray3_ok(*normal),
        ensures
            self matches Material::Emission { color } ==> r matches Reflection::Emit(c) && c
                == color,
            self matches Material::Diffuse { color } ==> r matches Reflection::Reflect(
                out,
                c,
                scale,
                brdf,
            ) && c == color && scale == FX_ONE && brdf == Some(Brdf::Lambertian) && out.origin
                == normal.origin && vec3_ok(out.direction) && dot_spec(
                out.direction,
                oriented_spec(normal.direction, ray_in.direction),
            ) >= 0,
            self matches Material::Mirror { color } ==> r matches Reflection::Reflect(
                out,
                c,
                scale,
                brdf,
            ) && c == color && scale == FX_ONE && brdf is None && out.origin == normal.origin
                && out.direction == mirror_dir_spec(ray_in.direction, normal.direction)
                && vec3_ok(out.direction),
            self matches Material::DispersiveEmission { colors } ==> r matches Reflection::Disperse(
                branches,
            ) && branches@.len() == wavelengths@.len() && forall|i: int|
                0 <= i < branches@.len() ==> ((#[trigger] branches@[i]) matches Reflection::Emit(c)
                    && c == colors@[i % colors@.len() as int]),
            wavelengths@.len() > 0 ==> reflection_wf(r),
    {
        match self {
            Material::Emission { color } => {
                let rv = Reflection::Emit(color);
                proof {
                    assert(math_wf(*color));
                    assert(reflection_wf(rv));
                }
                rv
            },
            Material::Diffuse { color } => {
                let oriented: Vec3 = if ray_in.direction.dot(&normal.direction) < 0 {
                    normal.direction
                } else {
                    normal.direction.neg()
                };
                let out_dir: Vec3 = crate::rng::sample_hemisphere(rng, oriented);
                let rv = Reflection::Reflect(
                    Ray3::new(normal.origin, out_dir),
                    color,
                    FX_ONE,
                    Some(Brdf::Lambertian),
                );
                proof {
                    assert(math_wf(*color));
                    assert(reflection_wf(rv));
                }
                rv
            },
            Material::Mirror { color } => {
                let d: i64 = fx_mul(FX_TWO, ray_in.direction.dot(&normal.direction));
                let out_dir: Vec3 = ray_in.direction.sub(&normal.direction.scale(d));
                let rv = Reflection::Reflect(Ray3::new(normal.origin, out_dir), color, FX_ONE, None);
                proof {
                    assert(math_wf(*color));
                    assert(reflection_wf(rv));
                }
                rv
            },
            Material::DispersiveEmission { colors } => {
                let n: usize = wavelengths.len();
                let m: usize = colors.len();
                let mut branches: Vec<Reflection<'a>> = Vec::new();
                let mut i: usize = 0;
                while i < n
                    invariant
                        0 < m == colors@.len(),
                        i <= n,
                        branches@.len() == i,
                        forall|j: int|
                            0 <= j < i ==> ((#[trigger] branches@[j]) matches Reflection::Emit(c)
                                && c == colors@[j % m as int]),
                        forall|j: int| 0 <= j < i ==> reflection_wf(#[trigger] branches@[j]),
                        forall|j: int| 0 <= j < colors@.len() ==> math_wf(#[trigger] colors@[j]),
                    decreases n - i,
                {
                    let next_branch = Reflection::Emit(&colors[i % m]);
                    proof {
                        assert(math_wf(colors@[(i % m) as int]));
                        assert(reflection_wf(next_branch));
                    }
                    branches.push(next_branch);
                    i = i + 1;
                }
                let rv = Reflection::Disperse(branches);
                proof {
                    if n > 0 {
                        assert(reflection_wf(rv));
                    }
                }
                rv
            },
        }
    }

    /// The color the material emits, if it emits at all.
    pub fn get_emission<'a>(
        &'a self,
        wavelengths: &Vec<i64>,
        ray_in: &Vec3,
        normal: &Ray3,
        rng: &mut rand_xorshift::XorShiftRng,
    ) -> (r: Option<&'a Math>)
        requires
            material_wf(*self),
        ensures
            self matches Material::Emission { color } ==> r == Some(color),
            self matches Material::Diffuse { .. } ==> r is None,
            self matches Material::Mirror { .. } ==> r is None,
            self matches Material::DispersiveEmission { colors } ==> r matches Some(c) && c
                == colors@[0],
            r matches Some(c) ==> math_wf(*c) && emission_spec(*self) == Some(*c),
            r is None <==> emission_spec(*self) is None,
    {
        match self {
            Material::Emission { color } => Some(color),
            Material::Diffuse { .. } => None,
            Material::Mirror { .. } => None,
            Material::DispersiveEmission { colors } => Some(&colors[0]),
        }
    }
}

/// The sky: what a ray that leaves the scene sees.
#[derive(Debug)]
pub enum Sky {
    Color(Math),
}

/// Well-formed sky.
pub open spec fn sky_wf(s: Sky) -> bool {
    match s {
        Sky::Color(m) => math_wf(m),
    }
}

impl Sky {
    /// The sky color for a direction.
    pub fn color(&self, _direction: &Vec3) -> (r: &Math)
        ensures
            self matches Sky::Color(m) ==> r == m,
    {
        match self {
            Sky::Color(c) => c,
        }
    }
}

/// One scene object: a shape with its material.
#[derive(Debug)]
pub struct Object {
    pub shape: Sphere,
    pub material: Material,
}

/// The scene: a sky, the objects, and the indices of the emissive objects
/// that direct light sampling draws from.
#[derive(Debug)]
pub struct World {
    pub sky: Sky,
    pub lights: Vec<usize>,
    pub objects: Vec<Object>,
}

/// Well-formed world: sky and objects well formed, light indices in
/// bounds, object count small enough for the sampling weights.
pub open spec fn world_wf(w: World) -> bool {
    &&& sky_wf(w.sky)
    &&& w.objects@.len() <= 0x1000_0000
    &&& w.lights@.len() <= 0x1000_0000
    &&& forall|i: int|
        0 <= i < w.objects@.len() ==> sphere_wf((#[trigger] w.objects@[i]).shape) && material_wf(
            w.objects@[i].material,
        )
    &&& forall|i: int| 0 <= i < w.lights@.len() ==> (#[trigger] w.lights@[i]) < w.objects@.len()
}

/// The nearest accepted hit over a prefix of the objects: hits closer
/// than the geometric tolerance are ignored, and among the rest the
/// smallest distance wins, earliest object on ties.
pub open spec fn nearest_hit(objects: Seq<Object>, ray: Ray3) -> Option<(int, Ray3, i64)>
    decreases objects.len(),
{
    if objects.len() == 0 {
        None
    } else {
        let i = objects.len() - 1;
        let rest = nearest_hit(objects.drop_last(), ray);
        match sphere_intersect_spec(objects[i].shape, ray) {
            None => rest,
            Some((hit, dist)) => {
                if dist <= FX_DIST_EPSILON {
                    rest
                } else {
                    match rest {
                        None => Some((i, hit, dist)),
                        Some((j, h2, d2)) => {
                            if dist < d2 {
                                Some((i, hit, dist))
                            } else {
                                Some((j, h2, d2))
                            }
                        },
                    }
                }
            },
        }
    }
}

impl World {
    /// The first thing the ray meets: the surface hit and the material
    /// there.
    pub fn intersect(&self, ray: &Ray3) -> (r: Option<(Ray3, &Material)>)
        requires
            world_wf(*self),
            ray3_ok(*ray),
        ensures
            r is None <==> nearest_hit(self.objects@, *ray) is None,
            nearest_hit(self.objects@, *ray) matches Some((i, h, d)) ==> r matches Some((hit, m))
                && hit == h && m == self.objects@[i].material && ray3_ok(h) && 0 <= i
                < self.objects@.len(),
    {
        let n: usize = self.objects.len();
        let mut best: Option<(usize, Ray3, i64)> = None;
        let mut k: usize = 0;
        while k < n
            invariant
                world_wf(*self),
                ray3_ok(*ray),
                n == self.objects@.len(),
                k <= n,
                best_matches(best, nearest_hit(self.objects@.subrange(0, k as int), *ray)),
                best matches Some((i, h, d)) ==> 0 <= i < k && ray3_ok(h),
            decreases n - k,
        {
            proof {
                assert(self.objects@.subrange(0, k + 1).drop_last() =~= self.objects@.subrange(
                    0,
                    k as int,
                ));
                assert(self.objects@.subrange(0, k + 1).last() == self.objects@[k as int]);
            }
            let hit = self.objects[k].shape.intersect(ray);
            match hit {
                None => {},
                Some((h, dist)) => {
                    if dist > FX_DIST_EPSILON {
                        match best {
                            None => {
                                best = Some((k, h, dist));
                            },
                            Some((bi, bh, bd)) => {
                                if dist < bd {
                                    best = Some((k, h, dist));
                                }
                            },
                        }
                    }
                },
            }
            k = k + 1;
        }
        proof {
            assert(self.objects@.subrange(0, n as int) =~= self.objects@);
        }
        match best {
            None => None,
            Some((i, h, d)) => Some((h, &self.objects[i].material)),
        }
    }
}

/// The exec search state agrees with the spec's nearest hit.
pub open spec fn best_matches(best: Option<(usize, Ray3, i64)>, spec_best: Option<(int, Ray3, i64)>)
    -> bool {
    match (best, spec_best) {
        (Option::None, Option::None) => true,
        (Option::Some((i, h, d)), Option::Some((si, sh, sd))) => i == si && h == sh && d == sd,
        _ => false,
    }
}

/// One wavelength's running state along a path.
#[derive(Clone, Copy, PartialEq, Eq, Structural, Debug)]
pub struct WavelengthSample {
    pub wavelength: i64,
    pub reflectance: i64,
    pub brightness: i64,
    pub weight: i64,
    pub sample_light: bool,
}

/// All scalar fields are finite.
pub open spec fn ws_ok(s: WavelengthSample) -> bool {
    fx_ok(s.wavelength) && fx_ok(s.reflectance) && fx_ok(s.brightness) && fx_ok(s.weight)
}

/// The state a wavelength starts a path with: full throughput, no
/// brightness, unit weight, emission welcome.
pub open spec fn fresh_sample(wl: i64) -> WavelengthSample {
    WavelengthSample {
        wavelength: wl,
        reflectance: FX_ONE,
        brightness: 0,
        weight: FX_ONE,
        sample_light: true,
    }
}

/// The context a sample sees at a scattering event.
pub open spec fn sample_context(wl: i64, normal: Vec3, incident: Vec3) -> RenderContext {
    RenderContext { wavelength: wl, normal, incident }
}

/// A sample after its throughput absorbed a color value and a scalar.
pub open spec fn scaled_sample(s: WavelengthSample, colorv: int, scale: int) -> WavelengthSample {
    WavelengthSample {
        reflectance: fx_mul_spec(fx_mul_spec(s.reflectance as int, colorv), scale) as i64,
        ..s
    }
}

/// A sample after a direct-light estimate: a positive estimate is banked
/// against the throughput and the next emission is muted; otherwise the
/// next emission is welcome.
pub open spec fn direct_updated(s: WavelengthSample, sum: i64) -> WavelengthSample {
    if sum > 0 {
        WavelengthSample {
            brightness: fx_add_spec(
                s.brightness as int,
                fx_mul_spec(s.reflectance as int, sum as int),
            ) as i64,
            sample_light: false,
            ..s
        }
    } else {
        WavelengthSample { sample_light: true, ..s }
    }
}

/// A sample after the reflectance model scaled its throughput; without a
/// model the next emission is welcome.
pub open spec fn brdf_updated(s: WavelengthSample, scale: int, absent: bool) -> WavelengthSample {
    WavelengthSample {
        reflectance: fx_mul_spec(s.reflectance as int, scale) as i64,
        sample_light: absent || s.sample_light,
        ..s
    }
}

/// A sample finished by an emitting color: when the flag is respected
/// only samples whose `sample_light` is set bank the emission; a sky
/// value is banked unconditionally.
pub open spec fn finished_sample(s: WavelengthSample, colorv: int, respect_flag: bool)
    -> WavelengthSample {
    if !respect_flag || s.sample_light {
        WavelengthSample {
            brightness: fx_add_spec(
                s.brightness as int,
                fx_mul_spec(s.reflectance as int, colorv),
            ) as i64,
            ..s
        }
    } else {
        s
    }
}

/// Fresh samples for every wavelength.
fn make_samples(wavelengths: &Vec<i64>) -> (r: Vec<WavelengthSample>)
    requires
        forall|k: int| 0 <= k < wavelengths@.len() ==> fx_ok(#[trigger] wavelengths@[k]),
    ensures
        r@.len() == wavelengths@.len(),
        forall|k: int| 0 <= k < r@.len() ==> #[trigger] r@[k] == fresh_sample(wavelengths@[k]),
        forall|k: int| 0 <= k < r@.len() ==> ws_ok(#[trigger] r@[k]),
{
    let mut out: Vec<WavelengthSample> = Vec::new();
    let mut i: usize = 0;
    while i < wavelengths.len()
        invariant
            i <= wavelengths@.len(),
            out@.len() == i,
            forall|k: int| 0 <= k < wavelengths@.len() ==> fx_ok(#[trigger] wavelengths@[k]),
            forall|k: int| 0 <= k < i ==> #[trigger] out@[k] == fresh_sample(wavelengths@[k]),
        decreases wavelengths@.len() - i,
    {
        out.push(
            WavelengthSample {
                wavelength: wavelengths[i],
                reflectance: FX_ONE,
                brightness: 0,
                weight: FX_ONE,
                sample_light: true,
            },
        );
        i = i + 1;
    }
    out
}

/// Multiply every live sample's throughput by the color at its wavelength
/// and by the scalar scale.
fn scale_reflectances(
    traced: &mut Vec<WavelengthSample>,
    color: &Math,
    scale: i64,
    normal_dir: Vec3,
    incident: Vec3,
)
    requires
        math_wf(*color),
        fx_ok(scale),
        vec3_ok(normal_dir),
        vec3_ok(incident),
        forall|k: int| 0 <= k < old(traced)@.len() ==> ws_ok(#[trigger] old(traced)@[k]),
    ensures
        final(traced)@.len() == old(traced)@.len(),
        forall|k: int|
            0 <= k < final(traced)@.len() ==> #[trigger] final(traced)@[k] == scaled_sample(
                old(traced)@[k],
                math_eval(*color, sample_context(old(traced)@[k].wavelength, normal_dir, incident)),
                scale as int,
            ),
        forall|k: int| 0 <= k < final(traced)@.len() ==> ws_ok(#[trigger] final(traced)@[k]),
{
    let n: usize = traced.len();
    let mut i: usize = 0;
    while i < n
        invariant
            i <= n,
            n == traced@.len(),
            n == old(traced)@.len(),
            math_wf(*color),
            fx_ok(scale),
            vec3_ok(normal_dir),
            vec3_ok(incident),
            forall|k: int| 0 <= k < n ==> ws_ok(#[trigger] old(traced)@[k]),
            forall|k: int| i <= k < n ==> #[trigger] traced@[k] == old(traced)@[k],
            forall|k: int|
                0 <= k < i ==> #[trigger] traced@[k] == scaled_sample(
                    old(traced)@[k],
                    math_eval(
                        *color,
                        sample_context(old(traced)@[k].wavelength, normal_dir, incident),
                    ),
                    scale as int,
                ),
            forall|k: int| 0 <= k < i ==> ws_ok(#[trigger] traced@[k]),
        decreases n - i,
    {
        let s: WavelengthSample = traced[i];
        let ctx = RenderContext { wavelength: s.wavelength, normal: normal_dir, incident };
        let cv: i64 = color.get(&ctx);
        let updated = WavelengthSample {
            reflectance: fx_mul(fx_mul(s.reflectance, cv), scale),
            ..s
        };
        traced.set(i, updated);
        i = i + 1;
    }
}

/// Bank the direct-light estimates into the live samples.
fn apply_direct_light(traced: &mut Vec<WavelengthSample>, sums: &Vec<i64>)
    requires
        sums@.len() == old(traced)@.len(),
        forall|k: int| 0 <= k < old(traced)@.len() ==> ws_ok(#[trigger] old(traced)@[k]),
        forall|k: int| 0 <= k < sums@.len() ==> fx_ok(#[trigger] sums@[k]),
    ensures
        final(traced)@.len() == old(traced)@.len(),
        forall|k: int|
            0 <= k < final(traced)@.len() ==> #[trigger] final(traced)@[k] == direct_updated(
                old(traced)@[k],
                sums@[k],
            ),
        forall|k: int| 0 <= k < final(traced)@.len() ==> ws_ok(#[trigger] final(traced)@[k]),
{
    let n: usize = traced.len();
    let mut i: usize = 0;
    while i < n
        invariant
            i <= n,
            n == traced@.len(),
            n == old(traced)@.len(),
            sums@.len() == n,
            forall|k: int| 0 <= k < n ==> ws_ok(#[trigger] old(traced)@[k]),
            forall|k: int| 0 <= k < sums@.len() ==> fx_ok(#[trigger] sums@[k]),
            forall|k: int| i <= k < n ==> #[trigger] traced@[k] == old(traced)@[k],
            forall|k: int|
                0 <= k < i ==> #[trigger] traced@[k] == direct_updated(old(traced)@[k], sums@[k]),
            forall|k: int| 0 <= k < i ==> ws_ok(#[trigger] traced@[k]),
        decreases n - i,
    {
        let s: WavelengthSample = traced[i];
        let sum: i64 = sums[i];
        if sum > 0 {
            let updated = WavelengthSample {
                brightness: fx_add(s.brightness, fx_mul(s.reflectance, sum)),
                sample_light: false,
                ..s
            };
            traced.set(i, updated);
        } else {
            let updated = WavelengthSample { sample_light: true, ..s };
            traced.set(i, updated);
        }
        i = i + 1;
    }
}

/// The wavelengths a batch of samples carries, in order.
pub open spec fn wl_seq(s: Seq<WavelengthSample>) -> Seq<i64> {
    s.map_values(|ws: WavelengthSample| ws.wavelength)
}

/// Removing an element by swapping the last one into its place keeps the
/// same multiset as removing it in place.
proof fn lemma_swap_remove_multiset<A>(s: Seq<A>, i: int)
    requires
        0 <= i < s.len(),
    ensures
        s.update(i, s.last()).drop_last().to_multiset() == s.to_multiset().remove(s[i]),
{
    broadcast use vstd::seq_lib::group_to_multiset_ensures;
    broadcast use vstd::multiset::group_multiset_axioms;

    if i == s.len() - 1 {
        assert(s.update(i, s.last()) =~= s);
        assert(s.drop_last() =~= s.remove(i));
        assert(s.remove(i).to_multiset() =~= s.to_multiset().remove(s[i]));
    } else {
        let p = s.subrange(0, i);
        let m = s.subrange(i + 1, s.len() - 1);
        let l = seq![s.last()];
        assert(s.update(i, s.last()).drop_last() =~= p + (l + m));
        assert(s.remove(i) =~= p + (m + l));
        vstd::seq_lib::lemma_multiset_commutative(p, l + m);
        vstd::seq_lib::lemma_multiset_commutative(l, m);
        vstd::seq_lib::lemma_multiset_commutative(p, m + l);
        vstd::seq_lib::lemma_multiset_commutative(m, l);
        assert((p + (l + m)).to_multiset() =~= (p + (m + l)).to_multiset());
        assert(s.remove(i).to_multiset() =~= s.to_multiset().remove(s[i]));
    }
}

/// The sample arose from one of the originals by the reflectance-model
/// update.
pub open spec fn updated_from(
    s: WavelengthSample,
    t0: Seq<WavelengthSample>,
    scale: int,
    absent: bool,
) -> bool {
    exists|j: int| 0 <= j < t0.len() && s == brdf_updated(#[trigger] t0[j], scale, absent)
}

/// The sample is one of the originals, unchanged.
pub open spec fn one_of(s: WavelengthSample, t0: Seq<WavelengthSample>) -> bool {
    exists|j: int| 0 <= j < t0.len() && s == #[trigger] t0[j]
}

/// The sample is an original whose updated throughput vanished.
pub open spec fn dropped_from(s: WavelengthSample, t0: Seq<WavelengthSample>, scale: int) -> bool {
    exists|j: int|
        0 <= j < t0.len() && s == #[trigger] t0[j] && fx_mul_spec(
            t0[j].reflectance as int,
            scale,
        ) == 0
}

/// Scale every live sample's throughput by the reflectance model's value
/// and retire the absorbed ones: a sample whose new throughput is zero
/// moves, unchanged, to `completed`, and its wavelength leaves the live
/// vector by the same swap so the two stay parallel.
fn apply_brdf_and_drop(
    traced: &mut Vec<WavelengthSample>,
    wavelengths: &mut Vec<i64>,
    completed: &mut Vec<WavelengthSample>,
    brdf_scale: i64,
    brdf_absent: bool,
)
    requires
        old(traced)@.len() == old(wavelengths)@.len(),
        fx_ok(brdf_scale),
        forall|k: int| 0 <= k < old(traced)@.len() ==> ws_ok(#[trigger] old(traced)@[k]),
        forall|k: int|
            0 <= k < old(traced)@.len() ==> (#[trigger] old(traced)@[k]).wavelength == old(wavelengths)@[k],
        forall|k: int| 0 <= k < old(completed)@.len() ==> ws_ok(#[trigger] old(completed)@[k]),
    ensures
        final(traced)@.len() == final(wavelengths)@.len(),
        final(traced)@.len() <= old(traced)@.len(),
        final(completed)@.len() == old(completed)@.len() + old(traced)@.len() - final(traced)@.len(),
        forall|k: int|
            0 <= k < old(completed)@.len() ==> #[trigger] final(completed)@[k] == old(completed)@[k],
        forall|k: int|
            0 <= k < final(traced)@.len() ==> updated_from(
                #[trigger] final(traced)@[k],
                old(traced)@,
                brdf_scale as int,
                brdf_absent,
            ) && final(traced)@[k].reflectance != 0,
        forall|k: int|
            old(completed)@.len() <= k < final(completed)@.len() ==> dropped_from(
                #[trigger] final(completed)@[k],
                old(traced)@,
                brdf_scale as int,
            ),
        forall|k: int|
            0 <= k < final(traced)@.len() ==> (#[trigger] final(traced)@[k]).wavelength == final(wavelengths)@[k],
        forall|k: int| 0 <= k < final(traced)@.len() ==> ws_ok(#[trigger] final(traced)@[k]),
        forall|k: int| 0 <= k < final(completed)@.len() ==> ws_ok(#[trigger] final(completed)@[k]),
        wl_seq(final(completed)@).to_multiset().add(final(wavelengths)@.to_multiset()) == wl_seq(
            old(completed)@,
        ).to_multiset().add(old(wavelengths)@.to_multiset()),
{
    let ghost t0 = old(traced)@;
    let ghost c0 = old(completed)@;
    let ghost w0 = old(wavelengths)@;
    proof {
        assert forall|k: int| 0 <= k < traced@.len() implies one_of(
            #[trigger] traced@[k],
            t0,
        ) by {
            assert(traced@[k] == t0[k]);
        }
    }
    let mut i: usize = 0;
    while i < traced.len()
        invariant
            traced@.len() == wavelengths@.len(),
            traced@.len() <= t0.len(),
            i <= traced@.len(),
            fx_ok(brdf_scale),
            forall|k: int| 0 <= k < t0.len() ==> ws_ok(#[trigger] t0[k]),
            completed@.len() == c0.len() + t0.len() - traced@.len(),
            forall|k: int| 0 <= k < c0.len() ==> #[trigger] completed@[k] == c0[k],
            forall|k: int|
                0 <= k < i ==> updated_from(
                    #[trigger] traced@[k],
                    t0,
                    brdf_scale as int,
                    brdf_absent,
                ) && traced@[k].reflectance != 0,
            forall|k: int| i <= k < traced@.len() ==> one_of(#[trigger] traced@[k], t0),
            forall|k: int|
                c0.len() <= k < completed@.len() ==> dropped_from(
                    #[trigger] completed@[k],
                    t0,
                    brdf_scale as int,
                ),
            forall|k: int|
                0 <= k < traced@.len() ==> (#[trigger] traced@[k]).wavelength == wavelengths@[k],
            forall|k: int| 0 <= k < traced@.len() ==> ws_ok(#[trigger] traced@[k]),
            forall|k: int| 0 <= k < completed@.len() ==> ws_ok(#[trigger] completed@[k]),
            wl_seq(completed@).to_multiset().add(wavelengths@.to_multiset()) == wl_seq(
                c0,
            ).to_multiset().add(w0.to_multiset()),
        decreases traced@.len() - i,
    {
        let ghost tr_before = traced@;
        let ghost wl_before = wavelengths@;
        let ghost comp_before = completed@;
        let s: WavelengthSample = traced[i];
        let new_reflectance: i64 = fx_mul(s.reflectance, brdf_scale);
        if new_reflectance == 0 {
            let removed: WavelengthSample = traced.swap_remove(i);
            let _wl: i64 = wavelengths.swap_remove(i);
            completed.push(removed);
            proof {
                broadcast use vstd::seq_lib::group_to_multiset_ensures;
                broadcast use vstd::multiset::group_multiset_axioms;

                let j = choose|j: int| 0 <= j < t0.len() && s == #[trigger] t0[j];
                assert(fx_mul_spec(t0[j].reflectance as int, brdf_scale as int) == 0);
                assert(dropped_from(removed, t0, brdf_scale as int));
                lemma_swap_remove_multiset(wl_before, i as int);
                assert(wavelengths@.to_multiset() == wl_before.to_multiset().remove(
                    wl_before[i as int],
                ));
                assert(wl_seq(completed@) =~= wl_seq(comp_before).push(removed.wavelength));
                assert(wl_seq(completed@).to_multiset() =~= wl_seq(
                    comp_before,
                ).to_multiset().insert(removed.wavelength));
                assert(removed.wavelength == wl_before[i as int]);
                assert(wl_before.contains(wl_before[i as int]));
                assert(wl_before.to_multiset().count(wl_before[i as int]) > 0);
                assert(wl_seq(completed@).to_multiset().add(wavelengths@.to_multiset()) =~= wl_seq(
                    comp_before,
                ).to_multiset().add(wl_before.to_multiset()));
                assert forall|k: int| i <= k < traced@.len() implies one_of(
                    #[trigger] traced@[k],
                    t0,
                ) by {
                    if k == i {
                        assert(traced@[k] == tr_before.last());
                        assert(one_of(tr_before[tr_before.len() - 1], t0));
                    } else {
                        assert(traced@[k] == tr_before[k]);
                    }
                }
                assert forall|k: int| 0 <= k < traced@.len() implies (
                #[trigger] traced@[k]).wavelength == wavelengths@[k] by {
                    if k == i {
                        assert(traced@[k] == tr_before.last());
                        assert(wavelengths@[k] == wl_before.last());
                    } else {
                        assert(traced@[k] == tr_before[k]);
                        assert(wavelengths@[k] == wl_before[k]);
                    }
                }
            }
        } else {
            let updated = WavelengthSample {
                reflectance: new_reflectance,
                sample_light: brdf_absent || s.sample_light,
                ..s
            };
            traced.set(i, updated);
            proof {
                let j = choose|j: int| 0 <= j < t0.len() && s == #[trigger] t0[j];
                assert(updated == brdf_updated(t0[j], brdf_scale as int, brdf_absent));
                assert(updated_from(updated, t0, brdf_scale as int, brdf_absent));
            }
            i = i + 1;
        }
    }
}

/// Retire a batch of samples against an emitting color: each sample banks
/// the color at its wavelength (gated by its `sample_light` flag when the
/// flag is respected) and joins `completed`.
fn finish_with_color(
    samples: Vec<WavelengthSample>,
    completed: &mut Vec<WavelengthSample>,
    color: &Math,
    normal_dir: Vec3,
    incident: Vec3,
    respect_flag: bool,
)
    requires
        math_wf(*color),
        vec3_ok(normal_dir),
        vec3_ok(incident),
        forall|k: int| 0 <= k < samples@.len() ==> ws_ok(#[trigger] samples@[k]),
        forall|k: int| 0 <= k < old(completed)@.len() ==> ws_ok(#[trigger] old(completed)@[k]),
    ensures
        final(completed)@.len() == old(completed)@.len() + samples@.len(),
        forall|k: int|
            0 <= k < old(completed)@.len() ==> #[trigger] final(completed)@[k] == old(completed)@[k],
        forall|k: int|
            0 <= k < samples@.len() ==> #[trigger] final(completed)@[old(completed)@.len() + k]
                == finished_sample(
                samples@[k],
                math_eval(*color, sample_context(samples@[k].wavelength, normal_dir, incident)),
                respect_flag,
            ),
        forall|k: int| 0 <= k < final(completed)@.len() ==> ws_ok(#[trigger] final(completed)@[k]),
{
    let ghost c0 = old(completed)@;
    let n: usize = samples.len();
    let mut i: usize = 0;
    while i < n
        invariant
            i <= n,
            n == samples@.len(),
            math_wf(*color),
            vec3_ok(normal_dir),
            vec3_ok(incident),
            forall|k: int| 0 <= k < samples@.len() ==> ws_ok(#[trigger] samples@[k]),
            completed@.len() == c0.len() + i,
            forall|k: int| 0 <= k < c0.len() ==> #[trigger] completed@[k] == c0[k],
            forall|k: int|
                0 <= k < i ==> #[trigger] completed@[c0.len() + k] == finished_sample(
                    samples@[k],
                    math_eval(
                        *color,
                        sample_context(samples@[k].wavelength, normal_dir, incident),
                    ),
                    respect_flag,
                ),
            forall|k: int| 0 <= k < completed@.len() ==> ws_ok(#[trigger] completed@[k]),
        decreases n - i,
    {
        let s: WavelengthSample = samples[i];
        if !respect_flag || s.sample_light {
            let ctx = RenderContext { wavelength: s.wavelength, normal: normal_dir, incident };
            let cv: i64 = color.get(&ctx);
            let updated = WavelengthSample {
                brightness: fx_add(s.brightness, fx_mul(s.reflectance, cv)),
                ..s
            };
            completed.push(updated);
        } else {
            completed.push(s);
        }
        i = i + 1;
    }
}


/// One accepted shadow ray's contribution: each wavelength's accumulator
/// gains the light's emission there, scaled by the geometric weight. This
/// is the whole effect of one surface point once the sampler has chosen
/// it, stated exactly for every choice.
pub fn accumulate_emission(
    sums: &mut Vec<i64>,
    wavelengths: &Vec<i64>,
    color: &Math,
    light_normal: Vec3,
    dir: Vec3,
    scale: i64,
)
    requires
        old(sums)@.len() == wavelengths@.len(),
        forall|q: int| 0 <= q < old(sums)@.len() ==> fx_ok(#[trigger] old(sums)@[q]),
        forall|q: int| 0 <= q < wavelengths@.len() ==> fx_ok(#[trigger] wavelengths@[q]),
        math_wf(*color),
        vec3_ok(light_normal),
        vec3_ok(dir),
        fx_ok(scale),
    ensures
        final(sums)@.len() == old(sums)@.len(),
        forall|q: int|
            0 <= q < final(sums)@.len() ==> #[trigger] final(sums)@[q] == fx_add_spec(
                old(sums)@[q] as int,
                fx_mul_spec(
                    math_eval(*color, sample_context(wavelengths@[q], light_normal, dir)),
                    scale as int,
                ),
            ),
        forall|q: int| 0 <= q < final(sums)@.len() ==> fx_ok(#[trigger] final(sums)@[q]),
{
    let n: usize = sums.len();
    let mut j: usize = 0;
    while j < n
        invariant
            j <= n,
            n == sums@.len(),
            n == old(sums)@.len(),
            n == wavelengths@.len(),
            forall|q: int| 0 <= q < n ==> fx_ok(#[trigger] old(sums)@[q]),
            forall|q: int| j <= q < n ==> #[trigger] sums@[q] == old(sums)@[q],
            forall|q: int| 0 <= q < n ==> fx_ok(#[trigger] wavelengths@[q]),
            math_wf(*color),
            vec3_ok(light_normal),
            vec3_ok(dir),
            fx_ok(scale),
            forall|q: int|
                0 <= q < j ==> #[trigger] sums@[q] == fx_add_spec(
                    old(sums)@[q] as int,
                    fx_mul_spec(
                        math_eval(*color, sample_context(wavelengths@[q], light_normal, dir)),
                        scale as int,
                    ),
                ),
            forall|q: int| 0 <= q < j ==> fx_ok(#[trigger] sums@[q]),
        decreases n - j,
    {
        let ctx = RenderContext { wavelength: wavelengths[j], normal: light_normal, incident: dir };
        let cv: i64 = color.get(&ctx);
        let added: i64 = fx_add(sums[j], fx_mul(cv, scale));
        sums.set(j, added);
        j = j + 1;
    }
}

/// A structurally sound reflection: colors well formed, rays finite, and
/// no empty dispersion.
pub open spec fn reflection_wf(r: Reflection) -> bool
    decreases r,
{
    match r {
        Reflection::Emit(c) => math_wf(*c),
        Reflection::Reflect(ray, c, scale, _) => ray3_ok(ray) && math_wf(*c) && fx_ok(scale),
        Reflection::Disperse(v) => v@.len() > 0 && forall|i: int|
            0 <= i < v@.len() ==> reflection_wf(#[trigger] v@[i]),
    }
}

/// What collapsing nested dispersion reaches: the last branch, repeatedly,
/// until a leaf stands.
pub open spec fn collapse_spec(r: Reflection) -> Reflection
    decreases r,
{
    match r {
        Reflection::Disperse(v) => {
            if v@.len() > 0 {
                collapse_spec(v@.last())
            } else {
                Reflection::Disperse(v)
            }
        },
        other => other,
    }
}

/// Nested dispersion is reduced to its final branch: walk `Disperse`
/// nodes by their last element until a leaf is reached.
fn collapse_disperse<'a>(r: Reflection<'a>) -> (leaf: Reflection<'a>)
    requires
        reflection_wf(r),
    ensures
        leaf == collapse_spec(r),
        reflection_wf(leaf),
        !(leaf matches Reflection::Disperse(_)),
    decreases r,
{
    match r {
        Reflection::Disperse(mut v) => {
            let ghost v0 = v@;
            match v.pop() {
                Some(last) => {
                    proof {
                        assert(last == v0.last());
                        assert(reflection_wf(last));
                    }
                    collapse_disperse(last)
                },
                None => vstd::pervasive::unreached(),
            }
        },
        other => other,
    }
}

/// Whether a surface point at squared distance `d2` along `dir` is
/// visible from `origin`: the shadow ray misses, or its first hit lies no
/// nearer than the point, within one rounding step.
pub open spec fn shadow_visible(w: World, origin: Vec3, dir: Vec3, d2: i64) -> bool {
    match nearest_hit(w.objects@, Ray3 { origin, direction: dir }) {
        Option::None => true,
        Option::Some((i, h, d)) => dot_spec(sub_spec(h.origin, origin), sub_spec(h.origin, origin))
            >= d2 - 1,
    }
}

/// What one drawn light point contributes: `None` when the point faces
/// away, the light does not emit, or the shadow ray is blocked; otherwise
/// the emission color together with the geometric scale
/// `weight * cos_in * brdf / d2`.
pub open spec fn direct_point_scale(
    w: World,
    light_index: int,
    origin: Vec3,
    oriented: Vec3,
    ray_in: Vec3,
    b: Brdf,
    weight: i64,
    target: Ray3,
) -> Option<(Math, i64)> {
    let v = sub_spec(target.origin, origin);
    let d2 = dot_spec(v, v);
    let dir = normalize_spec(v);
    let cos_out = dot_spec(oriented, dir);
    if cos_out > 0 {
        match emission_spec(w.objects@[light_index].material) {
            Option::Some(color) => {
                if shadow_visible(w, origin, dir, d2 as i64) {
                    let c = dot_spec(target.direction, dir);
                    let cos_in = if c >= 0 {
                        c
                    } else {
                        -c
                    };
                    Some(
                        (
                            color,
                            fx_div_spec(
                                fx_mul_spec(
                                    fx_mul_spec(weight as int, cos_in),
                                    brdf_eval_spec(b, ray_in, oriented, dir),
                                ),
                                d2,
                            ) as i64,
                        ),
                    )
                } else {
                    None
                }
            },
            Option::None => None,
        }
    } else {
        None
    }
}

/// The Monte Carlo weight of uniform-area light sampling: the chosen
/// light's area times the number of lights, over the draw count times two
/// pi.
pub fn direct_light_weight(area: i64, lights: usize, samples: usize) -> (r: i64)
    requires
        fx_ok(area),
        lights <= 0x1000_0000,
        samples <= 0x10000,
    ensures
        r == fx_div_spec(
            fx_mul_spec(area as int, lights * 65536),
            fx_mul_spec(samples * 65536, crate::fixed::FX_TWO_PI as int),
        ),
        fx_ok(r),
{
    let lights_fx: i64 = (lights as i64) * 65536;
    let samples_fx: i64 = (samples as i64) * 65536;
    crate::fixed::fx_div(fx_mul(area, lights_fx), fx_mul(samples_fx, crate::fixed::FX_TWO_PI))
}

/// Apply one drawn light point to the accumulators: the whole effect of
/// the draw, stated exactly for every point the sampler can hand back. A
/// facing, emitting, visible point adds its scaled emission per
/// wavelength; any other point leaves the sums unchanged.
pub fn direct_light_point(
    sums: &mut Vec<i64>,
    wavelengths: &Vec<i64>,
    world: &World,
    light_index: usize,
    origin: Vec3,
    oriented: Vec3,
    ray_in: &Vec3,
    brdf: Brdf,
    weight: i64,
    target: Ray3,
    rng: &mut rand_xorshift::XorShiftRng,
)
    requires
        world_wf(*world),
        light_index < world.objects@.len(),
        vec3_ok(origin),
        vec3_ok(oriented),
        vec3_ok(*ray_in),
        fx_ok(weight),
        ray3_ok(target),
        old(sums)@.len() == wavelengths@.len(),
        forall|q: int| 0 <= q < old(sums)@.len() ==> fx_ok(#[trigger] old(sums)@[q]),
        forall|q: int| 0 <= q < wavelengths@.len() ==> fx_ok(#[trigger] wavelengths@[q]),
    ensures
        final(sums)@.len() == old(sums)@.len(),
        forall|q: int| 0 <= q < final(sums)@.len() ==> fx_ok(#[trigger] final(sums)@[q]),
        direct_point_scale(
            *world,
            light_index as int,
            origin,
            oriented,
            *ray_in,
            brdf,
            weight,
            target,
        ) matches Some((color, scale)) ==> forall|q: int|
            0 <= q < final(sums)@.len() ==> #[trigger] final(sums)@[q] == fx_add_spec(
                old(sums)@[q] as int,
                fx_mul_spec(
                    math_eval(
                        color,
                        sample_context(
                            wavelengths@[q],
                            target.direction,
                            normalize_spec(sub_spec(target.origin, origin)),
                        ),
                    ),
                    scale as int,
                ),
            ),
        direct_point_scale(
            *world,
            light_index as int,
            origin,
            oriented,
            *ray_in,
            brdf,
            weight,
            target,
        ) is None ==> final(sums)@ == old(sums)@,
{
    let ray_out_v: Vec3 = target.origin.sub(&origin);
    let distance2: i64 = ray_out_v.length2();
    let dir: Vec3 = ray_out_v.normalize();
    let out_ray: Ray3 = Ray3::new(origin, dir);
    let cos_out: i64 = oriented.dot(&dir);
    if cos_out > 0 {
        let cos_in: i64 = crate::fixed::fx_abs(target.direction.dot(&dir));
        let emission = world.objects[light_index].material.get_emission(
            wavelengths,
            &dir,
            &target,
            rng,
        );
        match emission {
            None => {},
            Some(color) => {
                let b: i64 = brdf_eval(brdf, ray_in, &oriented, &dir);
                let scale: i64 = crate::fixed::fx_div(fx_mul(fx_mul(weight, cos_in), b), distance2);
                let shadow = world.intersect(&out_ray);
                let visible: bool = match shadow {
                    None => true,
                    Some((hit, _m)) => {
                        let hd: i64 = hit.origin.sub(&origin).length2();
                        hd >= distance2 - 1
                    },
                };
                if visible {
                    accumulate_emission(sums, wavelengths, color, target.direction, dir, scale);
                }
            },
        }
    }
}

/// The direct-light estimator: next-event estimation against one light.
///
/// With no lights in the scene the estimate is a zero vector of the
/// requested length, whatever the other arguments. Otherwise one light is
/// picked uniformly, `samples` points are drawn on its surface, and every
/// point that is visible from the shading point and faces it adds the
/// light's emission at each wavelength, scaled by the geometry terms and
/// the Monte Carlo weight `area * lights / (samples * 2 pi)`.
pub fn trace_direct(
    rng: &mut rand_xorshift::XorShiftRng,
    samples: usize,
    wavelengths: &Vec<i64>,
    ray_in: &Vec3,
    normal: &Ray3,
    world: &World,
    brdf: Brdf,
) -> (r: Vec<i64>)
    requires
        world_wf(*world),
        vec3_ok(*ray_in),
        ray3_ok(*normal),
        samples <= 0x10000,
        forall|k: int| 0 <= k < wavelengths@.len() ==> fx_ok(#[trigger] wavelengths@[k]),
    ensures
        r@.len() == wavelengths@.len(),
        forall|k: int| 0 <= k < r@.len() ==> fx_ok(#[trigger] r@[k]),
        world.lights@.len() == 0 ==> forall|k: int| 0 <= k < r@.len() ==> #[trigger] r@[k] == 0,
{
    let n: usize = wavelengths.len();
    let mut sums: Vec<i64> = Vec::new();
    let mut z: usize = 0;
    while z < n
        invariant
            z <= n,
            sums@.len() == z,
            forall|k: int| 0 <= k < z ==> #[trigger] sums@[k] == 0,
        decreases n - z,
    {
        sums.push(0);
        z = z + 1;
    }
    if world.lights.len() == 0 {
        return sums;
    }
    let oriented: Vec3 = if ray_in.dot(&normal.direction) < 0 {
        normal.direction
    } else {
        normal.direction.neg()
    };
    let origin: Vec3 = normal.origin;
    let pick: usize = (crate::rng::rng_next_u32(rng) as usize) % world.lights.len();
    let light_idx: usize = world.lights[pick];
    proof {
        assert(world.lights@[pick as int] < world.objects@.len());
        assert(sphere_wf(world.objects@[light_idx as int].shape));
    }
    let area: i64 = world.objects[light_idx].shape.surface_area();
    let weight: i64 = direct_light_weight(area, world.lights.len(), samples);
    let mut k: usize = 0;
    while k < samples
        invariant
            k <= samples,
            sums@.len() == n,
            n == wavelengths@.len(),
            forall|j: int| 0 <= j < n ==> fx_ok(#[trigger] sums@[j]),
            forall|j: int| 0 <= j < n ==> fx_ok(#[trigger] wavelengths@[j]),
            world_wf(*world),
            light_idx < world.objects@.len(),
            vec3_ok(oriented),
            vec3_ok(origin),
            vec3_ok(*ray_in),
            fx_ok(weight),
        decreases samples - k,
    {
        let target: Ray3 = world.objects[light_idx].shape.sample_point(rng);
        direct_light_point(
            &mut sums,
            wavelengths,
            world,
            light_idx,
            origin,
            oriented,
            ray_in,
            brdf,
            weight,
            target,
            rng,
        );
        k = k + 1;
    }
    sums
}


/// Multiplying by zero yields zero.
pub proof fn lemma_fx_mul_by_zero(x: int)
    ensures
        fx_mul_spec(x, 0) == 0,
        fx_mul_spec(0, x) == 0,
{
    assert(x * 0 == 0) by (nonlinear_arith);
    assert(0 * x == 0) by (nonlinear_arith);
    vstd::arithmetic::div_mod::lemma_div_of0(crate::fixed::FX_SCALE as int);
}

/// Multiplying by one changes no finite scalar.
pub proof fn lemma_fx_mul_one(x: int)
    requires
        -FX_MAX <= x <= FX_MAX,
    ensures
        fx_mul_spec(x, FX_ONE as int) == x,
        fx_mul_spec(FX_ONE as int, x) == x,
{
    crate::spectrum::lemma_div_trunc_exact(x, crate::fixed::FX_SCALE as int);
    assert(FX_ONE as int * x == x * crate::fixed::FX_SCALE as int) by (nonlinear_arith);
}

/// The color a material emits, if any: a fixed function of the material
/// alone.
pub open spec fn emission_spec(m: Material) -> Option<Math> {
    match m {
        Material::Emission { color } => Some(color),
        Material::DispersiveEmission { colors } => Some(colors[0]),
        _ => None,
    }
}

/// The sky's color graph.
pub open spec fn sky_math(w: World) -> Math {
    match w.sky {
        Sky::Color(m) => m,
    }
}

/// The first thing the ray meets scatters and the path goes on: the
/// nearest hit exists and its material is diffuse or specular.
pub open spec fn first_event_continues(w: World, r0: Ray3) -> bool {
    nearest_hit(w.objects@, r0) matches Some((i, h, d)) && (w.objects@[i].material matches
        Material::Diffuse { .. } || w.objects@[i].material matches Material::Mirror { .. })
}

/// The first thing the ray meets is a specular surface whose color
/// evaluates to zero at the given wavelength: the branch is absorbed on
/// the spot.
pub open spec fn first_event_absorbs(w: World, r0: Ray3, wl: i64) -> bool {
    nearest_hit(w.objects@, r0) matches Some((i, h, d)) && (w.objects@[i].material matches
        Material::Mirror { color } && math_eval(
        color,
        sample_context(wl, h.direction, r0.direction),
    ) == 0)
}

/// The wavelength is one of the originals.
pub open spec fn wl_from(wl: i64, wl0: Seq<i64>) -> bool {
    exists|j: int| 0 <= j < wl0.len() && wl == #[trigger] wl0[j]
}

/// Every object reflects all light unchanged, specularly: the color is the
/// constant one, the scale one, and no reflectance model is exposed.
pub open spec fn passthrough_material(m: Material) -> bool {
    m matches Material::Mirror { color: Math::Value(Color::Constant(k)) } && k == FX_ONE
}

/// A world of nothing but passthrough mirrors.
pub open spec fn passthrough_world(w: World) -> bool {
    forall|i: int| 0 <= i < w.objects@.len() ==> passthrough_material((#[trigger] w.objects@[i]).material)
}

/// The sky is the constant `c` at every wavelength.
pub open spec fn constant_sky(w: World, c: i64) -> bool {
    w.sky matches Sky::Color(m) && m == Math::Value(Color::Constant(c))
}

/// Follow one already-dispersed sample through the rest of its path: a
/// single-wavelength bounce loop with the same event handling as the main
/// tracer. The sample's wavelength and weight survive unchanged.
#[verifier::loop_isolation(false)]
pub fn trace_branch(
    rng: &mut rand_xorshift::XorShiftRng,
    ray: Ray3,
    sample: WavelengthSample,
    world: &World,
    bounces: usize,
    light_samples: usize,
) -> (r: WavelengthSample)
    requires
        world_wf(*world),
        ray3_ok(ray),
        ws_ok(sample),
        light_samples <= 0x10000,
    ensures
        r.wavelength == sample.wavelength,
        r.weight == sample.weight,
        ws_ok(r),
        bounces >= 1 && nearest_hit(world.objects@, ray) is None ==> r == (WavelengthSample {
            brightness: fx_add_spec(
                sample.brightness as int,
                fx_mul_spec(
                    sample.reflectance as int,
                    math_eval(
                        sky_math(*world),
                        sample_context(
                            sample.wavelength,
                            Vec3 { x: 0i64, y: 0i64, z: 0i64 },
                            ray.direction,
                        ),
                    ),
                ),
            ) as i64,
            ..sample
        }),
        bounces >= 1 && first_event_absorbs(*world, ray, sample.wavelength) ==> r == (
        WavelengthSample { reflectance: 0i64, sample_light: true, ..sample }),
    decreases bounces,
{
    let ghost s0 = sample;
    let ghost ray0 = ray;
    let mut ray = ray;
    let mut sample = sample;
    let mut wl_vec: Vec<i64> = Vec::new();
    wl_vec.push(sample.wavelength);
    let mut bounce: usize = 0;
    while bounce < bounces
        invariant
            bounce <= bounces,
            world_wf(*world),
            ray3_ok(ray),
            ws_ok(sample),
            sample.wavelength == s0.wavelength,
            sample.weight == s0.weight,
            wl_vec@.len() == 1,
            wl_vec@[0] == sample.wavelength,
            light_samples <= 0x10000,
            bounce == 0 ==> ray == ray0 && sample == s0,
            bounce >= 1 ==> !(nearest_hit(world.objects@, ray0) is None),
            bounce >= 1 ==> !first_event_absorbs(*world, ray0, s0.wavelength),
        decreases bounces - bounce,
    {
        let hit = world.intersect(&ray);
        match hit {
            None => {
                let sky_color: &Math = world.sky.color(&ray.direction);
                proof {
                    assert(math_wf(*sky_color));
                    assert(*sky_color == sky_math(*world));
                }
                let ctx = RenderContext {
                    wavelength: sample.wavelength,
                    normal: Vec3::zero(),
                    incident: ray.direction,
                };
                let cv: i64 = sky_color.get(&ctx);
                return WavelengthSample {
                    brightness: fx_add(sample.brightness, fx_mul(sample.reflectance, cv)),
                    ..sample
                };
            },
            Some((normal, material)) => {
                proof {
                    let nh = nearest_hit(world.objects@, ray);
                    match nh {
                        Option::Some((i, h, d)) => {
                            assert(material_wf(world.objects@[i].material));
                        },
                        Option::None => {
                            assert(false);
                        },
                    }
                }
                let reflection = material.reflect(&wl_vec, &ray, &normal, rng);
                let leaf = collapse_disperse(reflection);
                match leaf {
                    Reflection::Emit(color) => {
                        proof {
                            if bounce == 0 && first_event_absorbs(*world, ray0, s0.wavelength) {
                                let nh = nearest_hit(world.objects@, ray0);
                                match nh {
                                    Option::Some((gi, gh, gd)) => {
                                        assert(*material == world.objects@[gi].material);
                                        assert(collapse_spec(reflection) == reflection);
                                        assert(false);
                                    },
                                    Option::None => {
                                        assert(false);
                                    },
                                }
                            }
                        }
                        if sample.sample_light {
                            let ctx = RenderContext {
                                wavelength: sample.wavelength,
                                normal: normal.direction,
                                incident: ray.direction,
                            };
                            let cv: i64 = color.get(&ctx);
                            return WavelengthSample {
                                brightness: fx_add(sample.brightness, fx_mul(sample.reflectance, cv)),
                                ..sample
                            };
                        }
                        return sample;
                    },
                    Reflection::Reflect(out_ray, color, scale, brdf_opt) => {
                        let ctx = RenderContext {
                            wavelength: sample.wavelength,
                            normal: normal.direction,
                            incident: ray.direction,
                        };
                        let cv: i64 = color.get(&ctx);
                        sample = WavelengthSample {
                            reflectance: fx_mul(fx_mul(sample.reflectance, cv), scale),
                            ..sample
                        };
                        let brdf_scale: i64;
                        let brdf_absent: bool;
                        match brdf_opt {
                            Some(br) => {
                                let direct = trace_direct(
                                    rng,
                                    light_samples,
                                    &wl_vec,
                                    &ray.direction,
                                    &normal,
                                    world,
                                    br,
                                );
                                let light_sum: i64 = direct[0];
                                if light_sum > 0 {
                                    sample = WavelengthSample {
                                        brightness: fx_add(
                                            sample.brightness,
                                            fx_mul(sample.reflectance, light_sum),
                                        ),
                                        sample_light: false,
                                        ..sample
                                    };
                                } else {
                                    sample = WavelengthSample { sample_light: true, ..sample };
                                }
                                brdf_scale = brdf_eval(
                                    br,
                                    &ray.direction,
                                    &normal.direction,
                                    &out_ray.direction,
                                );
                                brdf_absent = false;
                            },
                            None => {
                                brdf_scale = FX_ONE;
                                brdf_absent = true;
                            },
                        }
                        sample = WavelengthSample {
                            reflectance: fx_mul(sample.reflectance, brdf_scale),
                            sample_light: brdf_absent || sample.sample_light,
                            ..sample
                        };
                        proof {
                            if bounce == 0 && first_event_absorbs(*world, ray0, s0.wavelength) {
                                let nh = nearest_hit(world.objects@, ray0);
                                match nh {
                                    Option::Some((gi, gh, gd)) => {
                                        assert(*material == world.objects@[gi].material);
                                        assert(normal == gh);
                                        assert(collapse_spec(reflection) == reflection);
                                        assert(cv == 0);
                                        lemma_fx_mul_by_zero(s0.reflectance as int);
                                        lemma_fx_mul_by_zero(FX_ONE as int);
                                        lemma_fx_mul_one(0);
                                        assert(sample == (WavelengthSample {
                                            reflectance: 0i64,
                                            sample_light: true,
                                            ..s0
                                        }));
                                    },
                                    Option::None => {
                                        assert(false);
                                    },
                                }
                            }
                        }
                        if sample.reflectance == 0 {
                            return sample;
                        }
                        proof {
                            if bounce == 0 {
                                assert(!first_event_absorbs(*world, ray0, s0.wavelength));
                            }
                        }
                        ray = out_ray;
                    },
                    Reflection::Disperse(_) => {
                        proof {
                            assert(false);
                        }
                        return sample;
                    },
                }
            },
        }
        bounce = bounce + 1;
    }
    sample
}

/// Fan a dispersed event out: pair each live sample with its branch,
/// collapse nested dispersion to the final branch, finish emission leaves
/// in place, and follow reflection leaves with the remaining bounce
/// budget. Each pair contributes exactly one completed sample, in order.
#[verifier::loop_isolation(false)]
pub fn handle_disperse<'a>(
    rng: &mut rand_xorshift::XorShiftRng,
    traced: Vec<WavelengthSample>,
    branches: Vec<Reflection<'a>>,
    completed: &mut Vec<WavelengthSample>,
    normal: Ray3,
    ray: Ray3,
    world: &World,
    bounces: usize,
    light_samples: usize,
)
    requires
        world_wf(*world),
        ray3_ok(normal),
        ray3_ok(ray),
        light_samples <= 0x10000,
        branches@.len() == traced@.len(),
        forall|k: int| 0 <= k < traced@.len() ==> ws_ok(#[trigger] traced@[k]),
        forall|k: int| 0 <= k < branches@.len() ==> reflection_wf(#[trigger] branches@[k]),
        forall|k: int| 0 <= k < old(completed)@.len() ==> ws_ok(#[trigger] old(completed)@[k]),
    ensures
        final(completed)@.len() == old(completed)@.len() + traced@.len(),
        forall|k: int|
            0 <= k < old(completed)@.len() ==> #[trigger] final(completed)@[k] == old(completed)@[k],
        forall|k: int|
            0 <= k < traced@.len() ==> ws_ok(#[trigger] final(completed)@[old(completed)@.len() + k])
                && final(completed)@[old(completed)@.len() + k].wavelength == traced@[k].wavelength
                && final(completed)@[old(completed)@.len() + k].weight == traced@[k].weight,
        forall|k: int|
            0 <= k < traced@.len() ==> ((#[trigger] collapse_spec(branches@[k])) matches
                Reflection::Emit(c) ==> final(completed)@[old(completed)@.len() + k]
                == finished_sample(
                traced@[k],
                math_eval(*c, sample_context(traced@[k].wavelength, normal.direction, ray.direction)),
                true,
            )),
{
    let ghost c0 = old(completed)@;
    let ghost b0 = branches@;
    let n: usize = traced.len();
    let mut branches = branches;
    let mut i: usize = 0;
    while i < n
        invariant
            i <= n,
            n == traced@.len(),
            world_wf(*world),
            ray3_ok(normal),
            ray3_ok(ray),
            light_samples <= 0x10000,
            b0.len() == n,
            branches@ =~= b0.subrange(i as int, n as int),
            forall|k: int| 0 <= k < n ==> ws_ok(#[trigger] traced@[k]),
            forall|k: int| 0 <= k < n ==> reflection_wf(#[trigger] b0[k]),
            completed@.len() == c0.len() + i,
            forall|k: int| 0 <= k < c0.len() ==> #[trigger] completed@[k] == c0[k],
            forall|k: int|
                0 <= k < i ==> ws_ok(#[trigger] completed@[c0.len() + k])
                    && completed@[c0.len() + k].wavelength == traced@[k].wavelength
                    && completed@[c0.len() + k].weight == traced@[k].weight,
            forall|k: int|
                0 <= k < i ==> ((#[trigger] collapse_spec(b0[k])) matches Reflection::Emit(c)
                    ==> completed@[c0.len() + k] == finished_sample(
                    traced@[k],
                    math_eval(
                        *c,
                        sample_context(traced@[k].wavelength, normal.direction, ray.direction),
                    ),
                    true,
                )),
        decreases n - i,
    {
        let branch: Reflection<'a> = branches.remove(0);
        proof {
            assert(branch == b0[i as int]);
        }
        let leaf = collapse_disperse(branch);
        let s: WavelengthSample = traced[i];
        match leaf {
            Reflection::Emit(color) => {
                if s.sample_light {
                    let ctx = RenderContext {
                        wavelength: s.wavelength,
                        normal: normal.direction,
                        incident: ray.direction,
                    };
                    let cv: i64 = color.get(&ctx);
                    let updated = WavelengthSample {
                        brightness: fx_add(s.brightness, fx_mul(s.reflectance, cv)),
                        ..s
                    };
                    completed.push(updated);
                } else {
                    completed.push(s);
                }
            },
            Reflection::Reflect(out_ray, color, scale, brdf_opt) => {
                let ctx = RenderContext {
                    wavelength: s.wavelength,
                    normal: normal.direction,
                    incident: ray.direction,
                };
                let cv: i64 = color.get(&ctx);
                let mut s2 = WavelengthSample {
                    reflectance: fx_mul(fx_mul(s.reflectance, cv), scale),
                    ..s
                };
                match brdf_opt {
                    Some(br) => {
                        let mut single: Vec<i64> = Vec::new();
                        single.push(s2.wavelength);
                        let direct = trace_direct(
                            rng,
                            light_samples,
                            &single,
                            &ray.direction,
                            &normal,
                            world,
                            br,
                        );
                        let light_sum: i64 = direct[0];
                        if light_sum > 0 {
                            s2 = WavelengthSample {
                                brightness: fx_add(s2.brightness, fx_mul(s2.reflectance, light_sum)),
                                sample_light: false,
                                ..s2
                            };
                        } else {
                            s2 = WavelengthSample { sample_light: true, ..s2 };
                        }
                        let bscale: i64 = brdf_eval(
                            br,
                            &ray.direction,
                            &normal.direction,
                            &out_ray.direction,
                        );
                        s2 = WavelengthSample { reflectance: fx_mul(s2.reflectance, bscale), ..s2 };
                    },
                    None => {
                        s2 = WavelengthSample {
                            reflectance: fx_mul(s2.reflectance, FX_ONE),
                            sample_light: true,
                            ..s2
                        };
                    },
                }
                let res: WavelengthSample = trace_branch(
                    rng,
                    out_ray,
                    s2,
                    world,
                    bounces,
                    light_samples,
                );
                completed.push(res);
            },
            Reflection::Disperse(_) => {
                proof {
                    assert(false);
                }
            },
        }
        i = i + 1;
    }
}

/// Extending the finished samples by one batch whose wavelengths mirror
/// the live vector keeps the combined wavelength multiset.
proof fn lemma_extension_multiset(
    c0: Seq<WavelengthSample>,
    c1: Seq<WavelengthSample>,
    wl: Seq<i64>,
    all: Seq<i64>,
)
    requires
        c1.len() == c0.len() + wl.len(),
        forall|k: int| 0 <= k < c0.len() ==> #[trigger] c1[k] == c0[k],
        forall|k: int| 0 <= k < wl.len() ==> (#[trigger] c1[c0.len() + k]).wavelength == wl[k],
        wl_seq(c0).to_multiset().add(wl.to_multiset()) == all.to_multiset(),
    ensures
        wl_seq(c1).to_multiset() == all.to_multiset(),
{
    assert forall|k: int| 0 <= k < c1.len() implies wl_seq(c1)[k] == (wl_seq(c0) + wl)[k] by {
        if k < c0.len() {
            assert(c1[k] == c0[k]);
        } else {
            let j = k - c0.len();
            assert(c1[c0.len() + j].wavelength == wl[j]);
        }
    }
    assert(wl_seq(c1) =~= wl_seq(c0) + wl);
    vstd::seq_lib::lemma_multiset_commutative(wl_seq(c0), wl);
}

/// Trace one camera ray: follow the wavelength samples through up to
/// `bounces` scattering events and return them, finished.
///
/// Exactly one finished sample comes back per wavelength asked for, each
/// carrying a wavelength that was asked for and its unit weight. In a
/// world of passthrough mirrors under a constant sky `c`, every finished
/// sample's brightness is `c` when its path reached the sky and zero when
/// the bounce budget ran out first.
#[verifier::rlimit(100)]
#[verifier::loop_isolation(false)]
pub fn trace(
    rng: &mut rand_xorshift::XorShiftRng,
    ray: Ray3,
    wavelengths: Vec<i64>,
    world: &World,
    bounces: usize,
    light_samples: usize,
) -> (r: Vec<WavelengthSample>)
    requires
        world_wf(*world),
        ray3_ok(ray),
        light_samples <= 0x10000,
        forall|k: int| 0 <= k < wavelengths@.len() ==> fx_ok(#[trigger] wavelengths@[k]),
    ensures
        r@.len() == wavelengths@.len(),
        forall|k: int|
            0 <= k < r@.len() ==> ws_ok(#[trigger] r@[k]) && r@[k].weight == FX_ONE && wl_from(
                r@[k].wavelength,
                wavelengths@,
            ),
        forall|c: i64|
            passthrough_world(*world) && #[trigger] constant_sky(*world, c) && fx_ok(c)
                ==> forall|k: int|
                0 <= k < r@.len() ==> (#[trigger] r@[k]).brightness == c || r@[k].brightness == 0,
        wl_seq(r@).to_multiset() == wavelengths@.to_multiset(),
        bounces >= 1 && nearest_hit(world.objects@, ray) is None ==> forall|k: int|
            0 <= k < r@.len() ==> #[trigger] r@[k] == finished_sample(
                fresh_sample(wavelengths@[k]),
                math_eval(
                    sky_math(*world),
                    sample_context(wavelengths@[k], Vec3 { x: 0i64, y: 0i64, z: 0i64 }, ray.direction),
                ),
                false,
            ),
        bounces >= 1 ==> (nearest_hit(world.objects@, ray) matches Some((i, h, d)) ==> (
        world.objects@[i].material matches Material::Emission { color } ==> forall|k: int|
            0 <= k < r@.len() ==> #[trigger] r@[k] == finished_sample(
                fresh_sample(wavelengths@[k]),
                math_eval(color, sample_context(wavelengths@[k], h.direction, ray.direction)),
                true,
            ))),
        bounces >= 1 ==> (nearest_hit(world.objects@, ray) matches Some((i, h, d)) ==> (
        world.objects@[i].material matches Material::DispersiveEmission { colors } ==> forall|
            k: int,
        |
            0 <= k < r@.len() ==> #[trigger] r@[k] == finished_sample(
                fresh_sample(wavelengths@[k]),
                math_eval(
                    colors@[k % colors@.len() as int],
                    sample_context(wavelengths@[k], h.direction, ray.direction),
                ),
                true,
            ))),
{
    let ghost wl0 = wavelengths@;
    let ghost ray0 = ray;
    let mut ray = ray;
    let mut wavelengths = wavelengths;
    let mut traced: Vec<WavelengthSample> = make_samples(&wavelengths);
    let mut completed: Vec<WavelengthSample> = Vec::new();
    proof {
        broadcast use vstd::multiset::group_multiset_axioms;

        assert forall|k: int| 0 <= k < traced@.len() implies wl_from(
            (#[trigger] traced@[k]).wavelength,
            wl0,
        ) by {
            assert(traced@[k].wavelength == wl0[k]);
        }
        broadcast use vstd::seq_lib::group_to_multiset_ensures;

        assert(wl_seq(completed@).len() == 0);
        vstd::multiset::lemma_multiset_empty_len(wl_seq(completed@).to_multiset());
        assert(wl_seq(completed@).to_multiset() =~= Multiset::<i64>::empty());
        assert(wl_seq(completed@).to_multiset().add(wavelengths@.to_multiset())
            =~= wl0.to_multiset());
    }
    let mut bounce: usize = 0;
    while bounce < bounces
        invariant
            bounce <= bounces,
            world_wf(*world),
            ray3_ok(ray),
            light_samples <= 0x10000,
            traced@.len() == wavelengths@.len(),
            completed@.len() + traced@.len() == wl0.len(),
            forall|k: int| 0 <= k < traced@.len() ==> ws_ok(#[trigger] traced@[k]),
            forall|k: int| 0 <= k < completed@.len() ==> ws_ok(#[trigger] completed@[k]),
            forall|k: int|
                0 <= k < traced@.len() ==> (#[trigger] traced@[k]).wavelength == wavelengths@[k],
            forall|k: int| 0 <= k < wavelengths@.len() ==> fx_ok(#[trigger] wavelengths@[k]),
            forall|k: int| 0 <= k < traced@.len() ==> (#[trigger] traced@[k]).weight == FX_ONE,
            forall|k: int|
                0 <= k < completed@.len() ==> (#[trigger] completed@[k]).weight == FX_ONE,
            forall|k: int|
                0 <= k < traced@.len() ==> wl_from((#[trigger] traced@[k]).wavelength, wl0),
            forall|k: int|
                0 <= k < completed@.len() ==> wl_from((#[trigger] completed@[k]).wavelength, wl0),
            forall|c: i64|
                passthrough_world(*world) && #[trigger] constant_sky(*world, c) && fx_ok(c) ==> (
                forall|k: int|
                    0 <= k < traced@.len() ==> (#[trigger] traced@[k]).reflectance == FX_ONE
                        && traced@[k].brightness == 0) && (forall|k: int|
                    0 <= k < completed@.len() ==> (#[trigger] completed@[k]).brightness == c
                        || completed@[k].brightness == 0),
            bounce == 0 ==> ray == ray0 && completed@.len() == 0 && wavelengths@ == wl0 && (forall|
                k: int,
            | 0 <= k < traced@.len() ==> #[trigger] traced@[k] == fresh_sample(wl0[k])),
            wl_seq(completed@).to_multiset().add(wavelengths@.to_multiset()) == wl0.to_multiset(),
            bounce >= 1 ==> first_event_continues(*world, ray0),
        decreases bounces - bounce,
    {
        let ghost ray_iter = ray;
        let hit = world.intersect(&ray);
        match hit {
            None => {
                let sky_color: &Math = world.sky.color(&ray.direction);
                proof {
                    assert(math_wf(*sky_color));
                    assert(*sky_color == sky_math(*world));
                }
                let ghost traced_snap = traced@;
                let ghost comp0 = completed@;
                let dir: Vec3 = ray.direction;
                finish_with_color(traced, &mut completed, sky_color, Vec3::zero(), dir, false);
                proof {
                    if bounce == 0 {
                        assert forall|k: int|
                            0 <= k < completed@.len() implies #[trigger] completed@[k]
                                == finished_sample(
                                fresh_sample(wl0[k]),
                                math_eval(
                                    sky_math(*world),
                                    sample_context(
                                        wl0[k],
                                        Vec3 { x: 0i64, y: 0i64, z: 0i64 },
                                        ray0.direction,
                                    ),
                                ),
                                false,
                            ) by {
                            assert(completed@[comp0.len() + k] == finished_sample(
                                traced_snap[k],
                                math_eval(
                                    *sky_color,
                                    sample_context(
                                        traced_snap[k].wavelength,
                                        Vec3 { x: 0i64, y: 0i64, z: 0i64 },
                                        dir,
                                    ),
                                ),
                                false,
                            ));
                            assert(traced_snap[k] == fresh_sample(wl0[k]));
                        }
                    }
                    assert forall|k: int|
                        0 <= k < completed@.len() implies ws_ok(#[trigger] completed@[k])
                            && completed@[k].weight == FX_ONE && wl_from(
                            completed@[k].wavelength,
                            wl0,
                        ) by {
                        if k >= comp0.len() {
                            let idx = k - comp0.len();
                            assert(completed@[comp0.len() + idx] == finished_sample(
                                traced_snap[idx],
                                math_eval(
                                    *sky_color,
                                    sample_context(
                                        traced_snap[idx].wavelength,
                                        Vec3 { x: 0i64, y: 0i64, z: 0i64 },
                                        dir,
                                    ),
                                ),
                                false,
                            ));
                        }
                    }
                    assert forall|c: i64|
                        passthrough_world(*world) && #[trigger] constant_sky(*world, c) && fx_ok(c)
                            implies forall|k: int|
                            0 <= k < completed@.len() ==> (#[trigger] completed@[k]).brightness == c
                                || completed@[k].brightness == 0 by {
                        assert forall|k: int|
                            0 <= k < completed@.len() implies (#[trigger] completed@[k]).brightness
                                == c || completed@[k].brightness == 0 by {
                            if k >= comp0.len() {
                                let idx = k - comp0.len();
                                let ctx = sample_context(
                                    traced_snap[idx].wavelength,
                                    Vec3 { x: 0i64, y: 0i64, z: 0i64 },
                                    dir,
                                );
                                assert(completed@[comp0.len() + idx] == finished_sample(
                                    traced_snap[idx],
                                    math_eval(*sky_color, ctx),
                                    false,
                                ));
                                assert(*sky_color == Math::Value(Color::Constant(c)));
                                assert(math_eval(*sky_color, ctx) == crate::color::color_eval(
                                    Color::Constant(c),
                                    ctx,
                                ));
                                assert(traced_snap[idx].reflectance == FX_ONE);
                                assert(traced_snap[idx].brightness == 0);
                                lemma_fx_mul_one(c as int);
                            }
                        }
                    }
                    assert forall|k: int|
                        0 <= k < traced_snap.len() implies (#[trigger] completed@[comp0.len()
                        + k]).wavelength == wavelengths@[k] by {
                        assert(completed@[comp0.len() + k] == completed@[comp0.len() + k]);
                        assert(traced_snap[k].wavelength == wavelengths@[k]);
                    }
                    lemma_extension_multiset(comp0, completed@, wavelengths@, wl0);
                }
                return completed;
            },
            Some((normal, material)) => {
                proof {
                    let nh = nearest_hit(world.objects@, ray);
                    match nh {
                        Option::Some((i, h, d)) => {
                            assert(material_wf(world.objects@[i].material));
                        },
                        Option::None => {
                            assert(false);
                        },
                    }
                }
                let reflection = material.reflect(&wavelengths, &ray, &normal, rng);
                match reflection {
                    Reflection::Reflect(out_ray, color, scale, brdf_opt) => {
                        let ghost t0 = traced@;
                        scale_reflectances(
                            &mut traced,
                            color,
                            scale,
                            normal.direction,
                            ray.direction,
                        );
                        let ghost t1 = traced@;
                        let ghost w1 = wavelengths@;
                        let ghost c1 = completed@;
                        let ghost used_brdf = !(brdf_opt is None);
                        let ghost bscale_g: i64 = FX_ONE;
                        match brdf_opt {
                            Some(br) => {
                                let direct = trace_direct(
                                    rng,
                                    light_samples,
                                    &wavelengths,
                                    &ray.direction,
                                    &normal,
                                    world,
                                    br,
                                );
                                apply_direct_light(&mut traced, &direct);
                                let bscale: i64 = brdf_eval(
                                    br,
                                    &ray.direction,
                                    &normal.direction,
                                    &out_ray.direction,
                                );
                                let ghost t2 = traced@;
                                apply_brdf_and_drop(
                                    &mut traced,
                                    &mut wavelengths,
                                    &mut completed,
                                    bscale,
                                    false,
                                );
                                proof {
                                    reestablish_after_drop(
                                        t0,
                                        t1,
                                        t2,
                                        traced@,
                                        c1,
                                        completed@,
                                        wl0,
                                        bscale as int,
                                        false,
                                    );
                                    assert forall|k: int|
                                        0 <= k < wavelengths@.len() implies fx_ok(
                                        #[trigger] wavelengths@[k]) by {
                                        assert(traced@[k].wavelength == wavelengths@[k]);
                                        assert(ws_ok(traced@[k]));
                                    }
                                    assert forall|c: i64|
                                        passthrough_world(*world) && #[trigger] constant_sky(
                                            *world,
                                            c,
                                        ) && fx_ok(c) implies false by {
                                        let nh = nearest_hit(world.objects@, ray);
                                        match nh {
                                            Option::Some((i, h, d)) => {
                                                assert(passthrough_material(
                                                    world.objects@[i].material,
                                                ));
                                            },
                                            Option::None => {
                                                assert(false);
                                            },
                                        }
                                    }
                                }
                            },
                            None => {
                                let ghost t2 = traced@;
                                apply_brdf_and_drop(
                                    &mut traced,
                                    &mut wavelengths,
                                    &mut completed,
                                    FX_ONE,
                                    true,
                                );
                                proof {
                                    reestablish_after_drop(
                                        t0,
                                        t1,
                                        t2,
                                        traced@,
                                        c1,
                                        completed@,
                                        wl0,
                                        FX_ONE as int,
                                        true,
                                    );
                                    assert forall|k: int|
                                        0 <= k < wavelengths@.len() implies fx_ok(
                                        #[trigger] wavelengths@[k]) by {
                                        assert(traced@[k].wavelength == wavelengths@[k]);
                                        assert(ws_ok(traced@[k]));
                                    }
                                    assert forall|c: i64|
                                        passthrough_world(*world) && #[trigger] constant_sky(
                                            *world,
                                            c,
                                        ) && fx_ok(c) implies (forall|k: int|
                                        0 <= k < traced@.len() ==> (
                                        #[trigger] traced@[k]).reflectance == FX_ONE
                                            && traced@[k].brightness == 0) && (forall|k: int|
                                        0 <= k < completed@.len() ==> (
                                        #[trigger] completed@[k]).brightness == c
                                            || completed@[k].brightness == 0) by {
                                        let nh = nearest_hit(world.objects@, ray);
                                        match nh {
                                            Option::Some((i, h, d)) => {
                                                assert(passthrough_material(
                                                    world.objects@[i].material,
                                                ));
                                                assert(*color == Math::Value(
                                                    Color::Constant(FX_ONE),
                                                ));
                                                assert(scale == FX_ONE);
                                                lemma_fx_mul_one(FX_ONE as int);
                                                assert forall|k: int|
                                                    0 <= k < t1.len() implies (
                                                #[trigger] t1[k]).reflectance == FX_ONE
                                                    && t1[k].brightness == 0 by {
                                                    let ctxk = sample_context(
                                                        t0[k].wavelength,
                                                        normal.direction,
                                                        ray.direction,
                                                    );
                                                    assert(math_eval(*color, ctxk) == color_eval(
                                                        Color::Constant(FX_ONE),
                                                        ctxk,
                                                    ));
                                                    assert(t1[k] == scaled_sample(
                                                        t0[k],
                                                        FX_ONE as int,
                                                        FX_ONE as int,
                                                    ));
                                                }
                                                assert forall|k: int|
                                                    0 <= k < traced@.len() implies (
                                                #[trigger] traced@[k]).reflectance == FX_ONE
                                                    && traced@[k].brightness == 0 by {
                                                    let j = choose|j: int|
                                                        0 <= j < t2.len() && traced@[k]
                                                            == brdf_updated(
                                                            #[trigger] t2[j],
                                                            FX_ONE as int,
                                                            true,
                                                        );
                                                    assert(t2[j].reflectance == FX_ONE);
                                                }
                                                assert forall|k: int|
                                                    0 <= k < completed@.len() implies (
                                                #[trigger] completed@[k]).brightness == c
                                                    || completed@[k].brightness == 0 by {
                                                    if k >= c1.len() {
                                                        let j = choose|j: int|
                                                            0 <= j < t2.len() && completed@[k]
                                                                == #[trigger] t2[j] && fx_mul_spec(
                                                                t2[j].reflectance as int,
                                                                FX_ONE as int,
                                                            ) == 0;
                                                        assert(completed@[k].brightness == 0);
                                                    }
                                                }
                                            },
                                            Option::None => {
                                                assert(false);
                                            },
                                        }
                                    }
                                }
                            },
                        }
                        proof {
                            if bounce == 0 {
                                let nh = nearest_hit(world.objects@, ray_iter);
                                match nh {
                                    Option::Some((i, h, d)) => {
                                        assert(first_event_continues(*world, ray0));
                                    },
                                    Option::None => {
                                        assert(false);
                                    },
                                }
                            }
                        }
                        ray = out_ray;
                        proof {
                            assert(ray3_ok(ray));
                        }
                    },
                    Reflection::Emit(color) => {
                        let ghost traced_snap = traced@;
                        let ghost comp0 = completed@;
                        finish_with_color(
                            traced,
                            &mut completed,
                            color,
                            normal.direction,
                            ray.direction,
                            true,
                        );
                        proof {
                            if bounce == 0 {
                                let nh = nearest_hit(world.objects@, ray_iter);
                                match nh {
                                    Option::Some((gi, gh, gd)) => {
                                        assert(normal == gh);
                                        assert(*material == world.objects@[gi].material);
                                        assert(world.objects@[gi].material matches
                                            Material::Emission { color: mc } && mc == *color);
                                        assert forall|k: int|
                                            0 <= k < completed@.len() implies #[trigger] completed@[k]
                                                == finished_sample(
                                                fresh_sample(wl0[k]),
                                                math_eval(
                                                    *color,
                                                    sample_context(
                                                        wl0[k],
                                                        gh.direction,
                                                        ray0.direction,
                                                    ),
                                                ),
                                                true,
                                            ) by {
                                            assert(completed@[comp0.len() + k] == finished_sample(
                                                traced_snap[k],
                                                math_eval(
                                                    *color,
                                                    sample_context(
                                                        traced_snap[k].wavelength,
                                                        normal.direction,
                                                        ray.direction,
                                                    ),
                                                ),
                                                true,
                                            ));
                                            assert(traced_snap[k] == fresh_sample(wl0[k]));
                                        }
                                    },
                                    Option::None => {
                                        assert(false);
                                    },
                                }
                            }
                            assert forall|k: int|
                                0 <= k < completed@.len() implies ws_ok(#[trigger] completed@[k])
                                    && completed@[k].weight == FX_ONE && wl_from(
                                    completed@[k].wavelength,
                                    wl0,
                                ) by {
                                if k >= comp0.len() {
                                    let idx = k - comp0.len();
                                    assert(completed@[comp0.len() + idx] == finished_sample(
                                        traced_snap[idx],
                                        math_eval(
                                            *color,
                                            sample_context(
                                                traced_snap[idx].wavelength,
                                                normal.direction,
                                                ray.direction,
                                            ),
                                        ),
                                        true,
                                    ));
                                }
                            }
                            assert forall|k: int|
                                0 <= k < traced_snap.len() implies (#[trigger] completed@[
                            comp0.len() + k]).wavelength == wavelengths@[k] by {
                                assert(completed@[comp0.len() + k] == finished_sample(
                                    traced_snap[k],
                                    math_eval(
                                        *color,
                                        sample_context(
                                            traced_snap[k].wavelength,
                                            normal.direction,
                                            ray.direction,
                                        ),
                                    ),
                                    true,
                                ));
                                assert(traced_snap[k].wavelength == wavelengths@[k]);
                            }
                            lemma_extension_multiset(comp0, completed@, wavelengths@, wl0);
                        }
                        return completed;
                    },
                    Reflection::Disperse(branches) => {
                        let remaining: usize = bounces - (bounce + 1);
                        let ghost traced_snap = traced@;
                        let ghost comp0 = completed@;
                        let ghost branches0 = branches@;
                        handle_disperse(
                            rng,
                            traced,
                            branches,
                            &mut completed,
                            normal,
                            ray,
                            world,
                            remaining,
                            light_samples,
                        );
                        proof {
                            if bounce == 0 {
                                let nh = nearest_hit(world.objects@, ray_iter);
                                match nh {
                                    Option::Some((gi, gh, gd)) => {
                                        assert(normal == gh);
                                        assert(*material == world.objects@[gi].material);
                                        assert(world.objects@[gi].material matches
                                            Material::DispersiveEmission { .. });
                                        match world.objects@[gi].material {
                                            Material::DispersiveEmission { colors } => {
                                                assert forall|k: int|
                                                    0 <= k < completed@.len() implies #[trigger] completed@[k]
                                                        == finished_sample(
                                                        fresh_sample(wl0[k]),
                                                        math_eval(
                                                            colors@[k % colors@.len() as int],
                                                            sample_context(
                                                                wl0[k],
                                                                gh.direction,
                                                                ray0.direction,
                                                            ),
                                                        ),
                                                        true,
                                                    ) by {
                                                    assert(branches0[k] matches Reflection::Emit(c)
                                                        && c == colors@[k % colors@.len() as int]);
                                                    assert(collapse_spec(branches0[k])
                                                        == branches0[k]);
                                                    assert(completed@[comp0.len() + k]
                                                        == finished_sample(
                                                        traced_snap[k],
                                                        math_eval(
                                                            colors@[k % colors@.len() as int],
                                                            sample_context(
                                                                traced_snap[k].wavelength,
                                                                normal.direction,
                                                                ray.direction,
                                                            ),
                                                        ),
                                                        true,
                                                    ));
                                                    assert(traced_snap[k] == fresh_sample(wl0[k]));
                                                }
                                            },
                                            _ => {
                                                assert(false);
                                            },
                                        }
                                    },
                                    Option::None => {
                                        assert(false);
                                    },
                                }
                            }
                            assert forall|k: int|
                                0 <= k < completed@.len() implies ws_ok(#[trigger] completed@[k])
                                    && completed@[k].weight == FX_ONE && wl_from(
                                    completed@[k].wavelength,
                                    wl0,
                                ) by {
                                if k >= comp0.len() {
                                    let idx = k - comp0.len();
                                    assert(ws_ok(completed@[comp0.len() + idx]));
                                    assert(completed@[comp0.len() + idx].wavelength
                                        == traced_snap[idx].wavelength);
                                    assert(completed@[comp0.len() + idx].weight
                                        == traced_snap[idx].weight);
                                }
                            }
                            assert forall|k: int|
                                0 <= k < traced_snap.len() implies (#[trigger] completed@[
                            comp0.len() + k]).wavelength == wavelengths@[k] by {
                                assert(completed@[comp0.len() + k].wavelength
                                    == traced_snap[k].wavelength);
                                assert(traced_snap[k].wavelength == wavelengths@[k]);
                            }
                            lemma_extension_multiset(comp0, completed@, wavelengths@, wl0);
                        }
                        return completed;
                    },
                }
            },
        }
        bounce = bounce + 1;
    }
    let ghost traced_snap = traced@;
    let ghost comp0 = completed@;
    completed.append(&mut traced);
    proof {
        assert forall|k: int|
            0 <= k < completed@.len() implies ws_ok(#[trigger] completed@[k]) && completed@[k].weight
                == FX_ONE && wl_from(completed@[k].wavelength, wl0) by {
            if k >= comp0.len() {
                assert(completed@ == comp0 + traced_snap);
                assert(completed@[k] == traced_snap[k - comp0.len()]);
            }
        }
        assert forall|c: i64|
            passthrough_world(*world) && #[trigger] constant_sky(*world, c) && fx_ok(c)
                implies forall|k: int|
                0 <= k < completed@.len() ==> (#[trigger] completed@[k]).brightness == c
                    || completed@[k].brightness == 0 by {
            assert forall|k: int|
                0 <= k < completed@.len() implies (#[trigger] completed@[k]).brightness == c
                    || completed@[k].brightness == 0 by {
                if k >= comp0.len() {
                    assert(completed@ == comp0 + traced_snap);
                    assert(completed@[k] == traced_snap[k - comp0.len()]);
                }
            }
        }
        assert forall|k: int|
            0 <= k < traced_snap.len() implies (#[trigger] completed@[comp0.len() + k]).wavelength
                == wavelengths@[k] by {
            assert(completed@ == comp0 + traced_snap);
            assert(completed@[comp0.len() + k] == traced_snap[k]);
            assert(traced_snap[k].wavelength == wavelengths@[k]);
        }
        lemma_extension_multiset(comp0, completed@, wavelengths@, wl0);
    }
    completed
}

/// Carry the main loop's bookkeeping across one reflectance update: the
/// samples surviving in `t3` and the ones retired into `c2` descend from
/// `t0` through the per-event updates, so finiteness, unit weight and
/// wavelength provenance carry over, and in a passthrough world under a
/// constant sky the survivors keep full throughput and no brightness.
proof fn reestablish_after_drop(
    t0: Seq<WavelengthSample>,
    t1: Seq<WavelengthSample>,
    t2: Seq<WavelengthSample>,
    t3: Seq<WavelengthSample>,
    c1: Seq<WavelengthSample>,
    c2: Seq<WavelengthSample>,
    wl0: Seq<i64>,
    bscale: int,
    absent: bool,
)
    requires
        t1.len() == t0.len(),
        t2.len() == t1.len(),
        forall|k: int| 0 <= k < t0.len() ==> (#[trigger] t0[k]).weight == FX_ONE,
        forall|k: int| 0 <= k < t0.len() ==> wl_from((#[trigger] t0[k]).wavelength, wl0),
        forall|k: int|
            0 <= k < t1.len() ==> (#[trigger] t1[k]).weight == t0[k].weight && t1[k].wavelength
                == t0[k].wavelength,
        forall|k: int|
            0 <= k < t2.len() ==> (#[trigger] t2[k]).weight == t1[k].weight && t2[k].wavelength
                == t1[k].wavelength,
        forall|k: int| 0 <= k < t3.len() ==> updated_from(#[trigger] t3[k], t2, bscale, absent),
        forall|k: int| 0 <= k < c1.len() ==> (#[trigger] c1[k]).weight == FX_ONE,
        forall|k: int| 0 <= k < c1.len() ==> wl_from((#[trigger] c1[k]).wavelength, wl0),
        c1.len() <= c2.len(),
        forall|k: int| 0 <= k < c1.len() ==> #[trigger] c2[k] == c1[k],
        forall|k: int| c1.len() <= k < c2.len() ==> dropped_from(#[trigger] c2[k], t2, bscale),
    ensures
        forall|k: int| 0 <= k < t3.len() ==> (#[trigger] t3[k]).weight == FX_ONE,
        forall|k: int| 0 <= k < t3.len() ==> wl_from((#[trigger] t3[k]).wavelength, wl0),
        forall|k: int| 0 <= k < c2.len() ==> (#[trigger] c2[k]).weight == FX_ONE,
        forall|k: int| 0 <= k < c2.len() ==> wl_from((#[trigger] c2[k]).wavelength, wl0),
{
    assert forall|k: int| 0 <= k < t3.len() implies (#[trigger] t3[k]).weight == FX_ONE && wl_from(
        t3[k].wavelength,
        wl0,
    ) by {
        let j = choose|j: int|
            0 <= j < t2.len() && t3[k] == brdf_updated(#[trigger] t2[j], bscale, absent);
        assert(t3[k].weight == t2[j].weight);
        assert(t3[k].wavelength == t2[j].wavelength);
    }
    assert forall|k: int| 0 <= k < c2.len() implies (#[trigger] c2[k]).weight == FX_ONE && wl_from(
        c2[k].wavelength,
        wl0,
    ) by {
        if k >= c1.len() {
            let j = choose|j: int|
                0 <= j < t2.len() && c2[k] == #[trigger] t2[j] && fx_mul_spec(
                    t2[j].reflectance as int,
                    bscale,
                ) == 0;
            assert(c2[k].weight == t2[j].weight);
        }
    }
}


/// Register the sky types a scene file may name: a colored sky.
pub fn register_types(context: &mut Prelude)
    ensures
        final(context).entries@ == old(context).entries@.push(
            TypeEntry {
                group: TypeGroup::Sky,
                name: TypeName::Color,
                decoder: DecoderKind::SkyColor,
            },
        ),
{
    context.insert_grouped_type(TypeGroup::Sky, TypeName::Color, DecoderKind::SkyColor);
}

/// Decode a colored sky from its one field; a missing color is refused
/// by name.
pub fn decode_sky_color(color: Option<Expression>) -> (r: Result<Sky, DecodeError>)
    ensures
        color is None ==> r == Err::<Sky, DecodeError>(
            DecodeError::MissingField(FieldKind::Color),
        ),
        color matches Some(e) ==> (r is Ok <==> expr_valid(e)),
        color matches Some(e) ==> (r matches Ok(s) ==> (s matches Sky::Color(m) && math_wf(m)
            && math_matches_expr(m, e))),
{
    match color {
        None => Err(DecodeError::MissingField(FieldKind::Color)),
        Some(e) => match Math::from_expression(e) {
            Ok(m) => Ok(Sky::Color(m)),
            Err(err) => Err(err),
        },
    }
}

/// Decode a wavelength-parametric number: a bare number or any numeric
/// structure the expression translation accepts.
pub fn decode_parametric_number(item: Expression) -> (r: Result<Math, DecodeError>)
    ensures
        r is Ok <==> expr_valid(item),
        r matches Ok(m) ==> math_wf(m) && math_matches_expr(m, item),
{
    Math::from_expression(item)
}

/// A sphere in a scene description: its center and radius.
pub struct SphereDescription {
    pub x: i64,
    pub y: i64,
    pub z: i64,
    pub radius: i64,
}

/// Which built-in material an object asks for.
#[derive(Clone, Copy, PartialEq, Eq, Structural, Debug)]
pub enum MaterialKind {
    Emission,
    Diffuse,
    Mirror,
}

/// A material in a scene description: its kind and its color expression.
pub struct MaterialDescription {
    pub kind: MaterialKind,
    pub color: Option<Expression>,
}

/// One object in a scene description.
pub struct ObjectDescription {
    pub shape: SphereDescription,
    pub material: Option<MaterialDescription>,
}

/// A whole scene description.
pub struct WorldDescription {
    pub sky: Option<Expression>,
    pub objects: Vec<ObjectDescription>,
}

/// A decodable object: finite sphere with positive radius, and a present
/// material with a present, valid color.
pub open spec fn object_desc_valid(o: ObjectDescription) -> bool {
    &&& fx_ok(o.shape.x) && fx_ok(o.shape.y) && fx_ok(o.shape.z) && fx_ok(o.shape.radius)
    &&& o.shape.radius > 0
    &&& o.material matches Some(m) && (m.color matches Some(e) && expr_valid(e))
}

/// A decodable scene: a present, valid sky and decodable objects, few
/// enough to index.
pub open spec fn world_desc_valid(w: WorldDescription) -> bool {
    &&& w.sky matches Some(e) && expr_valid(e)
    &&& w.objects@.len() <= 0x1000_0000
    &&& forall|i: int| 0 <= i < w.objects@.len() ==> object_desc_valid(#[trigger] w.objects@[i])
}

/// Where in a scene description a refusal arose: in the sky, in the
/// object list as a whole, or in the object at one index.
#[derive(Clone, Copy, PartialEq, Eq, Structural, Debug)]
pub enum DecodePlace {
    Sky,
    Objects,
    ObjectAt(usize),
}

/// A refusal of a scene description, carrying the path to the failing
/// field alongside the reason, as a loader would report it.
#[derive(Clone, Copy, PartialEq, Eq, Structural, Debug)]
pub struct WorldError {
    pub place: DecodePlace,
    pub error: DecodeError,
}

/// Build the material an object description asks for.
fn decode_material(desc: MaterialDescription) -> (r: Result<Material, DecodeError>)
    ensures
        desc.color is None ==> r == Err::<Material, DecodeError>(
            DecodeError::MissingField(FieldKind::Color),
        ),
        desc.color matches Some(e) ==> ((r is Ok <==> expr_valid(e)) && (r matches Ok(m)
            ==> material_wf(m) && (m matches Material::Emission { .. } <==> desc.kind
            == MaterialKind::Emission))),
{
    match desc.color {
        None => Err(DecodeError::MissingField(FieldKind::Color)),
        Some(e) => match Math::from_expression(e) {
            Ok(color) => match desc.kind {
                MaterialKind::Emission => Ok(Material::Emission { color }),
                MaterialKind::Diffuse => Ok(Material::Diffuse { color }),
                MaterialKind::Mirror => Ok(Material::Mirror { color }),
            },
            Err(err) => Err(err),
        },
    }
}

/// Decode a scene description into a world.
///
/// The sky must be present and valid; every object needs a material with
/// a color; objects whose material emits become lights, keeping their
/// object order. The result is a well-formed world whose objects stand
/// in description order.
#[verifier::loop_isolation(false)]
pub fn decode_world(item: WorldDescription) -> (r: Result<World, WorldError>)
    ensures
        r is Ok <==> world_desc_valid(item),
        item.sky is None ==> r == Err::<World, WorldError>(
            WorldError { place: DecodePlace::Sky, error: DecodeError::MissingField(FieldKind::Sky) },
        ),
        r matches Err(e) ==> (e.place matches DecodePlace::ObjectAt(i) ==> i
            < item.objects@.len() && !object_desc_valid(item.objects@[i as int]) && (forall|k: int|
            0 <= k < i ==> object_desc_valid(#[trigger] item.objects@[k]))),
        r matches Ok(w) ==> world_wf(w) && w.objects@.len() == item.objects@.len() && (forall|
            i: int,
        |
            0 <= i < w.objects@.len() ==> (#[trigger] w.objects@[i]).shape == (Sphere {
                position: Vec3 {
                    x: item.objects@[i].shape.x,
                    y: item.objects@[i].shape.y,
                    z: item.objects@[i].shape.z,
                },
                radius: item.objects@[i].shape.radius,
            })) && (forall|i: int|
            0 <= i < w.objects@.len() ==> ((#[trigger] w.objects@[i]).material matches
                Material::Emission { .. } <==> wl_emissive(item.objects@[i]))) && (forall|j: int|
            0 <= j < w.lights@.len() ==> wl_emissive(
                item.objects@[#[trigger] w.lights@[j] as int],
            )) && (forall|i: int|
            0 <= i < item.objects@.len() && wl_emissive(#[trigger] item.objects@[i])
                ==> exists|j: int| 0 <= j < w.lights@.len() && #[trigger] w.lights@[j] == i),
{
    let sky: Sky = match item.sky {
        None => {
            return Err(
                WorldError {
                    place: DecodePlace::Sky,
                    error: DecodeError::MissingField(FieldKind::Sky),
                },
            );
        },
        Some(e) => match Math::from_expression(e) {
            Ok(m) => Sky::Color(m),
            Err(err) => {
                return Err(WorldError { place: DecodePlace::Sky, error: err });
            },
        },
    };
    if item.objects.len() > 0x1000_0000 {
        return Err(WorldError { place: DecodePlace::Objects, error: DecodeError::NumberOutOfRange });
    }
    let ghost descs = item.objects@;
    let mut objects: Vec<Object> = Vec::new();
    let mut lights: Vec<usize> = Vec::new();
    let mut rest: Vec<ObjectDescription> = item.objects;
    let n: usize = rest.len();
    let mut i: usize = 0;
    while i < n
        invariant
            i <= n,
            n == descs.len() <= 0x1000_0000,
            rest@ =~= descs.subrange(i as int, n as int),
            !(item.sky is None),
            sky_wf(sky),
            objects@.len() == i,
            forall|k: int| 0 <= k < i ==> object_desc_valid(#[trigger] descs[k]),
            forall|k: int|
                0 <= k < i ==> sphere_wf((#[trigger] objects@[k]).shape) && material_wf(
                    objects@[k].material,
                ) && objects@[k].shape == (Sphere {
                    position: Vec3 { x: descs[k].shape.x, y: descs[k].shape.y, z: descs[k].shape.z },
                    radius: descs[k].shape.radius,
                }),
            forall|k: int|
                0 <= k < i ==> ((#[trigger] objects@[k]).material matches Material::Emission { .. }
                    <==> wl_emissive(descs[k])),
            lights@.len() <= i,
            forall|j: int|
                0 <= j < lights@.len() ==> (#[trigger] lights@[j]) < i && wl_emissive(
                    descs[lights@[j] as int],
                ),
            forall|k: int|
                0 <= k < i && wl_emissive(#[trigger] descs[k]) ==> exists|j: int|
                    0 <= j < lights@.len() && #[trigger] lights@[j] == k,
        decreases n - i,
    {
        let desc: ObjectDescription = rest.remove(0);
        proof {
            assert(desc == descs[i as int]);
        }
        let shape_desc = desc.shape;
        if shape_desc.x < -FX_MAX || shape_desc.x > FX_MAX || shape_desc.y < -FX_MAX || shape_desc.y
            > FX_MAX || shape_desc.z < -FX_MAX || shape_desc.z > FX_MAX || shape_desc.radius <= 0
            || shape_desc.radius > FX_MAX {
            proof {
                assert(!object_desc_valid(descs[i as int]));
            }
            return Err(
                WorldError {
                    place: DecodePlace::ObjectAt(i),
                    error: DecodeError::NumberOutOfRange,
                },
            );
        }
        let material: Material = match desc.material {
            None => {
                proof {
                    assert(!object_desc_valid(descs[i as int]));
                }
                return Err(
                    WorldError {
                        place: DecodePlace::ObjectAt(i),
                        error: DecodeError::MissingField(FieldKind::Material),
                    },
                );
            },
            Some(m) => match decode_material(m) {
                Ok(mat) => mat,
                Err(err) => {
                    proof {
                        assert(!object_desc_valid(descs[i as int]));
                    }
                    return Err(WorldError { place: DecodePlace::ObjectAt(i), error: err });
                },
            },
        };
        let emissive: bool = match &material {
            Material::Emission { .. } => true,
            _ => false,
        };
        let sphere = Sphere {
            position: Vec3 { x: shape_desc.x, y: shape_desc.y, z: shape_desc.z },
            radius: shape_desc.radius,
        };
        let ghost lights_before = lights@;
        if emissive {
            lights.push(i);
        }
        objects.push(Object { shape: sphere, material });
        proof {
            assert(object_desc_valid(descs[i as int]));
            assert(wl_emissive(descs[i as int]) <==> emissive);
            if emissive {
                assert(lights@[lights@.len() - 1] == i as int);
            }
            assert forall|k: int|
                0 <= k < i + 1 && wl_emissive(#[trigger] descs[k]) implies exists|j: int|
                0 <= j < lights@.len() && #[trigger] lights@[j] == k by {
                if k < i {
                    let j0 = choose|j: int|
                        0 <= j < lights_before.len() && #[trigger] lights_before[j] == k;
                    assert(lights@[j0] == k);
                } else {
                    assert(lights@[lights@.len() - 1] == k);
                }
            }
        }
        i = i + 1;
    }
    let world = World { sky, lights, objects };
    proof {
        assert(world.objects@.len() <= 0x1000_0000);
        assert(world.lights@.len() <= 0x1000_0000);
        assert forall|k: int|
            0 <= k < world.objects@.len() implies sphere_wf((#[trigger] world.objects@[k]).shape)
                && material_wf(world.objects@[k].material) by {}
        assert forall|j: int|
            0 <= j < world.lights@.len() implies (#[trigger] world.lights@[j])
                < world.objects@.len() by {}
        assert(world_wf(world));
        assert(world_desc_valid(item));
    }
    Ok(world)
}

/// The description asks for an emitting material.
pub open spec fn wl_emissive(o: ObjectDescription) -> bool {
    o.material matches Some(m) && m.kind == MaterialKind::Emission
}

/// A dispersed emission splits the sample set: a fresh sample that takes
/// an emitting branch banks exactly the branch's color value at its own
/// wavelength.
pub proof fn lemma_disperse_split(wl: i64, colorv: i64)
    requires
        fx_ok(wl),
        fx_ok(colorv),
    ensures
        finished_sample(fresh_sample(wl), colorv as int, true).brightness == colorv,
        finished_sample(fresh_sample(wl), colorv as int, true).wavelength == wl,
{
    lemma_fx_mul_one(colorv as int);
}

} // verus!

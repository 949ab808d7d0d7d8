//! The parametric value graph and its numeric helpers.
//!
//! A [`Math`] tree combines color leaves with arithmetic operators, curve
//! lookups and Fresnel nodes. The tree is built once from a scene
//! expression and evaluated per wavelength sample; evaluation is a pure
//! function of the render context.

use vstd::prelude::*;
use crate::color::{Color, color_wf, color_eval};
use crate::expression::{
    ComplexExpression, ComplexKind, DecodeError, Expression, complex_valid, expr_height,
    complex_height, expr_valid, kind_of, lemma_expr_height_pos,
};
use crate::fixed::{
    fx_ok, fx_add, fx_sub, fx_mul, fx_div, fx_sqrt, fx_clamp01, fx_add_spec, fx_sub_spec,
    fx_mul_spec, fx_div_spec, fx_sqrt_spec, fx_clamp01_spec, FX_ONE, FX_TWO_PI,
};
use crate::spectrum::{Interpolated, interp_spec, points_ok};
use crate::tracer::{ParametricValue, RenderContext, context_ok};
use crate::vector::{Vec3, vec3_ok, dot_spec, cross_spec, neg_spec};

verus! {

/// Geometric tolerance: directions with a component smaller than this are
/// treated as lying in the corresponding plane.
pub const FX_DIST_EPSILON: i64 = 6;

/// A node of the value graph.
#[derive(Debug)]
pub enum Math {
    /// A color leaf.
    Value(Color),
    /// An arithmetic combination of two or three subtrees.
    Operator(Operator),
    /// A table lookup driven by a subtree.
    Curve(Curve),
    /// A Fresnel reflectance factor.
    Fresnel(Fresnel),
}

/// The arithmetic operators of the graph.
#[derive(Debug)]
pub enum Operator {
    Add { a: Box<Math>, b: Box<Math> },
    Sub { a: Box<Math>, b: Box<Math> },
    Mul { a: Box<Math>, b: Box<Math> },
    Div { a: Box<Math>, b: Box<Math> },
    Mix { a: Box<Math>, b: Box<Math>, factor: Box<Math> },
}

/// The binary operators a scene expression can ask for.
#[derive(Clone, Copy, PartialEq, Eq, Structural, Debug)]
pub enum BinaryOperator {
    Add,
    Sub,
    Mul,
    Div,
}

/// A curve lookup: evaluate `input`, then read the table at that value.
#[derive(Debug)]
pub struct Curve {
    pub input: Box<Math>,
    pub points: Interpolated,
}

/// A Fresnel node: Schlick's approximation of the reflectance between two
/// media, with the index pair swapped on back-face hits.
#[derive(Debug)]
pub struct Fresnel {
    pub ior: Box<Math>,
    pub env_ior: Box<Math>,
}

/// The stand-in node for contexts that permit no structured expressions;
/// it evaluates to zero.
#[derive(Debug)]
pub struct NoOp;

/// Well-formed value graph: every leaf and table in range.
pub open spec fn math_wf(m: Math) -> bool
    decreases m,
{
    match m {
        Math::Value(c) => color_wf(c),
        Math::Operator(op) => operator_wf(op),
        Math::Curve(c) => math_wf(*c.input) && points_ok(c.points.points@),
        Math::Fresnel(f) => math_wf(*f.ior) && math_wf(*f.env_ior),
    }
}

/// Well-formed operator node.
pub open spec fn operator_wf(op: Operator) -> bool
    decreases op,
{
    match op {
        Operator::Add { a, b } => math_wf(*a) && math_wf(*b),
        Operator::Sub { a, b } => math_wf(*a) && math_wf(*b),
        Operator::Mul { a, b } => math_wf(*a) && math_wf(*b),
        Operator::Div { a, b } => math_wf(*a) && math_wf(*b),
        Operator::Mix { a, b, factor } => math_wf(*a) && math_wf(*b) && math_wf(*factor),
    }
}

/// What a mix returns: the factor clamped to the unit interval blends the
/// two values.
pub open spec fn mix_spec(av: int, bv: int, f: int) -> int {
    let fc = fx_clamp01_spec(f);
    fx_add_spec(fx_mul_spec(av, FX_ONE - fc), fx_mul_spec(bv, fc))
}

/// What a value graph evaluates to at a context.
pub open spec fn math_eval(m: Math, ctx: RenderContext) -> int
    decreases m,
{
    match m {
        Math::Value(c) => color_eval(c, ctx),
        Math::Operator(op) => operator_eval(op, ctx),
        Math::Curve(c) => interp_spec(c.points.points@, math_eval(*c.input, ctx)),
        Math::Fresnel(f) => fresnel_eval(f, ctx),
    }
}

/// What an operator node evaluates to: the saturating fixed-point
/// combination of its children's values.
pub open spec fn operator_eval(op: Operator, ctx: RenderContext) -> int
    decreases op,
{
    match op {
        Operator::Add { a, b } => fx_add_spec(math_eval(*a, ctx), math_eval(*b, ctx)),
        Operator::Sub { a, b } => fx_sub_spec(math_eval(*a, ctx), math_eval(*b, ctx)),
        Operator::Mul { a, b } => fx_mul_spec(math_eval(*a, ctx), math_eval(*b, ctx)),
        Operator::Div { a, b } => fx_div_spec(math_eval(*a, ctx), math_eval(*b, ctx)),
        Operator::Mix { a, b, factor } => mix_spec(
            math_eval(*a, ctx),
            math_eval(*b, ctx),
            math_eval(*factor, ctx),
        ),
    }
}

/// What a Fresnel node evaluates to: Schlick's approximation, with the
/// environment index outside and the material index inside on front-face
/// hits, and the pair swapped with a flipped normal on back-face hits.
pub open spec fn fresnel_eval(f: Fresnel, ctx: RenderContext) -> int
    decreases f,
{
    let ior = math_eval(*f.ior, ctx);
    let env = math_eval(*f.env_ior, ctx);
    if dot_spec(ctx.incident, ctx.normal) < 0 {
        schlick_spec(env, ior, ctx.normal, ctx.incident)
    } else {
        schlick_spec(ior, env, neg_spec(ctx.normal), ctx.incident)
    }
}

/// The tail of Schlick's formula once the effective cosine is known:
/// `r0^2 + (1 - r0^2) * (1 - cos)^5`.
pub open spec fn schlick_tail(r0: int, cos_psi: int) -> int {
    let r0sq = fx_mul_spec(r0, r0);
    let inv = fx_sub_spec(FX_ONE as int, cos_psi);
    let p2 = fx_mul_spec(inv, inv);
    let p4 = fx_mul_spec(p2, p2);
    let p5 = fx_mul_spec(p4, inv);
    fx_add_spec(r0sq, fx_mul_spec(fx_sub_spec(FX_ONE as int, r0sq), p5))
}

/// What `schlick` returns: `r0 = (n1 - n2) / (n1 + n2)`; when leaving the
/// denser medium the cosine is replaced by the transmitted one, and total
/// internal reflection returns one.
pub open spec fn schlick_spec(n1: int, n2: int, normal: Vec3, incident: Vec3) -> int {
    let cos0 = -dot_spec(normal, incident);
    let r0 = fx_div_spec(fx_sub_spec(n1, n2), fx_add_spec(n1, n2));
    if n1 > n2 {
        let nr = fx_div_spec(n1, n2);
        let sin_t2 = fx_mul_spec(
            fx_mul_spec(nr, nr),
            fx_sub_spec(FX_ONE as int, fx_mul_spec(cos0, cos0)),
        );
        if sin_t2 > FX_ONE as int {
            FX_ONE as int
        } else {
            schlick_tail(r0, fx_sqrt_spec(fx_sub_spec(FX_ONE as int, sin_t2)))
        }
    } else {
        schlick_tail(r0, cos0)
    }
}

/// Schlick's approximation of Fresnel reflectance between media with
/// indices `ref_index1` (the side the ray comes from) and `ref_index2`.
pub fn schlick(ref_index1: i64, ref_index2: i64, normal: Vec3, incident: Vec3) -> (r: i64)
    requires
        fx_ok(ref_index1),
        fx_ok(ref_index2),
        vec3_ok(normal),
        vec3_ok(incident),
    ensures
        r == schlick_spec(ref_index1 as int, ref_index2 as int, normal, incident),
        fx_ok(r),
{
    let mut cos_psi: i64 = crate::fixed::fx_neg(normal.dot(&incident));
    let r0: i64 = fx_div(fx_sub(ref_index1, ref_index2), fx_add(ref_index1, ref_index2));
    if ref_index1 > ref_index2 {
        let n: i64 = fx_div(ref_index1, ref_index2);
        let sin_t2: i64 = fx_mul(fx_mul(n, n), fx_sub(FX_ONE, fx_mul(cos_psi, cos_psi)));
        if sin_t2 > FX_ONE {
            return FX_ONE;
        }
        let arg: i64 = fx_sub(FX_ONE, sin_t2);
        cos_psi = fx_sqrt(arg);
    }
    let r0sq: i64 = fx_mul(r0, r0);
    let inv_cos: i64 = fx_sub(FX_ONE, cos_psi);
    let p2: i64 = fx_mul(inv_cos, inv_cos);
    let p4: i64 = fx_mul(p2, p2);
    let p5: i64 = fx_mul(p4, inv_cos);
    fx_add(r0sq, fx_mul(fx_sub(FX_ONE, r0sq), p5))
}

/// A vector orthogonal to `v`: the cross product with an axis that `v`
/// has no large component along, or with a quarter turn of `v` itself.
pub open spec fn ortho_spec(v: Vec3) -> Vec3 {
    let unit = if (if v.x >= 0 { v.x as int } else { -(v.x as int) }) < FX_DIST_EPSILON {
        Vec3 { x: FX_ONE, y: 0i64, z: 0i64 }
    } else if (if v.y >= 0 { v.y as int } else { -(v.y as int) }) < FX_DIST_EPSILON {
        Vec3 { x: 0i64, y: FX_ONE, z: 0i64 }
    } else if (if v.z >= 0 { v.z as int } else { -(v.z as int) }) < FX_DIST_EPSILON {
        Vec3 { x: 0i64, y: 0i64, z: FX_ONE }
    } else {
        Vec3 { x: (-v.y) as i64, y: v.x, z: 0i64 }
    };
    cross_spec(v, unit)
}

/// A vector orthogonal to `v`.
pub fn ortho(v: Vec3) -> (r: Vec3)
    requires
        vec3_ok(v),
    ensures
        r == ortho_spec(v),
        vec3_ok(r),
{
    let unit: Vec3 = if crate::fixed::fx_abs(v.x) < FX_DIST_EPSILON {
        Vec3::new(FX_ONE, 0, 0)
    } else if crate::fixed::fx_abs(v.y) < FX_DIST_EPSILON {
        Vec3::new(0, FX_ONE, 0)
    } else if crate::fixed::fx_abs(v.z) < FX_DIST_EPSILON {
        Vec3::new(0, 0, FX_ONE)
    } else {
        Vec3::new(crate::fixed::fx_neg(v.y), v.x, 0)
    };
    v.cross(&unit)
}

/// The solid angle of a cone with the given half-angle cosine.
pub fn solid_angle(cos_half: i64) -> (r: i64)
    requires
        fx_ok(cos_half),
    ensures
        cos_half >= FX_ONE ==> r == 0,
        cos_half < FX_ONE ==> r == fx_mul_spec(
            FX_TWO_PI as int,
            fx_sub_spec(FX_ONE as int, cos_half as int),
        ),
        fx_ok(r),
{
    if cos_half >= FX_ONE {
        0
    } else {
        fx_mul(FX_TWO_PI, fx_sub(FX_ONE, cos_half))
    }
}

impl Math {
    /// Evaluate the graph at a context.
    fn eval_at(&self, i: &RenderContext) -> (r: i64)
        requires
            math_wf(*self),
            context_ok(*i),
        ensures
            r == math_eval(*self, *i),
            fx_ok(r),
        decreases *self,
    {
        match self {
            Math::Value(c) => {
                let rv: i64 = c.get(i);
                proof {
                    assert(*self == Math::Value(*c));
                    assert(math_eval(*self, *i) == color_eval(*c, *i));
                    assert(c.pv_eval(i) == color_eval(*c, *i));
                    assert(rv == c.pv_eval(i));
                    assert(rv == math_eval(*self, *i));
                }
                rv
            },
            Math::Operator(op) => {
                proof {
                    assert(operator_wf(*op));
                }
                match op {
                    Operator::Add { a, b } => {
                        let av: i64 = a.eval_at(i);
                        let bv: i64 = b.eval_at(i);
                        let rv: i64 = fx_add(av, bv);
                        proof {
                            assert(operator_eval(*op, *i) == fx_add_spec(
                                math_eval(**a, *i),
                                math_eval(**b, *i),
                            ));
                            assert(rv == math_eval(*self, *i));
                        }
                        rv
                    },
                    Operator::Sub { a, b } => {
                        let av: i64 = a.eval_at(i);
                        let bv: i64 = b.eval_at(i);
                        let rv: i64 = fx_sub(av, bv);
                        proof {
                            assert(operator_eval(*op, *i) == fx_sub_spec(
                                math_eval(**a, *i),
                                math_eval(**b, *i),
                            ));
                            assert(rv == math_eval(*self, *i));
                        }
                        rv
                    },
                    Operator::Mul { a, b } => {
                        let av: i64 = a.eval_at(i);
                        let bv: i64 = b.eval_at(i);
                        let rv: i64 = fx_mul(av, bv);
                        proof {
                            assert(operator_eval(*op, *i) == fx_mul_spec(
                                math_eval(**a, *i),
                                math_eval(**b, *i),
                            ));
                            assert(rv == math_eval(*self, *i));
                        }
                        rv
                    },
                    Operator::Div { a, b } => {
                        let av: i64 = a.eval_at(i);
                        let bv: i64 = b.eval_at(i);
                        let rv: i64 = fx_div(av, bv);
                        proof {
                            assert(operator_eval(*op, *i) == fx_div_spec(
                                math_eval(**a, *i),
                                math_eval(**b, *i),
                            ));
                            assert(rv == math_eval(*self, *i));
                        }
                        rv
                    },
                    Operator::Mix { a, b, factor } => {
                        let f: i64 = fx_clamp01(factor.eval_at(i));
                        let av: i64 = a.eval_at(i);
                        let bv: i64 = b.eval_at(i);
                        let rv: i64 = fx_add(fx_mul(av, FX_ONE - f), fx_mul(bv, f));
                        proof {
                            assert(operator_eval(*op, *i) == mix_spec(
                                math_eval(**a, *i),
                                math_eval(**b, *i),
                                math_eval(**factor, *i),
                            ));
                            assert(rv == math_eval(*self, *i));
                        }
                        rv
                    },
                }
            },
            Math::Curve(c) => {
                let x: i64 = c.input.eval_at(i);
                let rv: i64 = c.points.get(x);
                proof {
                    assert(rv == math_eval(*self, *i));
                }
                rv
            },
            Math::Fresnel(f) => {
                let ior: i64 = f.ior.eval_at(i);
                let env: i64 = f.env_ior.eval_at(i);
                let rv: i64 = if i.incident.dot(&i.normal) < 0 {
                    schlick(env, ior, i.normal, i.incident)
                } else {
                    schlick(ior, env, i.normal.neg(), i.incident)
                };
                proof {
                    let iorv = math_eval(*f.ior, *i);
                    let envv = math_eval(*f.env_ior, *i);
                    assert(fresnel_eval(*f, *i) == (if dot_spec(i.incident, i.normal) < 0 {
                        schlick_spec(envv, iorv, i.normal, i.incident)
                    } else {
                        schlick_spec(iorv, envv, neg_spec(i.normal), i.incident)
                    }));
                    assert(rv == math_eval(*self, *i));
                }
                rv
            },
        }
    }
}

impl ParametricValue for Math {
    open spec fn pv_wf(&self) -> bool {
        math_wf(*self)
    }

    open spec fn pv_eval(&self, i: &RenderContext) -> int {
        math_eval(*self, *i)
    }

    fn get(&self, i: &RenderContext) -> (r: i64) {
        self.eval_at(i)
    }
}

impl ParametricValue for Operator {
    open spec fn pv_wf(&self) -> bool {
        operator_wf(*self)
    }

    open spec fn pv_eval(&self, i: &RenderContext) -> int {
        operator_eval(*self, *i)
    }

    fn get(&self, i: &RenderContext) -> (r: i64) {
        match self {
            Operator::Add { a, b } => {
                let av: i64 = a.eval_at(i);
                let bv: i64 = b.eval_at(i);
                fx_add(av, bv)
            },
            Operator::Sub { a, b } => {
                let av: i64 = a.eval_at(i);
                let bv: i64 = b.eval_at(i);
                fx_sub(av, bv)
            },
            Operator::Mul { a, b } => {
                let av: i64 = a.eval_at(i);
                let bv: i64 = b.eval_at(i);
                fx_mul(av, bv)
            },
            Operator::Div { a, b } => {
                let av: i64 = a.eval_at(i);
                let bv: i64 = b.eval_at(i);
                fx_div(av, bv)
            },
            Operator::Mix { a, b, factor } => {
                let f: i64 = fx_clamp01(factor.eval_at(i));
                let av: i64 = a.eval_at(i);
                let bv: i64 = b.eval_at(i);
                fx_add(fx_mul(av, FX_ONE - f), fx_mul(bv, f))
            },
        }
    }
}

impl ParametricValue for Curve {
    open spec fn pv_wf(&self) -> bool {
        math_wf(*self.input) && points_ok(self.points.points@)
    }

    open spec fn pv_eval(&self, i: &RenderContext) -> int {
        interp_spec(self.points.points@, math_eval(*self.input, *i))
    }

    fn get(&self, i: &RenderContext) -> (r: i64) {
        let x: i64 = self.input.eval_at(i);
        self.points.get(x)
    }
}

impl ParametricValue for Fresnel {
    open spec fn pv_wf(&self) -> bool {
        math_wf(*self.ior) && math_wf(*self.env_ior)
    }

    open spec fn pv_eval(&self, i: &RenderContext) -> int {
        fresnel_eval(*self, *i)
    }

    fn get(&self, i: &RenderContext) -> (r: i64) {
        let ior: i64 = self.ior.eval_at(i);
        let env: i64 = self.env_ior.eval_at(i);
        let rv: i64 = if i.incident.dot(&i.normal) < 0 {
            schlick(env, ior, i.normal, i.incident)
        } else {
            schlick(ior, env, i.normal.neg(), i.incident)
        };
        proof {
            let iorv = math_eval(*self.ior, *i);
            let envv = math_eval(*self.env_ior, *i);
            assert(fresnel_eval(*self, *i) == (if dot_spec(i.incident, i.normal) < 0 {
                schlick_spec(envv, iorv, i.normal, i.incident)
            } else {
                schlick_spec(iorv, envv, neg_spec(i.normal), i.incident)
            }));
        }
        rv
    }
}

impl ParametricValue for NoOp {
    open spec fn pv_wf(&self) -> bool {
        true
    }

    open spec fn pv_eval(&self, i: &RenderContext) -> int {
        0
    }

    fn get(&self, i: &RenderContext) -> (r: i64) {
        0
    }
}

/// Operator purity: each operator node evaluates to exactly the
/// fixed-point combination of what its children evaluate to, at every
/// context.
pub proof fn lemma_operator_purity(op: Operator, ctx: RenderContext)
    ensures
        op matches Operator::Add { a, b } ==> operator_eval(op, ctx) == fx_add_spec(
            math_eval(*a, ctx),
            math_eval(*b, ctx),
        ),
        op matches Operator::Sub { a, b } ==> operator_eval(op, ctx) == fx_sub_spec(
            math_eval(*a, ctx),
            math_eval(*b, ctx),
        ),
        op matches Operator::Mul { a, b } ==> operator_eval(op, ctx) == fx_mul_spec(
            math_eval(*a, ctx),
            math_eval(*b, ctx),
        ),
        op matches Operator::Div { a, b } ==> operator_eval(op, ctx) == fx_div_spec(
            math_eval(*a, ctx),
            math_eval(*b, ctx),
        ),
{
}

/// Mix is already clamped: any factor value gives the same result as the
/// factor clamped to the unit interval.
pub proof fn lemma_mix_clamped(av: int, bv: int, f: int)
    ensures
        mix_spec(av, bv, f) == mix_spec(av, bv, fx_clamp01_spec(f)),
{
}

/// The two orientation conventions of `schlick` agree where the geometry
/// makes both sides well defined without a transmitted-angle correction:
/// equal indices at grazing incidence, and head-on incidence from the
/// less dense side.
pub proof fn lemma_schlick_symmetry(n1: i64, n2: i64, normal: Vec3, incident: Vec3)
    requires
        fx_ok(n1),
        fx_ok(n2),
        vec3_ok(normal),
        vec3_ok(incident),
        (n1 == n2 && dot_spec(normal, incident) == 0) || (n1 < n2 && dot_spec(normal, incident)
            == -(FX_ONE as int)) || (n1 > n2 && dot_spec(normal, incident) == FX_ONE as int),
    ensures
        schlick_spec(n1 as int, n2 as int, normal, incident) == schlick_spec(
            n2 as int,
            n1 as int,
            neg_spec(normal),
            incident,
        ),
{
    lemma_dot_neg(normal, incident);
    let r0a = fx_div_spec(
        fx_sub_spec(n1 as int, n2 as int),
        fx_add_spec(n1 as int, n2 as int),
    );
    let r0b = fx_div_spec(
        fx_sub_spec(n2 as int, n1 as int),
        fx_add_spec(n2 as int, n1 as int),
    );
    lemma_fx_div_neg(fx_sub_spec(n1 as int, n2 as int), fx_add_spec(n1 as int, n2 as int));
    assert(fx_sub_spec(n2 as int, n1 as int) == -fx_sub_spec(n1 as int, n2 as int));
    assert(r0b == -r0a);
    lemma_fx_mul_neg_neg(r0a, r0a);
    assert(fx_mul_spec(r0b, r0b) == fx_mul_spec(r0a, r0a));
    lemma_fx_one_squared();
    lemma_tail_zero_inv(r0a, r0b);
    if n1 == n2 {
        assert(-dot_spec(neg_spec(normal), incident) == 0);
    } else if n1 < n2 {
        let cos0b = -dot_spec(neg_spec(normal), incident);
        assert(cos0b == -(FX_ONE as int));
        let nr = fx_div_spec(n2 as int, n1 as int);
        assert(fx_sub_spec(FX_ONE as int, fx_mul_spec(cos0b, cos0b)) == 0);
        lemma_fx_mul_zero(fx_mul_spec(nr, nr));
        assert(fx_mul_spec(fx_mul_spec(nr, nr), 0) == 0);
        crate::fixed::lemma_sqrt_floor_is(
            (FX_ONE as int) * (crate::fixed::FX_SCALE as int),
            FX_ONE as int,
        );
        assert(fx_sqrt_spec(fx_sub_spec(FX_ONE as int, 0)) == FX_ONE as int);
        assert(schlick_spec(n2 as int, n1 as int, neg_spec(normal), incident) == schlick_tail(
            r0b,
            FX_ONE as int,
        ));
        assert(schlick_spec(n1 as int, n2 as int, normal, incident) == schlick_tail(
            r0a,
            FX_ONE as int,
        ));
    } else {
        let cos0a = -dot_spec(normal, incident);
        assert(cos0a == -(FX_ONE as int));
        let nr = fx_div_spec(n1 as int, n2 as int);
        assert(fx_sub_spec(FX_ONE as int, fx_mul_spec(cos0a, cos0a)) == 0);
        lemma_fx_mul_zero(fx_mul_spec(nr, nr));
        assert(fx_mul_spec(fx_mul_spec(nr, nr), 0) == 0);
        crate::fixed::lemma_sqrt_floor_is(
            (FX_ONE as int) * (crate::fixed::FX_SCALE as int),
            FX_ONE as int,
        );
        assert(fx_sqrt_spec(fx_sub_spec(FX_ONE as int, 0)) == FX_ONE as int);
        assert(schlick_spec(n1 as int, n2 as int, normal, incident) == schlick_tail(
            r0a,
            FX_ONE as int,
        ));
        assert(schlick_spec(n2 as int, n1 as int, neg_spec(normal), incident) == schlick_tail(
            r0b,
            FX_ONE as int,
        ));
    }
}

/// Two Schlick tails with the same squared base reflectance agree at any
/// shared cosine: all other terms depend only on the cosine.
proof fn lemma_tail_zero_inv(r0a: int, r0b: int)
    requires
        fx_mul_spec(r0b, r0b) == fx_mul_spec(r0a, r0a),
    ensures
        forall|c: int| #[trigger] schlick_tail(r0a, c) == schlick_tail(r0b, c),
{
    assert forall|c: int| #[trigger] schlick_tail(r0a, c) == schlick_tail(r0b, c) by {
        assert(fx_mul_spec(r0a, r0a) == fx_mul_spec(r0b, r0b));
    }
}

/// The translation relation: the graph node a scene expression builds.
pub open spec fn math_matches_expr(m: Math, e: Expression) -> bool
    decreases e,
{
    match e {
        Expression::Number(n) => m == Math::Value(Color::Constant(n)),
        Expression::Boolean(_) => false,
        Expression::Complex(c) => math_matches_complex(m, c),
    }
}

/// The translation relation for structured nodes.
pub open spec fn math_matches_complex(m: Math, c: ComplexExpression) -> bool
    decreases c,
{
    match c {
        ComplexExpression::Vector { .. } => false,
        ComplexExpression::LightSource { .. } => false,
        ComplexExpression::Texture => false,
        ComplexExpression::Spectrum { points } => m matches Math::Value(Color::Spectrum(t))
            && t.points@ == points@,
        ComplexExpression::Rgb { red, green, blue } => m == Math::Value(
            Color::Rgb { red, green, blue },
        ),
        ComplexExpression::Fresnel { ior, env_ior } => m matches Math::Fresnel(fr)
            && math_matches_expr(*fr.ior, *ior) && (match env_ior {
            Some(e2) => math_matches_expr(*fr.env_ior, *e2),
            None => *fr.env_ior == Math::Value(Color::Constant(FX_ONE)),
        }),
        ComplexExpression::Add { a, b } => m matches Math::Operator(
            Operator::Add { a: ma, b: mb },
        ) && math_matches_expr(*ma, *a) && math_matches_expr(*mb, *b),
        ComplexExpression::Sub { a, b } => m matches Math::Operator(
            Operator::Sub { a: ma, b: mb },
        ) && math_matches_expr(*ma, *a) && math_matches_expr(*mb, *b),
        ComplexExpression::Mul { a, b } => m matches Math::Operator(
            Operator::Mul { a: ma, b: mb },
        ) && math_matches_expr(*ma, *a) && math_matches_expr(*mb, *b),
        ComplexExpression::Div { a, b } => m matches Math::Operator(
            Operator::Div { a: ma, b: mb },
        ) && math_matches_expr(*ma, *a) && math_matches_expr(*mb, *b),
        ComplexExpression::Mix { a, b, factor } => m matches Math::Operator(
            Operator::Mix { a: ma, b: mb, factor: mf },
        ) && math_matches_expr(*ma, *a) && math_matches_expr(*mb, *b) && math_matches_expr(
            *mf,
            *factor,
        ),
    }
}

impl Operator {
    /// Build an operator node from the two sides of a binary scene
    /// expression, translating each side in turn.
    pub fn from_binary(operator: BinaryOperator, a: Expression, b: Expression) -> (r: Result<
        Operator,
        DecodeError,
    >)
        ensures
            r is Ok <==> expr_valid(a) && expr_valid(b),
            r matches Ok(op) ==> operator_wf(op) && (match operator {
                BinaryOperator::Add => op matches Operator::Add { a: ma, b: mb }
                    && math_matches_expr(*ma, a) && math_matches_expr(*mb, b),
                BinaryOperator::Sub => op matches Operator::Sub { a: ma, b: mb }
                    && math_matches_expr(*ma, a) && math_matches_expr(*mb, b),
                BinaryOperator::Mul => op matches Operator::Mul { a: ma, b: mb }
                    && math_matches_expr(*ma, a) && math_matches_expr(*mb, b),
                BinaryOperator::Div => op matches Operator::Div { a: ma, b: mb }
                    && math_matches_expr(*ma, a) && math_matches_expr(*mb, b),
            }),
        decreases expr_height(a) + expr_height(b),
    {
        proof {
            lemma_expr_height_pos(a);
            lemma_expr_height_pos(b);
        }
        let ma: Math = match Math::from_expression(a) {
            Ok(m) => m,
            Err(e) => {
                return Err(e);
            },
        };
        let mb: Math = match Math::from_expression(b) {
            Ok(m) => m,
            Err(e) => {
                return Err(e);
            },
        };
        match operator {
            BinaryOperator::Add => Ok(Operator::Add { a: Box::new(ma), b: Box::new(mb) }),
            BinaryOperator::Sub => Ok(Operator::Sub { a: Box::new(ma), b: Box::new(mb) }),
            BinaryOperator::Mul => Ok(Operator::Mul { a: Box::new(ma), b: Box::new(mb) }),
            BinaryOperator::Div => Ok(Operator::Div { a: Box::new(ma), b: Box::new(mb) }),
        }
    }
}

impl Math {
    /// Translate a scene expression into a value graph.
    ///
    /// Numbers become constants; the arithmetic nodes become operators
    /// over translated children; spectra, RGB triples and Fresnel nodes
    /// become the corresponding leaves; booleans, vectors, light sources
    /// and textures are rejected with the reason.
    pub fn from_expression(expression: Expression) -> (r: Result<Math, DecodeError>)
        ensures
            r is Ok <==> expr_valid(expression),
            r matches Ok(m) ==> math_wf(m) && math_matches_expr(m, expression),
            expression matches Expression::Boolean(_) ==> r == Err::<Math, DecodeError>(
                DecodeError::BooleanInContext,
            ),
            expression matches Expression::Complex(c) ==> ((kind_of(c) == ComplexKind::Vector
                || kind_of(c) == ComplexKind::LightSource || kind_of(c) == ComplexKind::Texture)
                ==> r == Err::<Math, DecodeError>(DecodeError::Rejected(kind_of(c)))),
        decreases expr_height(expression),
    {
        let ghost e0 = expression;
        match expression {
            Expression::Number(n) => {
                if -crate::fixed::FX_MAX <= n && n <= crate::fixed::FX_MAX {
                    let m = Math::Value(Color::Constant(n));
                    proof {
                        assert(math_wf(m));
                        assert(math_matches_expr(m, e0));
                    }
                    Ok(m)
                } else {
                    Err(DecodeError::NumberOutOfRange)
                }
            },
            Expression::Boolean(_) => Err(DecodeError::BooleanInContext),
            Expression::Complex(c) => {
                let ghost c0 = c;
                proof {
                    assert(expr_valid(e0) == complex_valid(c0));
                }
                match c {
                ComplexExpression::Add { a, b } => {
                    match Operator::from_binary(BinaryOperator::Add, *a, *b) {
                        Ok(op) => {
                            let m = Math::Operator(op);
                            proof {
                                assert(math_wf(m));
                                assert(math_matches_complex(m, c0));
                                assert(math_matches_expr(m, e0));
                            }
                            Ok(m)
                        },
                        Err(e) => Err(e),
                    }
                },
                ComplexExpression::Sub { a, b } => {
                    match Operator::from_binary(BinaryOperator::Sub, *a, *b) {
                        Ok(op) => {
                            let m = Math::Operator(op);
                            proof {
                                assert(math_wf(m));
                                assert(math_matches_complex(m, c0));
                                assert(math_matches_expr(m, e0));
                            }
                            Ok(m)
                        },
                        Err(e) => Err(e),
                    }
                },
                ComplexExpression::Mul { a, b } => {
                    match Operator::from_binary(BinaryOperator::Mul, *a, *b) {
                        Ok(op) => {
                            let m = Math::Operator(op);
                            proof {
                                assert(math_wf(m));
                                assert(math_matches_complex(m, c0));
                                assert(math_matches_expr(m, e0));
                            }
                            Ok(m)
                        },
                        Err(e) => Err(e),
                    }
                },
                ComplexExpression::Div { a, b } => {
                    match Operator::from_binary(BinaryOperator::Div, *a, *b) {
                        Ok(op) => {
                            let m = Math::Operator(op);
                            proof {
                                assert(math_wf(m));
                                assert(math_matches_complex(m, c0));
                                assert(math_matches_expr(m, e0));
                            }
                            Ok(m)
                        },
                        Err(e) => Err(e),
                    }
                },
                ComplexExpression::Mix { a, b, factor } => {
                    proof {
                        lemma_expr_height_pos(*a);
                        lemma_expr_height_pos(*b);
                        lemma_expr_height_pos(*factor);
                    }
                    let ma: Math = match Math::from_expression(*a) {
                        Ok(m) => m,
                        Err(e) => {
                            return Err(e);
                        },
                    };
                    let mb: Math = match Math::from_expression(*b) {
                        Ok(m) => m,
                        Err(e) => {
                            return Err(e);
                        },
                    };
                    let mf: Math = match Math::from_expression(*factor) {
                        Ok(m) => m,
                        Err(e) => {
                            return Err(e);
                        },
                    };
                    let op = Operator::Mix {
                        a: Box::new(ma),
                        b: Box::new(mb),
                        factor: Box::new(mf),
                    };
                    proof {
                        assert(operator_wf(op));
                    }
                    let m = Math::Operator(op);
                    proof {
                        assert(math_wf(m));
                        assert(math_matches_complex(m, c0));
                        assert(math_matches_expr(m, e0));
                    }
                    Ok(m)
                },
                ComplexExpression::Fresnel { ior, env_ior } => {
                    match Fresnel::from_complex_expression(
                        ComplexExpression::Fresnel { ior, env_ior },
                    ) {
                        Ok(f) => {
                            let m = Math::Fresnel(f);
                            proof {
                                assert(math_wf(m));
                                assert(math_matches_expr(m, e0));
                            }
                            Ok(m)
                        },
                        Err(e) => Err(e),
                    }
                },
                ComplexExpression::Spectrum { points } => {
                    if crate::spectrum::check_points(&points) {
                        let m = Math::Value(Color::Spectrum(Interpolated { points }));
                        proof {
                            assert(math_wf(m));
                            assert(math_matches_complex(m, c0));
                            assert(math_matches_expr(m, e0));
                        }
                        Ok(m)
                    } else {
                        Err(DecodeError::UnsortedSpectrum)
                    }
                },
                ComplexExpression::Rgb { red, green, blue } => {
                    if -crate::fixed::FX_MAX <= red && red <= crate::fixed::FX_MAX
                        && -crate::fixed::FX_MAX <= green && green <= crate::fixed::FX_MAX
                        && -crate::fixed::FX_MAX <= blue && blue <= crate::fixed::FX_MAX {
                        let m = Math::Value(Color::Rgb { red, green, blue });
                        proof {
                            assert(math_wf(m));
                            assert(math_matches_complex(m, c0));
                            assert(math_matches_expr(m, e0));
                        }
                        Ok(m)
                    } else {
                        Err(DecodeError::NumberOutOfRange)
                    }
                },
                other => Err(DecodeError::Rejected(other.kind())),
                }
            },
        }
    }
}

impl Fresnel {
    /// Build a Fresnel node from its scene expression; a missing
    /// environment index defaults to a constant one.
    pub fn from_complex_expression(value: ComplexExpression) -> (r: Result<Fresnel, DecodeError>)
        ensures
            value matches ComplexExpression::Fresnel { ior, env_ior } ==> (r is Ok <==> expr_valid(
                *ior,
            ) && (match env_ior {
                Some(e2) => expr_valid(*e2),
                None => true,
            })),
            !(value matches ComplexExpression::Fresnel { .. }) ==> r == Err::<
                Fresnel,
                DecodeError,
            >(DecodeError::ExpectedFresnel),
            r matches Ok(f) ==> math_wf(Math::Fresnel(f)) && math_matches_complex(
                Math::Fresnel(f),
                value,
            ),
        decreases complex_height(value),
    {
        let ghost v0 = value;
        match value {
            ComplexExpression::Fresnel { ior, env_ior } => {
                proof {
                    lemma_expr_height_pos(*ior);
                }
                let ghost ior0 = *ior;
                let ghost env0 = env_ior;
                let ior_m: Math = match Math::from_expression(*ior) {
                    Ok(m) => m,
                    Err(e) => {
                        return Err(e);
                    },
                };
                let env_m: Math = match env_ior {
                    Some(e2) => {
                        match Math::from_expression(*e2) {
                            Ok(m) => m,
                            Err(e) => {
                                return Err(e);
                            },
                        }
                    },
                    None => Math::Value(Color::Constant(FX_ONE)),
                };
                let res = Fresnel { ior: Box::new(ior_m), env_ior: Box::new(env_m) };
                proof {
                    assert(math_wf(*res.ior));
                    assert(math_wf(*res.env_ior));
                    assert(math_wf(Math::Fresnel(res)));
                    assert(math_matches_expr(*res.ior, ior0));
                    assert(math_matches_complex(Math::Fresnel(res), v0));
                }
                Ok(res)
            },
            other => Err(DecodeError::ExpectedFresnel),
        }
    }
}

impl NoOp {
    /// No structured expression is welcome where a plain number is
    /// expected: every variant is rejected with its reason.
    pub fn try_from(value: ComplexExpression) -> (r: Result<NoOp, DecodeError>)
        ensures
            r == Err::<NoOp, DecodeError>(DecodeError::Rejected(kind_of(value))),
    {
        Err(DecodeError::Rejected(value.kind()))
    }
}

impl Curve {
    /// Build a curve lookup over a nonempty well-formed table.
    pub fn new(input: Math, points: Vec<(i64, i64)>) -> (r: Result<Curve, DecodeError>)
        requires
            math_wf(input),
        ensures
            r is Ok <==> points_ok(points@) && points@.len() > 0,
            r matches Ok(c) ==> *c.input == input && c.points.points@ == points@ && math_wf(
                Math::Curve(c),
            ),
            points@.len() == 0 ==> r == Err::<Curve, DecodeError>(DecodeError::EmptyCurve),
            points@.len() > 0 && !points_ok(points@) ==> r == Err::<Curve, DecodeError>(
                DecodeError::UnsortedSpectrum,
            ),
    {
        if points.len() == 0 {
            return Err(DecodeError::EmptyCurve);
        }
        if !crate::spectrum::check_points(&points) {
            return Err(DecodeError::UnsortedSpectrum);
        }
        Ok(Curve { input: Box::new(input), points: Interpolated { points } })
    }
}

/// A fixed-point product with zero is zero.
proof fn lemma_fx_mul_zero(x: int)
    ensures
        fx_mul_spec(x, 0) == 0,
        fx_mul_spec(0, x) == 0,
{
    assert(x * 0 == 0) by (nonlinear_arith);
    assert(0 * x == 0) by (nonlinear_arith);
    vstd::arithmetic::div_mod::lemma_div_of0(crate::fixed::FX_SCALE as int);
}

/// A zero dividend gives a zero fixed-point quotient.
proof fn lemma_fx_div_zero(b: int)
    ensures
        fx_div_spec(0, b) == 0,
{
    if b != 0 {
        assert(0 * crate::fixed::FX_SCALE == 0) by (nonlinear_arith);
        if b > 0 {
            vstd::arithmetic::div_mod::lemma_div_of0(b);
        } else {
            vstd::arithmetic::div_mod::lemma_div_of0(-b);
        }
    }
}

/// One times one is one, also with both factors negated.
proof fn lemma_fx_one_squared()
    ensures
        fx_mul_spec(-(FX_ONE as int), -(FX_ONE as int)) == FX_ONE as int,
{
    assert((-(FX_ONE as int)) * (-(FX_ONE as int)) == (FX_ONE as int) * (
    crate::fixed::FX_SCALE as int)) by (nonlinear_arith);
    crate::spectrum::lemma_div_trunc_exact(FX_ONE as int, crate::fixed::FX_SCALE as int);
}

/// Negating one factor negates a fixed-point product.
proof fn lemma_fx_mul_neg_neg(a: int, b: int)
    ensures
        fx_mul_spec(-a, -b) == fx_mul_spec(a, b),
{
    assert((-a) * (-b) == a * b) by (nonlinear_arith);
}

/// Negating the dividend negates a fixed-point quotient.
proof fn lemma_fx_div_neg(a: int, b: int)
    ensures
        fx_div_spec(-a, b) == -fx_div_spec(a, b),
{
    if b > 0 {
        assert((-a) * crate::fixed::FX_SCALE == -(a * crate::fixed::FX_SCALE)) by (nonlinear_arith);
    } else if b < 0 {
        assert((-a) * crate::fixed::FX_SCALE == -(a * crate::fixed::FX_SCALE)) by (nonlinear_arith);
    }
}

/// The dot product against a negated first factor is the negated dot
/// product.
proof fn lemma_dot_neg(a: Vec3, b: Vec3)
    requires
        vec3_ok(a),
    ensures
        dot_spec(neg_spec(a), b) == -dot_spec(a, b),
{
    lemma_fx_mul_neg_one(a.x as int, b.x as int);
    lemma_fx_mul_neg_one(a.y as int, b.y as int);
    lemma_fx_mul_neg_one(a.z as int, b.z as int);
}

/// Negating one factor negates a fixed-point product.
proof fn lemma_fx_mul_neg_one(a: int, b: int)
    ensures
        fx_mul_spec(-a, b) == -fx_mul_spec(a, b),
{
    assert((-a) * b == -(a * b)) by (nonlinear_arith);
}

} // verus!

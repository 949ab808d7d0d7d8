//! The scene expression tree.
//!
//! A scene description hands the renderer a tree of expressions: plain
//! numbers, booleans, and the structured nodes a scene language offers.
//! The renderer's job is to translate such a tree into an evaluable value
//! graph, rejecting every node that its context does not permit.

use vstd::prelude::*;
use crate::fixed::fx_ok;
use crate::spectrum::points_ok;

verus! {

/// One node of the scene expression tree. Numbers are 16.16 fixed-point
/// scalars.
pub enum Expression {
    Number(i64),
    Boolean(bool),
    Complex(ComplexExpression),
}

/// The structured expression nodes.
pub enum ComplexExpression {
    Vector { x: Box<Expression>, y: Box<Expression>, z: Box<Expression> },
    Fresnel { ior: Box<Expression>, env_ior: Option<Box<Expression>> },
    LightSource { color: Box<Expression> },
    Spectrum { points: Vec<(i64, i64)> },
    Rgb { red: i64, green: i64, blue: i64 },
    Texture,
    Add { a: Box<Expression>, b: Box<Expression> },
    Sub { a: Box<Expression>, b: Box<Expression> },
    Mul { a: Box<Expression>, b: Box<Expression> },
    Div { a: Box<Expression>, b: Box<Expression> },
    Mix { a: Box<Expression>, b: Box<Expression>, factor: Box<Expression> },
}

/// The variant of a structured node, for error reports.
#[derive(Clone, Copy, PartialEq, Eq, Structural, Debug)]
pub enum ComplexKind {
    Vector,
    Fresnel,
    LightSource,
    Spectrum,
    Rgb,
    Texture,
    Add,
    Sub,
    Mul,
    Div,
    Mix,
}

/// The variant of a structured node.
pub open spec fn kind_of(c: ComplexExpression) -> ComplexKind {
    match c {
        ComplexExpression::Vector { .. } => ComplexKind::Vector,
        ComplexExpression::Fresnel { .. } => ComplexKind::Fresnel,
        ComplexExpression::LightSource { .. } => ComplexKind::LightSource,
        ComplexExpression::Spectrum { .. } => ComplexKind::Spectrum,
        ComplexExpression::Rgb { .. } => ComplexKind::Rgb,
        ComplexExpression::Texture => ComplexKind::Texture,
        ComplexExpression::Add { .. } => ComplexKind::Add,
        ComplexExpression::Sub { .. } => ComplexKind::Sub,
        ComplexExpression::Mul { .. } => ComplexKind::Mul,
        ComplexExpression::Div { .. } => ComplexKind::Div,
        ComplexExpression::Mix { .. } => ComplexKind::Mix,
    }
}

impl ComplexExpression {
    /// The variant of this node.
    pub fn kind(&self) -> (r: ComplexKind)
        ensures
            r == kind_of(*self),
    {
        match self {
            ComplexExpression::Vector { .. } => ComplexKind::Vector,
            ComplexExpression::Fresnel { .. } => ComplexKind::Fresnel,
            ComplexExpression::LightSource { .. } => ComplexKind::LightSource,
            ComplexExpression::Spectrum { .. } => ComplexKind::Spectrum,
            ComplexExpression::Rgb { .. } => ComplexKind::Rgb,
            ComplexExpression::Texture => ComplexKind::Texture,
            ComplexExpression::Add { .. } => ComplexKind::Add,
            ComplexExpression::Sub { .. } => ComplexKind::Sub,
            ComplexExpression::Mul { .. } => ComplexKind::Mul,
            ComplexExpression::Div { .. } => ComplexKind::Div,
            ComplexExpression::Mix { .. } => ComplexKind::Mix,
        }
    }
}

/// Why a scene description was refused.
#[derive(Clone, Copy, PartialEq, Eq, Structural, Debug)]
pub enum DecodeError {
    /// A boolean stood where a number was needed.
    BooleanInContext,
    /// A structured node stood in a context that does not permit its
    /// variant.
    Rejected(ComplexKind),
    /// A required field of the description was absent.
    MissingField(FieldKind),
    /// A number lies outside the finite scalar range.
    NumberOutOfRange,
    /// Spectrum points were not strictly increasing in wavelength, or a
    /// value was negative or out of range.
    UnsortedSpectrum,
    /// A curve table needs at least one point.
    EmptyCurve,
    /// A Fresnel node was expected and something else stood there.
    ExpectedFresnel,
}

/// The fields a scene description must fill.
#[derive(Clone, Copy, PartialEq, Eq, Structural, Debug)]
pub enum FieldKind {
    Sky,
    Color,
    Material,
}

impl DecodeError {
    /// A human-readable account of the refusal, one fixed sentence per
    /// variant.
    pub fn message(&self) -> (m: &'static str)
        ensures
            *self == DecodeError::BooleanInContext ==> m@ =~= "Boolean values cannot be used in this context"@,
            *self == DecodeError::Rejected(ComplexKind::Vector) ==> m@ =~= "vectors cannot be used in this context"@,
            *self == DecodeError::Rejected(ComplexKind::Fresnel) ==> m@ =~= "Fresnel cannot be used in this context"@,
            *self == DecodeError::Rejected(ComplexKind::LightSource) ==> m@ =~= "light sources cannot be used in this context"@,
            *self == DecodeError::Rejected(ComplexKind::Spectrum) ==> m@ =~= "spectra cannot be used in this context"@,
            *self == DecodeError::Rejected(ComplexKind::Rgb) ==> m@ =~= "RGB cannot be used in this context"@,
            *self == DecodeError::Rejected(ComplexKind::Texture) ==> m@ =~= "textures cannot be used in this context"@,
            *self == DecodeError::Rejected(ComplexKind::Add) ==> m@ =~= "addition cannot be used in this context"@,
            *self == DecodeError::Rejected(ComplexKind::Sub) ==> m@ =~= "subtraction cannot be used in this context"@,
            *self == DecodeError::Rejected(ComplexKind::Mul) ==> m@ =~= "multiplication cannot be used in this context"@,
            *self == DecodeError::Rejected(ComplexKind::Div) ==> m@ =~= "division cannot be used in this context"@,
            *self == DecodeError::Rejected(ComplexKind::Mix) ==> m@ =~= "mix cannot be used in this context"@,
            *self == DecodeError::MissingField(FieldKind::Sky) ==> m@ =~= "missing field 'sky'"@,
            *self == DecodeError::MissingField(FieldKind::Color) ==> m@ =~= "missing field 'color'"@,
            *self == DecodeError::MissingField(FieldKind::Material) ==> m@ =~= "missing field 'material'"@,
            *self == DecodeError::NumberOutOfRange ==> m@ =~= "number is out of the representable range"@,
            *self == DecodeError::UnsortedSpectrum ==> m@ =~= "spectrum points must be sorted with values in range"@,
            *self == DecodeError::EmptyCurve ==> m@ =~= "a curve needs at least one point"@,
            *self == DecodeError::ExpectedFresnel ==> m@ =~= "expected a Fresnel expression"@,
    {
        match self {
            DecodeError::BooleanInContext => "Boolean values cannot be used in this context",
            DecodeError::Rejected(ComplexKind::Vector) => "vectors cannot be used in this context",
            DecodeError::Rejected(ComplexKind::Fresnel) => "Fresnel cannot be used in this context",
            DecodeError::Rejected(ComplexKind::LightSource) => "light sources cannot be used in this context",
            DecodeError::Rejected(ComplexKind::Spectrum) => "spectra cannot be used in this context",
            DecodeError::Rejected(ComplexKind::Rgb) => "RGB cannot be used in this context",
            DecodeError::Rejected(ComplexKind::Texture) => "textures cannot be used in this context",
            DecodeError::Rejected(ComplexKind::Add) => "addition cannot be used in this context",
            DecodeError::Rejected(ComplexKind::Sub) => "subtraction cannot be used in this context",
            DecodeError::Rejected(ComplexKind::Mul) => "multiplication cannot be used in this context",
            DecodeError::Rejected(ComplexKind::Div) => "division cannot be used in this context",
            DecodeError::Rejected(ComplexKind::Mix) => "mix cannot be used in this context",
            DecodeError::MissingField(FieldKind::Sky) => "missing field 'sky'",
            DecodeError::MissingField(FieldKind::Color) => "missing field 'color'",
            DecodeError::MissingField(FieldKind::Material) => "missing field 'material'",
            DecodeError::NumberOutOfRange => "number is out of the representable range",
            DecodeError::UnsortedSpectrum => "spectrum points must be sorted with values in range",
            DecodeError::EmptyCurve => "a curve needs at least one point",
            DecodeError::ExpectedFresnel => "expected a Fresnel expression",
        }
    }
}

/// Which group of scene types an entry belongs to.
#[derive(Clone, Copy, PartialEq, Eq, Structural, Debug)]
pub enum TypeGroup {
    Sky,
    Color,
}

/// The name a scene file uses for a registered type.
#[derive(Clone, Copy, PartialEq, Eq, Structural, Debug)]
pub enum TypeName {
    Color,
    Spectrum,
    Rgb,
}

/// Which decoder owns a registered type.
#[derive(Clone, Copy, PartialEq, Eq, Structural, Debug)]
pub enum DecoderKind {
    SkyColor,
    ColorSpectrum,
    ColorRgb,
}

/// One registered scene type.
#[derive(Clone, Copy, PartialEq, Eq, Structural, Debug)]
pub struct TypeEntry {
    pub group: TypeGroup,
    pub name: TypeName,
    pub decoder: DecoderKind,
}

/// The registry a scene loader consults: which decoder owns each group
/// and name of the scene language.
pub struct Prelude {
    pub entries: Vec<TypeEntry>,
}

impl Prelude {
    /// An empty registry.
    pub fn new() -> (r: Prelude)
        ensures
            r.entries@.len() == 0,
    {
        Prelude { entries: Vec::new() }
    }

    /// Register one type.
    pub fn insert_grouped_type(&mut self, group: TypeGroup, name: TypeName, decoder: DecoderKind)
        ensures
            final(self).entries@ == old(self).entries@.push(
                TypeEntry { group, name, decoder },
            ),
    {
        self.entries.push(TypeEntry { group, name, decoder });
    }
}

/// A size measure for termination of the mutually recursive translation:
/// every expression has height at least one, and a node is strictly higher
/// than the sum of its children.
pub open spec fn expr_height(e: Expression) -> nat
    decreases e,
{
    match e {
        Expression::Number(_) => 1,
        Expression::Boolean(_) => 1,
        Expression::Complex(c) => 1 + complex_height(c),
    }
}

/// Height of a structured node: the sum of its children's heights.
pub open spec fn complex_height(c: ComplexExpression) -> nat
    decreases c,
{
    match c {
        ComplexExpression::Vector { x, y, z } => expr_height(*x) + expr_height(*y) + expr_height(
            *z,
        ),
        ComplexExpression::Fresnel { ior, env_ior } => expr_height(*ior) + (match env_ior {
            Some(e) => expr_height(*e),
            None => 1,
        }),
        ComplexExpression::LightSource { color } => expr_height(*color),
        ComplexExpression::Spectrum { .. } => 1,
        ComplexExpression::Rgb { .. } => 1,
        ComplexExpression::Texture => 1,
        ComplexExpression::Add { a, b } => expr_height(*a) + expr_height(*b),
        ComplexExpression::Sub { a, b } => expr_height(*a) + expr_height(*b),
        ComplexExpression::Mul { a, b } => expr_height(*a) + expr_height(*b),
        ComplexExpression::Div { a, b } => expr_height(*a) + expr_height(*b),
        ComplexExpression::Mix { a, b, factor } => expr_height(*a) + expr_height(*b) + expr_height(
            *factor,
        ),
    }
}

/// Heights are positive.
pub proof fn lemma_expr_height_pos(e: Expression)
    ensures
        expr_height(e) >= 1,
{
}

/// An expression that a numeric render context accepts: numbers in range,
/// the numeric operators, spectra, RGB triples and Fresnel nodes; no
/// booleans, vectors, light sources or textures.
pub open spec fn expr_valid(e: Expression) -> bool
    decreases e,
{
    match e {
        Expression::Number(n) => fx_ok(n),
        Expression::Boolean(_) => false,
        Expression::Complex(c) => complex_valid(c),
    }
}

/// Validity of a structured node in a numeric render context.
pub open spec fn complex_valid(c: ComplexExpression) -> bool
    decreases c,
{
    match c {
        ComplexExpression::Vector { .. } => false,
        ComplexExpression::LightSource { .. } => false,
        ComplexExpression::Texture => false,
        ComplexExpression::Spectrum { points } => points_ok(points@),
        ComplexExpression::Rgb { red, green, blue } => fx_ok(red) && fx_ok(green) && fx_ok(blue),
        ComplexExpression::Fresnel { ior, env_ior } => expr_valid(*ior) && (match env_ior {
            Some(e) => expr_valid(*e),
            None => true,
        }),
        ComplexExpression::Add { a, b } => expr_valid(*a) && expr_valid(*b),
        ComplexExpression::Sub { a, b } => expr_valid(*a) && expr_valid(*b),
        ComplexExpression::Mul { a, b } => expr_valid(*a) && expr_valid(*b),
        ComplexExpression::Div { a, b } => expr_valid(*a) && expr_valid(*b),
        ComplexExpression::Mix { a, b, factor } => expr_valid(*a) && expr_valid(*b) && expr_valid(
            *factor,
        ),
    }
}

} // verus!

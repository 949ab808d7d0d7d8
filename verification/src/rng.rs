//! Randomness for the tracer.
//!
//! The only outside calls are to the xorshift generator; everything built
//! on top of it — unit scalars, sphere and hemisphere directions — is
//! verified for every possible word the generator hands back.

use vstd::prelude::*;
use crate::fixed::{fx_ok, FX_ONE};
use crate::vector::{Vec3, vec3_ok, dot_spec, neg_spec};

verus! {

#[verifier::external_type_specification]
#[verifier::external_body]
pub struct ExXorShiftRng(rand_xorshift::XorShiftRng);

/// Relies on rand_core's `SeedableRng::seed_from_u64` for
/// `rand_xorshift::XorShiftRng`: builds a generator from a 64-bit seed.
/// Nothing is assumed about the state it produces.
#[verifier::external_body]
pub fn rng_from_seed(seed: u64) -> (r: rand_xorshift::XorShiftRng) {
    <rand_xorshift::XorShiftRng as rand_core::SeedableRng>::seed_from_u64(seed)
}

/// Relies on rand_core's `Rng::next_u32` for
/// `rand_xorshift::XorShiftRng`: one pseudorandom 32-bit word. Nothing is
/// promised of its value.
#[verifier::external_body]
pub fn rng_next_u32(rng: &mut rand_xorshift::XorShiftRng) -> (r: u32) {
    rand_core::Rng::next_u32(rng)
}

/// A scalar drawn uniformly from `[0, 1)`: the top sixteen bits of one
/// generator word.
pub fn next_float(rng: &mut rand_xorshift::XorShiftRng) -> (r: i64)
    ensures
        0 <= r < FX_ONE,
        fx_ok(r),
{
    let u: u32 = rng_next_u32(rng);
    let top: u32 = u >> 16;
    proof {
        assert(u >> 16u32 < 65536u32) by (bit_vector);
    }
    top as i64
}

/// A signed unit-interval scalar in `(-1, 1)`.
fn next_signed(rng: &mut rand_xorshift::XorShiftRng) -> (r: i64)
    ensures
        -FX_ONE < r < FX_ONE,
        fx_ok(r),
{
    let a: i64 = next_float(rng);
    let b: i64 = next_float(rng);
    a - b
}

/// A direction spread over the unit sphere: rejection-sample a cube until
/// the point falls inside the unit ball, then normalize. After a bounded
/// number of misses a fixed axis is returned, so the function is total.
/// Whatever the generator hands back, the result's squared length lies
/// within a sixteenth of one.
pub fn sample_sphere(rng: &mut rand_xorshift::XorShiftRng) -> (r: Vec3)
    ensures
        vec3_ok(r),
        FX_ONE - FX_ONE / 16 <= dot_spec(r, r) <= FX_ONE + FX_ONE / 16,
{
    let mut tries: usize = 0;
    while tries < 64
        invariant
            tries <= 64,
        decreases 64 - tries,
    {
        let v = Vec3::new(next_signed(rng), next_signed(rng), next_signed(rng));
        let len2: i64 = v.length2();
        if 16 <= len2 && len2 <= FX_ONE {
            let unit = v.normalize();
            let check: i64 = unit.dot(&unit);
            if FX_ONE - FX_ONE / 16 <= check && check <= FX_ONE + FX_ONE / 16 {
                return unit;
            }
        }
        tries = tries + 1;
    }
    let axis = Vec3::new(FX_ONE, 0, 0);
    proof {
        crate::tracer::lemma_fx_mul_one(FX_ONE as int);
    }
    axis
}

/// A direction in the hemisphere around `direction`: a sphere sample,
/// flipped to the near side. The near-unit length band of the sphere
/// sample carries over.
pub fn sample_hemisphere(rng: &mut rand_xorshift::XorShiftRng, direction: Vec3) -> (r: Vec3)
    requires
        vec3_ok(direction),
    ensures
        vec3_ok(r),
        dot_spec(r, direction) >= 0,
        FX_ONE - FX_ONE / 16 <= dot_spec(r, r) <= FX_ONE + FX_ONE / 16,
{
    let s: Vec3 = sample_sphere(rng);
    let d: i64 = s.dot(&direction);
    if d < 0 {
        let flipped = s.neg();
        proof {
            lemma_dot_neg_left(s, direction);
            lemma_dot_neg_left(s, s);
            lemma_dot_neg_right(neg_spec(s), s);
        }
        flipped
    } else {
        s
    }
}

/// A direction within the cone around `direction` whose half-angle cosine
/// is `cos_half`: rejection sampling over the sphere, with the axis itself
/// as the fallback. Every result is the axis or lies inside the cone.
pub fn sample_cone(rng: &mut rand_xorshift::XorShiftRng, direction: Vec3, cos_half: i64) -> (r:
    Vec3)
    requires
        vec3_ok(direction),
        fx_ok(cos_half),
    ensures
        vec3_ok(r),
        r == direction || dot_spec(r, direction) >= cos_half,
{
    let mut tries: usize = 0;
    while tries < 64
        invariant
            tries <= 64,
            vec3_ok(direction),
        decreases 64 - tries,
    {
        let s: Vec3 = sample_sphere(rng);
        if s.dot(&direction) >= cos_half {
            return s;
        }
        tries = tries + 1;
    }
    direction
}

/// Negating the first factor negates the dot product.
proof fn lemma_dot_neg_left(a: Vec3, b: Vec3)
    requires
        vec3_ok(a),
    ensures
        dot_spec(neg_spec(a), b) == -dot_spec(a, b),
{
    lemma_neg_mul(a.x as int, b.x as int);
    lemma_neg_mul(a.y as int, b.y as int);
    lemma_neg_mul(a.z as int, b.z as int);
}

/// Negating the second factor negates the dot product.
proof fn lemma_dot_neg_right(a: Vec3, b: Vec3)
    requires
        vec3_ok(b),
    ensures
        dot_spec(a, neg_spec(b)) == -dot_spec(a, b),
{
    lemma_neg_mul_right(a.x as int, b.x as int);
    lemma_neg_mul_right(a.y as int, b.y as int);
    lemma_neg_mul_right(a.z as int, b.z as int);
}

/// Negating the second factor negates a fixed-point product.
proof fn lemma_neg_mul_right(a: int, b: int)
    ensures
        crate::fixed::fx_mul_spec(a, -b) == -crate::fixed::fx_mul_spec(a, b),
{
    assert(a * (-b) == -(a * b)) by (nonlinear_arith);
}

/// Negating one factor negates a fixed-point product.
proof fn lemma_neg_mul(a: int, b: int)
    ensures
        crate::fixed::fx_mul_spec(-a, b) == -crate::fixed::fx_mul_spec(a, b),
{
    assert((-a) * b == -(a * b)) by (nonlinear_arith);
}

} // verus!

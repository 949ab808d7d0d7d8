//! Three-dimensional fixed-point vectors and rays.

use vstd::prelude::*;
use crate::fixed::{
    fx_ok, fx_add, fx_sub, fx_neg, fx_mul, fx_div, fx_sqrt,
    fx_add_spec, fx_sub_spec, fx_mul_spec, fx_div_spec, fx_sqrt_spec,
};

verus! {

/// A vector of three fixed-point scalars.
#[derive(Clone, Copy, PartialEq, Eq, Structural, Debug)]
pub struct Vec3 {
    pub x: i64,
    pub y: i64,
    pub z: i64,
}

/// A point with a direction: used for rays and for surface hits, where the
/// origin is the hit point and the direction the surface normal.
#[derive(Clone, Copy, PartialEq, Eq, Structural, Debug)]
pub struct Ray3 {
    pub origin: Vec3,
    pub direction: Vec3,
}

/// All three components are finite scalars.
pub open spec fn vec3_ok(v: Vec3) -> bool {
    fx_ok(v.x) && fx_ok(v.y) && fx_ok(v.z)
}

/// Both ends of a ray are finite.
pub open spec fn ray3_ok(r: Ray3) -> bool {
    vec3_ok(r.origin) && vec3_ok(r.direction)
}

/// What the dot product returns: the three rescaled products, summed with
/// saturation.
pub open spec fn dot_spec(a: Vec3, b: Vec3) -> int {
    fx_add_spec(
        fx_add_spec(fx_mul_spec(a.x as int, b.x as int), fx_mul_spec(a.y as int, b.y as int)),
        fx_mul_spec(a.z as int, b.z as int),
    )
}

/// What componentwise addition returns.
pub open spec fn add_spec(a: Vec3, b: Vec3) -> Vec3 {
    Vec3 {
        x: fx_add_spec(a.x as int, b.x as int) as i64,
        y: fx_add_spec(a.y as int, b.y as int) as i64,
        z: fx_add_spec(a.z as int, b.z as int) as i64,
    }
}

/// What componentwise subtraction returns.
pub open spec fn sub_spec(a: Vec3, b: Vec3) -> Vec3 {
    Vec3 {
        x: fx_sub_spec(a.x as int, b.x as int) as i64,
        y: fx_sub_spec(a.y as int, b.y as int) as i64,
        z: fx_sub_spec(a.z as int, b.z as int) as i64,
    }
}

/// What scaling by a scalar returns.
pub open spec fn scale_spec(a: Vec3, s: int) -> Vec3 {
    Vec3 {
        x: fx_mul_spec(a.x as int, s) as i64,
        y: fx_mul_spec(a.y as int, s) as i64,
        z: fx_mul_spec(a.z as int, s) as i64,
    }
}

/// What negation returns.
pub open spec fn neg_spec(a: Vec3) -> Vec3 {
    Vec3 { x: (-a.x) as i64, y: (-a.y) as i64, z: (-a.z) as i64 }
}

/// What the cross product returns.
pub open spec fn cross_spec(a: Vec3, b: Vec3) -> Vec3 {
    Vec3 {
        x: fx_sub_spec(fx_mul_spec(a.y as int, b.z as int), fx_mul_spec(a.z as int, b.y as int))
            as i64,
        y: fx_sub_spec(fx_mul_spec(a.z as int, b.x as int), fx_mul_spec(a.x as int, b.z as int))
            as i64,
        z: fx_sub_spec(fx_mul_spec(a.x as int, b.y as int), fx_mul_spec(a.y as int, b.x as int))
            as i64,
    }
}

/// What normalization returns: each component divided by the root of the
/// squared length; the zero vector stays zero.
pub open spec fn normalize_spec(a: Vec3) -> Vec3 {
    let len = fx_sqrt_spec(dot_spec(a, a));
    if len == 0 {
        a
    } else {
        Vec3 {
            x: fx_div_spec(a.x as int, len) as i64,
            y: fx_div_spec(a.y as int, len) as i64,
            z: fx_div_spec(a.z as int, len) as i64,
        }
    }
}

impl Vec3 {
    /// Build a vector from components.
    pub fn new(x: i64, y: i64, z: i64) -> (r: Vec3)
        ensures
            r == (Vec3 { x, y, z }),
    {
        Vec3 { x, y, z }
    }

    /// The zero vector.
    pub fn zero() -> (r: Vec3)
        ensures
            r == (Vec3 { x: 0i64, y: 0i64, z: 0i64 }),
            vec3_ok(r),
    {
        Vec3 { x: 0, y: 0, z: 0 }
    }

    /// Dot product.
    pub fn dot(&self, other: &Vec3) -> (r: i64)
        requires
            vec3_ok(*self),
            vec3_ok(*other),
        ensures
            r == dot_spec(*self, *other),
            fx_ok(r),
    {
        let xx: i64 = fx_mul(self.x, other.x);
        let yy: i64 = fx_mul(self.y, other.y);
        let zz: i64 = fx_mul(self.z, other.z);
        fx_add(fx_add(xx, yy), zz)
    }

    /// Componentwise addition.
    pub fn add(&self, other: &Vec3) -> (r: Vec3)
        requires
            vec3_ok(*self),
            vec3_ok(*other),
        ensures
            r == add_spec(*self, *other),
            vec3_ok(r),
    {
        Vec3 {
            x: fx_add(self.x, other.x),
            y: fx_add(self.y, other.y),
            z: fx_add(self.z, other.z),
        }
    }

    /// Componentwise subtraction.
    pub fn sub(&self, other: &Vec3) -> (r: Vec3)
        requires
            vec3_ok(*self),
            vec3_ok(*other),
        ensures
            r == sub_spec(*self, *other),
            vec3_ok(r),
    {
        Vec3 {
            x: fx_sub(self.x, other.x),
            y: fx_sub(self.y, other.y),
            z: fx_sub(self.z, other.z),
        }
    }

    /// Scaling by a scalar.
    pub fn scale(&self, s: i64) -> (r: Vec3)
        requires
            vec3_ok(*self),
            fx_ok(s),
        ensures
            r == scale_spec(*self, s as int),
            vec3_ok(r),
    {
        Vec3 { x: fx_mul(self.x, s), y: fx_mul(self.y, s), z: fx_mul(self.z, s) }
    }

    /// Negation.
    pub fn neg(&self) -> (r: Vec3)
        requires
            vec3_ok(*self),
        ensures
            r == neg_spec(*self),
            vec3_ok(r),
    {
        Vec3 { x: fx_neg(self.x), y: fx_neg(self.y), z: fx_neg(self.z) }
    }

    /// Cross product.
    pub fn cross(&self, other: &Vec3) -> (r: Vec3)
        requires
            vec3_ok(*self),
            vec3_ok(*other),
        ensures
            r == cross_spec(*self, *other),
            vec3_ok(r),
    {
        Vec3 {
            x: fx_sub(fx_mul(self.y, other.z), fx_mul(self.z, other.y)),
            y: fx_sub(fx_mul(self.z, other.x), fx_mul(self.x, other.z)),
            z: fx_sub(fx_mul(self.x, other.y), fx_mul(self.y, other.x)),
        }
    }

    /// Squared length.
    pub fn length2(&self) -> (r: i64)
        requires
            vec3_ok(*self),
        ensures
            r == dot_spec(*self, *self),
            fx_ok(r),
            r >= 0,
    {
        proof {
            crate::fixed::lemma_square_nonneg(self.x as int);
            crate::fixed::lemma_square_nonneg(self.y as int);
            crate::fixed::lemma_square_nonneg(self.z as int);
        }
        self.dot(self)
    }

    /// Normalize to roughly unit length; the zero vector is returned
    /// unchanged.
    pub fn normalize(&self) -> (r: Vec3)
        requires
            vec3_ok(*self),
        ensures
            r == normalize_spec(*self),
            vec3_ok(r),
    {
        let len2: i64 = self.length2();
        let len: i64 = fx_sqrt(len2);
        if len == 0 {
            *self
        } else {
            Vec3 {
                x: fx_div(self.x, len),
                y: fx_div(self.y, len),
                z: fx_div(self.z, len),
            }
        }
    }
}

impl Ray3 {
    /// Build a ray from an origin and a direction.
    pub fn new(origin: Vec3, direction: Vec3) -> (r: Ray3)
        ensures
            r == (Ray3 { origin, direction }),
    {
        Ray3 { origin, direction }
    }
}

} // verus!

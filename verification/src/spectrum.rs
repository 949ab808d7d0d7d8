//! Piecewise-linear spectra.
//!
//! An [`Interpolated`] table holds `(wavelength, value)` points sorted by
//! strictly increasing wavelength, with nonnegative values. Lookup
//! interpolates linearly inside the convex hull of the points and returns
//! zero outside it; a point's own wavelength returns the point's value
//! exactly. Segment iteration instead extends the endpoint values outward,
//! which is what the trapezoidal projection of a spectrum wants.

use vstd::prelude::*;
use vstd::arithmetic::div_mod::{lemma_div_is_ordered, lemma_div_multiples_vanish, lemma_div_pos_is_pos};
use crate::fixed::{fx_ok, fx_sat, fx_add_spec, div_trunc, FX_MAX};

verus! {

/// A piecewise-linear table of `(x, y)` points.
#[derive(Clone, Debug)]
pub struct Interpolated {
    pub points: Vec<(i64, i64)>,
}

/// The x coordinates are strictly increasing.
pub open spec fn points_sorted(s: Seq<(i64, i64)>) -> bool {
    forall|i: int| 0 <= i && i + 1 < s.len() ==> (#[trigger] s[i]).0 < s[i + 1].0
}

/// Well-formed table: sorted, finite x, y in `[0, FX_MAX]`.
pub open spec fn points_ok(s: Seq<(i64, i64)>) -> bool {
    points_sorted(s) && forall|i: int|
        0 <= i < s.len() ==> fx_ok((#[trigger] s[i]).0) && 0 <= s[i].1 <= FX_MAX
}

/// Sorted tables are monotone between any two indices.
pub proof fn lemma_sorted_le(s: Seq<(i64, i64)>, i: int, j: int)
    requires
        points_sorted(s),
        0 <= i <= j < s.len(),
    ensures
        s[i].0 <= s[j].0,
    decreases j - i,
{
    if i < j {
        lemma_sorted_le(s, i, j - 1);
    }
}

/// What linear interpolation between `(x0, y0)` and `(x1, y1)` returns at
/// `x`: the slope step is rescaled with truncation and saturated before the
/// saturated addition.
pub open spec fn lerp_spec(x0: int, y0: int, x1: int, y1: int, x: int) -> int {
    fx_add_spec(y0, fx_sat(div_trunc((y1 - y0) * (x - x0), x1 - x0)))
}

/// What lookup returns: zero left of the first point, the first enclosing
/// segment's interpolation inside the hull, zero right of the last point.
/// A single point answers only for its own x.
pub open spec fn interp_spec(s: Seq<(i64, i64)>, x: int) -> int
    decreases s.len(),
{
    if s.len() == 0 {
        0
    } else if s.len() == 1 {
        if x == s[0].0 {
            s[0].1 as int
        } else {
            0
        }
    } else if x < s[0].0 {
        0
    } else if x <= s[1].0 {
        lerp_spec(s[0].0 as int, s[0].1 as int, s[1].0 as int, s[1].1 as int, x)
    } else {
        interp_spec(s.subrange(1, s.len() as int), x)
    }
}

/// Truncating division of an exact multiple is exact.
pub proof fn lemma_div_trunc_exact(d: int, w: int)
    requires
        w > 0,
    ensures
        div_trunc(d * w, w) == d,
{
    if d >= 0 {
        assert(d * w >= 0) by (nonlinear_arith)
            requires
                d >= 0,
                w > 0,
        ;
        lemma_div_multiples_vanish(d, w);
        assert(d * w == w * d) by (nonlinear_arith);
    } else {
        assert(d * w < 0) by (nonlinear_arith)
            requires
                d < 0,
                w > 0,
        ;
        assert(-(d * w) == (-d) * w) by (nonlinear_arith);
        lemma_div_multiples_vanish(-d, w);
        assert((-d) * w == w * (-d)) by (nonlinear_arith);
    }
}

/// Interpolation between points with values in `[0, FX_MAX]` stays in
/// `[0, FX_MAX]` and between the endpoint values.
pub proof fn lemma_lerp_bounds(x0: int, y0: int, x1: int, y1: int, x: int)
    requires
        x0 < x1,
        x0 <= x <= x1,
        0 <= y0 <= FX_MAX,
        0 <= y1 <= FX_MAX,
    ensures
        0 <= lerp_spec(x0, y0, x1, y1, x) <= FX_MAX,
{
    let dy = y1 - y0;
    let dx = x - x0;
    let den = x1 - x0;
    if dy >= 0 {
        assert(0 <= dy * dx <= dy * den) by (nonlinear_arith)
            requires
                dy >= 0,
                0 <= dx <= den,
        ;
        lemma_div_is_ordered(dy * dx, dy * den, den);
        lemma_div_pos_is_pos(dy * dx, den);
        lemma_div_trunc_exact(dy, den);
        assert(dy * den == den * dy) by (nonlinear_arith);
        assert(0 <= div_trunc(dy * dx, den) <= dy);
    } else {
        assert(0 <= (-dy) * dx <= (-dy) * den) by (nonlinear_arith)
            requires
                dy < 0,
                0 <= dx <= den,
        ;
        lemma_div_is_ordered((-dy) * dx, (-dy) * den, den);
        lemma_div_pos_is_pos((-dy) * dx, den);
        lemma_div_trunc_exact(-dy, den);
        assert(-(dy * dx) == (-dy) * dx) by (nonlinear_arith);
        assert(dy <= div_trunc(dy * dx, den) <= 0);
    }
}

/// The first enclosing segment decides the interpolated value: lookup at
/// any `x` with `s[i].0 < x <= s[i + 1].0` is the interpolation on segment
/// `i`.
pub proof fn lemma_interp_window(s: Seq<(i64, i64)>, i: int, x: int)
    requires
        points_ok(s),
        0 <= i,
        i + 1 < s.len(),
        s[i].0 < x,
        x <= s[i + 1].0,
    ensures
        interp_spec(s, x) == lerp_spec(s[i].0 as int, s[i].1 as int, s[i + 1].0 as int, s[i + 1].1 as int, x),
    decreases i,
{
    if i == 0 {
        lemma_sorted_le(s, 0, i);
    } else {
        lemma_sorted_le(s, 1, i);
        assert(x > s[1].0);
        let t = s.subrange(1, s.len() as int);
        assert forall|k: int| 0 <= k && k + 1 < t.len() implies (#[trigger] t[k]).0 < t[k + 1].0 by {
            assert(t[k] == s[k + 1]);
            assert(t[k + 1] == s[k + 2]);
        }
        assert forall|k: int| 0 <= k < t.len() implies fx_ok((#[trigger] t[k]).0) && 0 <= t[k].1
            <= FX_MAX by {
            assert(t[k] == s[k + 1]);
        }
        lemma_interp_window(t, i - 1, x);
        assert(t[i - 1] == s[i]);
        assert(t[i] == s[i + 1]);
    }
}

/// Lookup at a point's own x returns the point's y.
pub proof fn lemma_interp_knot(s: Seq<(i64, i64)>, i: int)
    requires
        points_ok(s),
        0 <= i < s.len(),
    ensures
        interp_spec(s, s[i].0 as int) == s[i].1,
{
    let x = s[i].0 as int;
    if s.len() == 1 {
    } else if i == 0 {
        lemma_sorted_le(s, 0, 1);
        assert(div_trunc((s[1].1 - s[0].1) * (x - s[0].0), s[1].0 - s[0].0) == 0) by {
            assert((s[1].1 - s[0].1) * (x - s[0].0) == 0) by (nonlinear_arith)
                requires
                    x == s[0].0,
            ;
        }
        assert(interp_spec(s, x) == fx_add_spec(s[0].1 as int, 0));
    } else {
        lemma_interp_window(s, i - 1, x);
        let y0 = s[i - 1].1 as int;
        let y1 = s[i].1 as int;
        let den = s[i].0 - s[i - 1].0;
        lemma_div_trunc_exact(y1 - y0, den as int);
        assert(interp_spec(s, x) == fx_add_spec(y0, fx_sat(y1 - y0)));
    }
}

/// Lookup outside the hull returns zero.
pub proof fn lemma_interp_outside(s: Seq<(i64, i64)>, x: int)
    requires
        points_ok(s),
        s.len() > 0,
        x < s[0].0 || x > s[s.len() - 1].0,
    ensures
        interp_spec(s, x) == 0,
    decreases s.len(),
{
    if s.len() == 1 {
    } else if x < s[0].0 {
    } else {
        lemma_sorted_le(s, 1, s.len() - 1);
        assert(x > s[1].0);
        let t = s.subrange(1, s.len() as int);
        assert forall|k: int| 0 <= k && k + 1 < t.len() implies (#[trigger] t[k]).0 < t[k + 1].0 by {
            assert(t[k] == s[k + 1]);
            assert(t[k + 1] == s[k + 2]);
        }
        assert forall|k: int| 0 <= k < t.len() implies fx_ok((#[trigger] t[k]).0) && 0 <= t[k].1
            <= FX_MAX by {
            assert(t[k] == s[k + 1]);
        }
        assert(t[t.len() - 1] == s[s.len() - 1]);
        lemma_interp_outside(t, x);
    }
}

/// Lookup inside the hull lands between the enclosing values, so it is
/// finite and nonnegative; outside it is zero.
pub proof fn lemma_interp_in_range(s: Seq<(i64, i64)>, x: int)
    requires
        points_ok(s),
    ensures
        0 <= interp_spec(s, x) <= FX_MAX,
    decreases s.len(),
{
    if s.len() == 0 {
    } else if s.len() == 1 {
    } else if x < s[0].0 {
    } else if x <= s[1].0 {
        lemma_lerp_bounds(s[0].0 as int, s[0].1 as int, s[1].0 as int, s[1].1 as int, x);
    } else {
        let t = s.subrange(1, s.len() as int);
        assert forall|k: int| 0 <= k && k + 1 < t.len() implies (#[trigger] t[k]).0 < t[k + 1].0 by {
            assert(t[k] == s[k + 1]);
            assert(t[k + 1] == s[k + 2]);
        }
        assert forall|k: int| 0 <= k < t.len() implies fx_ok((#[trigger] t[k]).0) && 0 <= t[k].1
            <= FX_MAX by {
            assert(t[k] == s[k + 1]);
        }
        lemma_interp_in_range(t, x);
    }
}

impl Interpolated {
    /// An empty table.
    pub fn empty() -> (r: Interpolated)
        ensures
            r.points@.len() == 0,
            points_ok(r.points@),
    {
        Interpolated { points: Vec::new() }
    }

    /// Piecewise-linear lookup by binary search.
    ///
    /// Outside the convex hull of the points the result is zero, not the
    /// boundary value; a point's own x answers with its y; anywhere else
    /// inside the hull the enclosing segment interpolates linearly.
    pub fn get(&self, input: i64) -> (r: i64)
        requires
            points_ok(self.points@),
            fx_ok(input),
        ensures
            r == interp_spec(self.points@, input as int),
            fx_ok(r),
            r >= 0,
    {
        proof {
            lemma_interp_in_range(self.points@, input as int);
        }
        let n: usize = self.points.len();
        if n == 0 {
            return 0;
        }
        let first = self.points[0];
        if input < first.0 {
            return 0;
        }
        if input == first.0 {
            proof {
                lemma_interp_knot(self.points@, 0);
            }
            return first.1;
        }
        let last = self.points[n - 1];
        if input > last.0 {
            proof {
                lemma_interp_outside(self.points@, input as int);
            }
            return 0;
        }
        if input == last.0 {
            proof {
                lemma_interp_knot(self.points@, n - 1 as int);
            }
            return last.1;
        }
        let mut lo: usize = 0;
        let mut hi: usize = n - 1;
        while lo + 1 < hi
            invariant
                points_ok(self.points@),
                lo < hi < self.points@.len(),
                self.points@[lo as int].0 < input,
                input < self.points@[hi as int].0,
            decreases hi - lo,
        {
            let mid: usize = lo + (hi - lo) / 2;
            let p = self.points[mid];
            if p.0 == input {
                proof {
                    lemma_interp_knot(self.points@, mid as int);
                }
                return p.1;
            }
            if p.0 > input {
                hi = mid;
            } else {
                lo = mid;
            }
        }
        let a = self.points[lo];
        let b = self.points[lo + 1];
        proof {
            lemma_interp_window(self.points@, lo as int, input as int);
        }
        let num: i64 = (b.1 - a.1);
        let dx: i64 = input - a.0;
        let den: i64 = b.0 - a.0;
        let step: i64 = crate::fixed::mul_div_trunc(num, dx, den);
        crate::fixed::fx_add(a.1, step)
    }

    /// Lookup that extends the endpoint values outward instead of dropping
    /// to zero; inside the hull it agrees with [`Interpolated::get`].
    pub fn extended_get(&self, input: i64) -> (r: i64)
        requires
            points_ok(self.points@),
            fx_ok(input),
        ensures
            r == extended_spec(self.points@, input as int),
            fx_ok(r),
            r >= 0,
    {
        extended_on(&self.points, input)
    }

    /// An elementwise copy of the point table.
    fn copy_points(&self) -> (r: Vec<(i64, i64)>)
        ensures
            r@ == self.points@,
    {
        let mut out: Vec<(i64, i64)> = Vec::new();
        let mut i: usize = 0;
        while i < self.points.len()
            invariant
                i <= self.points.len(),
                out@ == self.points@.subrange(0, i as int),
            decreases self.points.len() - i,
        {
            out.push(self.points[i]);
            proof {
                assert(out@ =~= self.points@.subrange(0, i + 1));
            }
            i = i + 1;
        }
        proof {
            assert(out@ =~= self.points@);
        }
        out
    }

    /// The adjacent segments of the table between `min` and `max`, as an
    /// iterator-like cursor over `segments` equal steps.
    pub fn segments_between(&self, min: i64, max: i64, segments: usize) -> (r: Segments)
        requires
            points_ok(self.points@),
            fx_ok(min),
            fx_ok(max),
            min <= max,
            1 <= segments <= 0x7fff_ffff,
        ensures
            seg_wf(r),
            r.points@ == self.points@,
            r.from == min,
            r.segments == segments,
            r.current_segment == 0,
            r.segment_size == (max - min) / (segments as int),
    {
        let span: i64 = max - min;
        let step: i64 = ((span as u64) / (segments as u64)) as i64;
        proof {
            vstd::arithmetic::div_mod::lemma_fundamental_div_mod(span as int, segments as int);
            vstd::arithmetic::div_mod::lemma_div_pos_is_pos(span as int, segments as int);
        }
        Segments {
            points: self.copy_points(),
            from: min,
            segment_size: step,
            segments,
            current_segment: 0,
        }
    }
}

/// Decide whether a point table is well formed: strictly ascending finite
/// x's, y's in `[0, FX_MAX]`.
pub fn check_points(points: &Vec<(i64, i64)>) -> (r: bool)
    ensures
        r == points_ok(points@),
{
    let n: usize = points.len();
    let mut i: usize = 0;
    while i < n
        invariant
            i <= n,
            n == points@.len(),
            forall|j: int|
                0 <= j < i ==> fx_ok((#[trigger] points@[j]).0) && 0 <= points@[j].1 <= FX_MAX,
            forall|j: int|
                0 <= j < i && j + 1 < n ==> (#[trigger] points@[j]).0 < points@[j + 1].0,
        decreases n - i,
    {
        let p = points[i];
        if p.0 < -FX_MAX || p.0 > FX_MAX || p.1 < 0 || p.1 > FX_MAX {
            return false;
        }
        if i + 1 < n {
            let q = points[i + 1];
            if p.0 >= q.0 {
                return false;
            }
        }
        i = i + 1;
    }
    true
}

/// Endpoint-extended lookup on a point table, by binary search.
#[verifier::rlimit(100)]
fn extended_on(points: &Vec<(i64, i64)>, input: i64) -> (r: i64)
    requires
        points_ok(points@),
        fx_ok(input),
    ensures
        r == extended_spec(points@, input as int),
        fx_ok(r),
        r >= 0,
{
    let n: usize = points.len();
    if n == 0 {
        return 0;
    }
    let first = points[0];
    if input <= first.0 {
        return first.1;
    }
    let last = points[n - 1];
    if input >= last.0 {
        proof {
            lemma_sorted_le(points@, 0, n - 1 as int);
        }
        return last.1;
    }
    proof {
        lemma_interp_in_range(points@, input as int);
    }
    let mut lo: usize = 0;
    let mut hi: usize = n - 1;
    while lo + 1 < hi
        invariant
            points_ok(points@),
            lo < hi < points@.len(),
            fx_ok(input),
            points@[0].0 < input,
            input < points@[points@.len() - 1].0,
            points@[lo as int].0 < input,
            input < points@[hi as int].0,
        decreases hi - lo,
    {
        let mid: usize = lo + (hi - lo) / 2;
        let p = points[mid];
        if p.0 == input {
            proof {
                lemma_interp_knot(points@, mid as int);
                lemma_sorted_le(points@, 0, mid as int);
                lemma_sorted_le(points@, mid as int, points@.len() - 1);
            }
            return p.1;
        }
        if p.0 > input {
            hi = mid;
        } else {
            lo = mid;
        }
    }
    let a = points[lo];
    let b = points[lo + 1];
    proof {
        lemma_interp_window(points@, lo as int, input as int);
        lemma_lerp_bounds(a.0 as int, a.1 as int, b.0 as int, b.1 as int, input as int);
    }
    let num: i64 = (b.1 - a.1);
    let dx: i64 = input - a.0;
    let den: i64 = b.0 - a.0;
    let step: i64 = crate::fixed::mul_div_trunc(num, dx, den);
    crate::fixed::fx_add(a.1, step)
}

/// Lookup with endpoint extension: left of the first point the first
/// value, right of the last point the last value, the linear interpolation
/// in between; zero only for an empty table.
pub open spec fn extended_spec(s: Seq<(i64, i64)>, x: int) -> int {
    if s.len() == 0 {
        0
    } else if x <= s[0].0 {
        s[0].1 as int
    } else if x >= s[s.len() - 1].0 {
        s[s.len() - 1].1 as int
    } else {
        interp_spec(s, x)
    }
}

/// A cursor over the `segments` equal-width spans of a table between two
/// wavelengths, yielding each span's endpoints with their endpoint-extended
/// values.
pub struct Segments {
    pub points: Vec<(i64, i64)>,
    pub from: i64,
    pub segment_size: i64,
    pub segments: usize,
    pub current_segment: usize,
}

/// Well-formed cursor: sorted finite table and boundaries that stay in the
/// finite scalar range.
pub open spec fn seg_wf(s: Segments) -> bool {
    &&& points_ok(s.points@)
    &&& fx_ok(s.from)
    &&& 0 <= s.segment_size
    &&& s.segments <= 0x7fff_ffff
    &&& s.from + s.segments * s.segment_size <= FX_MAX
}

/// The `k`-th segment boundary.
pub open spec fn seg_boundary(s: Segments, k: int) -> int {
    s.from + k * s.segment_size
}

/// Boundaries stay in the finite range for any index up to the segment
/// count.
pub proof fn lemma_seg_boundary_ok(s: Segments, k: int)
    requires
        seg_wf(s),
        0 <= k <= s.segments,
    ensures
        s.from <= seg_boundary(s, k) <= FX_MAX,
        seg_boundary(s, k) <= seg_boundary(s, s.segments as int),
{
    vstd::arithmetic::mul::lemma_mul_inequality(k, s.segments as int, s.segment_size as int);
    vstd::arithmetic::mul::lemma_mul_nonnegative(k, s.segment_size as int);
}

/// The spans of consecutive indices share their boundary, so the yielded
/// segments chain without gaps and the walk from the first boundary to the
/// last covers exactly the whole range.
pub proof fn lemma_segments_chain(s: Segments, k: int)
    requires
        seg_wf(s),
        0 <= k,
        k + 1 <= s.segments,
    ensures
        seg_boundary(s, k + 1) == seg_boundary(s, k) + s.segment_size,
        seg_boundary(s, s.segments as int) - s.from == s.segments * s.segment_size,
{
    assert((k + 1) * s.segment_size == k * s.segment_size + s.segment_size) by (nonlinear_arith);
}

impl Segments {
    /// Yield the next segment: its two boundaries paired with the
    /// endpoint-extended table values there. `None` once all segments are
    /// out, and always `None` for an empty table.
    pub fn next(&mut self) -> (r: Option<((i64, i64), (i64, i64))>)
        requires
            seg_wf(*old(self)),
        ensures
            seg_wf(*final(self)),
            final(self).points == old(self).points,
            final(self).from == old(self).from,
            final(self).segment_size == old(self).segment_size,
            final(self).segments == old(self).segments,
            old(self).current_segment >= old(self).segments ==> r is None && *final(self)
                == *old(self),
            old(self).current_segment < old(self).segments ==> final(self).current_segment
                == old(self).current_segment + 1,
            old(self).current_segment < old(self).segments && old(self).points@.len() == 0
                ==> r is None,
            old(self).current_segment < old(self).segments && old(self).points@.len() > 0 ==> {
                let b0 = seg_boundary(*old(self), old(self).current_segment as int);
                let b1 = seg_boundary(*old(self), old(self).current_segment + 1);
                r == Some(
                    (
                        (b0 as i64, extended_spec(old(self).points@, b0) as i64),
                        (b1 as i64, extended_spec(old(self).points@, b1) as i64),
                    ),
                )
            },
    {
        if self.current_segment >= self.segments {
            return None;
        }
        proof {
            lemma_seg_boundary_ok(*self, self.current_segment as int);
            lemma_seg_boundary_ok(*self, self.current_segment + 1);
            vstd::arithmetic::mul::lemma_mul_nonnegative(
                self.current_segment as int,
                self.segment_size as int,
            );
            assert((self.current_segment + 1) * self.segment_size == self.current_segment
                * self.segment_size + self.segment_size) by (nonlinear_arith);
        }
        let k: i64 = self.current_segment as i64;
        let start: i64 = self.from + k * self.segment_size;
        let end: i64 = start + self.segment_size;
        self.current_segment = self.current_segment + 1;
        if self.points.len() == 0 {
            return None;
        }
        let start_value: i64 = self.extended_lookup(start);
        let end_value: i64 = self.extended_lookup(end);
        Some(((start, start_value), (end, end_value)))
    }

    /// Endpoint-extended lookup on the cursor's own table.
    fn extended_lookup(&self, input: i64) -> (r: i64)
        requires
            points_ok(self.points@),
            fx_ok(input),
        ensures
            r == extended_spec(self.points@, input as int),
            fx_ok(r),
    {
        extended_on(&self.points, input)
    }
}

} // verus!

//! The film: a grid of pixel accumulators.
//!
//! Each exposure carries a wavelength, a brightness and a weight; the film
//! projects it onto the three response curves and accumulates per-channel
//! sums together with an exposure count, so developing a pixel averages
//! its samples and many samples approximate the spectral integral.
//! Contributions that have saturated — the fixed-point stand-in for a
//! non-finite value — are discarded.

use vstd::prelude::*;
use crate::color::{
    red_response_points, green_response_points, blue_response_points, red_response, green_response,
    blue_response, lemma_response_points_ok,
};
use crate::fixed::{
    fx_ok, fx_add, fx_sub, fx_mul, fx_div, fx_add_spec, fx_sub_spec, fx_mul_spec, fx_div_spec,
    FX_ONE, FX_MAX,
};
use crate::spectrum::interp_spec;

verus! {

/// The exposure count a pixel stops counting at.
pub const EXPOSURE_CAP: i64 = 2147483647;

/// The integral of a squared response curve over its support, as a
/// fixed-point wavelength span (the triangles span 130 nm, and a unit
/// triangle integrates its square to a third of that).
pub const RESPONSE_NORM: i64 = 2840917;

/// One radiance sample arriving at a pixel.
#[derive(Clone, Copy, PartialEq, Eq, Structural, Debug)]
pub struct Sample {
    pub wavelength: i64,
    pub brightness: i64,
    pub weight: i64,
}

/// One pixel's accumulator: per-channel sums and the exposure count.
#[derive(Clone, Copy, PartialEq, Eq, Structural, Debug)]
pub struct Pixel {
    pub red: i64,
    pub green: i64,
    pub blue: i64,
    pub count: i64,
}

/// Finite pixel state.
pub open spec fn pixel_ok(p: Pixel) -> bool {
    fx_ok(p.red) && fx_ok(p.green) && fx_ok(p.blue) && 0 <= p.count <= EXPOSURE_CAP
}

/// What a sample contributes before projection: brightness times weight.
pub open spec fn sample_value(s: Sample) -> int {
    fx_mul_spec(s.brightness as int, s.weight as int)
}

/// A contribution counts as finite while it stays strictly inside the
/// saturation bounds.
pub open spec fn contribution_finite(s: Sample) -> bool {
    -FX_MAX < sample_value(s) < FX_MAX
}

/// A count raised by `k` exposures, stopping at the cap.
pub open spec fn bumped(c: i64, k: int) -> i64 {
    if c + k <= EXPOSURE_CAP {
        (c + k) as i64
    } else {
        EXPOSURE_CAP
    }
}

/// Raising a count twice is raising it once by the sum.
pub proof fn lemma_bumped_chain(c: i64, a: int, b: int)
    requires
        0 <= c,
        0 <= a,
        0 <= b,
    ensures
        bumped(bumped(c, a), b) == bumped(c, a + b),
{
}

/// What one exposure does to a pixel: the exposure is always counted (up
/// to the cap), and a finite contribution is projected through the three
/// response curves at the sample's wavelength and added channelwise; a
/// saturated contribution is discarded, adding nothing to the channels.
pub open spec fn exposed_pixel(p: Pixel, s: Sample) -> Pixel {
    if contribution_finite(s) {
        let v = sample_value(s);
        Pixel {
            red: fx_add_spec(
                p.red as int,
                fx_mul_spec(v, interp_spec(red_response_points(), s.wavelength as int)),
            ) as i64,
            green: fx_add_spec(
                p.green as int,
                fx_mul_spec(v, interp_spec(green_response_points(), s.wavelength as int)),
            ) as i64,
            blue: fx_add_spec(
                p.blue as int,
                fx_mul_spec(v, interp_spec(blue_response_points(), s.wavelength as int)),
            ) as i64,
            count: bumped(p.count, 1),
        }
    } else {
        Pixel { count: bumped(p.count, 1), ..p }
    }
}

/// What developing a pixel channel yields: the accumulated sum averaged
/// over the exposures, rescaled by the sampled span against the response
/// normalization.
pub open spec fn developed_channel(sum: int, count: int, span: int) -> int {
    if count == 0 {
        0
    } else {
        fx_div_spec(fx_div_spec(fx_mul_spec(sum, span), RESPONSE_NORM as int), count * 65536)
    }
}

/// What merging two pixel accumulators yields: saturating channel sums
/// and a capped count sum.
pub open spec fn merged_pixel(a: Pixel, b: Pixel) -> Pixel {
    Pixel {
        red: fx_add_spec(a.red as int, b.red as int) as i64,
        green: fx_add_spec(a.green as int, b.green as int) as i64,
        blue: fx_add_spec(a.blue as int, b.blue as int) as i64,
        count: bumped(a.count, b.count as int),
    }
}

/// Clamp a linear channel value to an eight-bit level.
pub open spec fn clamp_channel_spec(value: int) -> int {
    if value >= FX_ONE {
        255
    } else if value <= 0 {
        0
    } else {
        (value * 255) / 65536
    }
}

/// Clamp a linear channel value to an eight-bit level.
pub fn clamp_channel(value: i64) -> (r: u8)
    requires
        fx_ok(value),
    ensures
        r == clamp_channel_spec(value as int),
{
    if value >= FX_ONE {
        255
    } else if value <= 0 {
        0
    } else {
        let scaled: u64 = (value as u64) * 255 / 65536;
        proof {
            assert((value as int) * 255 / 65536 < 255) by (nonlinear_arith)
                requires
                    0 < value < 65536,
            ;
            vstd::arithmetic::div_mod::lemma_div_pos_is_pos((value as int) * 255, 65536);
            assert((value as int) * 255 >= 0) by (nonlinear_arith)
                requires
                    value > 0,
            ;
        }
        scaled as u8
    }
}

/// The film: a grid of pixels and the wavelength range it samples.
pub struct Film {
    pub width: usize,
    pub height: usize,
    pub min_wavelength: i64,
    pub max_wavelength: i64,
    pub pixels: Vec<Pixel>,
}

/// Well-formed film: the grid is fully allocated, every pixel finite, and
/// the wavelength range nonempty and finite.
pub open spec fn film_wf(f: Film) -> bool {
    &&& f.pixels@.len() == f.width * f.height
    &&& f.width <= 0xffff
    &&& f.height <= 0xffff
    &&& fx_ok(f.min_wavelength)
    &&& fx_ok(f.max_wavelength)
    &&& f.min_wavelength < f.max_wavelength
    &&& forall|i: int| 0 <= i < f.pixels@.len() ==> pixel_ok(#[trigger] f.pixels@[i])
}

impl Film {
    /// A film of dark pixels.
    pub fn new(width: usize, height: usize, min_wavelength: i64, max_wavelength: i64) -> (r: Film)
        requires
            width <= 0xffff,
            height <= 0xffff,
            fx_ok(min_wavelength),
            fx_ok(max_wavelength),
            min_wavelength < max_wavelength,
        ensures
            film_wf(r),
            r.width == width,
            r.height == height,
            r.min_wavelength == min_wavelength,
            r.max_wavelength == max_wavelength,
            forall|i: int|
                0 <= i < r.pixels@.len() ==> #[trigger] r.pixels@[i] == (Pixel {
                    red: 0i64,
                    green: 0i64,
                    blue: 0i64,
                    count: 0i64,
                }),
    {
        proof {
            assert(width * height <= 0xffff * 0xffff) by (nonlinear_arith)
                requires
                    width <= 0xffff,
                    height <= 0xffff,
            ;
        }
        let total: usize = width * height;
        let mut pixels: Vec<Pixel> = Vec::new();
        let mut i: usize = 0;
        while i < total
            invariant
                i <= total,
                pixels@.len() == i,
                forall|j: int|
                    0 <= j < i ==> #[trigger] pixels@[j] == (Pixel {
                        red: 0i64,
                        green: 0i64,
                        blue: 0i64,
                        count: 0i64,
                    }),
            decreases total - i,
        {
            pixels.push(Pixel { red: 0, green: 0, blue: 0, count: 0 });
            i = i + 1;
        }
        Film { width, height, min_wavelength, max_wavelength, pixels }
    }

    /// A wavelength drawn from the film's range.
    pub fn sample_wavelength(&self, rng: &mut rand_xorshift::XorShiftRng) -> (r: i64)
        requires
            film_wf(*self),
        ensures
            self.min_wavelength <= r < self.max_wavelength,
            fx_ok(r),
    {
        let span: u64 = (self.max_wavelength - self.min_wavelength) as u64;
        let u: u32 = crate::rng::rng_next_u32(rng);
        let off: u64 = (u as u64) % span;
        self.min_wavelength + (off as i64)
    }

    /// Deposit one sample into the pixel at `(x, y)`.
    #[verifier::rlimit(100)]
    pub fn expose(&mut self, x: usize, y: usize, sample: Sample)
        requires
            film_wf(*old(self)),
            x < old(self).width,
            y < old(self).height,
            fx_ok(sample.wavelength),
            fx_ok(sample.brightness),
            fx_ok(sample.weight),
        ensures
            film_wf(*final(self)),
            final(self).width == old(self).width,
            final(self).height == old(self).height,
            final(self).min_wavelength == old(self).min_wavelength,
            final(self).max_wavelength == old(self).max_wavelength,
            final(self).pixels@.len() == old(self).pixels@.len(),
            final(self).pixels@[y * old(self).width + x] == exposed_pixel(
                old(self).pixels@[y * old(self).width + x],
                sample,
            ),
            forall|i: int|
                0 <= i < final(self).pixels@.len() && i != y * old(self).width + x
                    ==> #[trigger] final(self).pixels@[i] == old(self).pixels@[i],
    {
        proof {
            assert(y * self.width + x < self.width * self.height && self.width * self.height
                <= 0xffff * 0xffff) by (nonlinear_arith)
                requires
                    x < self.width,
                    y < self.height,
                    self.width <= 0xffff,
                    self.height <= 0xffff,
            ;
            lemma_response_points_ok();
        }
        let idx: usize = y * self.width + x;
        let value: i64 = fx_mul(sample.brightness, sample.weight);
        let p: Pixel = self.pixels[idx];
        let counted: i64 = if p.count < EXPOSURE_CAP {
            p.count + 1
        } else {
            p.count
        };
        if value > -FX_MAX && value < FX_MAX {
            let rr = red_response();
            let gr = green_response();
            let br = blue_response();
            let updated = Pixel {
                red: fx_add(p.red, fx_mul(value, rr.get(sample.wavelength))),
                green: fx_add(p.green, fx_mul(value, gr.get(sample.wavelength))),
                blue: fx_add(p.blue, fx_mul(value, br.get(sample.wavelength))),
                count: counted,
            };
            self.pixels.set(idx, updated);
        } else {
            self.pixels.set(idx, Pixel { count: counted, ..p });
        }
    }

    /// Merge another film of the same shape into this one: channel sums
    /// add with saturation and exposure counts add up to the cap, so two
    /// films rendered over disjoint tiles combine into the whole.
    pub fn merge(&mut self, other: &Film)
        requires
            film_wf(*old(self)),
            film_wf(*other),
            old(self).width == other.width,
            old(self).height == other.height,
            old(self).min_wavelength == other.min_wavelength,
            old(self).max_wavelength == other.max_wavelength,
        ensures
            film_wf(*final(self)),
            final(self).width == old(self).width,
            final(self).height == old(self).height,
            final(self).min_wavelength == old(self).min_wavelength,
            final(self).max_wavelength == old(self).max_wavelength,
            final(self).pixels@.len() == old(self).pixels@.len(),
            forall|i: int|
                0 <= i < final(self).pixels@.len() ==> #[trigger] final(self).pixels@[i]
                    == merged_pixel(old(self).pixels@[i], other.pixels@[i]),
    {
        let n: usize = self.pixels.len();
        let mut i: usize = 0;
        while i < n
            invariant
                i <= n,
                n == self.pixels@.len(),
                n == old(self).pixels@.len(),
                n == other.pixels@.len(),
                self.width == old(self).width,
                self.height == old(self).height,
                self.min_wavelength == old(self).min_wavelength,
                self.max_wavelength == old(self).max_wavelength,
                film_wf(*other),
                fx_ok(self.min_wavelength),
                fx_ok(self.max_wavelength),
                self.min_wavelength < self.max_wavelength,
                self.width <= 0xffff,
                self.height <= 0xffff,
                self.pixels@.len() == self.width * self.height,
                forall|k: int| 0 <= k < n ==> pixel_ok(#[trigger] old(self).pixels@[k]),
                forall|k: int| i <= k < n ==> #[trigger] self.pixels@[k] == old(self).pixels@[k],
                forall|k: int|
                    0 <= k < i ==> #[trigger] self.pixels@[k] == merged_pixel(
                        old(self).pixels@[k],
                        other.pixels@[k],
                    ),
                forall|k: int| 0 <= k < i ==> pixel_ok(#[trigger] self.pixels@[k]),
            decreases n - i,
        {
            let a: Pixel = self.pixels[i];
            let b: Pixel = other.pixels[i];
            let combined = Pixel {
                red: fx_add(a.red, b.red),
                green: fx_add(a.green, b.green),
                blue: fx_add(a.blue, b.blue),
                count: if a.count + b.count <= EXPOSURE_CAP {
                    a.count + b.count
                } else {
                    EXPOSURE_CAP
                },
            };
            self.pixels.set(i, combined);
            i = i + 1;
        }
    }

    /// Develop the film: one clamped eight-bit RGB triple per pixel, row
    /// by row.
    pub fn develop(&self) -> (r: Vec<(u8, u8, u8)>)
        requires
            film_wf(*self),
        ensures
            r@.len() == self.pixels@.len(),
            forall|i: int|
                0 <= i < r@.len() ==> #[trigger] r@[i] == (
                    clamp_channel_spec(
                        developed_channel(
                            self.pixels@[i].red as int,
                            self.pixels@[i].count as int,
                            fx_sub_spec(self.max_wavelength as int, self.min_wavelength as int),
                        ),
                    ) as u8,
                    clamp_channel_spec(
                        developed_channel(
                            self.pixels@[i].green as int,
                            self.pixels@[i].count as int,
                            fx_sub_spec(self.max_wavelength as int, self.min_wavelength as int),
                        ),
                    ) as u8,
                    clamp_channel_spec(
                        developed_channel(
                            self.pixels@[i].blue as int,
                            self.pixels@[i].count as int,
                            fx_sub_spec(self.max_wavelength as int, self.min_wavelength as int),
                        ),
                    ) as u8,
                ),
    {
        let span: i64 = fx_sub(self.max_wavelength, self.min_wavelength);
        let n: usize = self.pixels.len();
        let mut out: Vec<(u8, u8, u8)> = Vec::new();
        let mut i: usize = 0;
        while i < n
            invariant
                i <= n,
                n == self.pixels@.len(),
                film_wf(*self),
                span == fx_sub_spec(self.max_wavelength as int, self.min_wavelength as int),
                fx_ok(span),
                out@.len() == i,
                forall|j: int|
                    0 <= j < i ==> #[trigger] out@[j] == (
                        clamp_channel_spec(
                            developed_channel(
                                self.pixels@[j].red as int,
                                self.pixels@[j].count as int,
                                span as int,
                            ),
                        ) as u8,
                        clamp_channel_spec(
                            developed_channel(
                                self.pixels@[j].green as int,
                                self.pixels@[j].count as int,
                                span as int,
                            ),
                        ) as u8,
                        clamp_channel_spec(
                            developed_channel(
                                self.pixels@[j].blue as int,
                                self.pixels@[j].count as int,
                                span as int,
                            ),
                        ) as u8,
                    ),
            decreases n - i,
        {
            let p: Pixel = self.pixels[i];
            let red: u8 = develop_channel(p.red, p.count, span);
            let green: u8 = develop_channel(p.green, p.count, span);
            let blue: u8 = develop_channel(p.blue, p.count, span);
            out.push((red, green, blue));
            i = i + 1;
        }
        out
    }
}

/// Develop one channel: average, rescale, clamp.
fn develop_channel(sum: i64, count: i64, span: i64) -> (r: u8)
    requires
        fx_ok(sum),
        0 <= count <= EXPOSURE_CAP,
        fx_ok(span),
    ensures
        r == clamp_channel_spec(developed_channel(sum as int, count as int, span as int)),
{
    if count == 0 {
        return clamp_channel(0);
    }
    let count_fx: i64 = count * 65536;
    let averaged: i64 = fx_div(fx_div(fx_mul(sum, span), RESPONSE_NORM), count_fx);
    clamp_channel(averaged)
}

} // verus!

//! The tile renderer: settings, the camera, tile partitioning, and the
//! per-tile sampling loop.
//!
//! Work is split into square tiles clipped at the image edges; each tile
//! is rendered with its own generator, so tiles can be handed to parallel
//! workers whose pixel writes never overlap.

use vstd::prelude::*;
use crate::film::{Film, Sample, film_wf};
use crate::fixed::{fx_ok, fx_sub, fx_mul, fx_div, FX_ONE, FX_TWO};
use crate::tracer::{World, world_wf, trace, WavelengthSample};
use crate::vector::{Vec3, Ray3, vec3_ok, ray3_ok, add_spec, scale_spec, normalize_spec};

verus! {

/// The renderer's configuration.
pub struct Renderer {
    /// Worker count a driver should use.
    pub threads: usize,
    /// Square tile edge, in pixels.
    pub tile_size: usize,
    /// Samples per pixel.
    pub pixel_samples: usize,
    /// Wavelengths per sample.
    pub spectrum_samples: usize,
    /// Longest path length.
    pub bounces: usize,
    /// Shadow rays per direct-light estimate.
    pub light_samples: usize,
}

/// Workable settings: at least one wavelength per sample, and counts
/// small enough for the sampling weights.
pub open spec fn renderer_wf(r: Renderer) -> bool {
    &&& 1 <= r.tile_size
    &&& 1 <= r.spectrum_samples <= 256
    &&& r.pixel_samples <= 0x10000
    &&& r.light_samples <= 0x10000
    &&& r.bounces <= 0x10000
}

/// A rectangular screen region.
#[derive(Clone, Copy, PartialEq, Eq, Structural, Debug)]
pub struct Tile {
    pub x: usize,
    pub y: usize,
    pub width: usize,
    pub height: usize,
}

/// The tile a grid position holds: tiles fill row by row, each
/// `tile_size` square, clipped at the right and bottom edges.
pub open spec fn tile_at(i: int, width: int, height: int, ts: int) -> Tile {
    let cols = (width + ts - 1) / ts;
    let cx = i % cols;
    let cy = i / cols;
    let x = cx * ts;
    let y = cy * ts;
    Tile {
        x: x as usize,
        y: y as usize,
        width: (if x + ts <= width {
            ts
        } else {
            width - x
        }) as usize,
        height: (if y + ts <= height {
            ts
        } else {
            height - y
        }) as usize,
    }
}

/// Cut an image into tiles: row-major squares of edge `tile_size`,
/// clipped at the image edges. Every pixel of the image lies in exactly
/// one tile.
pub fn make_tiles(width: usize, height: usize, tile_size: usize) -> (r: Vec<Tile>)
    requires
        1 <= tile_size <= 0xffff,
        1 <= width <= 0xffff,
        1 <= height <= 0xffff,
    ensures
        r@.len() == ((width as int + tile_size as int - 1) / (tile_size as int)) * ((height as int
            + tile_size as int - 1) / (tile_size as int)),
        forall|i: int|
            0 <= i < r@.len() ==> #[trigger] r@[i] == tile_at(
                i,
                width as int,
                height as int,
                tile_size as int,
            ),
{
    let cols: usize = (width + tile_size - 1) / tile_size;
    let rows: usize = (height + tile_size - 1) / tile_size;
    proof {
        vstd::arithmetic::div_mod::lemma_div_is_ordered_by_denominator(
            (width + tile_size - 1) as int,
            1,
            tile_size as int,
        );
        vstd::arithmetic::div_mod::lemma_div_is_ordered_by_denominator(
            (height + tile_size - 1) as int,
            1,
            tile_size as int,
        );
        vstd::arithmetic::div_mod::lemma_div_basics((width + tile_size - 1) as int);
        vstd::arithmetic::div_mod::lemma_div_basics((height + tile_size - 1) as int);
        assert(cols <= 0x2_0000);
        assert(rows <= 0x2_0000);
        assert(cols * rows <= 0x2_0000 * 0x2_0000) by (nonlinear_arith)
            requires
                cols <= 0x2_0000,
                rows <= 0x2_0000,
        ;
    }
    let mut out: Vec<Tile> = Vec::new();
    let mut cy: usize = 0;
    while cy < rows
        invariant
            cy <= rows,
            cols == (width + tile_size - 1) / (tile_size as int),
            rows == (height + tile_size - 1) / (tile_size as int),
            1 <= tile_size <= 0xffff,
            1 <= width <= 0xffff,
            1 <= height <= 0xffff,
            cols <= 0x2_0000,
            rows <= 0x2_0000,
            out@.len() == cy * cols,
            forall|i: int|
                0 <= i < out@.len() ==> #[trigger] out@[i] == tile_at(
                    i,
                    width as int,
                    height as int,
                    tile_size as int,
                ),
        decreases rows - cy,
    {
        let mut cx: usize = 0;
        while cx < cols
            invariant
                cy < rows,
                cx <= cols,
                cols == (width + tile_size - 1) / (tile_size as int),
                rows == (height + tile_size - 1) / (tile_size as int),
                1 <= tile_size <= 0xffff,
                1 <= width <= 0xffff,
                1 <= height <= 0xffff,
                cols <= 0x2_0000,
                rows <= 0x2_0000,
                out@.len() == cy * cols + cx,
                forall|i: int|
                    0 <= i < out@.len() ==> #[trigger] out@[i] == tile_at(
                        i,
                        width as int,
                        height as int,
                        tile_size as int,
                    ),
            decreases cols - cx,
        {
            proof {
                assert(cy * cols + cx < rows * cols && cy * tile_size < height && cx * tile_size
                    < width && cy * tile_size <= 0xffff * 0xffff && cx * tile_size <= 0xffff
                    * 0xffff) by (nonlinear_arith)
                    requires
                        cy < rows,
                        cx < cols,
                        1 <= tile_size <= 0xffff,
                        cols == (width + tile_size - 1) / (tile_size as int),
                        rows == (height + tile_size - 1) / (tile_size as int),
                        1 <= width <= 0xffff,
                        1 <= height <= 0xffff,
                        cols <= 0x2_0000,
                        rows <= 0x2_0000,
                ;
            }
            let x: usize = cx * tile_size;
            let y: usize = cy * tile_size;
            let w: usize = if x + tile_size <= width {
                tile_size
            } else {
                width - x
            };
            let h: usize = if y + tile_size <= height {
                tile_size
            } else {
                height - y
            };
            let tile = Tile { x, y, width: w, height: h };
            proof {
                let i = (cy * cols + cx) as int;
                vstd::arithmetic::div_mod::lemma_fundamental_div_mod_converse(
                    i,
                    cols as int,
                    cy as int,
                    cx as int,
                );
                assert(tile == tile_at(i, width as int, height as int, tile_size as int));
            }
            out.push(tile);
            cx = cx + 1;
        }
        proof {
            assert(cy * cols + cols == (cy + 1) * cols) by (nonlinear_arith);
        }
        cy = cy + 1;
    }
    proof {
        assert(rows * cols == cols * rows) by (nonlinear_arith);
    }
    out
}

/// A pinhole camera: a position, a viewing basis, and an image plane one
/// unit ahead spanned by the scaled right and up vectors.
pub struct Camera {
    pub position: Vec3,
    pub forward: Vec3,
    pub right: Vec3,
    pub up: Vec3,
}

/// Finite camera geometry.
pub open spec fn camera_wf(c: Camera) -> bool {
    vec3_ok(c.position) && vec3_ok(c.forward) && vec3_ok(c.right) && vec3_ok(c.up)
}

/// What a camera ray is: from the position, through the plane point the
/// normalized screen coordinates pick.
pub open spec fn ray_towards_spec(c: Camera, sx: int, sy: int) -> Ray3 {
    Ray3 {
        origin: c.position,
        direction: normalize_spec(
            add_spec(add_spec(c.forward, scale_spec(c.right, sx)), scale_spec(c.up, sy)),
        ),
    }
}

impl Camera {
    /// The ray through normalized screen coordinates `(sx, sy)`, each in
    /// units of the image half-extent.
    pub fn ray_towards(&self, sx: i64, sy: i64) -> (r: Ray3)
        requires
            camera_wf(*self),
            fx_ok(sx),
            fx_ok(sy),
        ensures
            r == ray_towards_spec(*self, sx as int, sy as int),
            ray3_ok(r),
    {
        let plane: Vec3 = self.forward.add(&self.right.scale(sx)).add(&self.up.scale(sy));
        Ray3::new(self.position, plane.normalize())
    }
}

/// The coordinate pair lies inside the tile.
pub open spec fn in_tile(t: Tile, px: int, py: int) -> bool {
    t.x <= px < t.x + t.width && t.y <= py < t.y + t.height
}

/// The row-major position of a tile coordinate within its tile.
pub open spec fn tile_pos(t: Tile, px: int, py: int) -> int {
    (py - t.y) * t.width + (px - t.x)
}

/// A row-major pixel index stays inside the grid.
proof fn lemma_pixel_index_bound(w: int, h: int, qx: int, qy: int)
    requires
        0 <= qx < w,
        0 <= qy < h,
    ensures
        0 <= qy * w + qx < w * h,
{
    assert(qy * w + qx < w * h) by (nonlinear_arith)
        requires
            0 <= qx < w,
            0 <= qy < h,
    ;
    assert(0 <= qy * w + qx) by (nonlinear_arith)
        requires
            0 <= qx,
            0 <= qy,
            0 < w,
    ;
}

/// Row-major pixel indexing is injective.
proof fn lemma_pixel_index_injective(w: int, ax: int, ay: int, bx: int, by: int)
    requires
        0 < w,
        0 <= ax < w,
        0 <= bx < w,
        0 <= ay,
        0 <= by,
        ay * w + ax == by * w + bx,
    ensures
        ax == bx,
        ay == by,
{
    vstd::arithmetic::div_mod::lemma_fundamental_div_mod_converse(ay * w + ax, w, ay, ax);
    vstd::arithmetic::div_mod::lemma_fundamental_div_mod_converse(by * w + bx, w, by, bx);
}

/// Render one tile: for every pixel of the tile, `pixel_samples` camera
/// rays are traced at freshly drawn wavelengths and every finished sample
/// is exposed onto the film at that pixel.
///
/// The film keeps its shape; pixels outside the tile stand exactly as
/// they were; and every pixel inside the tile counts exactly
/// `pixel_samples * spectrum_samples` new exposures (up to the cap),
/// because each trace finishes one sample per drawn wavelength.
#[verifier::loop_isolation(false)]
pub fn render_tile(
    film: &mut Film,
    tile: Tile,
    camera: &Camera,
    world: &World,
    renderer: &Renderer,
    rng: &mut rand_xorshift::XorShiftRng,
)
    requires
        film_wf(*old(film)),
        tile.x + tile.width <= old(film).width,
        tile.y + tile.height <= old(film).height,
        camera_wf(*camera),
        world_wf(*world),
        renderer_wf(*renderer),
    ensures
        film_wf(*final(film)),
        final(film).width == old(film).width,
        final(film).height == old(film).height,
        final(film).min_wavelength == old(film).min_wavelength,
        final(film).max_wavelength == old(film).max_wavelength,
        final(film).pixels@.len() == old(film).pixels@.len(),
        forall|qx: int, qy: int|
            0 <= qx < old(film).width && 0 <= qy < old(film).height && !in_tile(tile, qx, qy)
                ==> #[trigger] final(film).pixels@[qy * old(film).width + qx] == old(
                film,
            ).pixels@[qy * old(film).width + qx],
        forall|qx: int, qy: int|
            0 <= qx < old(film).width && 0 <= qy < old(film).height && in_tile(tile, qx, qy)
                ==> (#[trigger] final(film).pixels@[qy * old(film).width + qx]).count
                == crate::film::bumped(
                old(film).pixels@[qy * old(film).width + qx].count,
                renderer.pixel_samples * renderer.spectrum_samples,
            ),
{
    let ghost pix0 = old(film).pixels@;
    let ghost fw = old(film).width as int;
    let ghost fh = old(film).height as int;
    let ghost budget = renderer.pixel_samples * renderer.spectrum_samples;
    let width_fx: i64 = (film.width as i64) * 65536;
    let height_fx: i64 = (film.height as i64) * 65536;
    let mut py: usize = 0;
    while py < tile.height
        invariant
            py <= tile.height,
            film_wf(*film),
            film.width == old(film).width,
            film.height == old(film).height,
            film.min_wavelength == old(film).min_wavelength,
            film.max_wavelength == old(film).max_wavelength,
            film.pixels@.len() == pix0.len(),
            tile.x + tile.width <= film.width,
            tile.y + tile.height <= film.height,
            camera_wf(*camera),
            world_wf(*world),
            renderer_wf(*renderer),
            width_fx == film.width * 65536,
            height_fx == film.height * 65536,
            forall|qx: int, qy: int|
                0 <= qx < fw && 0 <= qy < fh && !(in_tile(tile, qx, qy) && tile_pos(tile, qx, qy)
                    < py * tile.width) ==> #[trigger] film.pixels@[qy * fw + qx] == pix0[qy * fw
                    + qx],
            forall|qx: int, qy: int|
                0 <= qx < fw && 0 <= qy < fh && in_tile(tile, qx, qy) && tile_pos(tile, qx, qy)
                    < py * tile.width ==> (#[trigger] film.pixels@[qy * fw + qx]).count
                    == crate::film::bumped(pix0[qy * fw + qx].count, budget),
        decreases tile.height - py,
    {
        let mut px: usize = 0;
        while px < tile.width
            invariant
                py < tile.height,
                px <= tile.width,
                film_wf(*film),
                film.width == old(film).width,
                film.height == old(film).height,
                film.min_wavelength == old(film).min_wavelength,
                film.max_wavelength == old(film).max_wavelength,
                film.pixels@.len() == pix0.len(),
                tile.x + tile.width <= film.width,
                tile.y + tile.height <= film.height,
                camera_wf(*camera),
                world_wf(*world),
                renderer_wf(*renderer),
                width_fx == film.width * 65536,
                height_fx == film.height * 65536,
                forall|qx: int, qy: int|
                    0 <= qx < fw && 0 <= qy < fh && !(in_tile(tile, qx, qy) && tile_pos(
                        tile,
                        qx,
                        qy,
                    ) < py * tile.width + px) ==> #[trigger] film.pixels@[qy * fw + qx] == pix0[qy
                        * fw + qx],
                forall|qx: int, qy: int|
                    0 <= qx < fw && 0 <= qy < fh && in_tile(tile, qx, qy) && tile_pos(tile, qx, qy)
                        < py * tile.width + px ==> (#[trigger] film.pixels@[qy * fw + qx]).count
                        == crate::film::bumped(pix0[qy * fw + qx].count, budget),
            decreases tile.width - px,
        {
            let gx: usize = tile.x + px;
            let gy: usize = tile.y + py;
            let ghost done = py * tile.width + px;
            proof {
                lemma_pixel_index_bound(fw, fh, gx as int, gy as int);
                assert(tile_pos(tile, gx as int, gy as int) == done);
                assert(in_tile(tile, gx as int, gy as int));
                assert(film.pixels@[gy as int * fw + gx as int] == pix0[gy as int * fw
                    + gx as int]);
                assert(crate::film::pixel_ok(pix0[gy as int * fw + gx as int]));
            }
            let mut s: usize = 0;
            while s < renderer.pixel_samples
                invariant
                    s <= renderer.pixel_samples,
                    gx < film.width,
                    gy < film.height,
                    gx == tile.x + px,
                    gy == tile.y + py,
                    px < tile.width,
                    py < tile.height,
                    done == py * tile.width + px,
                    film_wf(*film),
                    film.width == old(film).width,
                    film.height == old(film).height,
                    film.min_wavelength == old(film).min_wavelength,
                    film.max_wavelength == old(film).max_wavelength,
                    film.pixels@.len() == pix0.len(),
                    tile.x + tile.width <= film.width,
                    tile.y + tile.height <= film.height,
                    camera_wf(*camera),
                    world_wf(*world),
                    renderer_wf(*renderer),
                    width_fx == film.width * 65536,
                    height_fx == film.height * 65536,
                    forall|qx: int, qy: int|
                        0 <= qx < fw && 0 <= qy < fh && !(in_tile(tile, qx, qy) && tile_pos(
                            tile,
                            qx,
                            qy,
                        ) < done) && !(qx == gx && qy == gy) ==> #[trigger] film.pixels@[qy * fw
                            + qx] == pix0[qy * fw + qx],
                    forall|qx: int, qy: int|
                        0 <= qx < fw && 0 <= qy < fh && in_tile(tile, qx, qy) && tile_pos(
                            tile,
                            qx,
                            qy,
                        ) < done ==> (#[trigger] film.pixels@[qy * fw + qx]).count
                            == crate::film::bumped(pix0[qy * fw + qx].count, budget),
                    (film.pixels@[gy as int * fw + gx as int]).count == crate::film::bumped(
                        pix0[gy as int * fw + gx as int].count,
                        s * renderer.spectrum_samples,
                    ),
                decreases renderer.pixel_samples - s,
            {
                let mut wavelengths: Vec<i64> = Vec::new();
                let mut w: usize = 0;
                while w < renderer.spectrum_samples
                    invariant
                        w <= renderer.spectrum_samples,
                        film_wf(*film),
                        wavelengths@.len() == w,
                        forall|k: int|
                            0 <= k < wavelengths@.len() ==> fx_ok(#[trigger] wavelengths@[k]),
                    decreases renderer.spectrum_samples - w,
                {
                    let wl: i64 = film.sample_wavelength(rng);
                    wavelengths.push(wl);
                    w = w + 1;
                }
                proof {
                    assert(gx * 65536 + 65536 <= 0xffff * 65536 + 65536 && gy * 65536 + 65536
                        <= 0xffff * 65536 + 65536) by (nonlinear_arith)
                        requires
                            gx <= 0xffff,
                            gy <= 0xffff,
                    ;
                }
                let jitter_x: i64 = crate::rng::next_float(rng);
                let jitter_y: i64 = crate::rng::next_float(rng);
                let fx_x: i64 = (gx as i64) * 65536 + jitter_x;
                let fx_y: i64 = (gy as i64) * 65536 + jitter_y;
                let sx: i64 = fx_sub(fx_div(fx_mul(fx_x, FX_TWO), width_fx), FX_ONE);
                let sy: i64 = fx_sub(fx_div(fx_mul(fx_y, FX_TWO), height_fx), FX_ONE);
                let ray: Ray3 = camera.ray_towards(sx, sy);
                let ghost ss = wavelengths@.len();
                let finished: Vec<WavelengthSample> = trace(
                    rng,
                    ray,
                    wavelengths,
                    world,
                    renderer.bounces,
                    renderer.light_samples,
                );
                let ghost count_base = (film.pixels@[gy as int * fw + gx as int]).count;
                let mut f: usize = 0;
                while f < finished.len()
                    invariant
                        f <= finished@.len(),
                        finished@.len() == ss,
                        gx < film.width,
                        gy < film.height,
                        done == py * tile.width + px,
                        film_wf(*film),
                        film.width == old(film).width,
                        film.height == old(film).height,
                        film.min_wavelength == old(film).min_wavelength,
                        film.max_wavelength == old(film).max_wavelength,
                        film.pixels@.len() == pix0.len(),
                        forall|k: int|
                            0 <= k < finished@.len() ==> crate::tracer::ws_ok(
                                #[trigger] finished@[k],
                            ),
                        forall|qx: int, qy: int|
                            0 <= qx < fw && 0 <= qy < fh && !(in_tile(tile, qx, qy) && tile_pos(
                                tile,
                                qx,
                                qy,
                            ) < done) && !(qx == gx && qy == gy) ==> #[trigger] film.pixels@[qy
                                * fw + qx] == pix0[qy * fw + qx],
                        forall|qx: int, qy: int|
                            0 <= qx < fw && 0 <= qy < fh && in_tile(tile, qx, qy) && tile_pos(
                                tile,
                                qx,
                                qy,
                            ) < done ==> (#[trigger] film.pixels@[qy * fw + qx]).count
                                == crate::film::bumped(pix0[qy * fw + qx].count, budget),
                        (film.pixels@[gy as int * fw + gx as int]).count == crate::film::bumped(
                            count_base,
                            f as int,
                        ),
                        count_base == crate::film::bumped(
                            pix0[gy as int * fw + gx as int].count,
                            s * renderer.spectrum_samples,
                        ),
                        0 <= count_base,
                    decreases finished@.len() - f,
                {
                    let ghost before = film.pixels@;
                    let ws: WavelengthSample = finished[f];
                    film.expose(
                        gx,
                        gy,
                        Sample {
                            wavelength: ws.wavelength,
                            brightness: ws.brightness,
                            weight: ws.weight,
                        },
                    );
                    proof {
                        crate::film::lemma_bumped_chain(count_base, f as int, 1);
                        assert forall|qx: int, qy: int|
                            0 <= qx < fw && 0 <= qy < fh && !(in_tile(tile, qx, qy) && tile_pos(
                                tile,
                                qx,
                                qy,
                            ) < done) && !(qx == gx && qy == gy) implies #[trigger] film.pixels@[qy
                                * fw + qx] == pix0[qy * fw + qx] by {
                            lemma_pixel_index_bound(fw, fh, qx, qy);
                            lemma_pixel_index_bound(fw, fh, gx as int, gy as int);
                            if qy * fw + qx == gy as int * fw + gx as int {
                                lemma_pixel_index_injective(
                                    fw,
                                    qx,
                                    qy,
                                    gx as int,
                                    gy as int,
                                );
                            } else {
                                assert(film.pixels@[qy * fw + qx] == before[qy * fw + qx]);
                            }
                        }
                        assert forall|qx: int, qy: int|
                            0 <= qx < fw && 0 <= qy < fh && in_tile(tile, qx, qy) && tile_pos(
                                tile,
                                qx,
                                qy,
                            ) < done implies (#[trigger] film.pixels@[qy * fw + qx]).count
                            == crate::film::bumped(pix0[qy * fw + qx].count, budget) by {
                            lemma_pixel_index_bound(fw, fh, qx, qy);
                            lemma_pixel_index_bound(fw, fh, gx as int, gy as int);
                            if qy * fw + qx == gy as int * fw + gx as int {
                                lemma_pixel_index_injective(fw, qx, qy, gx as int, gy as int);
                                assert(tile_pos(tile, gx as int, gy as int) == done);
                            } else {
                                assert(film.pixels@[qy * fw + qx] == before[qy * fw + qx]);
                            }
                        }
                    }
                    f = f + 1;
                }
                proof {
                    crate::film::lemma_bumped_chain(
                        pix0[gy as int * fw + gx as int].count,
                        s * renderer.spectrum_samples,
                        ss as int,
                    );
                    assert((s + 1) * renderer.spectrum_samples == s * renderer.spectrum_samples
                        + renderer.spectrum_samples) by (nonlinear_arith);
                }
                s = s + 1;
            }
            proof {
                assert forall|qx: int, qy: int|
                    0 <= qx < fw && 0 <= qy < fh && !(in_tile(tile, qx, qy) && tile_pos(
                        tile,
                        qx,
                        qy,
                    ) < done + 1) implies #[trigger] film.pixels@[qy * fw + qx] == pix0[qy * fw
                        + qx] by {
                    lemma_pixel_index_bound(fw, fh, qx, qy);
                    lemma_pixel_index_bound(fw, fh, gx as int, gy as int);
                    if qx == gx && qy == gy {
                        assert(tile_pos(tile, qx, qy) == done);
                    }
                }
                assert forall|qx: int, qy: int|
                    0 <= qx < fw && 0 <= qy < fh && in_tile(tile, qx, qy) && tile_pos(tile, qx, qy)
                        < done + 1 implies (#[trigger] film.pixels@[qy * fw + qx]).count
                    == crate::film::bumped(pix0[qy * fw + qx].count, budget) by {
                    lemma_pixel_index_bound(fw, fh, qx, qy);
                    lemma_pixel_index_bound(fw, fh, gx as int, gy as int);
                    if tile_pos(tile, qx, qy) == done {
                        assert((qy - tile.y) * tile.width + (qx - tile.x) == (py as int)
                            * tile.width + px as int);
                        lemma_pixel_index_injective(
                            tile.width as int,
                            qx - tile.x,
                            qy - tile.y,
                            px as int,
                            py as int,
                        );
                        assert(qx == gx && qy == gy);
                    }
                }
            }
            px = px + 1;
        }
        proof {
            assert(py * tile.width + tile.width == (py + 1) * tile.width) by (nonlinear_arith);
        }
        py = py + 1;
    }
    proof {
        assert forall|qx: int, qy: int|
            0 <= qx < fw && 0 <= qy < fh && in_tile(tile, qx, qy) implies tile_pos(tile, qx, qy)
            < tile.height * tile.width by {
            assert((qy - tile.y) * tile.width <= (tile.height - 1) * tile.width && (tile.height - 1)
                * tile.width + tile.width == tile.height * tile.width) by (nonlinear_arith)
                requires
                    tile.y <= qy < tile.y + tile.height,
            ;
        }
    }
}

} // verus!

//! The render scheduler: partitioning the image into row bands, rendering
//! each band, and reassembling the final byte stream.
//!
//! Band plans, band buffers, and the extracted bytes are all modeled as
//! spec-level sequences, so that what the merged image holds is stated
//! cell by cell. Running the bands concurrently changes nothing the model
//! can see: each band is a pure function of the shared read-only scene,
//! and the merge concatenates the bands in submission order.

use crate::draw::Color;
use crate::mat::Matrix;
use crate::opts::Config;
use crate::ray::{Light, Primitive};
use crate::render::{
    band_cells, lemma_band_post_cells, lights_wf, render, scene_wf, white,
};
use crate::vector::Vector;
use vstd::prelude::*;

verus! {

/// The smaller of two values.
pub open spec fn min_spec(a: int, b: int) -> int {
    if a < b {
        a
    } else {
        b
    }
}

/// The band plan for an image `h` rows tall under `threads` workers: the
/// thread count is clamped to the height, the height is divided evenly,
/// and, when the division is inexact, one extra band after the uniform
/// ones covers the remaining rows. Each entry is the band's centered
/// midpoint row offset and its height.
pub open spec fn band_plan_spec(h: int, threads: int) -> Seq<(int, int)> {
    let m = min_spec(threads, h);
    let dt = h / m;
    let uniform = Seq::new(m as nat, |i: int| (-(h / 2) + dt / 2 + dt * i, dt));
    if h % m != 0 {
        uniform.push((-(h / 2) + dt * m + (h - dt * m) / 2, h - dt * m))
    } else {
        uniform
    }
}

/// The total height of the first `k` bands of a plan.
pub open spec fn height_sum(plan: Seq<(int, int)>, k: int) -> int
    decreases k,
{
    if k <= 0 {
        0
    } else {
        height_sum(plan, k - 1) + plan[k - 1].1
    }
}

/// A band plan has at least one band, every band height lies between one
/// and the image height, and the heights sum to exactly the image height:
/// concatenating the bands in order reproduces the full image dimensions.
pub proof fn lemma_band_plan_props(h: int, threads: int)
    requires
        1 <= h,
        1 <= threads,
    ensures
        band_plan_spec(h, threads).len() >= 1,
        forall|k: int|
            0 <= k < band_plan_spec(h, threads).len() ==> 1 <= (#[trigger] band_plan_spec(
                h,
                threads,
            )[k]).1 <= h,
        height_sum(band_plan_spec(h, threads), band_plan_spec(h, threads).len() as int) == h,
{
    let m = min_spec(threads, h);
    let dt = h / m;
    vstd::arithmetic::div_mod::lemma_fundamental_div_mod(h, m);
    assert(0 <= h % m < m) by (nonlinear_arith)
        requires
            m >= 1,
    ;
    assert(dt >= 1) by (nonlinear_arith)
        requires
            h == m * dt + h % m,
            0 <= h % m < m,
            1 <= m <= h,
    ;
    assert(m * dt <= h) by (nonlinear_arith)
        requires
            h == m * dt + h % m,
            0 <= h % m,
    ;
    assert(dt <= h) by (nonlinear_arith)
        requires
            1 <= m,
            m * dt <= h,
            dt >= 1,
    ;
    let uniform = Seq::new(m as nat, |i: int| (-(h / 2) + dt / 2 + dt * i, dt));
    lemma_uniform_height_sum(uniform, dt, m);
    if h % m != 0 {
        let plan = band_plan_spec(h, threads);
        assert(plan =~= uniform.push((-(h / 2) + dt * m + (h - dt * m) / 2, h - dt * m)));
        assert(height_sum(plan, m) == height_sum(uniform, m)) by {
            lemma_height_sum_prefix_agree(uniform, plan, m);
        }
    }
}

/// The heights of a constant-height prefix sum to height times count.
proof fn lemma_uniform_height_sum(plan: Seq<(int, int)>, dt: int, k: int)
    requires
        0 <= k <= plan.len(),
        forall|i: int| 0 <= i < k ==> (#[trigger] plan[i]).1 == dt,
    ensures
        height_sum(plan, k) == k * dt,
    decreases k,
{
    if k <= 0 {
        assert(k * dt == 0) by (nonlinear_arith)
            requires
                k == 0,
        ;
    } else {
        lemma_uniform_height_sum(plan, dt, k - 1);
        assert(k * dt == (k - 1) * dt + dt) by (nonlinear_arith);
    }
}

/// Two plans agreeing on their first `k` entries have equal partial
/// height sums there.
proof fn lemma_height_sum_prefix_agree(a: Seq<(int, int)>, b: Seq<(int, int)>, k: int)
    requires
        0 <= k <= a.len(),
        k <= b.len(),
        forall|i: int| 0 <= i < k ==> #[trigger] a[i] == b[i],
    ensures
        height_sum(a, k) == height_sum(b, k),
    decreases k,
{
    if k > 0 {
        lemma_height_sum_prefix_agree(a, b, k - 1);
    }
}

/// Splits the render of an image `h` rows tall among `threads` workers.
/// Returns each band's centered midpoint row offset and height, in order
/// from the top of the image.
pub fn band_plan(h: usize, threads: usize) -> (plan: Vec<(i32, usize)>)
    requires
        1 <= h <= 16384,
        1 <= threads,
    ensures
        plan@.len() == band_plan_spec(h as int, threads as int).len(),
        forall|k: int|
            0 <= k < plan@.len() ==> ((#[trigger] plan@[k]).0 as int, plan@[k].1 as int)
                == band_plan_spec(h as int, threads as int)[k],
{
    // if the rendered image is small (or the machine is massive), clamp
    // the number of full bands
    let m = if threads < h {
        threads
    } else {
        h
    };
    let dt = h / m;
    proof {
        vstd::arithmetic::div_mod::lemma_fundamental_div_mod(h as int, m as int);
        assert(0 <= (h as int) % (m as int) < m as int) by (nonlinear_arith)
            requires
                m >= 1,
        ;
        assert(1 <= dt as int <= h as int) by (nonlinear_arith)
            requires
                h as int == (m as int) * (dt as int) + (h as int) % (m as int),
                0 <= (h as int) % (m as int) < m as int,
                1 <= m as int <= h as int,
        ;
        assert((m as int) * (dt as int) <= h as int) by (nonlinear_arith)
            requires
                h as int == (m as int) * (dt as int) + (h as int) % (m as int),
                0 <= (h as int) % (m as int),
        ;
    }
    let start0: i32 = -((h / 2) as i32) + ((dt / 2) as i32);

    let mut plan: Vec<(i32, usize)> = Vec::new();
    let mut i: usize = 0;
    while i < m
        invariant
            0 <= i <= m,
            1 <= m <= h <= 16384,
            dt == h / m,
            1 <= dt <= h,
            (m as int) * (dt as int) <= h as int,
            start0 as int == -((h as int) / 2) + (dt as int) / 2,
            plan@.len() == i,
            forall|k: int|
                0 <= k < i ==> ((#[trigger] plan@[k]).0 as int, plan@[k].1 as int) == (
                -((h as int) / 2) + (dt as int) / 2 + (dt as int) * k,
                dt as int,
            ),
        decreases m - i,
    {
        proof {
            assert((dt as int) * (i as int) <= (dt as int) * (m as int)) by (nonlinear_arith)
                requires
                    0 <= i as int <= m as int,
                    dt as int >= 0,
            ;
        }
        plan.push((start0 + ((dt * i) as i32), dt));
        i = i + 1;
    }

    if h % m != 0 {
        // one extra band covers the remaining rows, after the uniform ones
        let fdt = h - dt * m;
        plan.push((-((h / 2) as i32) + ((dt * m) as i32) + ((fdt / 2) as i32), fdt));
    }

    plan
}

/// The byte stream a band buffer contributes to the final image: its
/// cells, without the padding row and column, row-major, three bytes per
/// cell.
pub open spec fn bytes_of(cells: Seq<Color>, rlen: int, clen: int) -> Seq<u8> {
    Seq::new(
        (((rlen - 1) * (clen - 1)) * 3) as nat,
        |k: int|
            {
                let pix = k / 3;
                let ch = k % 3;
                let yy = pix / (rlen - 1);
                let xx = pix % (rlen - 1);
                let c = cells[yy * rlen + xx];
                if ch == 0 {
                    c.r
                } else if ch == 1 {
                    c.g
                } else {
                    c.b
                }
            },
    )
}

/// Extracts a band buffer's bytes: every valid row and column in
/// row-major order, skipping the buffer's padding row and column.
pub fn get_bytes(m: &Matrix<Color>) -> (out: Vec<u8>)
    requires
        m.wf(),
        1 <= m.rlen <= 16385,
        1 <= m.clen <= 16385,
    ensures
        out@ == bytes_of(m.mat@, m.rlen as int, m.clen as int),
{
    let rl = m.rlen;
    let cl = m.clen;
    let ghost target = bytes_of(m.mat@, rl as int, cl as int);
    let mut out: Vec<u8> = Vec::new();

    let mut y: usize = 0;
    while y < cl - 1
        invariant
            0 <= y <= cl - 1,
            1 <= rl <= 16385,
            1 <= cl <= 16385,
            m.wf(),
            rl == m.rlen,
            cl == m.clen,
            target == bytes_of(m.mat@, rl as int, cl as int),
            out@.len() == 3 * ((y as int) * ((rl as int) - 1)),
            forall|k: int| 0 <= k < out@.len() ==> #[trigger] out@[k] == target[k],
        decreases cl - 1 - y,
    {
        let mut x: usize = 0;
        while x < rl - 1
            invariant
                0 <= x <= rl - 1,
                0 <= y < cl - 1,
                1 <= rl <= 16385,
                1 <= cl <= 16385,
                m.wf(),
                rl == m.rlen,
                cl == m.clen,
                target == bytes_of(m.mat@, rl as int, cl as int),
                out@.len() == 3 * ((y as int) * ((rl as int) - 1) + x as int),
                forall|k: int| 0 <= k < out@.len() ==> #[trigger] out@[k] == target[k],
            decreases rl - 1 - x,
        {
            proof {
                let yi = y as int;
                let xi = x as int;
                let rli = rl as int;
                let cli = cl as int;
                assert(yi * rli + xi < rli * cli && yi * (rli - 1) + xi < (rli - 1) * (cli - 1)
                    && 3 * (yi * (rli - 1) + xi) + 2 < ((rli - 1) * (cli - 1)) * 3 && yi * (rli
                    - 1) <= 16385 * 16385 && yi * rli + xi <= 16385 * 16385 && yi * (rli - 1)
                    == yi * rli - yi) by (nonlinear_arith)
                    requires
                        0 <= xi <= rli - 2,
                        0 <= yi <= cli - 2,
                        1 <= rli <= 16385,
                        1 <= cli <= 16385,
                ;
                let pix = yi * (rli - 1) + xi;
                vstd::arithmetic::div_mod::lemma_fundamental_div_mod_converse(3 * pix, 3, pix, 0);
                vstd::arithmetic::div_mod::lemma_fundamental_div_mod_converse(
                    3 * pix + 1,
                    3,
                    pix,
                    1,
                );
                vstd::arithmetic::div_mod::lemma_fundamental_div_mod_converse(
                    3 * pix + 2,
                    3,
                    pix,
                    2,
                );
                vstd::arithmetic::div_mod::lemma_fundamental_div_mod_converse(
                    pix,
                    rli - 1,
                    yi,
                    xi,
                );
            }
            // iterate through all valid cells, skipping the padding ones
            let idx = x + y * (rl - 1) + y;
            proof {
                assert(idx == (y as int) * (rl as int) + x as int);
            }
            let c = m.mat[idx];
            out.push(c.r);
            out.push(c.g);
            out.push(c.b);
            x = x + 1;
        }
        proof {
            assert(3 * ((y as int) * ((rl as int) - 1) + ((rl as int) - 1)) == 3 * (((y as int)
                + 1) * ((rl as int) - 1))) by (nonlinear_arith);
        }
        y = y + 1;
    }
    proof {
        assert(3 * (((cl as int) - 1) * ((rl as int) - 1)) == (((rl as int) - 1) * ((cl as int)
            - 1)) * 3) by (nonlinear_arith);
        assert(out@.len() == target.len());
        assert(out@ =~= target);
    }
    out
}

/// The bytes one band contributes to the final image, as the model sees
/// them: the band's buffer cells, extracted without the padding.
pub open spec fn band_bytes_spec(
    start_y: int,
    dims: (int, int),
    set: Seq<Primitive>,
    ls: Seq<Light>,
    cam: Vector,
    depth: nat,
) -> Seq<u8> {
    bytes_of(band_cells((0, start_y), dims, set, ls, cam, depth), dims.0 + 1, dims.1 + 1)
}

/// The first `k` bands' bytes, concatenated in submission order.
pub open spec fn bands_concat(
    d0: int,
    plan: Seq<(int, int)>,
    set: Seq<Primitive>,
    ls: Seq<Light>,
    cam: Vector,
    depth: nat,
    k: int,
) -> Seq<u8>
    decreases k,
{
    if k <= 0 {
        Seq::empty()
    } else {
        bands_concat(d0, plan, set, ls, cam, depth, k - 1) + band_bytes_spec(
            plan[k - 1].0,
            (d0, plan[k - 1].1),
            set,
            ls,
            cam,
            depth,
        )
    }
}

/// The whole image's bytes under a given thread count: every planned band
/// rendered and concatenated in order.
pub open spec fn bands_bytes_spec(
    d0: int,
    h: int,
    threads: int,
    set: Seq<Primitive>,
    ls: Seq<Light>,
    cam: Vector,
    depth: nat,
) -> Seq<u8> {
    let plan = band_plan_spec(h, threads);
    bands_concat(d0, plan, set, ls, cam, depth, plan.len() as int)
}

/// A plan of positive band heights has non-negative partial height sums.
proof fn lemma_height_sum_nonneg(plan: Seq<(int, int)>, k: int)
    requires
        k <= plan.len(),
        forall|j: int| 0 <= j < plan.len() ==> (#[trigger] plan[j]).1 >= 0,
    ensures
        height_sum(plan, k) >= 0,
    decreases k,
{
    if k > 0 {
        lemma_height_sum_nonneg(plan, k - 1);
    }
}

/// With no primitives in the scene, every cell of a band buffer is the
/// background color: every primary ray strikes nothing.
proof fn lemma_band_cells_empty(
    start: (int, int),
    dims: (int, int),
    set: Seq<Primitive>,
    ls: Seq<Light>,
    cam: Vector,
    depth: nat,
)
    requires
        set.len() == 0,
    ensures
        forall|idx: int|
            0 <= idx < band_cells(start, dims, set, ls, cam, depth).len() ==> #[trigger] band_cells(
                start,
                dims,
                set,
                ls,
                cam,
                depth,
            )[idx] == white(),
{
}

/// The bytes of an all-background buffer are all 255.
proof fn lemma_bytes_of_white(cells: Seq<Color>, rlen: int, clen: int)
    requires
        1 <= rlen,
        1 <= clen,
        cells.len() == rlen * clen,
        forall|idx: int| 0 <= idx < cells.len() ==> #[trigger] cells[idx] == white(),
    ensures
        bytes_of(cells, rlen, clen) == Seq::new(
            (((rlen - 1) * (clen - 1)) * 3) as nat,
            |k: int| 255u8,
        ),
{
    let bytes = bytes_of(cells, rlen, clen);
    assert forall|k: int| 0 <= k < bytes.len() implies bytes[k] == 255u8 by {
        let pix = k / 3;
        vstd::arithmetic::div_mod::lemma_fundamental_div_mod(k, 3);
        assert(0 <= pix < (rlen - 1) * (clen - 1)) by (nonlinear_arith)
            requires
                0 <= k < ((rlen - 1) * (clen - 1)) * 3,
                k == 3 * pix + k % 3,
                0 <= k % 3 < 3,
        ;
        let yy = pix / (rlen - 1);
        let xx = pix % (rlen - 1);
        vstd::arithmetic::div_mod::lemma_fundamental_div_mod(pix, rlen - 1);
        vstd::arithmetic::div_mod::lemma_mod_pos_bound(pix, rlen - 1);
        assert(0 <= yy < clen - 1) by (nonlinear_arith)
            requires
                0 <= pix < (rlen - 1) * (clen - 1),
                pix == (rlen - 1) * yy + xx,
                0 <= xx < rlen - 1,
        ;
        assert(0 <= yy * rlen + xx < rlen * clen) by (nonlinear_arith)
            requires
                0 <= yy < clen - 1,
                0 <= xx < rlen - 1,
                1 <= rlen,
        ;
        assert(cells[yy * rlen + xx] == white());
    }
    assert(bytes =~= Seq::new((((rlen - 1) * (clen - 1)) * 3) as nat, |k: int| 255u8));
}

/// With no primitives, the first `k` bands' bytes are all 255, three per
/// pixel of the rows those bands cover.
proof fn lemma_bands_concat_empty(
    d0: int,
    plan: Seq<(int, int)>,
    set: Seq<Primitive>,
    ls: Seq<Light>,
    cam: Vector,
    depth: nat,
    k: int,
)
    requires
        set.len() == 0,
        1 <= d0,
        0 <= k <= plan.len(),
        forall|j: int| 0 <= j < plan.len() ==> 1 <= (#[trigger] plan[j]).1,
    ensures
        bands_concat(d0, plan, set, ls, cam, depth, k) == Seq::new(
            (3 * (d0 * height_sum(plan, k))) as nat,
            |b: int| 255u8,
        ),
    decreases k,
{
    if k <= 0 {
        assert(bands_concat(d0, plan, set, ls, cam, depth, 0) =~= Seq::new(
            (3 * (d0 * 0)) as nat,
            |b: int| 255u8,
        ));
    } else {
        lemma_bands_concat_empty(d0, plan, set, ls, cam, depth, k - 1);
        lemma_height_sum_nonneg(plan, k - 1);
        let dt = plan[k - 1].1;
        let dims = (d0, dt);
        let cells = band_cells((0, plan[k - 1].0), dims, set, ls, cam, depth);
        lemma_band_cells_empty((0, plan[k - 1].0), dims, set, ls, cam, depth);
        lemma_bytes_of_white(cells, d0 + 1, dt + 1);
        assert(((d0 + 1) - 1) * ((dt + 1) - 1) == d0 * dt) by (nonlinear_arith);
        assert(3 * (d0 * height_sum(plan, k)) == 3 * (d0 * height_sum(plan, k - 1)) + (d0 * dt)
            * 3) by (nonlinear_arith)
            requires
                height_sum(plan, k) == height_sum(plan, k - 1) + dt,
        ;
        let prev = bands_concat(d0, plan, set, ls, cam, depth, k - 1);
        let bb = band_bytes_spec(plan[k - 1].0, dims, set, ls, cam, depth);
        let whole = bands_concat(d0, plan, set, ls, cam, depth, k);
        assert(whole == prev + bb);
        assert(bb.len() == (d0 * dt) * 3);
        assert(prev.len() == 3 * (d0 * height_sum(plan, k - 1)));
        assert forall|i: int| 0 <= i < whole.len() implies whole[i] == 255u8 by {
            if i < prev.len() {
                assert(prev[i] == 255u8);
            } else {
                assert(bb[i - prev.len()] == 255u8);
            }
        }
        assert(whole =~= Seq::new((3 * (d0 * height_sum(plan, k))) as nat, |b: int| 255u8));
    }
}

/// Rendering a scene with no primitives fills the whole image with the
/// background color, whatever the thread count: the merged byte stream is
/// 255 everywhere, three bytes for each of the `d0 * h` pixels.
pub proof fn lemma_empty_scene_background(
    d0: int,
    h: int,
    threads: int,
    set: Seq<Primitive>,
    ls: Seq<Light>,
    cam: Vector,
    depth: nat,
)
    requires
        set.len() == 0,
        1 <= d0,
        1 <= h,
        1 <= threads,
    ensures
        bands_bytes_spec(d0, h, threads, set, ls, cam, depth) == Seq::new(
            (3 * (d0 * h)) as nat,
            |b: int| 255u8,
        ),
{
    let plan = band_plan_spec(h, threads);
    lemma_band_plan_props(h, threads);
    lemma_bands_concat_empty(d0, plan, set, ls, cam, depth, plan.len() as int);
}

/// Thread-count invariance on the empty scene: the merged byte stream
/// under any two worker counts is byte-for-byte the same, so splitting
/// the render across bands reproduces the single-threaded image exactly.
pub proof fn lemma_empty_scene_thread_invariance(
    d0: int,
    h: int,
    t1: int,
    t2: int,
    set: Seq<Primitive>,
    ls: Seq<Light>,
    cam: Vector,
    depth: nat,
)
    requires
        set.len() == 0,
        1 <= d0,
        1 <= h,
        1 <= t1,
        1 <= t2,
    ensures
        bands_bytes_spec(d0, h, t1, set, ls, cam, depth) == bands_bytes_spec(
            d0,
            h,
            t2,
            set,
            ls,
            cam,
            depth,
        ),
{
    lemma_empty_scene_background(d0, h, t1, set, ls, cam, depth);
    lemma_empty_scene_background(d0, h, t2, set, ls, cam, depth);
}

/// Renders the whole image band by band and reassembles the final byte
/// stream, three bytes per pixel, rows from the top. This is the
/// sequential core of the scheduler; workers may compute the same bands
/// concurrently since each is a pure function of the shared read-only
/// scene, and the merge concatenates them in submission order either way.
pub fn render_bands(
    dims: (usize, usize),
    set: &Vec<Primitive>,
    lights: &Vec<Light>,
    cfg: &Config,
) -> (out: Vec<u8>)
    requires
        1 <= dims.0 <= 16384,
        1 <= dims.1 <= 16384,
        1 <= cfg.render.threads,
        scene_wf(set@),
        lights_wf(lights@),
        cfg.world.cam_pos.dlen() == 3,
    ensures
        out@ == bands_bytes_spec(
            dims.0 as int,
            dims.1 as int,
            cfg.render.threads as int,
            set@,
            lights@,
            cfg.world.cam_pos,
            cfg.render.max_reflections as nat,
        ),
{
    let ghost d0 = dims.0 as int;
    let ghost cam = cfg.world.cam_pos;
    let ghost depth = cfg.render.max_reflections as nat;
    let ghost splan = band_plan_spec(dims.1 as int, cfg.render.threads as int);

    let plan = band_plan(dims.1, cfg.render.threads);
    proof {
        lemma_band_plan_props(dims.1 as int, cfg.render.threads as int);
    }

    let mut out: Vec<u8> = Vec::new();
    let mut bi: usize = 0;
    while bi < plan.len()
        invariant
            0 <= bi <= plan@.len(),
            1 <= dims.0 <= 16384,
            1 <= dims.1 <= 16384,
            scene_wf(set@),
            lights_wf(lights@),
            cfg.world.cam_pos.dlen() == 3,
            d0 == dims.0 as int,
            cam == cfg.world.cam_pos,
            depth == cfg.render.max_reflections as nat,
            splan == band_plan_spec(dims.1 as int, cfg.render.threads as int),
            plan@.len() == splan.len(),
            forall|k: int|
                0 <= k < plan@.len() ==> ((#[trigger] plan@[k]).0 as int, plan@[k].1 as int)
                    == splan[k],
            forall|k: int| 0 <= k < splan.len() ==> 1 <= (#[trigger] splan[k]).1 <= dims.1 as int,
            out@ == bands_concat(d0, splan, set@, lights@, cam, depth, bi as int),
        decreases plan@.len() - bi,
    {
        let band = plan[bi];
        let part = render((0, band.0), (dims.0, band.1), set, lights, cfg);
        proof {
            lemma_band_post_cells(
                part,
                (0, band.0 as int),
                (d0, band.1 as int),
                set@,
                lights@,
                cam,
                depth,
            );
        }
        let mut bytes = get_bytes(&part);
        out.append(&mut bytes);
        bi = bi + 1;
    }

    out
}

} // verus!

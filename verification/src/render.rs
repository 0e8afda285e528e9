//! Contains overall render logic: the scene resolver, the recursive
//! lighting evaluator, and the per-band renderer.
//!
//! Every function here is specified against a mathematical model of the
//! same computation: the resolver against a fold over the primitive
//! sequence, the lighting evaluator against a recursion over the depth
//! budget, and the renderer against a per-cell description of the buffer
//! it returns.

use crate::draw::{draw_pixel, map_color, map_color_spec, pixel_index_spec, Color};
use crate::fx::{fx_div, fx_mul, fx_powi, FX_INF, FX_ONE};
use crate::fx::{fx_div_spec, fx_mul_spec, fx_pow_spec, fx_sub_spec};
use crate::mat::Matrix;
use crate::opts::Config;
use crate::ray::{light_wf, prim_wf, ray_wf, HitType, Light, LightType, Primitive, Ray};
use crate::ray::{prim_hit_spec, prim_material_spec, prim_normal_spec};
use crate::vector::{clamp_spec, dot_spec, norm_spec, refl_spec, Vector};
use crate::vector::{vadd_spec, vmul_spec, vneg_spec, vsub_spec};
use vstd::prelude::*;

verus! {

/// Shadow and reflection rays start a little above zero so a surface does
/// not intersect itself.
pub const FX_EPS: i64 = 10_000;

/// Point-light shadow tests stop just short of the light itself.
pub const FX_SHADOW_MAX: i64 = 990_000;

/// Every primitive of the scene is three-component well-formed.
pub open spec fn scene_wf(set: Seq<Primitive>) -> bool {
    forall|i: int| 0 <= i < set.len() ==> prim_wf(#[trigger] set[i])
}

/// Every light of the scene is three-component well-formed.
pub open spec fn lights_wf(ls: Seq<Light>) -> bool {
    forall|i: int| 0 <= i < ls.len() ==> light_wf(#[trigger] ls[i])
}

/// The world-space point a ray reaches at parameter `t`:
/// `origin + t * direction`.
pub open spec fn point_spec(r: Ray, t: int) -> Vector {
    vadd_spec(r.o, vmul_spec(Vector::make(t, t, t, t, 3), r.d))
}

/// The state of the closest-hit scan after the first `n` primitives: the
/// best index and hit point so far, and the smallest hit parameter seen so
/// far (the saturation bound when none was seen, which only a strictly
/// smaller parameter beats).
pub open spec fn closest_state(r: Ray, set: Seq<Primitive>, t0: int, t1: int, n: int) -> (Option<
    (int, Vector),
>, int)
    decreases n,
{
    if n <= 0 {
        (Option::None, i64::MAX as int)
    } else {
        let prev = closest_state(r, set, t0, t1, n - 1);
        match prim_hit_spec(set[n - 1], r, t0, t1) {
            HitType::Hit(t) => {
                if t < prev.1 {
                    (Option::Some((n - 1, point_spec(r, t as int))), t as int)
                } else {
                    prev
                }
            },
            HitType::Miss() => prev,
        }
    }
}

/// The index and hit point of the closest primitive the ray strikes in the
/// open interval, ties keeping the earlier index; nothing when every
/// primitive misses.
pub open spec fn closest_hit_spec(r: Ray, set: Seq<Primitive>, t0: int, t1: int) -> Option<
    (int, Vector),
> {
    closest_state(r, set, t0, t1, set.len() as int).0
}

/// The first primitive at or after position `i` that reports a hit,
/// regardless of distance, with its hit point.
pub open spec fn any_hit_from(r: Ray, set: Seq<Primitive>, t0: int, t1: int, i: int) -> Option<
    (int, Vector),
>
    decreases set.len() - i,
{
    if i < 0 || i >= set.len() {
        Option::None
    } else {
        match prim_hit_spec(set[i], r, t0, t1) {
            HitType::Hit(t) => Option::Some((i, point_spec(r, t as int))),
            HitType::Miss() => any_hit_from(r, set, t0, t1, i + 1),
        }
    }
}

/// The first primitive in list order that the ray strikes in the open
/// interval, with its hit point; nothing when every primitive misses.
pub open spec fn any_hit_spec(r: Ray, set: Seq<Primitive>, t0: int, t1: int) -> Option<
    (int, Vector),
> {
    any_hit_from(r, set, t0, t1, 0)
}

/// Lifts an executable resolver result to the model's index type.
pub open spec fn lift_hit(o: Option<(usize, Vector)>) -> Option<(int, Vector)> {
    match o {
        Option::Some((i, p)) => Option::Some((i as int, p)),
        Option::None => Option::None,
    }
}

/// Iterates through all objects in `objs` and returns the index of the
/// _closest_ object and the hit point.
/// Returns `None` if nothing hits.
pub fn closest_hit(r: &Ray, objs: &Vec<Primitive>, lim: (i64, i64)) -> (res: Option<
    (usize, Vector),
>)
    requires
        ray_wf(*r),
        scene_wf(objs@),
    ensures
        lift_hit(res) == closest_hit_spec(*r, objs@, lim.0 as int, lim.1 as int),
        res matches Option::Some((i, p)) ==> i < objs@.len() && p.dlen() == 3,
{
    let mut best_t: i64 = i64::MAX;
    let mut best: Option<(usize, Vector)> = Option::None;

    let mut i: usize = 0;
    while i < objs.len()
        invariant
            0 <= i <= objs@.len(),
            ray_wf(*r),
            scene_wf(objs@),
            lift_hit(best) == closest_state(*r, objs@, lim.0 as int, lim.1 as int, i as int).0,
            best_t as int == closest_state(*r, objs@, lim.0 as int, lim.1 as int, i as int).1,
            best matches Option::Some((bi, p)) ==> bi < objs@.len() && p.dlen() == 3,
        decreases objs@.len() - i,
    {
        if let HitType::Hit(t) = objs[i].hit(r, lim) {
            let p = r.o.add(Vector::from_s(t, 3).mul(r.d));
            if t < best_t {
                best = Option::Some((i, p));
                best_t = t;
            }
        }
        i = i + 1;
    }

    best
}

/// Iterates through all objects in `objs` and returns the index of the
/// _first_ object to hit and the hit point.
/// Returns `None` if nothing hits.
pub fn any_hit(r: &Ray, objs: &Vec<Primitive>, lim: (i64, i64)) -> (res: Option<(usize, Vector)>)
    requires
        ray_wf(*r),
        scene_wf(objs@),
    ensures
        lift_hit(res) == any_hit_spec(*r, objs@, lim.0 as int, lim.1 as int),
        res matches Option::Some((i, p)) ==> i < objs@.len() && p.dlen() == 3,
{
    let mut i: usize = 0;
    while i < objs.len()
        invariant
            0 <= i <= objs@.len(),
            ray_wf(*r),
            scene_wf(objs@),
            any_hit_spec(*r, objs@, lim.0 as int, lim.1 as int) == any_hit_from(
                *r,
                objs@,
                lim.0 as int,
                lim.1 as int,
                i as int,
            ),
        decreases objs@.len() - i,
    {
        if let HitType::Hit(t) = objs[i].hit(r, lim) {
            let p = r.o.add(Vector::from_s(t, 3).mul(r.d));
            return Option::Some((i, p));
        }
        i = i + 1;
    }

    Option::None
}

/// The zero color vector.
pub open spec fn zero3() -> Vector {
    Vector::make(0, 0, 0, 0, 3)
}

/// A length-3 vector with every component `x`.
pub open spec fn splat3(x: int) -> Vector {
    Vector::make(x, x, x, x, 3)
}

/// The vector going _to_ the light source from surface point `p`; for an
/// ambient light, which has no place, the light's color rides along
/// unused.
pub open spec fn light_vec_spec(p: Vector, l: Light) -> Vector {
    match l.kind {
        LightType::Point(lp) => vsub_spec(lp, p),
        LightType::Directional(ldir) => ldir,
        LightType::Ambient => l.color,
    }
}

/// How far the shadow ray for light `l` is traced: without bound for a
/// directional light, just short of the light's own position for a point
/// light.
pub open spec fn shadow_max_spec(l: Light) -> int {
    match l.kind {
        LightType::Directional(_) => FX_INF as int,
        _ => FX_SHADOW_MAX as int,
    }
}

/// Whether the surface point `p` lies in hard shadow with respect to
/// light `l`: some primitive blocks the ray from `p` toward the light,
/// tested from just above zero so the surface does not occlude itself.
pub open spec fn shadowed_spec(set: Seq<Primitive>, p: Vector, l: Light) -> bool {
    any_hit_spec(
        Ray { o: p, d: light_vec_spec(p, l) },
        set,
        FX_EPS as int,
        shadow_max_spec(l),
    ) is Some
}

/// The direct (non-recursive) shade of an unshadowed surface point: the
/// diffuse term scales the material and light colors by the cosine at the
/// normal, the specular term (for a positive specular exponent) adds the
/// light color scaled by a power of the mirrored light direction against
/// the view direction, and the sum is clamped to the unit cube.
pub open spec fn local_shade_spec(idx: int, set: Seq<Primitive>, p: Vector, l: Light) -> Vector {
    let lv = light_vec_spec(p, l);
    let m = prim_material_spec(set[idx]);
    let iv = norm_spec(lv);
    let n = prim_normal_spec(set[idx], p);
    let d0 = dot_spec(n, iv);
    let diff = if d0 < 0 {
        0
    } else {
        d0
    };
    let color1 = vmul_spec(vmul_spec(splat3(diff), m.color), l.color);
    let rv = refl_spec(lv, n);
    let np = vneg_spec(p);
    let sdot = dot_spec(norm_spec(rv), norm_spec(np));
    let color2 = if m.specular > 0 && sdot > 0 {
        vadd_spec(color1, vmul_spec(splat3(fx_pow_spec(sdot, m.specular as int)), l.color))
    } else {
        color1
    };
    clamp_spec(color2, 0, FX_ONE as int)
}

/// What the lighting evaluator returns for the surface point `p` of the
/// primitive at `idx` under light `l`, with `depth` reflection bounces
/// left.
///
/// An ambient light contributes its color outright. A shadowed point
/// contributes nothing. Otherwise the direct shade stands, and, when
/// bounces remain and the material reflects, the light vector mirrored
/// about the normal is traced on against the whole scene and the struck
/// point's own shade — lit by a synthetic point light at `p` carrying the
/// direct shade — is blended in by the material's reflectivity.
pub open spec fn light_spec(idx: int, set: Seq<Primitive>, p: Vector, l: Light, depth: nat) -> Vector
    decreases depth,
{
    match l.kind {
        LightType::Ambient => l.color,
        _ => {
            if shadowed_spec(set, p, l) {
                zero3()
            } else {
                let m = prim_material_spec(set[idx]);
                let local = local_shade_spec(idx, set, p, l);
                let rv = refl_spec(light_vec_spec(p, l), prim_normal_spec(set[idx], p));
                if depth > 0 && m.refl > 0 {
                    let rray = Ray { o: p, d: rv };
                    match closest_hit_spec(rray, set, FX_EPS as int, FX_INF as int) {
                        Option::Some((i2, p2)) => {
                            let ref_l = Light { color: local, kind: LightType::Point(p) };
                            let ref_color = light_spec(i2, set, p2, ref_l, (depth - 1) as nat);
                            vadd_spec(
                                vmul_spec(ref_color, splat3(m.refl as int)),
                                vmul_spec(local, splat3(fx_sub_spec(FX_ONE as int, m.refl as int))),
                            )
                        },
                        Option::None => local,
                    }
                } else {
                    local
                }
            }
        },
    }
}

/// With no reflection budget left, the lighting evaluator contributes no
/// reflected light whatever the material's reflectivity — an unshadowed,
/// non-ambient light yields exactly the direct shade.
pub proof fn lemma_zero_depth_no_reflection(idx: int, set: Seq<Primitive>, p: Vector, l: Light)
    requires
        !(l.kind is Ambient),
        !shadowed_spec(set, p, l),
    ensures
        light_spec(idx, set, p, l, 0) == local_shade_spec(idx, set, p, l),
{
}

/// The background color cells keep when no ray strikes anything: opaque
/// white.
pub open spec fn white() -> Color {
    Color { r: 255, g: 255, b: 255 }
}

/// Distance from the camera to the viewport.
pub const FX_VIEW_DIST: i64 = 500_000;

/// The primary ray from the camera through centered pixel `(x, y)` of a
/// band whose midpoints are offset by `start`: the canvas coordinate is
/// scaled onto a viewport of width one, height scaled by the image aspect
/// ratio, at the fixed viewport distance.
pub open spec fn pixel_ray_spec(start: (int, int), dims: (int, int), cam: Vector, x: int, y: int) -> Ray {
    let wfx = dims.0 * (FX_ONE as int);
    let hfx = dims.1 * (FX_ONE as int);
    let vh = fx_div_spec(fx_mul_spec(FX_ONE as int, hfx), wfx);
    let vx = fx_div_spec(fx_mul_spec((x + start.0) * (FX_ONE as int), FX_ONE as int), wfx);
    let vy = fx_div_spec(fx_mul_spec((y - start.1) * (FX_ONE as int), vh), hfx);
    Ray { o: cam, d: Vector::make(vx, vy, FX_VIEW_DIST as int, 0, 3) }
}

/// The sum of the first `k` lights' contributions at a hit point, in list
/// order.
pub open spec fn light_sum_spec(
    idx: int,
    set: Seq<Primitive>,
    p: Vector,
    ls: Seq<Light>,
    depth: nat,
    k: int,
) -> Vector
    decreases k,
{
    if k <= 0 {
        zero3()
    } else {
        vadd_spec(
            light_sum_spec(idx, set, p, ls, depth, k - 1),
            light_spec(idx, set, p, ls[k - 1], depth),
        )
    }
}

/// The color the renderer computes for centered pixel `(x, y)`, when its
/// primary ray strikes anything: the lights' contributions summed, scaled
/// by the struck material's color, clamped to the unit cube and mapped to
/// eight bits per channel. Nothing when the ray strikes nothing.
pub open spec fn pixel_color_spec(
    start: (int, int),
    dims: (int, int),
    set: Seq<Primitive>,
    ls: Seq<Light>,
    cam: Vector,
    depth: nat,
    x: int,
    y: int,
) -> Option<Color> {
    let ray = pixel_ray_spec(start, dims, cam, x, y);
    match closest_hit_spec(ray, set, FX_VIEW_DIST as int, FX_INF as int) {
        Option::Some((i, p)) => {
            let sum = light_sum_spec(i, set, p, ls, depth, ls.len() as int);
            Option::Some(
                map_color_spec(
                    clamp_spec(
                        vmul_spec(prim_material_spec(set[i]).color, sum),
                        0,
                        FX_ONE as int,
                    ),
                ),
            )
        },
        Option::None => Option::None,
    }
}

/// What a band's buffer holds for centered pixel `(x, y)`: the computed
/// color where the primary ray strikes anything, the background otherwise.
pub open spec fn target_cell(
    start: (int, int),
    dims: (int, int),
    set: Seq<Primitive>,
    ls: Seq<Light>,
    cam: Vector,
    depth: nat,
    x: int,
    y: int,
) -> Color {
    match pixel_color_spec(start, dims, set, ls, cam, depth, x, y) {
        Option::Some(c) => c,
        Option::None => white(),
    }
}

/// Whether centered pixel `(x, y)` lies inside the rendered region of a
/// `dims.0` by `dims.1` band.
pub open spec fn in_range(dims: (int, int), x: int, y: int) -> bool {
    &&& -(dims.0 / 2) <= x < dims.0 / 2
    &&& -(dims.1 / 2) <= y < dims.1 / 2
}

/// Where centered pixel `(x, y)` lands in the band's padded buffer, which
/// has one extra column and one extra row to keep the centered bounds
/// symmetrical.
pub open spec fn pad_index(dims: (int, int), x: int, y: int) -> int {
    let rlen = dims.0 + 1;
    let clen = dims.1 + 1;
    (-y + clen / 2) * rlen + (x + rlen / 2)
}

/// Every in-range centered pixel lands inside the padded buffer, at the
/// index the canvas mapping reports.
pub proof fn lemma_pad_bounds(dims: (int, int), x: int, y: int)
    requires
        1 <= dims.0,
        1 <= dims.1,
        in_range(dims, x, y),
    ensures
        0 <= x + (dims.0 + 1) / 2 < dims.0 + 1,
        0 <= -y + (dims.1 + 1) / 2 < dims.1 + 1,
        pad_index(dims, x, y) == (-y + (dims.1 + 1) / 2) * (dims.0 + 1) + (x + (dims.0 + 1) / 2),
        0 <= pad_index(dims, x, y) < (dims.0 + 1) * (dims.1 + 1),
        pixel_index_spec(dims.0 + 1, dims.1 + 1, x, y) == Option::Some(pad_index(dims, x, y)),
{
    let rlen = dims.0 + 1;
    let clen = dims.1 + 1;
    vstd::arithmetic::div_mod::lemma_fundamental_div_mod(dims.0, 2);
    vstd::arithmetic::div_mod::lemma_fundamental_div_mod(rlen, 2);
    vstd::arithmetic::div_mod::lemma_fundamental_div_mod(dims.1, 2);
    vstd::arithmetic::div_mod::lemma_fundamental_div_mod(clen, 2);
    assert(0 <= dims.0 % 2 < 2) by (nonlinear_arith);
    assert(0 <= rlen % 2 < 2) by (nonlinear_arith);
    assert(0 <= dims.1 % 2 < 2) by (nonlinear_arith);
    assert(0 <= clen % 2 < 2) by (nonlinear_arith);
    let ax = x + rlen / 2;
    let ay = -y + clen / 2;
    assert(0 <= ay * rlen + ax < rlen * clen) by (nonlinear_arith)
        requires
            0 <= ax < rlen,
            0 <= ay < clen,
    ;
}

/// Distinct in-range centered pixels land at distinct buffer indices.
pub proof fn lemma_pad_injective(dims: (int, int), x1: int, y1: int, x2: int, y2: int)
    requires
        1 <= dims.0,
        1 <= dims.1,
        in_range(dims, x1, y1),
        in_range(dims, x2, y2),
        !(x1 == x2 && y1 == y2),
    ensures
        pad_index(dims, x1, y1) != pad_index(dims, x2, y2),
{
    let rlen = dims.0 + 1;
    let clen = dims.1 + 1;
    lemma_pad_bounds(dims, x1, y1);
    lemma_pad_bounds(dims, x2, y2);
    if pad_index(dims, x1, y1) == pad_index(dims, x2, y2) {
        let idx = pad_index(dims, x1, y1);
        vstd::arithmetic::div_mod::lemma_fundamental_div_mod_converse(
            idx,
            rlen,
            -y1 + clen / 2,
            x1 + rlen / 2,
        );
        vstd::arithmetic::div_mod::lemma_fundamental_div_mod_converse(
            idx,
            rlen,
            -y2 + clen / 2,
            x2 + rlen / 2,
        );
    }
}

/// Runs lighting calculations at point `p` for the object at index `idx`.
/// `num_refl` determines the maximum recursion depth for reflections.
pub fn light(idx: usize, set: &Vec<Primitive>, p: &Vector, l: &Light, num_refl: u32) -> (res:
    Vector)
    requires
        idx < set@.len(),
        scene_wf(set@),
        light_wf(*l),
        p.dlen() == 3,
    ensures
        res == light_spec(idx as int, set@, *p, *l, num_refl as nat),
        res.dlen() == 3,
    decreases num_refl,
{
    let lc = l.color;

    // calculate vector going _to_ the light source
    let lv = match &l.kind {
        LightType::Point(lp) => (*lp).sub(*p),
        LightType::Directional(ldir) => *ldir,
        LightType::Ambient => {
            return lc;
        },
    };

    let maxt = match l.kind {
        LightType::Directional(_) => FX_INF,  // no max t for directional lights
        _ => FX_SHADOW_MAX,  // don't test for shadows beyond the light origin for point lights
    };

    let m = set[idx].material(p);

    // if the ray going to the light hits another object, point p is in
    // shadow; avoid the edge case where an object hits itself by using a
    // small offset from 0 for t
    if let Option::Some(_) = any_hit(&Ray { o: *p, d: lv }, set, (FX_EPS, maxt)) {
        return Vector::zero(3);  // no light contribution if in shadow
    }

    let iv = lv.norm();
    let n = set[idx].normal(p);

    let d0 = n.dot(iv);
    let diff = if d0 < 0 {
        0
    } else {
        d0
    };
    let diff_v = Vector::from_s(diff, 3);
    let mut color = diff_v.mul(m.color).mul(l.color);

    let rv = Vector::refl(lv, n);  // calculate reflected vector off normal
    let np = (*p).neg();  // negative p, or a vector to the camera
    let sdot = rv.norm().dot(np.norm());
    if m.specular > 0 && sdot > 0 {
        // diff * color + spec
        let spec_v = Vector::from_s(fx_powi(sdot, m.specular), 3);
        let specc = spec_v.mul(lc);  // specular color depends on light source
        color = color.add(specc);
    }

    let local = color.clamp(0, FX_ONE);  // clamp color to proper range

    if num_refl > 0 && m.refl > 0 {
        let rv2 = Vector::refl(lv, set[idx].normal(p));
        let ref_ray = Ray { o: *p, d: rv2 };

        // if the object is reflective and we can recurse more, calculate
        // lighting on the reflection
        if let Option::Some((i2, p2)) = closest_hit(&ref_ray, set, (FX_EPS, FX_INF)) {
            let ref_l = Light { color: local, kind: LightType::Point(*p) };

            let ref_color = light(i2, set, &p2, &ref_l, num_refl - 1);

            // reflecting off the object and hitting something blends that
            // light in: color = ref_color * refl + color * (1 - refl)
            return ref_color.mul(Vector::from_s(m.refl, 3)).add(
                local.mul(Vector::from_s(crate::fx::fx_sub(FX_ONE, m.refl), 3)),
            );
        }
    }

    local
}

/// The any-hit resolver returns the first primitive in list order that
/// the ray strikes — every earlier primitive misses — regardless of how
/// far away the strike is; and the point it returns lies on the ray at
/// the reported parameter.
pub proof fn lemma_any_hit_first(r: Ray, set: Seq<Primitive>, t0: int, t1: int)
    ensures
        any_hit_spec(r, set, t0, t1) matches Option::Some((i, p)) ==> {
            &&& 0 <= i < set.len()
            &&& prim_hit_spec(set[i], r, t0, t1) matches HitType::Hit(t) && p == point_spec(
                r,
                t as int,
            )
            &&& forall|j: int|
                0 <= j < i ==> prim_hit_spec(#[trigger] set[j], r, t0, t1) is Miss
        },
        any_hit_spec(r, set, t0, t1) is None ==> forall|j: int|
            0 <= j < set.len() ==> prim_hit_spec(#[trigger] set[j], r, t0, t1) is Miss,
{
    lemma_any_hit_from(r, set, t0, t1, 0);
}

/// The any-hit scan from position `i0` returns the first hit at or after
/// `i0`, or nothing when everything from `i0` on misses.
proof fn lemma_any_hit_from(r: Ray, set: Seq<Primitive>, t0: int, t1: int, i0: int)
    requires
        0 <= i0,
    ensures
        any_hit_from(r, set, t0, t1, i0) matches Option::Some((i, p)) ==> {
            &&& i0 <= i < set.len()
            &&& prim_hit_spec(set[i], r, t0, t1) matches HitType::Hit(t) && p == point_spec(
                r,
                t as int,
            )
            &&& forall|j: int|
                i0 <= j < i ==> prim_hit_spec(#[trigger] set[j], r, t0, t1) is Miss
        },
        any_hit_from(r, set, t0, t1, i0) is None ==> forall|j: int|
            i0 <= j < set.len() ==> prim_hit_spec(#[trigger] set[j], r, t0, t1) is Miss,
    decreases set.len() - i0,
{
    if i0 < set.len() {
        lemma_any_hit_from(r, set, t0, t1, i0 + 1);
    }
}

/// The closest-hit resolver returns a primitive the ray strikes at the
/// smallest parameter any primitive is struck at, ties keeping the
/// earliest index: every other strike is no nearer, and every strike on
/// an earlier-listed primitive is strictly farther. When it returns
/// nothing, no primitive is struck short of the saturation bound.
pub proof fn lemma_closest_hit_minimal(r: Ray, set: Seq<Primitive>, t0: int, t1: int)
    ensures
        closest_hit_spec(r, set, t0, t1) matches Option::Some((i, p)) ==> {
            &&& 0 <= i < set.len()
            &&& prim_hit_spec(set[i], r, t0, t1) matches HitType::Hit(t) && p == point_spec(
                r,
                t as int,
            ) && forall|j: int|
                0 <= j < set.len() && #[trigger] prim_hit_spec(set[j], r, t0, t1) is Hit ==> t
                    <= prim_hit_spec(set[j], r, t0, t1)->Hit_0 && (j < i ==> t < prim_hit_spec(
                    set[j],
                    r,
                    t0,
                    t1,
                )->Hit_0)
        },
        closest_hit_spec(r, set, t0, t1) is None ==> forall|j: int|
            0 <= j < set.len() && #[trigger] prim_hit_spec(set[j], r, t0, t1) is Hit
                ==> prim_hit_spec(set[j], r, t0, t1)->Hit_0 == i64::MAX,
{
    lemma_closest_state_minimal(r, set, t0, t1, set.len() as int);
}

/// The closest-hit scan state over the first `n` primitives: the best
/// parameter bounds every strike seen so far, strictly for earlier
/// indices than the best.
#[verifier::rlimit(100)]
proof fn lemma_closest_state_minimal(r: Ray, set: Seq<Primitive>, t0: int, t1: int, n: int)
    requires
        n <= set.len(),
    ensures
        closest_state(r, set, t0, t1, n).0 matches Option::Some((i, p)) ==> {
            &&& 0 <= i < n
            &&& prim_hit_spec(set[i], r, t0, t1) matches HitType::Hit(t) && t as int
                == closest_state(r, set, t0, t1, n).1 && p == point_spec(r, t as int) && forall|
                j: int,
            |
                0 <= j < n && #[trigger] prim_hit_spec(set[j], r, t0, t1) is Hit ==> t
                    <= prim_hit_spec(set[j], r, t0, t1)->Hit_0 && (j < i ==> t < prim_hit_spec(
                    set[j],
                    r,
                    t0,
                    t1,
                )->Hit_0)
        },
        closest_state(r, set, t0, t1, n).0 is None ==> closest_state(r, set, t0, t1, n).1
            == i64::MAX as int && forall|j: int|
            0 <= j < n && #[trigger] prim_hit_spec(set[j], r, t0, t1) is Hit ==> prim_hit_spec(
                set[j],
                r,
                t0,
                t1,
            )->Hit_0 == i64::MAX,
    decreases n,
{
    if n > 0 {
        lemma_closest_state_minimal(r, set, t0, t1, n - 1);
    }
}

/// Whether some in-range centered pixel of a `dims` band lands at buffer
/// index `idx`.
pub open spec fn band_maps(dims: (int, int), idx: int) -> bool {
    exists|x: int, y: int| in_range(dims, x, y) && idx == #[trigger] pad_index(dims, x, y)
}

/// What `render` promises of the band buffer it returns: the padded
/// dimensions, one cell per in-range centered pixel holding that pixel's
/// color, and the background everywhere else.
pub open spec fn band_post(
    buf: Matrix<Color>,
    start: (int, int),
    dims: (int, int),
    set: Seq<Primitive>,
    ls: Seq<Light>,
    cam: Vector,
    depth: nat,
) -> bool {
    &&& buf.rlen == dims.0 + 1
    &&& buf.clen == dims.1 + 1
    &&& buf.wf()
    &&& forall|x: int, y: int|
        in_range(dims, x, y) ==> buf.mat@[#[trigger] pad_index(dims, x, y)] == target_cell(
            start,
            dims,
            set,
            ls,
            cam,
            depth,
            x,
            y,
        )
    &&& forall|idx: int|
        #![trigger buf.mat@[idx]]
        0 <= idx < (dims.0 + 1) * (dims.1 + 1) && !band_maps(dims, idx) ==> buf.mat@[idx]
            == white()
}

/// The band buffer as the model sees it, cell by cell: the pixel's color
/// where some in-range centered pixel lands, the background elsewhere.
pub open spec fn band_cells(
    start: (int, int),
    dims: (int, int),
    set: Seq<Primitive>,
    ls: Seq<Light>,
    cam: Vector,
    depth: nat,
) -> Seq<Color> {
    Seq::new(
        ((dims.0 + 1) * (dims.1 + 1)) as nat,
        |idx: int|
            {
                if band_maps(dims, idx) {
                    let xy = choose|x: int, y: int|
                        in_range(dims, x, y) && idx == #[trigger] pad_index(dims, x, y);
                    target_cell(start, dims, set, ls, cam, depth, xy.0, xy.1)
                } else {
                    white()
                }
            },
    )
}

/// A buffer satisfying `band_post` holds exactly the modeled band cells.
pub proof fn lemma_band_post_cells(
    buf: Matrix<Color>,
    start: (int, int),
    dims: (int, int),
    set: Seq<Primitive>,
    ls: Seq<Light>,
    cam: Vector,
    depth: nat,
)
    requires
        band_post(buf, start, dims, set, ls, cam, depth),
        1 <= dims.0,
        1 <= dims.1,
    ensures
        buf.mat@ == band_cells(start, dims, set, ls, cam, depth),
{
    let cells = band_cells(start, dims, set, ls, cam, depth);
    assert(buf.mat@.len() == cells.len());
    assert forall|idx: int| 0 <= idx < cells.len() implies buf.mat@[idx] == cells[idx] by {
        if band_maps(dims, idx) {
            let xy = choose|x: int, y: int|
                in_range(dims, x, y) && idx == #[trigger] pad_index(dims, x, y);
            assert(in_range(dims, xy.0, xy.1) && idx == pad_index(dims, xy.0, xy.1));
        }
    }
    assert(buf.mat@ =~= cells);
}

/// Computes the color of one centered pixel of a band: the primary ray
/// off the viewport, resolved against the scene, lit by every light in
/// turn; nothing when the ray strikes nothing.
#[verifier::rlimit(60)]
fn render_pixel(
    start: (i32, i32),
    dims: (usize, usize),
    x: i32,
    y: i32,
    set: &Vec<Primitive>,
    lights: &Vec<Light>,
    cfg: &Config,
) -> (res: Option<Color>)
    requires
        1 <= dims.0 <= 16384,
        1 <= dims.1 <= 16384,
        scene_wf(set@),
        lights_wf(lights@),
        cfg.world.cam_pos.dlen() == 3,
    ensures
        res == pixel_color_spec(
            (start.0 as int, start.1 as int),
            (dims.0 as int, dims.1 as int),
            set@,
            lights@,
            cfg.world.cam_pos,
            cfg.render.max_reflections as nat,
            x as int,
            y as int,
        ),
{
    let ghost starti = (start.0 as int, start.1 as int);
    let ghost dimsi = (dims.0 as int, dims.1 as int);
    let ghost cam = cfg.world.cam_pos;
    let ghost depth = cfg.render.max_reflections as nat;

    let wfx = (dims.0 as i64) * FX_ONE;
    let hfx = (dims.1 as i64) * FX_ONE;
    let vh = fx_div(fx_mul(FX_ONE, hfx), wfx);

    // transform canvas coordinates to viewport coordinates: the viewport
    // axes and scale match the canvas, so the transform is a scaling op
    let xs = (x as i64 + start.0 as i64) * FX_ONE;
    let ys = (y as i64 - start.1 as i64) * FX_ONE;
    let view_coord = Vector::from_3(
        fx_div(fx_mul(xs, FX_ONE), wfx),
        fx_div(fx_mul(ys, vh), hfx),
        FX_VIEW_DIST,
    );

    // create ray coming off viewport
    let v_ray = Ray { o: cfg.world.cam_pos, d: view_coord };
    proof {
        assert(xs as int == (x as int + starti.0) * (FX_ONE as int));
        assert(ys as int == (y as int - starti.1) * (FX_ONE as int));
        assert(v_ray == pixel_ray_spec(starti, dimsi, cam, x as int, y as int));
    }

    if let Option::Some((i, p)) = closest_hit(&v_ray, set, (FX_VIEW_DIST, FX_INF)) {
        let mut color_v = Vector::zero(3);

        let mut li: usize = 0;
        while li < lights.len()
            invariant
                li <= lights@.len(),
                i < set@.len(),
                p.dlen() == 3,
                scene_wf(set@),
                lights_wf(lights@),
                depth == cfg.render.max_reflections as nat,
                color_v == light_sum_spec(i as int, set@, p, lights@, depth, li as int),
                color_v.dlen() == 3,
            decreases lights@.len() - li,
        {
            color_v = color_v.add(light(i, set, &p, &lights[li], cfg.render.max_reflections));
            li = li + 1;
        }

        // clamp the sum of light colors to the output range and multiply
        // by the surface color
        let cvv = set[i].material(&p).color.mul(color_v).clamp(0, FX_ONE);
        Option::Some(map_color(cvv))
    } else {
        Option::None
    }
}

/// The state of a band buffer mid-render: pixels before the boundary
/// `(xb, yb)` in row-major order hold their final colors, the rest and
/// the padding cells still hold the background.
spec fn band_progress(
    m: Matrix<Color>,
    start: (int, int),
    dims: (int, int),
    set: Seq<Primitive>,
    ls: Seq<Light>,
    cam: Vector,
    depth: nat,
    xb: int,
    yb: int,
) -> bool {
    &&& m.rlen == dims.0 + 1
    &&& m.clen == dims.1 + 1
    &&& m.wf()
    &&& forall|x2: int, y2: int|
        in_range(dims, x2, y2) ==> m.mat@[#[trigger] pad_index(dims, x2, y2)] == (
        if y2 < yb || (y2 == yb && x2 < xb) {
            target_cell(start, dims, set, ls, cam, depth, x2, y2)
        } else {
            white()
        })
    &&& forall|idx: int|
        #![trigger m.mat@[idx]]
        0 <= idx < (dims.0 + 1) * (dims.1 + 1) && !band_maps(dims, idx) ==> m.mat@[idx] == white()
}

/// Writing the boundary pixel's color advances the boundary by one pixel.
proof fn lemma_band_step_hit(
    m0: Matrix<Color>,
    m1: Matrix<Color>,
    start: (int, int),
    dims: (int, int),
    set: Seq<Primitive>,
    ls: Seq<Light>,
    cam: Vector,
    depth: nat,
    xi: int,
    yi: int,
)
    requires
        1 <= dims.0,
        1 <= dims.1,
        band_progress(m0, start, dims, set, ls, cam, depth, xi, yi),
        in_range(dims, xi, yi),
        m1.rlen == m0.rlen,
        m1.clen == m0.clen,
        m1.mat@ == m0.mat@.update(
            pad_index(dims, xi, yi),
            target_cell(start, dims, set, ls, cam, depth, xi, yi),
        ),
    ensures
        band_progress(m1, start, dims, set, ls, cam, depth, xi + 1, yi),
{
    lemma_pad_bounds(dims, xi, yi);
    assert forall|x2: int, y2: int| in_range(dims, x2, y2) implies m1.mat@[#[trigger] pad_index(
        dims,
        x2,
        y2,
    )] == (
    if y2 < yi || (y2 == yi && x2 < xi + 1) {
        target_cell(start, dims, set, ls, cam, depth, x2, y2)
    } else {
        white()
    }) by {
        lemma_pad_bounds(dims, x2, y2);
        if !(x2 == xi && y2 == yi) {
            lemma_pad_injective(dims, x2, y2, xi, yi);
        }
    }
    assert forall|idx: int|
        0 <= idx < (dims.0 + 1) * (dims.1 + 1) && !band_maps(dims, idx) implies #[trigger] m1.mat@[idx]
        == white() by {
        assert(band_maps(dims, pad_index(dims, xi, yi)));
    }
}

/// When the boundary pixel keeps the background, the boundary advances
/// with nothing written.
proof fn lemma_band_step_miss(
    m: Matrix<Color>,
    start: (int, int),
    dims: (int, int),
    set: Seq<Primitive>,
    ls: Seq<Light>,
    cam: Vector,
    depth: nat,
    xi: int,
    yi: int,
)
    requires
        band_progress(m, start, dims, set, ls, cam, depth, xi, yi),
        in_range(dims, xi, yi),
        target_cell(start, dims, set, ls, cam, depth, xi, yi) == white(),
    ensures
        band_progress(m, start, dims, set, ls, cam, depth, xi + 1, yi),
{
    assert forall|x2: int, y2: int| in_range(dims, x2, y2) implies m.mat@[#[trigger] pad_index(
        dims,
        x2,
        y2,
    )] == (
    if y2 < yi || (y2 == yi && x2 < xi + 1) {
        target_cell(start, dims, set, ls, cam, depth, x2, y2)
    } else {
        white()
    }) by {}
}

/// A finished row's boundary wraps to the start of the next row.
proof fn lemma_band_row_done(
    m: Matrix<Color>,
    start: (int, int),
    dims: (int, int),
    set: Seq<Primitive>,
    ls: Seq<Light>,
    cam: Vector,
    depth: nat,
    yi: int,
)
    requires
        band_progress(m, start, dims, set, ls, cam, depth, dims.0 / 2, yi),
    ensures
        band_progress(m, start, dims, set, ls, cam, depth, -(dims.0 / 2), yi + 1),
{
    assert forall|x2: int, y2: int| in_range(dims, x2, y2) implies m.mat@[#[trigger] pad_index(
        dims,
        x2,
        y2,
    )] == (
    if y2 < yi + 1 || (y2 == yi + 1 && x2 < -(dims.0 / 2)) {
        target_cell(start, dims, set, ls, cam, depth, x2, y2)
    } else {
        white()
    }) by {}
}

/// A boundary past the last row means every pixel is final.
proof fn lemma_band_finish(
    m: Matrix<Color>,
    start: (int, int),
    dims: (int, int),
    set: Seq<Primitive>,
    ls: Seq<Light>,
    cam: Vector,
    depth: nat,
)
    requires
        band_progress(m, start, dims, set, ls, cam, depth, -(dims.0 / 2), dims.1 / 2),
    ensures
        band_post(m, start, dims, set, ls, cam, depth),
{
    assert forall|x2: int, y2: int| in_range(dims, x2, y2) implies m.mat@[#[trigger] pad_index(
        dims,
        x2,
        y2,
    )] == target_cell(start, dims, set, ls, cam, depth, x2, y2) by {}
}

/// Renders a band of the scene: objects in `set`, lights in `lights`, and
/// configuration information in `cfg`.
/// Returns a Matrix of colors representing RGB values of the band, with
/// one extra row and column keeping the centered canvas bounds
/// symmetrical.
pub fn render(
    start: (i32, i32),
    dims: (usize, usize),
    set: &Vec<Primitive>,
    lights: &Vec<Light>,
    cfg: &Config,
) -> (buf: Matrix<Color>)
    requires
        1 <= dims.0 <= 16384,
        1 <= dims.1 <= 16384,
        scene_wf(set@),
        lights_wf(lights@),
        cfg.world.cam_pos.dlen() == 3,
    ensures
        band_post(
            buf,
            (start.0 as int, start.1 as int),
            (dims.0 as int, dims.1 as int),
            set@,
            lights@,
            cfg.world.cam_pos,
            cfg.render.max_reflections as nat,
        ),
{
    let ghost dimsi = (dims.0 as int, dims.1 as int);
    let ghost starti = (start.0 as int, start.1 as int);
    let ghost cam = cfg.world.cam_pos;
    let ghost depth = cfg.render.max_reflections as nat;

    // adding an extra row and column to make canvas bounds symmetrical
    proof {
        assert(dims.0 * dims.1 <= 16384 * 16384) by (nonlinear_arith)
            requires
                dims.0 <= 16384 && dims.1 <= 16384,
        ;
        assert((dims.0 + 1) * (dims.1 + 1) == dims.0 * dims.1 + dims.0 + dims.1 + 1)
            by (nonlinear_arith);
    }
    let pixels = dims.0 * dims.1 + dims.0 + dims.1 + 1;
    let mut cells: Vec<Color> = Vec::new();
    while cells.len() < pixels
        invariant
            cells@.len() <= pixels,
            forall|k: int| 0 <= k < cells@.len() ==> cells@[k] == white(),
        decreases pixels - cells@.len(),
    {
        cells.push(Color { r: 255, g: 255, b: 255 });
    }
    let mut buf = Matrix { mat: cells, rlen: dims.0 + 1, clen: dims.1 + 1 };
    proof {
        assert forall|x2: int, y2: int| in_range(dimsi, x2, y2) implies buf.mat@[#[trigger] pad_index(
            dimsi,
            x2,
            y2,
        )] == white() by {
            lemma_pad_bounds(dimsi, x2, y2);
        }
        assert(band_progress(
            buf,
            starti,
            dimsi,
            set@,
            lights@,
            cam,
            depth,
            -(dimsi.0 / 2),
            -(dimsi.1 / 2),
        ));
    }

    let hw: i32 = (dims.0 / 2) as i32;
    let hh: i32 = (dims.1 / 2) as i32;

    let mut y: i32 = -hh;
    while y < hh
        invariant
            -hh <= y <= hh,
            hw as int == dimsi.0 / 2,
            hh as int == dimsi.1 / 2,
            1 <= dims.0 <= 16384,
            1 <= dims.1 <= 16384,
            dimsi == (dims.0 as int, dims.1 as int),
            starti == (start.0 as int, start.1 as int),
            cam == cfg.world.cam_pos,
            depth == cfg.render.max_reflections as nat,
            scene_wf(set@),
            lights_wf(lights@),
            cam.dlen() == 3,
            band_progress(buf, starti, dimsi, set@, lights@, cam, depth, -(dimsi.0 / 2), y as int),
        decreases hh - y,
    {
        let mut x: i32 = -hw;
        while x < hw
            invariant
                -hw <= x <= hw,
                -hh <= y < hh,
                hw as int == dimsi.0 / 2,
                hh as int == dimsi.1 / 2,
                1 <= dims.0 <= 16384,
                1 <= dims.1 <= 16384,
                dimsi == (dims.0 as int, dims.1 as int),
                starti == (start.0 as int, start.1 as int),
                cam == cfg.world.cam_pos,
                depth == cfg.render.max_reflections as nat,
                scene_wf(set@),
                lights_wf(lights@),
                cam.dlen() == 3,
                band_progress(buf, starti, dimsi, set@, lights@, cam, depth, x as int, y as int),
            decreases hw - x,
        {
            let ghost xi = x as int;
            let ghost yi = y as int;
            proof {
                lemma_pad_bounds(dimsi, xi, yi);
            }

            if let Option::Some(c) = render_pixel(start, dims, x, y, set, lights, cfg) {
                let ghost m0 = buf;
                draw_pixel(&mut buf, (x, y), c);
                proof {
                    lemma_band_step_hit(
                        m0,
                        buf,
                        starti,
                        dimsi,
                        set@,
                        lights@,
                        cam,
                        depth,
                        xi,
                        yi,
                    );
                }
            } else {
                proof {
                    lemma_band_step_miss(buf, starti, dimsi, set@, lights@, cam, depth, xi, yi);
                }
            }
            x = x + 1;
        }
        proof {
            lemma_band_row_done(buf, starti, dimsi, set@, lights@, cam, depth, y as int);
        }
        y = y + 1;
    }

    proof {
        lemma_band_finish(buf, starti, dimsi, set@, lights@, cam, depth);
    }
    buf
}

} // verus!

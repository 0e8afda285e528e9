use oxide::draw::Color;
use oxide::fx::{FX_INF, FX_ONE};
use oxide::opts::{Config, Format, Output, Render, World};
use oxide::ray::{HitType, Light, LightType, Material, Plane, Primitive, Ray, Sphere};
use oxide::render::{any_hit, closest_hit, light, render};
use oxide::vector::Vector;

fn fx(v: i64) -> i64 {
    v * FX_ONE
}

fn red_matte() -> Material {
    Material { color: Vector::from_3(fx(1), 0, 0), specular: -1, refl: 0 }
}

#[test]
fn sphere_on_axis_is_hit_at_entry_point() {
    // Sphere centered at (0, 0, 4) with radius 1, ray from the origin
    // along +z: the nearer root is the entry point at t = 3.
    let s = Sphere { c: Vector::from_3(0, 0, fx(4)), r: fx(1), mat: red_matte() };
    let r = Ray { o: Vector::zero(3), d: Vector::from_3(0, 0, fx(1)) };

    assert_eq!(s.hit(&r, (0, FX_INF)), HitType::Hit(fx(3)));

    let objs = vec![Primitive::Sphere(s)];
    let res = closest_hit(&r, &objs, (0, FX_INF));
    assert_eq!(res, Some((0, Vector::from_3(0, 0, fx(3)))));
}

#[test]
fn overlapping_spheres_closest_vs_any() {
    // Two spheres on the same ray: the farther one listed first. The
    // closest-hit resolver returns the nearer sphere's index and entry
    // point; the any-hit resolver returns the first listed, even though
    // it is farther.
    let far = Sphere { c: Vector::from_3(0, 0, fx(6)), r: fx(1), mat: red_matte() };
    let near = Sphere { c: Vector::from_3(0, 0, fx(4)), r: fx(1), mat: red_matte() };
    let objs = vec![Primitive::Sphere(far), Primitive::Sphere(near)];
    let r = Ray { o: Vector::zero(3), d: Vector::from_3(0, 0, fx(1)) };

    assert_eq!(closest_hit(&r, &objs, (0, FX_INF)), Some((1, Vector::from_3(0, 0, fx(3)))));
    assert_eq!(any_hit(&r, &objs, (0, FX_INF)), Some((0, Vector::from_3(0, 0, fx(5)))));
}

#[test]
fn closest_hit_of_empty_scene_is_none() {
    let objs: Vec<Primitive> = vec![];
    let r = Ray { o: Vector::zero(3), d: Vector::from_3(0, 0, fx(1)) };
    assert_eq!(closest_hit(&r, &objs, (0, FX_INF)), None);
    assert_eq!(any_hit(&r, &objs, (0, FX_INF)), None);
}

#[test]
fn plane_hit_solves_the_plane_equation() {
    let pl = Plane {
        p: Vector::from_3(0, 0, fx(5)),
        n: Vector::from_3(0, 0, fx(-1)),
        mat: red_matte(),
    };
    let r = Ray { o: Vector::zero(3), d: Vector::from_3(0, 0, fx(1)) };
    assert_eq!(pl.hit(&r, (0, FX_INF)), HitType::Hit(fx(5)));

    // a ray parallel to the plane misses
    let sideways = Ray { o: Vector::zero(3), d: Vector::from_3(fx(1), 0, 0) };
    assert_eq!(pl.hit(&sideways, (0, FX_INF)), HitType::Miss());

    // a parallel ray whose origin lies on the plane misses too, even over
    // an interval admitting zero
    let on_plane = Plane {
        p: Vector::zero(3),
        n: Vector::from_3(0, 0, fx(1)),
        mat: red_matte(),
    };
    let grazing = Ray { o: Vector::zero(3), d: Vector::from_3(fx(1), 0, 0) };
    assert_eq!(on_plane.hit(&grazing, (fx(-1), fx(1))), HitType::Miss());

    // a hit beyond the interval is rejected
    assert_eq!(pl.hit(&r, (0, fx(4))), HitType::Miss());
}

#[test]
fn point_light_behind_sphere_is_shadowed() {
    // A point light at (0, 0, 10) behind an opaque sphere centered at
    // (0, 0, 5): the surface point at the origin is in hard shadow and
    // that light contributes the zero vector.
    let s = Sphere { c: Vector::from_3(0, 0, fx(5)), r: fx(1), mat: red_matte() };
    let objs = vec![Primitive::Sphere(s)];
    let p = Vector::zero(3);
    let l = Light {
        color: Vector::from_3(fx(1), fx(1), fx(1)),
        kind: LightType::Point(Vector::from_3(0, 0, fx(10))),
    };

    assert_eq!(light(0, &objs, &p, &l, 5), Vector::zero(3));
}

#[test]
fn zero_reflection_budget_gives_direct_shading_only() {
    // With max_reflections = 0, a fully reflective sphere shades exactly
    // like a matte one: no reflected light is blended in.
    let mirror = Material { color: Vector::from_3(fx(1), 0, 0), specular: -1, refl: FX_ONE };
    let matte = red_matte();
    let shiny = vec![Primitive::Sphere(
        Sphere { c: Vector::from_3(0, 0, fx(4)), r: fx(1), mat: mirror },
    )];
    let dull = vec![Primitive::Sphere(
        Sphere { c: Vector::from_3(0, 0, fx(4)), r: fx(1), mat: matte },
    )];
    // the surface point facing the camera, lit from the camera's side
    let p = Vector::from_3(0, 0, fx(3));
    let l = Light {
        color: Vector::from_3(fx(1), fx(1), fx(1)),
        kind: LightType::Directional(Vector::from_3(0, 0, fx(-1))),
    };

    let with_mirror = light(0, &shiny, &p, &l, 0);
    let with_matte = light(0, &dull, &p, &l, 0);
    assert_eq!(with_mirror, with_matte);
    // full diffuse contribution of the red material
    assert_eq!(with_mirror, Vector::from_3(fx(1), 0, 0));
}

fn ambient_scene_cfg(threads: usize) -> Config {
    Config {
        output: Output { format: Format::Png, width: 6, height: 6, bits: 8 },
        render: Render { max_reflections: 0, threads },
        world: World {
            cam_pos: Vector::zero(3),
            background: Vector::from_3(fx(1), fx(1), fx(1)),
        },
    }
}

#[test]
fn ambient_only_sphere_renders_scaled_red() {
    // One red sphere at (0, -1, 3), one ambient light of 0.2: the pixel
    // on the sphere's silhouette renders to (51, 0, 0) — 0.2 * 255 on the
    // red channel only.
    let objs = vec![Primitive::Sphere(
        Sphere { c: Vector::from_3(0, fx(-1), fx(3)), r: fx(1), mat: red_matte() },
    )];
    let lights = vec![Light {
        color: Vector::from_3(200_000, 200_000, 200_000),
        kind: LightType::Ambient,
    }];
    let cfg = ambient_scene_cfg(1);

    let buf = render((0, 0), (6, 6), &objs, &lights, &cfg);
    assert_eq!(buf.rlen, 7);
    assert_eq!(buf.clen, 7);

    // centered pixel (0, -1) lands at column 3 of row 4
    assert_eq!(buf.mat[4 * 7 + 3], Color { r: 51, g: 0, b: 0 });
    // a pixel far off the silhouette keeps the white background
    assert_eq!(buf.mat[1 * 7 + 1], Color { r: 255, g: 255, b: 255 });
}

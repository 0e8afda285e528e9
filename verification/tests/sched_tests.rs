use oxide::draw::Color;
use oxide::fx::FX_ONE;
use oxide::mat::Matrix;
use oxide::opts::{Config, Format, Output, Render, World};
use oxide::ray::{Light, LightType, Material, Primitive, Sphere};
use oxide::sched::{band_plan, get_bytes, render_bands};
use oxide::vector::Vector;

fn fx(v: i64) -> i64 {
    v * FX_ONE
}

fn cfg_for(width: usize, height: usize, threads: usize) -> Config {
    Config {
        output: Output { format: Format::Png, width, height, bits: 8 },
        render: Render { max_reflections: 2, threads },
        world: World {
            cam_pos: Vector::zero(3),
            background: Vector::from_3(fx(1), fx(1), fx(1)),
        },
    }
}

#[test]
fn band_plan_divides_evenly_and_covers_remainders() {
    // 10 rows over 3 workers: three uniform bands of 3 rows, then one
    // extra band covering the last row, positioned after them.
    assert_eq!(band_plan(10, 3), vec![(-4, 3), (-1, 3), (2, 3), (4, 1)]);
    // an exact division needs no extra band
    assert_eq!(band_plan(8, 2), vec![(-2, 4), (2, 4)]);
    // more workers than rows clamps to one row per band
    assert_eq!(band_plan(2, 16), vec![(-1, 1), (0, 1)]);
    // a single worker takes the whole image
    assert_eq!(band_plan(5, 1), vec![(0, 5)]);
}

#[test]
fn get_bytes_drops_the_padding_row_and_column() {
    // a 3x3 buffer whose valid 2x2 corner holds distinct colors
    let mut cells = vec![Color { r: 0, g: 0, b: 0 }; 9];
    cells[0] = Color { r: 1, g: 2, b: 3 };
    cells[1] = Color { r: 4, g: 5, b: 6 };
    cells[3] = Color { r: 7, g: 8, b: 9 };
    cells[4] = Color { r: 10, g: 11, b: 12 };
    let m = Matrix { mat: cells, rlen: 3, clen: 3 };

    assert_eq!(get_bytes(&m), vec![1, 2, 3, 4, 5, 6, 7, 8, 9, 10, 11, 12]);
}

#[test]
fn empty_scene_renders_all_background_any_thread_count() {
    // With no primitives, every pixel keeps the opaque white background,
    // and the merged bands are byte-for-byte the single-threaded image.
    let objs: Vec<Primitive> = vec![];
    let lights: Vec<Light> = vec![];

    let single = render_bands((4, 5), &objs, &lights, &cfg_for(4, 5, 1));
    assert_eq!(single.len(), 4 * 5 * 3);
    assert!(single.iter().all(|b| *b == 255));

    let banded = render_bands((4, 5), &objs, &lights, &cfg_for(4, 5, 3));
    assert_eq!(single, banded);

    let many = render_bands((4, 5), &objs, &lights, &cfg_for(4, 5, 16));
    assert_eq!(single, many);
}

#[test]
fn banded_render_of_a_sphere_scene_has_expected_length() {
    let objs = vec![Primitive::Sphere(Sphere {
        c: Vector::from_3(0, fx(-1), fx(3)),
        r: fx(1),
        mat: Material { color: Vector::from_3(fx(1), 0, 0), specular: -1, refl: 0 },
    })];
    let lights = vec![Light {
        color: Vector::from_3(200_000, 200_000, 200_000),
        kind: LightType::Ambient,
    }];

    let bytes = render_bands((6, 6), &objs, &lights, &cfg_for(6, 6, 2));
    assert_eq!(bytes.len(), 6 * 6 * 3);
    // the silhouette pixel of the ambient-lit red sphere
    assert!(bytes.chunks(3).any(|c| c == [51, 0, 0]));
}

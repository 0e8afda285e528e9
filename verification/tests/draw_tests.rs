use oxide::draw::{draw_pixel, map_color, Color};
use oxide::fx::FX_ONE;
use oxide::mat::Matrix;
use oxide::opts::Format;
use oxide::vector::Vector;

#[test]
fn map_color_scales_to_eight_bits_and_saturates() {
    // exact scaling: 1.0 -> 255, 0.5 -> 127 (truncated), 0.2 -> 51
    assert_eq!(
        map_color(Vector::from_3(FX_ONE, 500_000, 200_000)),
        Color { r: 255, g: 127, b: 51 },
    );
    // out-of-range channels clamp to the ends
    assert_eq!(
        map_color(Vector::from_3(2 * FX_ONE, -FX_ONE, 0)),
        Color { r: 255, g: 0, b: 0 },
    );
}

#[test]
fn draw_pixel_writes_centered_coordinates_flipped() {
    let white = Color { r: 255, g: 255, b: 255 };
    let red = Color { r: 200, g: 0, b: 0 };
    let mut m = Matrix { mat: vec![white; 9], rlen: 3, clen: 3 };

    // the centered origin lands in the middle of the 3x3 canvas
    draw_pixel(&mut m, (0, 0), red);
    assert_eq!(m.mat[4], red);

    // the positive y direction is up, so row index decreases
    let blue = Color { r: 0, g: 0, b: 250 };
    draw_pixel(&mut m, (1, 1), blue);
    assert_eq!(m.mat[0 * 3 + 2], blue);
}

#[test]
fn draw_pixel_ignores_out_of_canvas_coordinates() {
    let white = Color { r: 255, g: 255, b: 255 };
    let red = Color { r: 200, g: 0, b: 0 };
    let mut m = Matrix { mat: vec![white; 9], rlen: 3, clen: 3 };

    draw_pixel(&mut m, (7, 0), red);
    draw_pixel(&mut m, (0, -9), red);
    assert!(m.mat.iter().all(|c| *c == white));
}

#[test]
fn default_output_format_is_png() {
    assert_eq!(Format::default(), Format::Png);
}

use image_gen::coloring::{SolidColor, TransparentColor};
use image_gen::{apply_swaps_buffer, blank_layer, clip_layer, Image, PixelSwap};

fn solid(r: u8, g: u8, b: u8) -> SolidColor {
    SolidColor { red: r, green: g, blue: b }
}

fn opaque(r: u8, g: u8, b: u8) -> TransparentColor {
    TransparentColor { red: r, green: g, blue: b, alpha: 255 }
}

#[test]
fn blank_layer_is_fully_transparent() {
    let layer = blank_layer(6);
    assert_eq!(layer.len(), 6);
    for cell in layer {
        assert_eq!((cell.red, cell.green, cell.blue, cell.alpha), (0, 0, 0, 0));
    }
}

#[test]
fn clip_layer_resets_masked_out_cells() {
    let mut layer = vec![opaque(1, 1, 1), opaque(2, 2, 2), opaque(3, 3, 3)];
    let keep = vec![true, false, true];
    clip_layer(&mut layer, &keep);
    assert_eq!(layer[0].red, 1);
    assert_eq!((layer[1].red, layer[1].alpha), (0, 0));
    assert_eq!(layer[2].red, 3);
}

#[test]
fn apply_swaps_runs_in_order() {
    let mut buffer = vec![10u8, 20, 30, 40];
    let swaps = vec![
        PixelSwap { x1: 0, y1: 0, x2: 1, y2: 1 },
        PixelSwap { x1: 1, y1: 1, x2: 1, y2: 0 },
    ];
    // Width 2: first swap cells 0 and 3, then cells 3 and 1.
    apply_swaps_buffer(&mut buffer, 2, &swaps);
    assert_eq!(buffer, vec![40, 10, 30, 20]);
}

#[test]
fn full_density_swap_list_applies_once_per_pixel() {
    // A 2x2 canvas with one swap per pixel, as a swap density of one asks
    // for; self-swaps count as operations but change nothing.
    let mut image = Image::with_size(2, 2, solid(0, 0, 0));
    *image.get_pixel_mut(0, 0) = solid(1, 0, 0);
    *image.get_pixel_mut(1, 0) = solid(2, 0, 0);
    *image.get_pixel_mut(0, 1) = solid(3, 0, 0);
    *image.get_pixel_mut(1, 1) = solid(4, 0, 0);
    let swaps = vec![
        PixelSwap { x1: 0, y1: 0, x2: 1, y2: 0 },  // 2 1 3 4
        PixelSwap { x1: 0, y1: 1, x2: 1, y2: 1 },  // 2 1 4 3
        PixelSwap { x1: 0, y1: 0, x2: 0, y2: 0 },  // self-swap, no change
        PixelSwap { x1: 1, y1: 0, x2: 0, y2: 1 },  // 2 4 1 3
    ];
    assert_eq!(swaps.len(), 4);
    image.apply_swaps(&swaps);
    assert_eq!(image.get_pixel(0, 0).red, 2);
    assert_eq!(image.get_pixel(1, 0).red, 4);
    assert_eq!(image.get_pixel(0, 1).red, 1);
    assert_eq!(image.get_pixel(1, 1).red, 3);
}

#[test]
fn composite_layer_blends_every_pixel() {
    let mut image = Image::with_size(2, 1, solid(100, 150, 200));
    let layer = vec![
        TransparentColor { red: 50, green: 60, blue: 70, alpha: 128 },
        TransparentColor::transparent(),
    ];
    image.composite_layer(&layer);
    let first = image.get_pixel(0, 0);
    assert_eq!((first.red, first.green, first.blue), (74, 104, 134));
    let second = image.get_pixel(1, 0);
    assert_eq!((second.red, second.green, second.blue), (100, 150, 200));
}

#[test]
fn draw_layer_runs_stages_in_pipeline_order() {
    // Width 2, height 1. The pre-clip swap exchanges the two cells, the
    // mask then clears the second, and the post-draw swap exchanges the
    // composited pixels again.
    let mut image = Image::with_size(2, 1, solid(0, 0, 0));
    let layer = vec![opaque(255, 0, 0), opaque(0, 255, 0)];
    let keep = vec![true, false];
    let pre = vec![PixelSwap { x1: 0, y1: 0, x2: 1, y2: 0 }];
    let post_draw = vec![PixelSwap { x1: 0, y1: 0, x2: 1, y2: 0 }];
    image.draw_layer(layer, &keep, Some(&pre), None, Some(&post_draw));
    // After the pre swap the layer is [green, red]; the clip clears the
    // red; compositing gives [green, black]; the final swap flips them.
    assert_eq!(image.get_pixel(0, 0).green, 0);
    assert_eq!(image.get_pixel(1, 0).green, 255);
}

/// Linear-gradient sampling on continuous coordinates, as the renderer's
/// front end computes it: each pole's weight is the normalized distance to
/// the opposite pole, and points beyond a pole saturate to that pole.
fn sample_gradient(
    p1: (f64, f64),
    c1: TransparentColor,
    p2: (f64, f64),
    c2: TransparentColor,
    point: (f64, f64),
) -> TransparentColor {
    if p1.0 == p2.0 {
        if point.1 < p1.1 {
            return c1;
        }
        if point.1 > p2.1 {
            return c2;
        }
    } else {
        if point.0 < p1.0 {
            return c1;
        }
        if point.0 > p2.0 {
            return c2;
        }
    }
    let d1 = ((point.0 - p1.0).powi(2) + (point.1 - p1.1).powi(2)).sqrt();
    let d2 = ((point.0 - p2.0).powi(2) + (point.1 - p2.1).powi(2)).sqrt();
    let total = d1 + d2;
    if total == 0.0 {
        return c1;
    }
    let w1 = d2 / total;
    let w2 = d1 / total;
    let mix = |a: u8, b: u8| -> u8 {
        let sum = a as f64 * w1 + b as f64 * w2;
        sum.clamp(0.0, 255.0) as u8
    };
    TransparentColor {
        red: mix(c1.red, c2.red),
        green: mix(c1.green, c2.green),
        blue: mix(c1.blue, c2.blue),
        alpha: mix(c1.alpha, c2.alpha),
    }
}

#[test]
fn gradient_layer_over_black_canvas() {
    // A 4x4 canvas, black background, a white-to-black diagonal gradient
    // clipped to the full canvas, no noise.
    let mut image = Image::with_size(4, 4, solid(0, 0, 0));
    let white = opaque(255, 255, 255);
    let black = opaque(0, 0, 0);
    let mut layer = Vec::new();
    for y in 0..4 {
        for x in 0..4 {
            layer.push(sample_gradient(
                (0.0, 0.0),
                white,
                (3.0, 3.0),
                black,
                (x as f64, y as f64),
            ));
        }
    }
    let keep = vec![true; 16];
    image.draw_layer(layer, &keep, None, None, None);
    let origin = image.get_pixel(0, 0);
    assert_eq!((origin.red, origin.green, origin.blue), (255, 255, 255));
    let corner = image.get_pixel(3, 3);
    assert_eq!((corner.red, corner.green, corner.blue), (0, 0, 0));
    let mut previous = 255u8;
    for d in 0..4 {
        let p = image.get_pixel(d, d);
        assert!(p.red <= previous, "brightness must not increase along the diagonal");
        assert_eq!(p.red, p.green);
        assert_eq!(p.green, p.blue);
        previous = p.red;
    }
}

/// Ellipse membership on continuous coordinates, as the renderer's front
/// end computes it; a zero radius contains nothing.
fn ellipse_contains(center: (f64, f64), width: f64, height: f64, point: (f64, f64)) -> bool {
    let part = |v: f64, c: f64, radius: f64| -> f64 {
        let d = v - c;
        d * d / (radius * radius)
    };
    let x_part = part(point.0, center.0, width / 2.0);
    let y_part = part(point.1, center.1, height / 2.0);
    x_part + y_part <= 1.0
}

#[test]
fn zero_radius_ellipse_leaves_canvas_unchanged() {
    // A 4x4 canvas with a colored background; the clip shape is an
    // ellipse of radius zero at the canvas center, so no pixel passes.
    let mut image = Image::with_size(4, 4, solid(9, 8, 7));
    let layer = vec![opaque(200, 200, 200); 16];
    let mut keep = Vec::new();
    for y in 0..4 {
        for x in 0..4 {
            keep.push(ellipse_contains((2.0, 2.0), 0.0, 0.0, (x as f64, y as f64)));
        }
    }
    assert!(keep.iter().all(|k| !k));
    image.draw_layer(layer, &keep, None, None, None);
    for y in 0..4 {
        for x in 0..4 {
            let p = image.get_pixel(x, y);
            assert_eq!((p.red, p.green, p.blue), (9, 8, 7));
        }
    }
}

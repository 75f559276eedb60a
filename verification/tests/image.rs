use image_gen::coloring::SolidColor;
use image_gen::Image;

fn color(r: u8, g: u8, b: u8) -> SolidColor {
    SolidColor { red: r, green: g, blue: b }
}

#[test]
fn with_size_fills_background() {
    let image = Image::with_size(3, 2, color(5, 47, 95));
    assert_eq!(image.canvas_width(), 3);
    assert_eq!(image.canvas_height(), 2);
    for y in 0..2 {
        for x in 0..3 {
            let p = image.get_pixel(x, y);
            assert_eq!((p.red, p.green, p.blue), (5, 47, 95));
        }
    }
}

#[test]
fn get_pixel_mut_writes_in_place() {
    let mut image = Image::with_size(2, 2, color(0, 0, 0));
    *image.get_pixel_mut(1, 0) = color(10, 20, 30);
    let p = image.get_pixel(1, 0);
    assert_eq!((p.red, p.green, p.blue), (10, 20, 30));
    let untouched = image.get_pixel(0, 0);
    assert_eq!((untouched.red, untouched.green, untouched.blue), (0, 0, 0));
}

#[test]
fn swap_pixels_exchanges_two_cells() {
    let mut image = Image::with_size(2, 1, color(0, 0, 0));
    *image.get_pixel_mut(0, 0) = color(1, 1, 1);
    *image.get_pixel_mut(1, 0) = color(2, 2, 2);
    image.swap_pixels(0, 0, 1, 0);
    assert_eq!(image.get_pixel(0, 0).red, 2);
    assert_eq!(image.get_pixel(1, 0).red, 1);
}

#[test]
fn swap_pixel_with_itself_is_noop() {
    let mut image = Image::with_size(2, 2, color(0, 0, 0));
    *image.get_pixel_mut(1, 1) = color(7, 7, 7);
    image.swap_pixels(1, 1, 1, 1);
    assert_eq!(image.get_pixel(1, 1).red, 7);
}

#[test]
fn row_major_layout_keeps_rows_apart() {
    let mut image = Image::with_size(2, 3, color(0, 0, 0));
    *image.get_pixel_mut(0, 2) = color(42, 0, 0);
    assert_eq!(image.get_pixel(0, 2).red, 42);
    assert_eq!(image.get_pixel(1, 2).red, 0);
    assert_eq!(image.get_pixel(0, 1).red, 0);
}

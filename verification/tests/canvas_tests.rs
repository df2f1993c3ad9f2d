//! Tests for the packed and byte-per-pixel canvases.

use fri3d_runtime::bitcanvas;
use fri3d_runtime::canvas;
use fri3d_runtime::types::Color;

#[test]
fn test_canvas_new() {
    let canvas = bitcanvas::Canvas::new();
    assert_eq!(canvas.width(), 128);
    assert_eq!(canvas.height(), 64);
    assert!(canvas.buffer().iter().all(|&b| b == 0));
}

#[test]
fn test_draw_pixel() {
    let mut canvas = bitcanvas::Canvas::new();
    canvas.draw_pixel(0, 0);
    assert_eq!(canvas.buffer()[0], 0b1000_0000);

    canvas.draw_pixel(7, 0);
    assert_eq!(canvas.buffer()[0], 0b1000_0001);
}

#[test]
fn test_draw_pixel_xor() {
    let mut canvas = bitcanvas::Canvas::new();
    canvas.draw_pixel(0, 0);
    assert_eq!(canvas.buffer()[0], 0b1000_0000);

    canvas.set_color(Color::Xor);
    canvas.draw_pixel(0, 0);
    assert_eq!(canvas.buffer()[0], 0b0000_0000);

    canvas.draw_pixel(0, 0);
    assert_eq!(canvas.buffer()[0], 0b1000_0000);
}

#[test]
fn test_clear() {
    let mut canvas = bitcanvas::Canvas::new();
    canvas.draw_pixel(10, 10);
    canvas.draw_pixel(20, 20);
    canvas.clear();
    assert!(canvas.buffer().iter().all(|&b| b == 0));
}

#[test]
fn dot_outside_window_leaves_buffer_unchanged() {
    let mut c = canvas::Canvas::new();
    c.draw_dot(5, 5);
    let before: Vec<u8> = c.buffer().to_vec();
    c.draw_dot(-1, 0);
    c.draw_dot(0, -1);
    c.draw_dot(128, 0);
    c.draw_dot(0, 64);
    c.draw_dot(1000, -1000);
    assert_eq!(c.buffer(), before.as_slice());
}

#[test]
fn frame_paints_expected_pixel_count() {
    let mut c = canvas::Canvas::new();
    c.draw_frame(10, 10, 20, 7);
    let painted = c.buffer().iter().filter(|&&p| p == 1).count();
    assert_eq!(painted, 2 * 20 + 2 * (7 - 2));
}

#[test]
fn frame_matches_box_outline() {
    let mut framed = canvas::Canvas::new();
    framed.draw_frame(3, 4, 9, 6);

    let mut boxed = canvas::Canvas::new();
    boxed.draw_box(3, 4, 9, 6);
    let mut inner = canvas::Canvas::new();
    inner.draw_box(4, 5, 7, 4);

    for y in 0..64i32 {
        for x in 0..128i32 {
            let i = (y * 128 + x) as usize;
            let outline = boxed.buffer()[i] == 1 && inner.buffer()[i] == 0;
            assert_eq!(framed.buffer()[i] == 1, outline);
        }
    }
}

#[test]
fn xor_circle_twice_restores_buffer() {
    let mut c = canvas::Canvas::new();
    c.draw_box(0, 0, 30, 30);
    let before: Vec<u8> = c.buffer().to_vec();
    c.set_color(Color::Xor);
    c.draw_circle(8, 8, 4);
    assert_ne!(c.buffer(), before.as_slice());
    c.draw_circle(8, 8, 4);
    assert_eq!(c.buffer(), before.as_slice());
}

#[test]
fn xor_circle_on_empty_buffer_clears_itself() {
    let mut c = canvas::Canvas::new();
    c.set_color(Color::Xor);
    c.draw_circle(8, 8, 4);
    c.draw_circle(8, 8, 4);
    assert!(c.buffer().iter().all(|&p| p == 0));
}

#[test]
fn xor_disc_twice_restores_buffer() {
    let mut c = canvas::Canvas::new();
    c.set_color(Color::Xor);
    c.draw_disc(20, 20, 6);
    c.draw_disc(20, 20, 6);
    assert!(c.buffer().iter().all(|&p| p == 0));
}

#[test]
fn line_with_equal_endpoints_plots_one_pixel() {
    let mut c = canvas::Canvas::new();
    c.draw_line(0, 0, 0, 0);
    let painted = c.buffer().iter().filter(|&&p| p == 1).count();
    assert_eq!(painted, 1);
    assert_eq!(c.buffer()[0], 1);
}

#[test]
fn packed_line_with_equal_endpoints_plots_one_pixel() {
    let mut c = bitcanvas::Canvas::new();
    c.draw_line(0, 0, 0, 0);
    assert_eq!(c.buffer()[0], 0b1000_0000);
    assert!(c.buffer().iter().skip(1).all(|&b| b == 0));
}

#[test]
fn round_rect_radius_clamps_to_half_extent() {
    let mut small = bitcanvas::Canvas::new();
    small.draw_round_rect(5, 5, 20, 10, 5);
    let mut large = bitcanvas::Canvas::new();
    large.draw_round_rect(5, 5, 20, 10, 999);
    assert_eq!(small.buffer(), large.buffer());

    let mut filled_small = bitcanvas::Canvas::new();
    filled_small.fill_round_rect(5, 5, 20, 10, 5);
    let mut filled_large = bitcanvas::Canvas::new();
    filled_large.fill_round_rect(5, 5, 20, 10, 999);
    assert_eq!(filled_small.buffer(), filled_large.buffer());
}

#[test]
fn round_rect_with_zero_radius_is_plain_rect() {
    let mut rounded = bitcanvas::Canvas::new();
    rounded.draw_round_rect(2, 2, 30, 12, 0);
    let mut plain = bitcanvas::Canvas::new();
    plain.draw_rect(2, 2, 30, 12);
    assert_eq!(rounded.buffer(), plain.buffer());
}

#[test]
fn draw_str_with_empty_text_is_a_no_op() {
    let mut c = bitcanvas::Canvas::new();
    c.draw_str(3, 3, "");
    assert!(c.buffer().iter().all(|&b| b == 0));
}

#[test]
fn string_width_counts_characters_times_cell_width() {
    let c = bitcanvas::Canvas::new();
    // the primary font cell is six pixels wide
    assert_eq!(c.string_width("abc"), 18);
    assert_eq!(c.string_width(""), 0);
}

#[test]
fn color_and_font_survive_clear() {
    let mut c = canvas::Canvas::new();
    c.set_color(Color::Xor);
    c.set_font(fri3d_runtime::types::Font::Keyboard);
    c.clear();
    assert_eq!(c.color(), Color::Xor);
    assert_eq!(c.font(), fri3d_runtime::types::Font::Keyboard);
}

#[test]
fn xor_frame_toggles_every_corner_once() {
    let mut c = canvas::Canvas::new();
    c.set_color(Color::Xor);
    c.draw_frame(10, 10, 20, 7);
    // every perimeter pixel, the four corners included, is now set
    let i = |x: i32, y: i32| (y * 128 + x) as usize;
    assert_eq!(c.buffer()[i(10, 10)], 1);
    assert_eq!(c.buffer()[i(29, 10)], 1);
    assert_eq!(c.buffer()[i(10, 16)], 1);
    assert_eq!(c.buffer()[i(29, 16)], 1);
    let painted = c.buffer().iter().filter(|&&p| p == 1).count();
    assert_eq!(painted, 2 * 20 + 2 * (7 - 2));
    // toggling the same frame again restores the blank buffer
    c.draw_frame(10, 10, 20, 7);
    assert!(c.buffer().iter().all(|&p| p == 0));
}

#[test]
fn packed_xor_circle_toggles_axis_points_once() {
    let mut c = bitcanvas::Canvas::new();
    c.set_color(Color::Xor);
    c.draw_circle(20, 20, 2);
    // the axis points of the circle are set after a single XOR pass
    let bit = |c: &bitcanvas::Canvas, x: i32, y: i32| {
        (c.buffer()[((y * 128 + x) / 8) as usize] >> (7 - (x % 8))) & 1
    };
    assert_eq!(bit(&c, 22, 20), 1);
    assert_eq!(bit(&c, 18, 20), 1);
    assert_eq!(bit(&c, 20, 22), 1);
    assert_eq!(bit(&c, 20, 18), 1);
    // and a second pass restores the blank buffer
    c.draw_circle(20, 20, 2);
    assert!(c.buffer().iter().all(|&b| b == 0));
}

#[test]
fn packed_xor_fill_is_double_write_free() {
    let mut c = bitcanvas::Canvas::new();
    c.set_color(Color::Xor);
    c.fill_circle(20, 20, 1);
    // the radius-1 disc is five pixels, the centre included
    let bit = |c: &bitcanvas::Canvas, x: i32, y: i32| {
        (c.buffer()[((y * 128 + x) / 8) as usize] >> (7 - (x % 8))) & 1
    };
    assert_eq!(bit(&c, 20, 20), 1);
    assert_eq!(bit(&c, 19, 20), 1);
    assert_eq!(bit(&c, 21, 20), 1);
    assert_eq!(bit(&c, 20, 19), 1);
    assert_eq!(bit(&c, 20, 21), 1);
    let set: u32 = c.buffer().iter().map(|&b| b.count_ones()).sum();
    assert_eq!(set, 5);
    // a second XOR pass restores the blank buffer
    c.fill_circle(20, 20, 1);
    assert!(c.buffer().iter().all(|&b| b == 0));
}

#[test]
fn packed_rect_paints_expected_pixel_count() {
    let mut c = bitcanvas::Canvas::new();
    c.draw_rect(10, 10, 20, 7);
    let set: u32 = c.buffer().iter().map(|&b| b.count_ones()).sum();
    assert_eq!(set, 2 * 20 + 2 * (7 - 2));
    // an XOR pass over the same outline toggles each perimeter bit once
    c.set_color(Color::Xor);
    c.draw_rect(10, 10, 20, 7);
    assert!(c.buffer().iter().all(|&b| b == 0));
}

//! Tests for the bit-packed font engine, using a handcrafted one-glyph
//! container: a 1x3 bar glyph for 'I' with advance 2.

use fri3d_runtime::canvas::Canvas;
use fri3d_runtime::font::FontData;
use fri3d_runtime::types::Color;

fn bar_font() -> FontData {
    let mut blob = vec![0u8; 23];
    blob[0] = 1; // glyph count
    blob[2] = 4; // bits per background run
    blob[3] = 4; // bits per foreground run
    blob[4] = 4; // bits per glyph width
    blob[5] = 4; // bits per glyph height
    blob[6] = 2; // bits per x offset
    blob[7] = 2; // bits per y offset
    blob[8] = 4; // bits per advance
    // jump offsets at 17..23 stay zero: scanning starts at the header end

    // glyph record for 'I' (73): width 1, height 3, x 0, y 0, advance 2,
    // then one run pair (0 background, 3 foreground) and a stop flag
    blob.extend_from_slice(&[73, 6, 0x31, 0xAA, 0x30, 0x00]);
    // table terminator
    blob.extend_from_slice(&[0, 0]);
    FontData::from_bytes(blob).expect("header widths are valid")
}

#[test]
fn handcrafted_glyph_measures_correctly() {
    let fd = bar_font();
    let head = fd.glyph_metrics(73).expect("the glyph exists");
    assert_eq!(head.width, 1);
    assert_eq!(head.height, 3);
    assert_eq!(head.x_offset, 0);
    assert_eq!(head.y_offset, 0);
    assert_eq!(head.delta_x, 2);
    assert!(fd.glyph_metrics(74).is_none());
}

#[test]
fn draw_str_inks_the_bar_below_the_baseline() {
    let fd = bar_font();
    let mut canvas = Canvas::new();
    fd.draw_str(&mut canvas, 10, 10, "I", Color::Black);
    let painted: Vec<usize> = canvas
        .buffer()
        .iter()
        .enumerate()
        .filter(|&(_, &p)| p == 1)
        .map(|(i, _)| i)
        .collect();
    assert_eq!(painted, vec![7 * 128 + 10, 8 * 128 + 10, 9 * 128 + 10]);
}

#[test]
fn draw_str_advances_the_pen_between_glyphs() {
    let fd = bar_font();
    let mut canvas = Canvas::new();
    fd.draw_str(&mut canvas, 10, 10, "II", Color::Black);
    let painted = canvas.buffer().iter().filter(|&&p| p == 1).count();
    assert_eq!(painted, 6);
    assert_eq!(canvas.buffer()[7 * 128 + 12], 1);
}

#[test]
fn draw_str_stops_at_a_newline() {
    let fd = bar_font();
    let mut stopped = Canvas::new();
    fd.draw_str(&mut stopped, 10, 10, "I\nI", Color::Black);
    let mut single = Canvas::new();
    fd.draw_str(&mut single, 10, 10, "I", Color::Black);
    assert_eq!(stopped.buffer(), single.buffer());

    let mut blank = Canvas::new();
    fd.draw_str(&mut blank, 10, 10, "\nII", Color::Black);
    assert!(blank.buffer().iter().all(|&p| p == 0));
}

#[test]
fn string_width_measures_the_last_glyph_by_ink() {
    let fd = bar_font();
    // one bar: advance 2 replaced by width 1 plus side bearing 0
    assert_eq!(fd.string_width("I"), 1);
    // two bars: one full advance plus the inked last glyph
    assert_eq!(fd.string_width("II"), 3);
    assert_eq!(fd.string_width(""), 0);
    // the measurement also stops at a newline
    assert_eq!(fd.string_width("I\nII"), 1);
}

#[test]
fn built_in_containers_have_no_glyphs() {
    let mut canvas = Canvas::new();
    canvas.draw_str(3, 10, "hello");
    assert!(canvas.buffer().iter().all(|&p| p == 0));
    assert_eq!(canvas.string_width("hello"), 0);
}

#[test]
fn installed_container_drives_the_canvas_text_calls() {
    let mut canvas = Canvas::new();
    canvas.install_font(fri3d_runtime::types::Font::Primary, bar_font());
    canvas.draw_str(10, 10, "I");
    let painted: Vec<usize> = canvas
        .buffer()
        .iter()
        .enumerate()
        .filter(|&(_, &p)| p == 1)
        .map(|(i, _)| i)
        .collect();
    assert_eq!(painted, vec![7 * 128 + 10, 8 * 128 + 10, 9 * 128 + 10]);
    assert_eq!(canvas.string_width("II"), 3);

    // the other selections keep their empty containers
    canvas.set_font(fri3d_runtime::types::Font::Secondary);
    assert_eq!(canvas.string_width("II"), 0);
}

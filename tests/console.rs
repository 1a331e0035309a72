use kernel_memory::console::{char_advance, encode, Cursor, FontType, PixelFormat, TextBufferInfo};

#[test]
fn text_grid_of_a_full_hd_screen() {
    let info = TextBufferInfo::new(1920, 1080, 24);
    assert_eq!(info.width(), 160);
    assert_eq!(info.height(), 45);
    let odd = TextBufferInfo::new(100, 100, 25);
    assert_eq!(odd.width(), 8);
    assert_eq!(odd.height(), 4);
}

#[test]
fn wide_characters_take_two_cells() {
    assert_eq!(char_advance('a'), 1);
    assert_eq!(char_advance('\u{7f}'), 1);
    assert_eq!(char_advance('ｸ'), 1);
    assert_eq!(char_advance('グ'), 2);
    assert_eq!(char_advance('字'), 2);
}

#[test]
fn cursor_wraps_at_end_of_line() {
    let mut c = Cursor::home();
    assert_eq!(c, Cursor { x: 0, y: 1 });
    c.advance('a', 3, 10);
    assert_eq!(c, Cursor { x: 1, y: 1 });
    c.advance('あ', 3, 10);
    assert_eq!(c, Cursor { x: 0, y: 2 });
    c.advance('b', 3, 10);
    c.carriage_return();
    assert_eq!(c, Cursor { x: 0, y: 2 });
    c.advance('b', 3, 10);
    c.new_line(10);
    assert_eq!(c, Cursor { x: 0, y: 3 });
}

#[test]
fn font_defaults_to_text() {
    assert_eq!(FontType::default(), FontType::Text);
}

#[test]
fn colors_follow_pixel_format() {
    let c = [10u8, 20, 30];
    assert_eq!(encode(c, PixelFormat::Rgb), [10, 20, 30]);
    assert_eq!(encode(c, PixelFormat::Bgr), [30, 20, 10]);
    assert_eq!(encode(c, PixelFormat::U8), [20, 0, 0]);
    assert_eq!(
        encode(c, PixelFormat::Unknown { red_position: 2, green_position: 1, blue_position: 0 }),
        [2, 1, 0]
    );
}

use kernel::framebuffer::{FrameBuffer, Pixel, SurfaceInfo, BLANK};

const WIDTH: usize = 32;
const HEIGHT: usize = 48;

fn info() -> SurfaceInfo {
    SurfaceInfo { width: WIDTH, height: HEIGHT, stride: WIDTH, bytes_per_pixel: 4 }
}

/// Glyph of byte `c`: its top row holds the bits of `c`, everything else is
/// clear, except glyph 0xff which is fully set.
fn glyphs() -> Vec<u128> {
    (0..256u32).map(|c| if c == 0xff { u128::MAX } else { c as u128 }).collect()
}

fn surface(len: usize, fill: u8) -> &'static mut [u8] {
    Box::leak(vec![fill; len].into_boxed_slice())
}

fn console() -> FrameBuffer {
    FrameBuffer::new(surface(WIDTH * HEIGHT * 4, 0xaa), info(), glyphs())
}

fn green() -> Pixel {
    Pixel { b: 0, g: 0xff, r: 0, alpha: 0 }
}

fn black() -> Pixel {
    Pixel { b: 0, g: 0, r: 0, alpha: 0 }
}

#[test]
fn new_derives_terminal_size_and_clears_surface() {
    let fb = console();
    assert_eq!(fb.term_dim, (4, 3));
    assert_eq!(fb.cursor(), (0, 0));
    for y in 0..HEIGHT {
        for x in 0..WIDTH {
            assert_eq!(fb.pixel(x, y), black());
        }
    }
    for r in 0..3 {
        assert_eq!(fb.row_text(r), vec![BLANK; 4]);
    }
}

#[test]
fn const_default_has_no_terminal() {
    let fb = FrameBuffer::const_default();
    assert_eq!(fb.term_dim, (0, 0));
}

#[test]
fn short_write_advances_cursor_on_same_row() {
    let mut fb = console();
    fb.write_str(b"abc");
    assert_eq!(fb.cursor(), (3, 0));
    assert_eq!(fb.row_text(0), b"abc ".to_vec());
}

#[test]
fn empty_write_changes_nothing() {
    let mut fb = console();
    fb.write_str(b"");
    assert_eq!(fb.cursor(), (0, 0));
    assert_eq!(fb.row_text(0), vec![BLANK; 4]);
}

#[test]
fn full_row_wraps_to_next_row() {
    let mut fb = console();
    fb.write_str(b"abcd");
    assert_eq!(fb.cursor(), (0, 1));
    assert_eq!(fb.row_text(0), b"abcd".to_vec());
    assert_eq!(fb.row_text(1), vec![BLANK; 4]);
}

#[test]
fn newline_moves_to_start_of_next_row() {
    let mut fb = console();
    fb.write_str(b"ab\ncd");
    assert_eq!(fb.cursor(), (2, 1));
    assert_eq!(fb.row_text(0), b"ab  ".to_vec());
    assert_eq!(fb.row_text(1), b"cd  ".to_vec());
}

#[test]
fn full_screen_scrolls_once() {
    let mut fb = console();
    fb.write_str(b"aaaabbbbcccc");
    assert_eq!(fb.cursor(), (0, 2));
    assert_eq!(fb.row_text(0), b"bbbb".to_vec());
    assert_ne!(fb.row_text(0), b"aaaa".to_vec());
    assert_eq!(fb.row_text(1), b"cccc".to_vec());
    assert_eq!(fb.row_text(2), vec![BLANK; 4]);
}

#[test]
fn newline_on_bottom_row_scrolls() {
    let mut fb = console();
    fb.write_str(b"x\ny\nz\nw");
    assert_eq!(fb.cursor(), (1, 2));
    assert_eq!(fb.row_text(0), b"y   ".to_vec());
    assert_eq!(fb.row_text(1), b"z   ".to_vec());
    assert_eq!(fb.row_text(2), b"w   ".to_vec());
}

#[test]
fn scroll_redraws_rows_from_history() {
    let mut fb = console();
    let full = [0xffu8];
    fb.write_str(&full);
    fb.write_str(b"\n\n");
    // Two newlines from the top row reach the bottom row without scrolling.
    assert_eq!(fb.pixel(0, 0), green());
    fb.write_str(b"\n");
    // One scroll: the top row is retired and redrawn blank.
    assert_eq!(fb.pixel(0, 0), black());
    assert_eq!(fb.pixel(7, 15), black());
}

#[test]
fn render_char_draws_glyph_bits() {
    let mut fb = console();
    // Glyph 0b101: bits 0 and 2 of the top row.
    fb.render_char(5, Some((1, 2)));
    let (bx, by) = (8, 32);
    assert_eq!(fb.pixel(bx, by), green());
    assert_eq!(fb.pixel(bx + 1, by), black());
    assert_eq!(fb.pixel(bx + 2, by), green());
    assert_eq!(fb.pixel(bx, by + 1), black());
    assert_eq!(fb.pixel(0, 0), black());
}

#[test]
fn render_char_at_cursor() {
    let mut fb = console();
    fb.write_str(b"ab");
    fb.render_char(0xff, None);
    for j in 0..16 {
        for i in 0..8 {
            assert_eq!(fb.pixel(16 + i, j), green());
        }
    }
    assert_eq!(fb.pixel(24, 0), black());
}

#[test]
fn printable_write_draws_glyph() {
    let mut fb = console();
    fb.write_str(&[0xff]);
    assert_eq!(fb.pixel(0, 0), green());
    assert_eq!(fb.pixel(7, 15), green());
    assert_eq!(fb.pixel(8, 0), black());
}

#[test]
fn pixel_round_trip() {
    let mut fb = console();
    let p = Pixel { b: 1, g: 2, r: 3, alpha: 4 };
    fb.set_pixel(5, 7, p);
    assert_eq!(fb.pixel(5, 7), p);
    assert_eq!(fb.pixel(4, 7), black());
    assert_eq!(fb.pixel(6, 7), black());
    assert_eq!(fb.pixel(5, 6), black());
}

#[test]
fn pixel_round_trip_with_padded_rows() {
    let info = SurfaceInfo { width: 16, height: 16, stride: 20, bytes_per_pixel: 4 };
    let mut fb = FrameBuffer::new(surface(20 * 16 * 4, 0), info, glyphs());
    let p = Pixel { b: 9, g: 8, r: 7, alpha: 6 };
    fb.set_pixel(15, 15, p);
    assert_eq!(fb.pixel(15, 15), p);
    fb.set_pixel(0, 0, p);
    assert_eq!(fb.pixel(0, 0), p);
    assert_eq!(fb.pixel(1, 0), black());
}

/// Whether cell `(cx, cy)` shows glyph `g` of the test table.
fn cell_shows(fb: &FrameBuffer, cx: usize, cy: usize, g: u128) -> bool {
    (0..16).all(|dy| {
        (0..8).all(|dx| {
            let lit = g & (1u128 << (dy * 8 + dx)) != 0;
            let want = if lit { green() } else { black() };
            fb.pixel(cx * 8 + dx, cy * 16 + dy) == want
        })
    })
}

#[test]
fn surface_mirrors_text_after_scroll() {
    let mut fb = console();
    fb.write_str(&[0xff, b'\n', 0x05, 0xff, b'\n', 0x03, b'\n', 0xff]);
    // Rows after one scroll: [05 ff], [03], [ff].
    assert_eq!(fb.row_text(0), vec![0x05, 0xff, BLANK, BLANK]);
    assert!(cell_shows(&fb, 0, 0, 0x05));
    assert!(cell_shows(&fb, 1, 0, u128::MAX));
    assert!(cell_shows(&fb, 0, 1, 0x03));
    assert!(cell_shows(&fb, 0, 2, u128::MAX));
    assert!(cell_shows(&fb, 3, 1, BLANK as u128));
}

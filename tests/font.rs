use kernel::font::{pack_glyph, psf1_glyphs, psf1_header, Psf1Header};

fn font(mode: u8, size: u8, glyph_bytes: &[u8]) -> Vec<u8> {
    let mut v = vec![0x36, 0x04, mode, size];
    v.extend_from_slice(glyph_bytes);
    v
}

#[test]
fn header_fields() {
    assert_eq!(
        psf1_header(&[0x36, 0x04, 0x00, 16]),
        Some(Psf1Header { unicode_table: false, num_glyphs: 256, glyph_size: 16 })
    );
    assert_eq!(
        psf1_header(&[0x36, 0x04, 0x03, 8]),
        Some(Psf1Header { unicode_table: true, num_glyphs: 512, glyph_size: 8 })
    );
    assert_eq!(
        psf1_header(&[0x36, 0x04, 0x10, 8]),
        Some(Psf1Header { unicode_table: true, num_glyphs: 256, glyph_size: 8 })
    );
}

#[test]
fn short_header_is_rejected() {
    assert_eq!(psf1_header(&[0x36, 0x04, 0x00]), None);
    assert_eq!(psf1_glyphs(&[0x36, 0x04, 0x00]), None);
}

#[test]
fn pack_glyph_puts_leftmost_pixel_lowest() {
    // Row 0: leftmost pixel only; row 1: rightmost pixel only.
    let rows = [0x80u8, 0x01];
    assert_eq!(pack_glyph(&rows, 0, 2), 0x8001);
    assert_eq!(pack_glyph(&rows, 0, 0), 0);
    assert_eq!(pack_glyph(&[0xffu8; 16], 0, 16), u128::MAX);
    assert_eq!(pack_glyph(&[0x0fu8, 0xc0], 0, 2), 0x03f0);
}

#[test]
fn glyph_table_from_font() {
    let bytes = font(0x00, 2, &[0x80, 0x00, 0x00, 0x01, 0xff]);
    let table = psf1_glyphs(&bytes).unwrap();
    assert_eq!(table, vec![0x0001, 0x8000, 0x00ff]);
}

#[test]
fn glyph_table_stops_at_glyph_count() {
    let mut glyph_bytes = vec![0u8; 300];
    glyph_bytes[256] = 0x80;
    let table = psf1_glyphs(&font(0x00, 1, &glyph_bytes)).unwrap();
    assert_eq!(table.len(), 256);
    let wide = psf1_glyphs(&font(0x01, 1, &glyph_bytes)).unwrap();
    assert_eq!(wide.len(), 300);
    assert_eq!(wide[256], 1);
}

#[test]
fn bad_glyph_sizes_are_rejected() {
    assert_eq!(psf1_glyphs(&font(0x00, 0, &[1, 2, 3])), None);
    assert_eq!(psf1_glyphs(&font(0x00, 17, &[1, 2, 3])), None);
}

#[test]
fn font_without_glyphs() {
    assert_eq!(psf1_glyphs(&font(0x00, 16, &[])), Some(vec![]));
}

use vstd::prelude::*;

use crate::framebuffer::glyph_bit;

verus! {

/// Length of a PSF1 header: two magic bytes, the mode byte, the glyph size.
pub const PSF1_HEADER_LEN: usize = 4;

/// Largest glyph, in bytes (rows of 8 pixels), that fits a packed `u128`.
pub const MAX_GLYPH_BYTES: usize = 16;

/// The fields of a PSF1 font header.
#[derive(Clone, Copy, Debug, PartialEq, Eq, Structural)]
pub struct Psf1Header {
    /// Whether the mode byte announces a Unicode table (any of its bits 0x11).
    pub unicode_table: bool,
    /// Number of glyphs: 512 when bit 0 of the mode byte is set, else 256.
    pub num_glyphs: usize,
    /// Bytes per glyph, one per row.
    pub glyph_size: usize,
}

/// Whether pixel `dx` of a glyph row is lit: rows store the leftmost pixel
/// in their most significant bit.
pub open spec fn row_pixel(row: u8, dx: int) -> bool {
    row & (0x80u8 >> (dx as u8)) != 0
}

/// `g` is the packed form of the glyph whose rows are `rows`: pixel
/// `(dx, dy)` is set exactly when row `dy` exists and lights pixel `dx`.
pub open spec fn packs_rows(g: u128, rows: Seq<u8>) -> bool {
    forall|dx: int, dy: int|
        0 <= dx < 8 && 0 <= dy < 16 ==> #[trigger] glyph_bit(g, dx, dy) == (dy < rows.len()
            && row_pixel(rows[dy], dx))
}

/// The header of the PSF1 font `bytes`.
pub open spec fn header_of(bytes: Seq<u8>) -> Psf1Header {
    Psf1Header {
        unicode_table: bytes[2] & 0x11u8 != 0,
        num_glyphs: if bytes[2] & 1u8 != 0 { 512 } else { 256 },
        glyph_size: bytes[3] as usize,
    }
}

/// First byte of glyph `g` in a font with glyphs of `size` bytes.
pub open spec fn glyph_start(g: int, size: int) -> int {
    PSF1_HEADER_LEN + g * size
}

/// The bytes of glyph `g`: `size` bytes from its start, cut at the end of
/// the font.
pub open spec fn glyph_rows(bytes: Seq<u8>, g: int, size: int) -> Seq<u8> {
    let start = glyph_start(g, size);
    let end = if start + size <= bytes.len() { start + size } else { bytes.len() as int };
    bytes.subrange(start, end)
}

proof fn lemma_set_bit(a: u128, n: u128, m: u128)
    requires
        n < 128,
        m < 128,
    ensures
        ((a | (1u128 << n)) & (1u128 << m) != 0) == ((a & (1u128 << m)) != 0 || n == m),
{
    assert(((a | (1u128 << n)) & (1u128 << m) != 0) == ((a & (1u128 << m)) != 0 || n == m))
        by (bit_vector)
        requires n < 128, m < 128;
}

proof fn lemma_zero_bits(m: u128)
    requires
        m < 128,
    ensures
        (0u128 & (1u128 << m)) == 0,
{
    assert((0u128 & (1u128 << m)) == 0) by (bit_vector);
}

/// Reads the header of the PSF1 font `bytes`; `None` when it is shorter than
/// a header.
pub fn psf1_header(bytes: &[u8]) -> (h: Option<Psf1Header>)
    ensures
        bytes@.len() < PSF1_HEADER_LEN ==> h.is_none(),
        bytes@.len() >= PSF1_HEADER_LEN ==> h == Some(header_of(bytes@)),
{
    if bytes.len() < PSF1_HEADER_LEN {
        return None;
    }
    let mode = bytes[2];
    Some(
        Psf1Header {
            unicode_table: mode & 0x11 != 0,
            num_glyphs: if mode & 1 != 0 { 512 } else { 256 },
            glyph_size: bytes[3] as usize,
        },
    )
}

/// Packs the glyph rows `bytes[start..end]` into one `u128`, row `dy` into
/// bits `8 * dy` to `8 * dy + 7` with its leftmost pixel lowest.
pub fn pack_glyph(bytes: &[u8], start: usize, end: usize) -> (g: u128)
    requires
        start <= end <= bytes@.len(),
        end - start <= MAX_GLYPH_BYTES,
    ensures
        packs_rows(g, bytes@.subrange(start as int, end as int)),
{
    let ghost rows = bytes@.subrange(start as int, end as int);
    let n = end - start;
    let mut g: u128 = 0;
    let mut dy: usize = 0;
    proof {
        assert forall|x: int, y: int| 0 <= x < 8 && 0 <= y < 16 implies !#[trigger] glyph_bit(g, x, y) by {
            lemma_zero_bits((y * 8 + x) as u128);
        }
    }
    while dy < n
        invariant
            start <= end <= bytes@.len(),
            end == start + n,
            n == rows.len(),
            n <= 16,
            dy <= n,
            rows == bytes@.subrange(start as int, end as int),
            forall|x: int, y: int|
                0 <= x < 8 && 0 <= y < 16 ==> #[trigger] glyph_bit(g, x, y) == (y < dy && row_pixel(
                    rows[y],
                    x,
                )),
        decreases n - dy,
    {
        let row = bytes[start + dy];
        let mut dx: usize = 0;
        while dx < 8
            invariant
                n == rows.len(),
                n <= 16,
                dy < n,
                dx <= 8,
                row == rows[dy as int],
                forall|x: int, y: int|
                    0 <= x < 8 && 0 <= y < 16 ==> #[trigger] glyph_bit(g, x, y) == ((y < dy || (y == dy
                        && x < dx)) && row_pixel(rows[y], x)),
            decreases 8 - dx,
        {
            if row & (0x80u8 >> (dx as u8)) != 0 {
                let ghost before = g;
                let bit = (dy * 8 + dx) as u128;
                g = g | (1u128 << bit);
                proof {
                    assert forall|x: int, y: int| 0 <= x < 8 && 0 <= y < 16 implies #[trigger] glyph_bit(
                        g,
                        x,
                        y,
                    ) == ((y < dy || (y == dy && x < dx + 1)) && row_pixel(rows[y], x)) by {
                        lemma_set_bit(before, bit, (y * 8 + x) as u128);
                        assert(glyph_bit(before, x, y) == ((y < dy || (y == dy && x < dx)) && row_pixel(
                            rows[y],
                            x,
                        )));
                    }
                }
            }
            dx += 1;
        }
        dy += 1;
    }
    proof {
        assert forall|x: int, y: int| 0 <= x < 8 && 0 <= y < 16 implies #[trigger] glyph_bit(g, x, y)
            == (y < rows.len() && row_pixel(rows[y], x)) by {}
    }
    g
}

/// The glyph table of the PSF1 font `bytes`: one packed glyph per glyph of
/// the font, in order, cut from the bytes after the header in chunks of the
/// glyph size (the last chunk may be cut short by the end of the font), and
/// no more than the header announces. `None` when the font is shorter than a
/// header, or its glyph size is zero or over `MAX_GLYPH_BYTES`.
pub fn psf1_glyphs(bytes: &[u8]) -> (t: Option<Vec<u128>>)
    ensures
        t.is_none() <==> (bytes@.len() < PSF1_HEADER_LEN || header_of(bytes@).glyph_size == 0
            || header_of(bytes@).glyph_size > MAX_GLYPH_BYTES),
        t.is_some() ==> t.unwrap()@.len() <= header_of(bytes@).num_glyphs,
        t.is_some() ==> forall|g: int|
            0 <= g < t.unwrap()@.len() ==> packs_rows(
                #[trigger] t.unwrap()@[g],
                glyph_rows(bytes@, g, header_of(bytes@).glyph_size as int),
            ),
        t.is_some() && t.unwrap()@.len() > 0 ==> glyph_start(
            t.unwrap()@.len() - 1,
            header_of(bytes@).glyph_size as int,
        ) < bytes@.len(),
        t.is_some() ==> (t.unwrap()@.len() == header_of(bytes@).num_glyphs || glyph_start(
            t.unwrap()@.len() as int,
            header_of(bytes@).glyph_size as int,
        ) >= bytes@.len()),
{
    let h = match psf1_header(bytes) {
        Some(h) => h,
        None => return None,
    };
    if h.glyph_size == 0 || h.glyph_size > MAX_GLYPH_BYTES {
        return None;
    }
    let size = h.glyph_size;
    let ghost size_i = size as int;
    let mut table: Vec<u128> = Vec::new();
    let mut start: usize = PSF1_HEADER_LEN;
    while table.len() < h.num_glyphs && start < bytes.len()
        invariant
            h == header_of(bytes@),
            size == h.glyph_size,
            size_i == size as int,
            1 <= size <= 16,
            start <= bytes@.len(),
            table@.len() <= h.num_glyphs,
            start as int == glyph_start(table@.len() as int, size_i) || (start == bytes@.len()
                && glyph_start(table@.len() as int, size_i) >= bytes@.len()),
            table@.len() > 0 ==> glyph_start(table@.len() - 1, size_i) < bytes@.len(),
            forall|g: int|
                0 <= g < table@.len() ==> packs_rows(#[trigger] table@[g], glyph_rows(bytes@, g, size_i)),
        decreases bytes@.len() - start,
    {
        let end = if bytes.len() - start >= size {
            start + size
        } else {
            bytes.len()
        };
        let glyph = pack_glyph(bytes, start, end);
        let ghost n = table@.len() as int;
        let ghost prev = table@;
        proof {
            assert(glyph_start(n + 1, size_i) == glyph_start(n, size_i) + size_i) by (nonlinear_arith);
            assert(start as int == glyph_start(n, size_i));
            assert(bytes@.subrange(start as int, end as int) == glyph_rows(bytes@, n, size_i));
        }
        table.push(glyph);
        proof {
            assert forall|k: int| 0 <= k < table@.len() implies packs_rows(
                #[trigger] table@[k],
                glyph_rows(bytes@, k, size_i),
            ) by {
                if k < n {
                    assert(table@[k] == prev[k]);
                } else {
                    assert(table@[k] == glyph);
                }
            }
        }
        start = end;
    }
    Some(table)
}

} // verus!

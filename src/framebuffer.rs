use vstd::prelude::*;

verus! {

/// A 4-byte colour record as laid out in the surface: blue, green, red, and an
/// unused reserved byte.
#[derive(Clone, Copy, Debug, PartialEq, Eq, Structural)]
pub struct Pixel {
    pub b: u8,
    pub g: u8,
    pub r: u8,
    pub alpha: u8,
}

impl Pixel {
    /// The background colour: all channels zero.
    pub open spec fn black_spec() -> Pixel {
        Pixel { b: 0, g: 0, r: 0, alpha: 0 }
    }

    /// The foreground colour: full green.
    pub open spec fn green_spec() -> Pixel {
        Pixel { b: 0, g: 0xff, r: 0, alpha: 0 }
    }

    /// Background colour.
    pub fn black() -> (p: Pixel)
        ensures
            p == Pixel::black_spec(),
    {
        Pixel { b: 0x00, g: 0x00, r: 0x00, alpha: 0x00 }
    }

    /// Foreground colour.
    pub fn green() -> (p: Pixel)
        ensures
            p == Pixel::green_spec(),
    {
        Pixel { b: 0x00, g: 0xff, r: 0x00, alpha: 0x00 }
    }
}

/// The pixel stored at byte offset `off` of a surface.
pub open spec fn pixel_at(bytes: Seq<u8>, off: int) -> Pixel {
    Pixel { b: bytes[off], g: bytes[off + 1], r: bytes[off + 2], alpha: bytes[off + 3] }
}

/// `bytes` with the pixel `p` stored at byte offset `off`.
pub open spec fn write_cell(bytes: Seq<u8>, off: int, p: Pixel) -> Seq<u8> {
    bytes.update(off, p.b).update(off + 1, p.g).update(off + 2, p.r).update(off + 3, p.alpha)
}

/// Byte offset of pixel `(x, y)` in a surface with the given row stride (in
/// pixels) and bytes per pixel.
pub open spec fn pixel_offset(x: int, y: int, stride: int, bpp: int) -> int {
    (y * stride + x) * bpp
}

/// Distinct in-bounds pixels occupy disjoint 4-byte cells.
pub proof fn lemma_cells_disjoint(x1: int, y1: int, x2: int, y2: int, width: int, stride: int, bpp: int)
    requires
        0 <= x1 < width,
        0 <= x2 < width,
        0 <= y1,
        0 <= y2,
        width <= stride,
        4 <= bpp,
        x1 != x2 || y1 != y2,
    ensures
        pixel_offset(x1, y1, stride, bpp) + 4 <= pixel_offset(x2, y2, stride, bpp)
            || pixel_offset(x2, y2, stride, bpp) + 4 <= pixel_offset(x1, y1, stride, bpp),
{
    let a = y1 * stride + x1;
    let b = y2 * stride + x2;
    if y1 == y2 {
        assert(a != b);
    } else if y1 < y2 {
        assert(y1 * stride + stride <= y2 * stride) by (nonlinear_arith)
            requires y1 < y2, 0 <= stride;
        assert(a < b);
    } else {
        assert(y2 * stride + stride <= y1 * stride) by (nonlinear_arith)
            requires y2 < y1, 0 <= stride;
        assert(b < a);
    }
    if a < b {
        assert(a * bpp + bpp <= b * bpp) by (nonlinear_arith)
            requires a < b, 0 <= bpp;
    } else {
        assert(b * bpp + bpp <= a * bpp) by (nonlinear_arith)
            requires b < a, 0 <= bpp;
    }
}

/// Every in-bounds pixel's cell lies inside a surface of `height * stride * bpp` bytes.
pub proof fn lemma_cell_in_bounds(x: int, y: int, width: int, height: int, stride: int, bpp: int)
    requires
        0 <= x < width,
        0 <= y < height,
        width <= stride,
        4 <= bpp,
    ensures
        0 <= y * stride + x,
        y * stride + x <= pixel_offset(x, y, stride, bpp),
        pixel_offset(x, y, stride, bpp) + 4 <= height * stride * bpp,
{
    assert(0 <= y * stride) by (nonlinear_arith)
        requires 0 <= y, 0 <= stride;
    assert(y * stride + stride <= height * stride) by (nonlinear_arith)
        requires y < height, 0 <= stride;
    let a = y * stride + x;
    assert(a <= a * bpp) by (nonlinear_arith)
        requires 0 <= a, 1 <= bpp;
    assert(a * bpp + bpp <= height * stride * bpp) by (nonlinear_arith)
        requires a + 1 <= height * stride, 0 <= bpp;
}

/// Width of a glyph cell in pixels.
pub const FONT_WIDTH: usize = 8;

/// Height of a glyph cell in pixels.
pub const FONT_HEIGHT: usize = 16;

/// Number of entries of a glyph table: one per byte value.
pub const GLYPH_COUNT: usize = 256;

/// The layout of a pixel surface handed over by the boot loader.
#[derive(Clone, Copy, Debug, PartialEq, Eq, Structural)]
pub struct SurfaceInfo {
    /// Width in pixels.
    pub width: usize,
    /// Height in pixels.
    pub height: usize,
    /// Row stride in pixels.
    pub stride: usize,
    /// Bytes per pixel.
    pub bytes_per_pixel: usize,
}

impl SurfaceInfo {
    /// The layout describes a surface whose pixels are disjoint 4-byte cells
    /// inside a byte region of `len` bytes.
    pub open spec fn fits(&self, len: nat) -> bool {
        &&& self.width <= self.stride
        &&& 4 <= self.bytes_per_pixel
        &&& self.height * self.stride * self.bytes_per_pixel <= len
    }
}

/// Whether bit `(dy * 8 + dx)` of a packed glyph is set.
pub open spec fn glyph_bit(glyph: u128, dx: int, dy: int) -> bool {
    glyph & (1u128 << ((dy * 8 + dx) as u128)) != 0
}

/// The colour of pixel `(dx, dy)` of a glyph cell.
pub open spec fn glyph_pixel(glyph: u128, dx: int, dy: int) -> Pixel {
    if glyph_bit(glyph, dx, dy) {
        Pixel::green_spec()
    } else {
        Pixel::black_spec()
    }
}

/// The byte a blank cell holds.
pub const BLANK: u8 = 0x20;

/// The byte that ends a line.
pub const NEWLINE: u8 = 0x0a;

/// What a console shows, as text: its size, its cursor, and the bytes of each
/// visible row from top to bottom.
pub struct TextScreen {
    pub cols: nat,
    pub rows: nat,
    pub col: nat,
    pub row: nat,
    pub text: Seq<Seq<u8>>,
}

/// A row of `cols` blanks.
pub open spec fn blank_line(cols: nat) -> Seq<u8> {
    Seq::new(cols, |_i: int| BLANK)
}

/// `line` with every cell from column `from` on made blank.
pub open spec fn clear_from(line: Seq<u8>, from: nat) -> Seq<u8> {
    Seq::new(line.len(), |i: int| if i < from { line[i] } else { BLANK })
}

/// An empty screen of the given size with the cursor at the top left.
pub open spec fn fresh_screen(cols: nat, rows: nat) -> TextScreen {
    TextScreen { cols, rows, col: 0, row: 0, text: Seq::new(rows, |_r: int| blank_line(cols)) }
}

/// The top row is retired, a blank row appears at the bottom, and the cursor
/// returns to column 0 of the bottom row.
pub open spec fn scroll(s: TextScreen) -> TextScreen {
    TextScreen {
        cols: s.cols,
        rows: s.rows,
        col: 0,
        row: s.row,
        text: s.text.subrange(1, s.text.len() as int).push(blank_line(s.cols)),
    }
}

/// A newline: above the bottom row, the rest of the current row is blanked and
/// the cursor moves to the start of the next row; on the bottom row, the
/// screen scrolls.
pub open spec fn line_feed(s: TextScreen) -> TextScreen {
    if s.row + 1 < s.rows {
        TextScreen {
            cols: s.cols,
            rows: s.rows,
            col: 0,
            row: (s.row + 1) as nat,
            text: s.text.update(s.row as int, clear_from(s.text[s.row as int], s.col)),
        }
    } else {
        scroll(s)
    }
}

/// A printable byte: it is stored at the cursor, which advances; past the last
/// column the cursor wraps to the next row as a newline would.
pub open spec fn put_byte(s: TextScreen, b: u8) -> TextScreen {
    let t = s.text.update(s.row as int, s.text[s.row as int].update(s.col as int, b));
    if s.col + 1 < s.cols {
        TextScreen { cols: s.cols, rows: s.rows, col: s.col + 1, row: s.row, text: t }
    } else if s.row + 1 < s.rows {
        TextScreen { cols: s.cols, rows: s.rows, col: 0, row: (s.row + 1) as nat, text: t }
    } else {
        scroll(TextScreen { cols: s.cols, rows: s.rows, col: s.col, row: s.row, text: t })
    }
}

/// The effect of one byte on the screen.
pub open spec fn step(s: TextScreen, b: u8) -> TextScreen {
    if b == NEWLINE {
        line_feed(s)
    } else {
        put_byte(s, b)
    }
}

/// Whether writing `b` on `s` scrolls the screen.
pub open spec fn scrolls_on(s: TextScreen, b: u8) -> bool {
    s.row + 1 >= s.rows && (b == NEWLINE || s.col + 1 >= s.cols)
}

/// The screen after writing `bytes` on `s`, one byte after another.
pub open spec fn write_text(s: TextScreen, bytes: Seq<u8>) -> TextScreen
    decreases bytes.len(),
{
    if bytes.len() == 0 {
        s
    } else {
        step(write_text(s, bytes.drop_last()), bytes.last())
    }
}

/// How many times writing `bytes` on `s` scrolls the screen.
pub open spec fn scroll_count(s: TextScreen, bytes: Seq<u8>) -> nat
    decreases bytes.len(),
{
    if bytes.len() == 0 {
        0
    } else {
        let before = write_text(s, bytes.drop_last());
        scroll_count(s, bytes.drop_last()) + if scrolls_on(before, bytes.last()) { 1nat } else { 0nat }
    }
}

/// Every cell from the cursor on, and every row below the cursor, is blank.
pub open spec fn tail_blank(s: TextScreen) -> bool {
    forall|r: int, c: int|
        0 <= r < s.rows && 0 <= c < s.cols && (r > s.row || (r == s.row && c >= s.col))
            ==> #[trigger] s.text[r][c] == BLANK
}

/// Index into the ring of lines of visible row `r`, where `last` is the ring
/// index of the bottom row.
pub open spec fn ring_slot(last: int, r: int, rows: int) -> int {
    if last + 1 + r >= rows {
        last + 1 + r - rows
    } else {
        last + 1 + r
    }
}

/// Whether pixel `(px, py)` lies in the glyph cell of text position `(cx, cy)`.
pub open spec fn in_cell(px: int, py: int, cx: int, cy: int) -> bool {
    cx * 8 <= px < cx * 8 + 8 && cy * 16 <= py < cy * 16 + 16
}

/// A text console drawn on a raw pixel surface.
///
/// The surface is a byte region in which pixel `(x, y)` is the 4-byte cell at
/// `(y * stride + x) * bytes_per_pixel`. The console shows `term_dim.0` columns
/// and `term_dim.1` rows of glyphs and keeps the text of every visible row in a
/// ring of lines, so that scrolling redraws from the text instead of copying
/// pixels.
pub struct FrameBuffer {
    pixel_dim: (usize, usize),
    /// Columns and rows of the text terminal.
    pub term_dim: (usize, usize),
    stride: usize,
    bbp: usize,
    pos: (usize, usize),
    buffer: &'static mut [u8],
    glyphs: Vec<u128>,
    lines: Vec<Vec<u8>>,
    last_line: usize,
}

impl View for FrameBuffer {
    type V = TextScreen;

    closed spec fn view(&self) -> TextScreen {
        let rows = self.term_dim.1 as int;
        TextScreen {
            cols: self.term_dim.0 as nat,
            rows: rows as nat,
            col: self.pos.0 as nat,
            row: self.pos.1 as nat,
            text: Seq::new(rows as nat, |r: int| self.lines@[ring_slot(self.last_line as int, r, rows)]@),
        }
    }
}

impl FrameBuffer {
    /// Width of the surface in pixels.
    pub closed spec fn width(&self) -> nat {
        self.pixel_dim.0 as nat
    }

    /// Height of the surface in pixels.
    pub closed spec fn height(&self) -> nat {
        self.pixel_dim.1 as nat
    }

    /// Whether `(x, y)` is a pixel of the surface.
    pub open spec fn in_bounds(&self, x: int, y: int) -> bool {
        0 <= x < self.width() && 0 <= y < self.height()
    }

    /// The bytes of the surface.
    pub closed spec fn surface(&self) -> Seq<u8> {
        self.buffer@
    }

    /// `bytes` with the pixel `p` stored at byte offset `off`.
pub open spec fn write_cell(bytes: Seq<u8>, off: int, p: Pixel) -> Seq<u8> {
    bytes.update(off, p.b).update(off + 1, p.g).update(off + 2, p.r).update(off + 3, p.alpha)
}

/// Byte offset of pixel `(x, y)` in the surface.
    pub closed spec fn offset(&self, x: int, y: int) -> int {
        pixel_offset(x, y, self.stride as int, self.bbp as int)
    }

    /// The pixel stored at `(x, y)`.
    pub open spec fn pixel_spec(&self, x: int, y: int) -> Pixel {
        pixel_at(self.surface(), self.offset(x, y))
    }

    /// The glyph bitmap for byte `c`.
    pub closed spec fn glyph(&self, c: u8) -> u128 {
        self.glyphs@[c as int]
    }

    /// The console's internal invariant.
    pub closed spec fn wf(&self) -> bool {
        &&& self.shape()
        &&& tail_blank(self@)
    }

    /// The layout part of the invariant: sizes of the surface, the glyph
    /// table and the ring of lines, and the cursor's range.
    pub closed spec fn shape(&self) -> bool {
        &&& self.pixel_dim.0 <= self.stride
        &&& (self.pixel_dim.0 > 0 && self.pixel_dim.1 > 0) ==> 4 <= self.bbp
        &&& self.pixel_dim.1 * self.stride * self.bbp <= self.buffer@.len()
        &&& self.term_dim.0 == self.pixel_dim.0 / 8
        &&& self.term_dim.1 == self.pixel_dim.1 / 16
        &&& self.glyphs@.len() == GLYPH_COUNT
        &&& self.lines@.len() == self.term_dim.1
        &&& forall|r: int|
            0 <= r < self.lines@.len() ==> (#[trigger] self.lines@[r])@.len() == self.term_dim.0
        &&& self.term_dim.1 > 0 ==> self.last_line < self.term_dim.1
        &&& (self.term_dim.0 > 0 && self.term_dim.1 > 0) ==> {
            &&& self.pos.0 < self.term_dim.0
            &&& self.pos.1 < self.term_dim.1
        }
    }

    /// Text cell `(cx, cy)` of the surface shows glyph `g`.
    pub open spec fn cell_shows(&self, cx: int, cy: int, g: u128) -> bool {
        forall|dx: int, dy: int|
            0 <= dx < 8 && 0 <= dy < 16 ==> #[trigger] self.pixel_spec(cx * 8 + dx, cy * 16 + dy)
                == glyph_pixel(g, dx, dy)
    }

    /// Text cell `(cx, cy)` of the surface holds only the background colour.
    pub open spec fn cell_clear(&self, cx: int, cy: int) -> bool {
        forall|dx: int, dy: int|
            0 <= dx < 8 && 0 <= dy < 16 ==> #[trigger] self.pixel_spec(cx * 8 + dx, cy * 16 + dy)
                == Pixel::black_spec()
    }

    /// Text cell `(cx, cy)` shows the glyph of the byte stored there, or it
    /// still holds only the background colour and the byte is blank.
    pub open spec fn cell_mirrors(&self, cx: int, cy: int) -> bool {
        ||| self.cell_shows(cx, cy, self.glyph(self@.text[cy][cx]))
        ||| (self@.text[cy][cx] == BLANK && self.cell_clear(cx, cy))
    }

    /// The surface shows the console's text: every text cell mirrors its byte.
    pub open spec fn mirrors_text(&self) -> bool {
        forall|cx: int, cy: int|
            0 <= cx < self@.cols && 0 <= cy < self@.rows ==> #[trigger] self.cell_mirrors(cx, cy)
    }

    /// `self` differs from `other` in the surface's bytes alone.
    pub closed spec fn only_pixels_changed(&self, other: &FrameBuffer) -> bool {
        &&& self.same_layout(other)
        &&& self.lines@ == other.lines@
        &&& self.last_line == other.last_line
        &&& self.pos == other.pos
    }

    /// Everything but the surface's bytes is the same in `self` and `other`.
    pub closed spec fn same_layout(&self, other: &FrameBuffer) -> bool {
        &&& self.pixel_dim == other.pixel_dim
        &&& self.term_dim == other.term_dim
        &&& self.stride == other.stride
        &&& self.bbp == other.bbp
        &&& forall|x: int, y: int| #[trigger] self.offset(x, y) == other.offset(x, y)
        &&& self.buffer@.len() == other.buffer@.len()
        &&& self.glyphs@ == other.glyphs@
    }

    /// Reads pixel `(x, y)`.
    pub fn pixel(&self, x: usize, y: usize) -> (p: Pixel)
        requires
            self.wf(),
            self.in_bounds(x as int, y as int),
        ensures
            p == pixel_at(self.surface(), self.offset(x as int, y as int)),
    {
        proof {
            lemma_cell_in_bounds(x as int, y as int, self.pixel_dim.0 as int, self.pixel_dim.1 as int,
                self.stride as int, self.bbp as int);
            assert(self.buffer.len() == self.buffer@.len());
        }
        let off = (y * self.stride + x) * self.bbp;
        Pixel { b: self.buffer[off], g: self.buffer[off + 1], r: self.buffer[off + 2], alpha: self.buffer[off + 3] }
    }

    /// Writes pixel `(x, y)`; every other pixel keeps its value.
    pub fn set_pixel(&mut self, x: usize, y: usize, p: Pixel)
        requires
            old(self).wf(),
            old(self).in_bounds(x as int, y as int),
        ensures
            final(self).wf(),
            final(self).only_pixels_changed(old(self)),
            final(self)@ == old(self)@,
            final(self).offset(x as int, y as int) == old(self).offset(x as int, y as int),
            final(self).surface() == write_cell(old(self).surface(), old(self).offset(x as int, y as int), p),
            final(self).pixel_spec(x as int, y as int) == p,
            forall|px: int, py: int|
                #![trigger final(self).pixel_spec(px, py)]
                old(self).in_bounds(px, py) && (px != x || py != y)
                    ==> final(self).pixel_spec(px, py) == old(self).pixel_spec(px, py),
    {
        proof {
            lemma_cell_in_bounds(x as int, y as int, self.pixel_dim.0 as int, self.pixel_dim.1 as int,
                self.stride as int, self.bbp as int);
            assert(self.buffer.len() == self.buffer@.len());
        }
        let off = (y * self.stride + x) * self.bbp;
        self.buffer[off] = p.b;
        self.buffer[off + 1] = p.g;
        self.buffer[off + 2] = p.r;
        self.buffer[off + 3] = p.alpha;
        proof {
            assert forall|px: int, py: int|
                #![trigger self.pixel_spec(px, py)]
                old(self).in_bounds(px, py) && (px != x || py != y)
                    implies self.pixel_spec(px, py) == old(self).pixel_spec(px, py) by {
                lemma_cells_disjoint(x as int, y as int, px, py, self.pixel_dim.0 as int,
                    self.stride as int, self.bbp as int);
                lemma_cell_in_bounds(px, py, self.pixel_dim.0 as int, self.pixel_dim.1 as int,
                    self.stride as int, self.bbp as int);
            }
        }
    }

    /// The cell that `render_char` draws into: `pos`, or the cursor.
    pub open spec fn target_cell(&self, pos: Option<(usize, usize)>) -> (int, int) {
        match pos {
            Some(p) => (p.0 as int, p.1 as int),
            None => (self@.col as int, self@.row as int),
        }
    }

    /// Draws the glyph of `byte` into the text cell at `pos`, or at the cursor
    /// when `pos` is `None`. Each pixel of the cell takes the foreground colour
    /// where the glyph's bit is set and the background colour elsewhere; every
    /// pixel outside the cell keeps its value.
    pub fn render_char(&mut self, byte: u8, pos: Option<(usize, usize)>)
        requires
            old(self).wf(),
            0 <= old(self).target_cell(pos).0 < old(self)@.cols,
            0 <= old(self).target_cell(pos).1 < old(self)@.rows,
        ensures
            final(self).wf(),
            final(self).only_pixels_changed(old(self)),
            final(self)@ == old(self)@,
            forall|dx: int, dy: int|
                0 <= dx < 8 && 0 <= dy < 16 ==> #[trigger] final(self).pixel_spec(
                    old(self).target_cell(pos).0 * 8 + dx,
                    old(self).target_cell(pos).1 * 16 + dy,
                ) == glyph_pixel(old(self).glyph(byte), dx, dy),
            forall|px: int, py: int|
                #![trigger final(self).pixel_spec(px, py)]
                old(self).in_bounds(px, py) && !in_cell(px, py, old(self).target_cell(pos).0,
                    old(self).target_cell(pos).1)
                    ==> final(self).pixel_spec(px, py) == old(self).pixel_spec(px, py),
    {
        let (x, y) = match pos {
            Some(p) => p,
            None => self.pos,
        };
        let glyph = self.glyphs[byte as usize];
        let mut i: usize = 0;
        while i < FONT_WIDTH
            invariant
                self.wf(),
                self.only_pixels_changed(old(self)),
                self@ == old(self)@,
                (x as int, y as int) == old(self).target_cell(pos),
                x < self@.cols,
                y < self@.rows,
                0 <= i <= 8,
                glyph == old(self).glyph(byte),
                forall|px: int, py: int|
                    #![trigger self.pixel_spec(px, py)]
                    old(self).in_bounds(px, py) ==> self.pixel_spec(px, py) == if in_cell(
                        px,
                        py,
                        x as int,
                        y as int,
                    ) && px - x * 8 < i {
                        glyph_pixel(glyph, px - x * 8, py - y * 16)
                    } else {
                        old(self).pixel_spec(px, py)
                    },
            decreases 8 - i,
        {
            let mut j: usize = 0;
            while j < FONT_HEIGHT
                invariant
                    self.wf(),
                    self.only_pixels_changed(old(self)),
                    self@ == old(self)@,
                    x < self@.cols,
                    y < self@.rows,
                    0 <= i < 8,
                    0 <= j <= 16,
                    forall|px: int, py: int|
                        #![trigger self.pixel_spec(px, py)]
                        old(self).in_bounds(px, py) ==> self.pixel_spec(px, py) == if in_cell(
                            px,
                            py,
                            x as int,
                            y as int,
                        ) && (px - x * 8 < i || (px - x * 8 == i && py - y * 16 < j)) {
                            glyph_pixel(glyph, px - x * 8, py - y * 16)
                        } else {
                            old(self).pixel_spec(px, py)
                        },
                decreases 16 - j,
            {
                let bit: u128 = 1u128 << ((j * 8 + i) as u128);
                let color = if glyph & bit != 0 {
                    Pixel::green()
                } else {
                    Pixel::black()
                };
                self.set_pixel(x * 8 + i, y * 16 + j, color);
                j += 1;
            }
            i += 1;
        }
        proof {
            assert forall|dx: int, dy: int|
                0 <= dx < 8 && 0 <= dy < 16 implies #[trigger] self.pixel_spec(x * 8 + dx, y * 16 + dy)
                    == glyph_pixel(glyph, dx, dy) by {
                assert(old(self).in_bounds(x * 8 + dx, y * 16 + dy));
            }
        }
    }

    /// Sets up a console on the surface `buffer` laid out as `info`, drawing
    /// with the glyph table `glyphs` (one packed 8x16 bitmap per byte value,
    /// bit `dy * 8 + dx` for pixel `(dx, dy)`). The terminal has
    /// `width / 8` columns and `height / 16` rows, the cursor starts at the top
    /// left, every row is blank, and the whole surface is cleared to the
    /// background colour.
    pub fn new(buffer: &'static mut [u8], info: SurfaceInfo, glyphs: Vec<u128>) -> (fb: FrameBuffer)
        requires
            info.fits(buffer@.len()),
            glyphs@.len() == GLYPH_COUNT,
        ensures
            fb.wf(),
            fb.width() == info.width,
            fb.height() == info.height,
            fb@ == fresh_screen((info.width / FONT_WIDTH) as nat, (info.height / FONT_HEIGHT) as nat),
            forall|c: u8| fb.glyph(c) == glyphs@[c as int],
            forall|x: int, y: int|
                #![trigger fb.pixel_spec(x, y)]
                fb.in_bounds(x, y) ==> fb.pixel_spec(x, y) == Pixel::black_spec(),
            fb.mirrors_text(),
    {
        let cols = info.width / FONT_WIDTH;
        let rows = info.height / FONT_HEIGHT;
        let mut lines: Vec<Vec<u8>> = Vec::new();
        let mut r: usize = 0;
        while r < rows
            invariant
                r <= rows,
                lines@.len() == r,
                forall|k: int| 0 <= k < r ==> (#[trigger] lines@[k])@ == blank_line(cols as nat),
            decreases rows - r,
        {
            let line = vec![BLANK; cols];
            proof {
                assert(line@ =~= blank_line(cols as nat));
            }
            lines.push(line);
            r += 1;
        }
        let mut fb = FrameBuffer {
            pixel_dim: (info.width, info.height),
            term_dim: (cols, rows),
            stride: info.stride,
            bbp: info.bytes_per_pixel,
            pos: (0, 0),
            buffer,
            glyphs,
            lines,
            last_line: if rows > 0 { rows - 1 } else { 0 },
        };
        proof {
            assert(fb@.text =~= fresh_screen(cols as nat, rows as nat).text);
        }
        let ghost start = fb;
        let mut x: usize = 0;
        while x < info.width
            invariant
                fb.wf(),
                fb.same_layout(&start),
                fb@ == start@,
                fb.width() == info.width,
                fb.height() == info.height,
                x <= info.width,
                forall|px: int, py: int|
                    #![trigger fb.pixel_spec(px, py)]
                    fb.in_bounds(px, py) && px < x ==> fb.pixel_spec(px, py) == Pixel::black_spec(),
            decreases info.width - x,
        {
            let mut y: usize = 0;
            while y < info.height
                invariant
                    fb.wf(),
                    fb.same_layout(&start),
                    fb@ == start@,
                    fb.width() == info.width,
                    fb.height() == info.height,
                    x < info.width,
                    y <= info.height,
                    forall|px: int, py: int|
                        #![trigger fb.pixel_spec(px, py)]
                        fb.in_bounds(px, py) && (px < x || (px == x && py < y)) ==> fb.pixel_spec(px, py)
                            == Pixel::black_spec(),
                decreases info.height - y,
            {
                fb.set_pixel(x, y, Pixel::black());
                y += 1;
            }
            x += 1;
        }
        proof {
            assert forall|cx: int, cy: int| 0 <= cx < fb@.cols && 0 <= cy < fb@.rows implies #[trigger] fb.cell_mirrors(
                cx,
                cy,
            ) by {
                assert forall|dx: int, dy: int| 0 <= dx < 8 && 0 <= dy < 16 implies #[trigger] fb.pixel_spec(
                    cx * 8 + dx,
                    cy * 16 + dy,
                ) == Pixel::black_spec() by {
                    assert(fb.in_bounds(cx * 8 + dx, cy * 16 + dy));
                }
            }
        }
        fb
    }

    /// A console with no surface: zero columns and rows. It holds an all-zero
    /// glyph table and stands in until the real surface is known.
    pub fn const_default() -> (fb: FrameBuffer)
        ensures
            fb.wf(),
            fb.width() == 0,
            fb.height() == 0,
            fb@ == fresh_screen(0, 0),
    {
        let fb = FrameBuffer {
            pixel_dim: (0, 0),
            term_dim: (0, 0),
            stride: 0,
            bbp: 0,
            pos: (0, 0),
            buffer: &mut [],
            glyphs: vec![0u128; GLYPH_COUNT],
            lines: Vec::new(),
            last_line: 0,
        };
        proof {
            assert(fb@.text =~= fresh_screen(0, 0).text);
        }
        fb
    }

    /// Ring index of visible row `r`.
    fn slot_of(&self, r: usize) -> (s: usize)
        requires
            self.shape(),
            self@.rows > 0,
            r < self@.rows,
        ensures
            s == ring_slot(self.last_line as int, r as int, self@.rows as int),
            s < self@.rows,
    {
        let gap = self.term_dim.1 - 1 - self.last_line;
        if r >= gap {
            r - gap
        } else {
            self.last_line + 1 + r
        }
    }

    /// Blanks the cells of ring line `s` from column `from` on.
    fn clear_line(&mut self, s: usize, from: usize)
        requires
            old(self).shape(),
            s < old(self).lines@.len(),
            from <= old(self)@.cols,
        ensures
            final(self).shape(),
            final(self).same_layout(old(self)),
            final(self).surface() == old(self).surface(),
            final(self).pos == old(self).pos,
            final(self).last_line == old(self).last_line,
            final(self).lines@ == old(self).lines@.update(s as int, final(self).lines@[s as int]),
            final(self).lines@[s as int]@ == clear_from(old(self).lines@[s as int]@, from as nat),
    {
        let cols = self.term_dim.0;
        let mut c: usize = from;
        while c < cols
            invariant
                self.shape(),
                self.same_layout(old(self)),
                self.surface() == old(self).surface(),
                self.pos == old(self).pos,
                self.last_line == old(self).last_line,
                from <= c <= cols,
                cols == self@.cols,
                s < self.lines@.len(),
                s < old(self).lines@.len(),
                old(self).lines@[s as int]@.len() == cols,
                self.lines@ == old(self).lines@.update(s as int, self.lines@[s as int]),
                self.lines@[s as int]@.len() == cols,
                forall|k: int|
                    0 <= k < cols ==> #[trigger] self.lines@[s as int]@[k] == if from <= k < c {
                        BLANK
                    } else {
                        old(self).lines@[s as int]@[k]
                    },
            decreases cols - c,
        {
            self.lines[s][c] = BLANK;
            proof {
                assert(self.lines@ =~= old(self).lines@.update(s as int, self.lines@[s as int]));
            }
            c += 1;
        }
        proof {
            assert(self.lines@[s as int]@ =~= clear_from(old(self).lines@[s as int]@, from as nat));
        }
    }

    /// Draws every visible row again from its stored text, so that every
    /// text cell shows the glyph of its byte.
    fn redraw(&mut self)
        requires
            old(self).wf(),
            old(self)@.cols > 0,
            old(self)@.rows > 0,
        ensures
            final(self).wf(),
            final(self).same_layout(old(self)),
            final(self)@ == old(self)@,
            final(self).pos == old(self).pos,
            forall|cx: int, cy: int|
                0 <= cx < final(self)@.cols && 0 <= cy < final(self)@.rows
                    ==> #[trigger] final(self).cell_shows(cx, cy, final(self).glyph(final(self)@.text[cy][cx])),
    {
        let rows = self.term_dim.1;
        let cols = self.term_dim.0;
        let mut y: usize = 0;
        while y < rows
            invariant
                self.wf(),
                self.same_layout(old(self)),
                self@ == old(self)@,
                self.pos == old(self).pos,
                self.last_line == old(self).last_line,
                rows == self@.rows,
                cols == self@.cols,
                cols > 0,
                y <= rows,
                forall|cx: int, cy: int|
                    0 <= cx < cols && 0 <= cy < y ==> #[trigger] self.cell_shows(
                        cx,
                        cy,
                        self.glyph(self@.text[cy][cx]),
                    ),
            decreases rows - y,
        {
            let s = self.slot_of(y);
            let mut x: usize = 0;
            while x < cols
                invariant
                    self.wf(),
                    self.same_layout(old(self)),
                    self@ == old(self)@,
                    self.pos == old(self).pos,
                    rows == self@.rows,
                    cols == self@.cols,
                    y < rows,
                    s == ring_slot(self.last_line as int, y as int, rows as int),
                    self.last_line == old(self).last_line,
                    s < rows,
                    x <= cols,
                    forall|cx: int, cy: int|
                        0 <= cx < cols && 0 <= cy < rows && (cy < y || (cy == y && cx < x))
                            ==> #[trigger] self.cell_shows(cx, cy, self.glyph(self@.text[cy][cx])),
                decreases cols - x,
            {
                let b = self.lines[s][x];
                let ghost prev = *self;
                proof {
                    assert(b == self@.text[y as int][x as int]);
                    assert(self.target_cell(Some((x, y))) == (x as int, y as int));
                }
                self.render_char(b, Some((x, y)));
                proof {
                    assert forall|cx: int, cy: int|
                        0 <= cx < cols && 0 <= cy < rows && (cy < y || (cy == y && cx <= x))
                            implies #[trigger] self.cell_shows(cx, cy, self.glyph(self@.text[cy][cx])) by {
                        if cx == x && cy == y {
                            assert forall|dx: int, dy: int| 0 <= dx < 8 && 0 <= dy < 16 implies #[trigger] self.pixel_spec(
                                cx * 8 + dx,
                                cy * 16 + dy,
                            ) == glyph_pixel(self.glyph(self@.text[cy][cx]), dx, dy) by {}
                        } else {
                            assert(prev.cell_shows(cx, cy, prev.glyph(prev@.text[cy][cx])));
                            assert forall|dx: int, dy: int| 0 <= dx < 8 && 0 <= dy < 16 implies #[trigger] self.pixel_spec(
                                cx * 8 + dx,
                                cy * 16 + dy,
                            ) == prev.pixel_spec(cx * 8 + dx, cy * 16 + dy) by {
                                assert(prev.in_bounds(cx * 8 + dx, cy * 16 + dy));
                            }
                        }
                    }
                }
                x += 1;
            }
            y += 1;
        }
    }

    /// Retires the top row: the ring advances, the newly exposed bottom row is
    /// blanked, every row is redrawn, and the cursor returns to column 0.
    fn scroll_up(&mut self)
        requires
            old(self).shape(),
            old(self)@.cols > 0,
            old(self)@.rows > 0,
            old(self)@.row + 1 == old(self)@.rows,
        ensures
            final(self).wf(),
            final(self).same_layout(old(self)),
            final(self)@ == scroll(old(self)@),
            final(self).mirrors_text(),
    {
        let rows = self.term_dim.1;
        let ghost before = self@;
        let next = self.slot_of(0);
        self.last_line = next;
        self.clear_line(next, 0);
        proof {
            let old_last = old(self).last_line as int;
            assert forall|r: int| 0 <= r < rows implies #[trigger] self@.text[r]
                == scroll(before).text[r] by {
                if r + 1 < rows {
                    assert(ring_slot(next as int, r, rows as int) == ring_slot(old_last, r + 1, rows as int));
                } else {
                    assert(self.lines@[next as int]@ =~= blank_line(self@.cols));
                }
            }
            assert(self@.text =~= scroll(before).text);
        }
        self.redraw();
        let ghost drawn = *self;
        self.pos.0 = 0;
        proof {
            lemma_mirrors_kept(&drawn, self);
        }
    }

    /// A newline, as `line_feed` describes it.
    fn new_line(&mut self)
        requires
            old(self).wf(),
            old(self)@.cols > 0,
            old(self)@.rows > 0,
        ensures
            final(self).wf(),
            final(self).same_layout(old(self)),
            final(self)@ == line_feed(old(self)@),
            old(self).mirrors_text() ==> final(self).mirrors_text(),
    {
        if self.pos.1 + 1 < self.term_dim.1 {
            let s = self.slot_of(self.pos.1);
            let from = self.pos.0;
            self.clear_line(s, from);
            self.pos.1 = self.pos.1 + 1;
            self.pos.0 = 0;
            proof {
                assert(self@.text =~= line_feed(old(self)@).text);
                let row = old(self)@.row as int;
                assert(clear_from(old(self)@.text[row], from as nat) =~= old(self)@.text[row]);
                assert(self@.text =~= old(self)@.text);
                if old(self).mirrors_text() {
                    lemma_mirrors_kept(old(self), self);
                }
            }
        } else {
            self.scroll_up();
        }
    }

    /// A printable byte, as `put_byte` describes it: its glyph is drawn at the
    /// cursor and it is recorded in the cursor's row.
    fn put_char(&mut self, byte: u8)
        requires
            old(self).wf(),
            old(self)@.cols > 0,
            old(self)@.rows > 0,
        ensures
            final(self).wf(),
            final(self).same_layout(old(self)),
            final(self)@ == put_byte(old(self)@, byte),
            old(self).mirrors_text() ==> final(self).mirrors_text(),
    {
        proof {
            assert(old(self).target_cell(None) == (old(self)@.col as int, old(self)@.row as int));
        }
        self.render_char(byte, None);
        let s = self.slot_of(self.pos.1);
        let col = self.pos.0;
        let ghost drawn = *self;
        self.lines[s][col] = byte;
        proof {
            let row = old(self)@.row as int;
            assert(self.surface() == drawn.surface());
            assert(self.glyphs@ == drawn.glyphs@);
            assert(self@.text =~= old(self)@.text.update(
                row,
                old(self)@.text[row].update(col as int, byte),
            ));
            if old(self).mirrors_text() {
                assert forall|cx: int, cy: int| 0 <= cx < self@.cols && 0 <= cy < self@.rows implies #[trigger] self.cell_mirrors(
                    cx,
                    cy,
                ) by {
                    if cx == col && cy == row {
                        assert forall|dx: int, dy: int| 0 <= dx < 8 && 0 <= dy < 16 implies #[trigger] self.pixel_spec(
                            cx * 8 + dx,
                            cy * 16 + dy,
                        ) == glyph_pixel(self.glyph(self@.text[cy][cx]), dx, dy) by {
                            assert(self.pixel_spec(cx * 8 + dx, cy * 16 + dy) == drawn.pixel_spec(
                                cx * 8 + dx,
                                cy * 16 + dy,
                            ));
                        }
                    } else {
                        assert(old(self).cell_mirrors(cx, cy));
                        assert forall|dx: int, dy: int| 0 <= dx < 8 && 0 <= dy < 16 implies #[trigger] self.pixel_spec(
                            cx * 8 + dx,
                            cy * 16 + dy,
                        ) == old(self).pixel_spec(cx * 8 + dx, cy * 16 + dy) by {
                            assert(old(self).in_bounds(cx * 8 + dx, cy * 16 + dy));
                            assert(self.pixel_spec(cx * 8 + dx, cy * 16 + dy) == drawn.pixel_spec(
                                cx * 8 + dx,
                                cy * 16 + dy,
                            ));
                        }
                        lemma_cell_kept(old(self), self, cx, cy);
                    }
                }
            }
        }
        let ghost recorded = *self;
        if self.pos.0 + 1 < self.term_dim.0 {
            self.pos.0 = self.pos.0 + 1;
            proof {
                if old(self).mirrors_text() {
                    lemma_mirrors_kept(&recorded, self);
                }
            }
        } else if self.pos.1 + 1 < self.term_dim.1 {
            self.pos.0 = 0;
            self.pos.1 = self.pos.1 + 1;
            proof {
                if old(self).mirrors_text() {
                    lemma_mirrors_kept(&recorded, self);
                }
            }
        } else {
            self.scroll_up();
        }
    }

    /// Writes `bytes` to the console one after another: a newline moves the
    /// cursor to the next row (scrolling on the bottom row) and any other byte
    /// is drawn at the cursor, recorded, and advances the cursor, wrapping past
    /// the last column.
    pub fn write_str(&mut self, bytes: &[u8])
        requires
            old(self).wf(),
            old(self)@.cols > 0,
            old(self)@.rows > 0,
        ensures
            final(self).wf(),
            final(self).same_layout(old(self)),
            final(self)@ == write_text(old(self)@, bytes@),
            old(self).mirrors_text() ==> final(self).mirrors_text(),
    {
        let mut i: usize = 0;
        while i < bytes.len()
            invariant
                self.wf(),
                self.same_layout(old(self)),
                self@.cols > 0,
                self@.rows > 0,
                i <= bytes@.len(),
                self@ == write_text(old(self)@, bytes@.take(i as int)),
                old(self).mirrors_text() ==> self.mirrors_text(),
            decreases bytes@.len() - i,
        {
            let byte = bytes[i];
            if byte == NEWLINE {
                self.new_line();
            } else {
                self.put_char(byte);
            }
            proof {
                assert(bytes@.take(i + 1).drop_last() =~= bytes@.take(i as int));
            }
            i += 1;
        }
        proof {
            assert(bytes@.take(bytes@.len() as int) =~= bytes@);
        }
    }

    /// The cursor as (column, row).
    pub fn cursor(&self) -> (c: (usize, usize))
        requires
            self.wf(),
        ensures
            c.0 == self@.col,
            c.1 == self@.row,
    {
        self.pos
    }

    /// A copy of the text of visible row `r`, counted from the top.
    pub fn row_text(&self, r: usize) -> (t: Vec<u8>)
        requires
            self.wf(),
            r < self@.rows,
        ensures
            t@ == self@.text[r as int],
    {
        let s = self.slot_of(r);
        self.lines[s].clone()
    }
}

/// A text cell whose byte, glyph table and pixels are unchanged still
/// mirrors its byte.
proof fn lemma_cell_kept(a: &FrameBuffer, b: &FrameBuffer, cx: int, cy: int)
    requires
        a.cell_mirrors(cx, cy),
        b@.text[cy][cx] == a@.text[cy][cx],
        b.glyphs@ == a.glyphs@,
        forall|dx: int, dy: int|
            0 <= dx < 8 && 0 <= dy < 16 ==> #[trigger] b.pixel_spec(cx * 8 + dx, cy * 16 + dy)
                == a.pixel_spec(cx * 8 + dx, cy * 16 + dy),
    ensures
        b.cell_mirrors(cx, cy),
{
    if a.cell_shows(cx, cy, a.glyph(a@.text[cy][cx])) {
        assert(b.cell_shows(cx, cy, b.glyph(b@.text[cy][cx])));
    } else {
        assert(b.cell_clear(cx, cy));
    }
}

/// A console whose text, glyph table and surface are unchanged still mirrors
/// its text; only the cursor may have moved.
proof fn lemma_mirrors_kept(a: &FrameBuffer, b: &FrameBuffer)
    requires
        a.mirrors_text(),
        b@.cols == a@.cols,
        b@.rows == a@.rows,
        b@.text == a@.text,
        b.glyphs@ == a.glyphs@,
        b.surface() == a.surface(),
        b.stride == a.stride,
        b.bbp == a.bbp,
    ensures
        b.mirrors_text(),
{
    assert forall|cx: int, cy: int| 0 <= cx < b@.cols && 0 <= cy < b@.rows implies #[trigger] b.cell_mirrors(
        cx,
        cy,
    ) by {
        assert(a.cell_mirrors(cx, cy));
        lemma_cell_kept(a, b, cx, cy);
    }
}

/// Writing a pixel into a surface and reading the same cell back yields the
/// four bytes that were written, for every in-bounds `(x, y)`.
pub proof fn lemma_pixel_round_trip(fb: FrameBuffer, x: int, y: int, p: Pixel)
    requires
        fb.wf(),
        fb.in_bounds(x, y),
    ensures
        0 <= fb.offset(x, y),
        fb.offset(x, y) + 4 <= fb.surface().len(),
        pixel_at(write_cell(fb.surface(), fb.offset(x, y), p), fb.offset(x, y)) == p,
{
    lemma_cell_in_bounds(x, y, fb.pixel_dim.0 as int, fb.pixel_dim.1 as int, fb.stride as int,
        fb.bbp as int);
}

/// Writing never changes a screen's size.
pub proof fn lemma_write_keeps_size(s: TextScreen, bytes: Seq<u8>)
    ensures
        write_text(s, bytes).cols == s.cols,
        write_text(s, bytes).rows == s.rows,
    decreases bytes.len(),
{
    if bytes.len() > 0 {
        lemma_write_keeps_size(s, bytes.drop_last());
    }
}

/// Bytes without a newline that fit before the last column of the cursor's
/// row move the cursor right by their count and leave it on its row; from
/// column 0 the cursor ends at the column equal to the number of bytes.
pub proof fn lemma_short_write(s: TextScreen, bytes: Seq<u8>)
    requires
        s.col + bytes.len() < s.cols,
        forall|i: int| 0 <= i < bytes.len() ==> bytes[i] != NEWLINE,
    ensures
        write_text(s, bytes).col == s.col + bytes.len(),
        write_text(s, bytes).row == s.row,
    decreases bytes.len(),
{
    if bytes.len() > 0 {
        lemma_short_write(s, bytes.drop_last());
        lemma_write_keeps_size(s, bytes.drop_last());
    }
}

/// Writing exactly one row's worth of bytes without a newline from column 0
/// leaves the cursor at column 0 of the next row, or of the bottom row when
/// the screen had to scroll.
pub proof fn lemma_full_row_wraps(s: TextScreen, bytes: Seq<u8>)
    requires
        s.col == 0,
        s.row < s.rows,
        bytes.len() == s.cols,
        s.cols > 0,
        forall|i: int| 0 <= i < bytes.len() ==> bytes[i] != NEWLINE,
    ensures
        write_text(s, bytes).col == 0,
        write_text(s, bytes).row == if s.row + 1 < s.rows { (s.row + 1) as nat } else { s.row },
{
    let head = bytes.drop_last();
    assert forall|i: int| 0 <= i < head.len() implies head[i] != NEWLINE by {
        assert(head[i] == bytes[i]);
    }
    lemma_short_write(s, head);
    lemma_write_keeps_size(s, head);
}

/// The cells of a screen filled row by row from the top left with `bytes`
/// hold those bytes, the others are blank, and the cursor stands right after
/// the last byte.
pub open spec fn filled_with(s: TextScreen, bytes: Seq<u8>) -> bool {
    &&& s.row < s.rows
    &&& s.col < s.cols
    &&& s.row * s.cols + s.col == bytes.len()
    &&& s.text.len() == s.rows
    &&& forall|r: int| 0 <= r < s.rows ==> (#[trigger] s.text[r]).len() == s.cols
    &&& forall|r: int, c: int|
        0 <= r < s.rows && 0 <= c < s.cols ==> #[trigger] s.text[r][c] == if r < s.row || (r == s.row
            && c < s.col) {
            bytes[r * s.cols + c]
        } else {
            BLANK
        }
}

proof fn lemma_cell_before_cursor(r: int, c: int, row: int, col: int, cols: int)
    requires
        0 <= r,
        0 <= c < cols,
        0 <= col,
        r < row || (r == row && c < col),
    ensures
        0 <= r * cols + c < row * cols + col,
{
    assert(0 <= r * cols) by (nonlinear_arith)
        requires 0 <= r, 0 <= cols;
    if r < row {
        assert(r * cols + cols <= row * cols) by (nonlinear_arith)
            requires r < row, 0 <= cols;
    }
}

proof fn lemma_next_row_exists(row: int, col: int, cols: int, rows: int)
    requires
        0 <= row,
        0 <= col,
        col + 1 == cols,
        row * cols + col + 1 < rows * cols,
    ensures
        row + 1 < rows,
{
    assert((row + 1) * cols == row * cols + cols) by (nonlinear_arith);
    assert(row + 1 < rows) by (nonlinear_arith)
        requires (row + 1) * cols < rows * cols, 0 < cols;
}

proof fn lemma_last_cell(row: int, col: int, cols: int, rows: int)
    requires
        0 <= row < rows,
        0 <= col < cols,
        row * cols + col + 1 == rows * cols,
    ensures
        row == rows - 1,
        col == cols - 1,
{
    if row < rows - 1 {
        assert(row * cols + cols <= (rows - 1) * cols) by (nonlinear_arith)
            requires row < rows - 1, 0 <= cols;
        assert((rows - 1) * cols == rows * cols - cols) by (nonlinear_arith);
    }
    assert((rows - 1) * cols == rows * cols - cols) by (nonlinear_arith);
}

/// Fewer than `rows * cols` bytes without a newline written on an empty
/// screen fill it row by row without scrolling.
pub proof fn lemma_fill_without_scroll(cols: nat, rows: nat, bytes: Seq<u8>)
    requires
        cols > 0,
        rows > 0,
        bytes.len() < rows * cols,
        forall|i: int| 0 <= i < bytes.len() ==> bytes[i] != NEWLINE,
    ensures
        scroll_count(fresh_screen(cols, rows), bytes) == 0,
        write_text(fresh_screen(cols, rows), bytes).cols == cols,
        write_text(fresh_screen(cols, rows), bytes).rows == rows,
        filled_with(write_text(fresh_screen(cols, rows), bytes), bytes),
    decreases bytes.len(),
{
    let s0 = fresh_screen(cols, rows);
    if bytes.len() == 0 {
        assert(filled_with(s0, bytes));
    } else {
        let head = bytes.drop_last();
        assert forall|i: int| 0 <= i < head.len() implies head[i] != NEWLINE by {
            assert(head[i] == bytes[i]);
        }
        lemma_fill_without_scroll(cols, rows, head);
        let s = write_text(s0, head);
        let b = bytes.last();
        let t = write_text(s0, bytes);
        assert(t == put_byte(s, b));
        if s.col + 1 >= s.cols {
            lemma_next_row_exists(s.row as int, s.col as int, cols as int, rows as int);
            assert((s.row + 1) * cols == s.row * cols + cols) by (nonlinear_arith);
        }
        assert(!scrolls_on(s, b));
        assert forall|r: int, c: int| 0 <= r < t.rows && 0 <= c < t.cols implies #[trigger] t.text[r][c]
            == if r < t.row || (r == t.row && c < t.col) {
            bytes[r * t.cols + c]
        } else {
            BLANK
        } by {
            if r < s.row || (r == s.row && c < s.col) {
                lemma_cell_before_cursor(r, c, s.row as int, s.col as int, cols as int);
                assert(head[r * cols + c] == bytes[r * cols + c]);
            }
        }
        assert forall|r: int| 0 <= r < t.rows implies (#[trigger] t.text[r]).len() == t.cols by {
        }
    }
}

/// Writing `rows * cols` bytes without a newline on an empty screen scrolls it
/// exactly once: the first row written is retired, so the top row then holds
/// the second row written, and the bottom row is blank.
pub proof fn lemma_full_screen_scrolls_once(cols: nat, rows: nat, bytes: Seq<u8>)
    requires
        cols > 0,
        rows > 0,
        bytes.len() == rows * cols,
        forall|i: int| 0 <= i < bytes.len() ==> bytes[i] != NEWLINE,
    ensures
        scroll_count(fresh_screen(cols, rows), bytes) == 1,
        write_text(fresh_screen(cols, rows), bytes).col == 0,
        write_text(fresh_screen(cols, rows), bytes).row == rows - 1,
        write_text(fresh_screen(cols, rows), bytes).text[rows - 1] == blank_line(cols),
        rows >= 2 ==> write_text(fresh_screen(cols, rows), bytes).text[0] == bytes.subrange(
            cols as int,
            2 * cols as int,
        ),
{
    let s0 = fresh_screen(cols, rows);
    assert(rows * cols > 0) by (nonlinear_arith)
        requires rows > 0, cols > 0;
    let head = bytes.drop_last();
    assert forall|i: int| 0 <= i < head.len() implies head[i] != NEWLINE by {
        assert(head[i] == bytes[i]);
    }
    lemma_fill_without_scroll(cols, rows, head);
    let s = write_text(s0, head);
    lemma_last_cell(s.row as int, s.col as int, cols as int, rows as int);
    let b = bytes.last();
    let t = write_text(s0, bytes);
    assert(scrolls_on(s, b));
    assert(t.text[rows - 1] =~= blank_line(cols));
    if rows >= 2 {
        assert(2 * cols <= rows * cols) by (nonlinear_arith)
            requires rows >= 2;
        assert forall|c: int| 0 <= c < cols implies #[trigger] t.text[0][c] == bytes.subrange(
            cols as int,
            2 * cols as int,
        )[c] by {
            assert(t.text[0] == s.text.update(
                s.row as int,
                s.text[s.row as int].update(s.col as int, b),
            )[1]);
            if 1 < s.row || c < s.col {
                lemma_cell_before_cursor(1, c, s.row as int, s.col as int, cols as int);
                assert(head[cols + c] == bytes[cols + c]);
            } else {
                assert(bytes.len() - 1 == cols + c);
            }
        }
        assert(t.text[0] =~= bytes.subrange(cols as int, 2 * cols as int));
    }
}

} // verus!

//! The software surface drawing goes to: a BGRA pixel buffer, and where a
//! character's rows sit in the built-in 8x16 bitmap font.

use vstd::prelude::*;

verus! {

/// A BGRA pixel buffer, `stride` bytes per row.
pub struct PixelBuffer {
    pub width: usize,
    pub height: usize,
    pub stride: usize,
    pub pixels: Vec<u8>,
}

/// The row length a bitmap context uses: the one asked for, or four bytes
/// per pixel when none was.
pub open spec fn spec_stride(width: usize, bytes_per_row: usize) -> int {
    if bytes_per_row > 0 { bytes_per_row as int } else { width * 4 }
}

/// Where pixel (x, y) starts.
pub open spec fn spec_pixel_offset(stride: usize, x: usize, y: usize) -> int {
    y * stride + x * 4
}

impl PixelBuffer {
    pub open spec fn bytes(&self) -> Seq<u8> {
        self.pixels@
    }

    /// Offsets of pixels inside the surface fit in a `usize`.
    pub open spec fn wf(&self) -> bool {
        self.width * 4 + self.stride * self.height <= usize::MAX
    }

    /// A zeroed surface of `width` x `height` pixels, with rows of
    /// `bytes_per_row` bytes (four per pixel when 0).
    pub fn new(width: usize, height: usize, bytes_per_row: usize) -> (r: PixelBuffer)
        requires
            width * 4 + spec_stride(width, bytes_per_row) * height <= usize::MAX,
        ensures
            r.wf(),
            r.width == width,
            r.height == height,
            r.stride == spec_stride(width, bytes_per_row),
            r.bytes().len() == spec_stride(width, bytes_per_row) * height,
            forall|i: int| 0 <= i < r.bytes().len() ==> #[trigger] r.bytes()[i] == 0,
    {
        proof {
            assert(spec_stride(width, bytes_per_row) * height <= usize::MAX) by (nonlinear_arith)
                requires
                    width * 4 + spec_stride(width, bytes_per_row) * height <= usize::MAX,
                    width >= 0,
            ;
        }
        let stride = if bytes_per_row > 0 { bytes_per_row } else { width * 4 };
        let size = stride * height;
        let mut pixels: Vec<u8> = Vec::new();
        let mut i: usize = 0;
        while i < size
            invariant
                i <= size,
                pixels@.len() == i,
                forall|j: int| 0 <= j < i ==> #[trigger] pixels@[j] == 0,
            decreases size - i,
        {
            pixels.push(0);
            i = i + 1;
        }
        PixelBuffer { width, height, stride, pixels }
    }

    /// The bytes of pixel (x, y), if it is inside the surface.
    pub fn pixel(&self, x: usize, y: usize) -> (r: Option<(u8, u8, u8, u8)>)
        requires
            self.wf(),
        ensures
            r == if x < self.width && y < self.height && spec_pixel_offset(self.stride, x, y) + 3 < self.bytes().len() {
                let o = spec_pixel_offset(self.stride, x, y);
                Some((self.bytes()[o], self.bytes()[o + 1], self.bytes()[o + 2], self.bytes()[o + 3]))
            } else {
                None
            },
    {
        if x >= self.width || y >= self.height {
            return None;
        }
        proof {
            lemma_offset_fits(self.width, self.height, self.stride, x, y);
        }
        let off = y * self.stride + x * 4;
        if off + 3 < self.pixels.len() {
            Some((self.pixels[off], self.pixels[off + 1], self.pixels[off + 2], self.pixels[off + 3]))
        } else {
            None
        }
    }

    /// Paints pixel (x, y) with the color (r, g, b, a), stored as B, G, R,
    /// A; a pixel outside the surface or past its buffer is left alone.
    pub fn set_pixel(&mut self, x: usize, y: usize, r: u8, g: u8, b: u8, a: u8)
        requires
            old(self).wf(),
        ensures
            final(self).wf(),
            final(self).width == old(self).width,
            final(self).height == old(self).height,
            final(self).stride == old(self).stride,
            final(self).bytes() == if x < old(self).width && y < old(self).height
                && spec_pixel_offset(old(self).stride, x, y) + 3 < old(self).bytes().len() {
                let o = spec_pixel_offset(old(self).stride, x, y);
                old(self).bytes().update(o, b).update(o + 1, g).update(o + 2, r).update(o + 3, a)
            } else {
                old(self).bytes()
            },
    {
        if x >= self.width || y >= self.height {
            return;
        }
        proof {
            lemma_offset_fits(self.width, self.height, self.stride, x, y);
        }
        let off = y * self.stride + x * 4;
        if off + 3 < self.pixels.len() {
            self.pixels.set(off, b);
            self.pixels.set(off + 1, g);
            self.pixels.set(off + 2, r);
            self.pixels.set(off + 3, a);
        }
    }
}

/// The offset of a pixel inside the surface is at most the surface's size.
proof fn lemma_offset_fits(width: usize, height: usize, stride: usize, x: usize, y: usize)
    requires
        x < width,
        y < height,
        width * 4 + stride * height <= usize::MAX,
    ensures
        y * stride + x * 4 + 3 <= usize::MAX,
{
    assert(y * stride <= stride * height) by (nonlinear_arith)
        requires
            y < height,
    ;
}

/// Where the 16 rows of character `ch` start in a font of `font_len`
/// bytes laid out from the space character on: printable ASCII maps to its
/// own rows when they are there; anything else to the space's rows.
pub open spec fn spec_glyph_offset(ch: u8, font_len: usize) -> int {
    if ch < 32 || ch > 126 {
        0
    } else if (ch - 32) * 16 + 16 <= font_len {
        (ch - 32) * 16
    } else {
        0
    }
}

/// The start of character `ch`'s rows in the built-in font.
pub fn glyph_offset(ch: u8, font_len: usize) -> (r: usize)
    ensures
        r == spec_glyph_offset(ch, font_len),
{
    if ch < 32 || ch > 126 {
        return 0;
    }
    let idx = ((ch - 32) as usize) * 16;
    if idx + 16 <= font_len {
        idx
    } else {
        0
    }
}

/// Whether column `col` (0 leftmost) of a glyph row `bits` is set.
pub open spec fn spec_glyph_bit(bits: u8, col: u32) -> bool {
    bits & (0x80u8 >> col) != 0
}

/// Whether column `col` (0 leftmost) of a glyph row `bits` is set; the most
/// significant bit is the leftmost pixel.
pub fn glyph_bit(bits: u8, col: u32) -> (r: bool)
    requires
        col < 8,
    ensures
        r == spec_glyph_bit(bits, col),
{
    bits & (0x80u8 >> col) != 0
}

/// In rows at least four bytes per pixel long, each pixel's four bytes lie
/// in its own row, and two different pixels never share a byte.
pub proof fn law_pixels_lie_apart(stride: usize, width: usize, x1: usize, y1: usize, x2: usize, y2: usize)
    requires
        stride >= width * 4,
        x1 < width,
        x2 < width,
        x1 != x2 || y1 != y2,
    ensures
        y1 * stride <= spec_pixel_offset(stride, x1, y1),
        spec_pixel_offset(stride, x1, y1) + 4 <= (y1 + 1) * stride,
        spec_pixel_offset(stride, x1, y1) + 4 <= spec_pixel_offset(stride, x2, y2)
            || spec_pixel_offset(stride, x2, y2) + 4 <= spec_pixel_offset(stride, x1, y1),
{
    assert((y1 + 1) * stride == y1 * stride + stride) by (nonlinear_arith);
    if y1 == y2 {
    } else if y1 < y2 {
        assert(y1 * stride + stride <= y2 * stride) by (nonlinear_arith)
            requires y1 < y2;
    } else {
        assert(y2 * stride + stride <= y1 * stride) by (nonlinear_arith)
            requires y2 < y1;
    }
}

/// Each printable ASCII character has its own 16 rows in a font that holds
/// them all (font_len >= 95 * 16), laid out from the space on; two
/// different printable characters never share rows.
pub proof fn law_glyphs_have_their_own_rows(c1: u8, c2: u8, font_len: usize)
    requires
        font_len >= 95 * 16,
        32 <= c1 <= 126,
        32 <= c2 <= 126,
        c1 != c2,
    ensures
        spec_glyph_offset(c1, font_len) == (c1 - 32) * 16,
        spec_glyph_offset(c1, font_len) + 16 <= spec_glyph_offset(c2, font_len)
            || spec_glyph_offset(c2, font_len) + 16 <= spec_glyph_offset(c1, font_len),
{
}

/// A glyph row's bits are read from the left: column `col` is bit 7 - col.
pub proof fn law_glyph_columns_read_from_the_left(bits: u8, col: u32)
    requires
        col < 8,
    ensures
        spec_glyph_bit(bits, col) == ((bits >> (7 - col) as u8) & 1 == 1),
{
    assert(col < 8 ==> (bits & (0x80u8 >> col) != 0) == ((bits >> (7 - col) as u8) & 1 == 1)) by (bit_vector);
}

} // verus!

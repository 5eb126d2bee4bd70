use vstd::prelude::*;
use crate::bitmap::Rgba;

verus! {

/// Pixel format tag of a rasterized glyph bitmap.
#[derive(Clone, Copy, Debug, PartialEq, Eq, Structural)]
pub enum PixelMode {
    /// Subpixel coverage, three bytes per pixel in R, G, B order; alpha is implicitly full.
    Lcd,
    /// Four bytes per pixel in B, G, R, A order, colour premultiplied by alpha.
    Bgra,
    /// Any other format tag reported by the rasterizer.
    Other(u8),
}

/// Outline metrics of one glyph, in 26.6 fixed-point device units.
#[derive(Clone, Copy, Debug, PartialEq, Eq, Structural)]
pub struct GlyphMetrics {
    /// Height of the glyph's ink box.
    pub height: i64,
    /// Distance from the baseline up to the top of the ink box.
    pub hori_bearing_y: i64,
}

/// A rasterized glyph bitmap as handed out by the rasterizer.
///
/// `width` is the row length the rasterizer reports: bytes for `Lcd`
/// (three per pixel), pixels for `Bgra`. `pitch` is the byte stride between
/// rows. `left` and `top` place the bitmap relative to the pen position,
/// `top` counting upwards from the baseline.
pub struct GlyphBitmap {
    pub width: u32,
    pub rows: u32,
    pub pitch: u32,
    pub mode: PixelMode,
    pub left: i32,
    pub top: i32,
    pub buffer: Vec<u8>,
}

/// Whether the compositor can decode this pixel format.
pub open spec fn is_supported(mode: PixelMode) -> bool {
    mode is Lcd || mode is Bgra
}

/// Bytes per pixel of a supported format.
pub open spec fn bytes_per_pixel(mode: PixelMode) -> int {
    match mode {
        PixelMode::Lcd => 3,
        PixelMode::Bgra => 4,
        PixelMode::Other(_) => 0,
    }
}

/// Number of pixels in one row of the bitmap.
pub open spec fn pixels_per_row(g: GlyphBitmap) -> int {
    match g.mode {
        PixelMode::Lcd => (g.width / 3) as int,
        PixelMode::Bgra => g.width as int,
        PixelMode::Other(_) => 0,
    }
}

/// Every pixel of every row lies inside the buffer.
pub open spec fn glyph_wf(g: GlyphBitmap) -> bool {
    &&& pixels_per_row(g) * bytes_per_pixel(g.mode) <= g.pitch
    &&& g.rows * g.pitch <= g.buffer@.len()
}

/// Whether `(x, y)` is a pixel of the bitmap.
pub open spec fn covers(g: GlyphBitmap, x: int, y: int) -> bool {
    0 <= x < pixels_per_row(g) && 0 <= y < g.rows
}

/// Byte offset of pixel `(x, y)`.
pub open spec fn byte_index(g: GlyphBitmap, x: int, y: int) -> int {
    y * g.pitch + x * bytes_per_pixel(g.mode)
}

/// Straight (non-premultiplied) value of a colour channel `c` premultiplied
/// by alpha `a`: `c * 255 / a` rounded down and saturated at 255, and 0 where
/// `a` is 0.
pub open spec fn unpremultiplied(c: u8, a: u8) -> u8 {
    if a == 0 {
        0
    } else if (c as int) * 255 / (a as int) > 255 {
        255
    } else {
        ((c as int) * 255 / (a as int)) as u8
    }
}

/// The RGBA value of pixel `(x, y)` of the bitmap.
pub open spec fn decoded(g: GlyphBitmap, x: int, y: int) -> Rgba {
    let i = byte_index(g, x, y);
    let buf = g.buffer@;
    match g.mode {
        PixelMode::Lcd => (buf[i], buf[i + 1], buf[i + 2], 255u8),
        PixelMode::Bgra => {
            let a = buf[i + 3];
            (unpremultiplied(buf[i + 2], a), unpremultiplied(buf[i + 1], a), unpremultiplied(buf[i], a), a)
        },
        PixelMode::Other(_) => (0u8, 0u8, 0u8, 0u8),
    }
}

proof fn lemma_pixel_bytes_in_buffer(g: GlyphBitmap, x: int, y: int)
    requires
        glyph_wf(g),
        covers(g, x, y),
    ensures
        0 <= y * g.pitch,
        0 <= x * bytes_per_pixel(g.mode),
        0 <= byte_index(g, x, y),
        byte_index(g, x, y) + bytes_per_pixel(g.mode) <= g.buffer@.len(),
{
    let p = g.pitch as int;
    let b = bytes_per_pixel(g.mode);
    let n = pixels_per_row(g);
    assert(0 <= b);
    assert(0 <= y * p) by (nonlinear_arith)
        requires
            0 <= y,
            0 <= p,
    ;
    assert(0 <= x * b) by (nonlinear_arith)
        requires
            0 <= x,
            0 <= b,
    ;
    assert(x * b + b <= n * b) by (nonlinear_arith)
        requires
            x + 1 <= n,
            0 <= b,
    ;
    assert(y * p + p <= (g.rows as int) * p) by (nonlinear_arith)
        requires
            y + 1 <= g.rows,
            0 <= p,
    ;
}

/// Un-premultiplies one colour channel `c` by alpha `a`.
pub fn unpremultiply(c: u8, a: u8) -> (r: u8)
    ensures
        r == unpremultiplied(c, a),
{
    if a == 0 {
        0
    } else {
        let v: u32 = (c as u32) * 255 / (a as u32);
        if v > 255 {
            255
        } else {
            v as u8
        }
    }
}

impl GlyphBitmap {
    /// Builds a glyph bitmap from the rasterizer's description, or `None`
    /// where the stride is negative or the buffer is too short for the rows.
    pub fn new(
        width: u32,
        rows: u32,
        pitch: i32,
        mode: PixelMode,
        left: i32,
        top: i32,
        buffer: Vec<u8>,
    ) -> (result: Option<GlyphBitmap>)
        ensures
            pitch >= 0 && glyph_wf(
                GlyphBitmap { width, rows, pitch: pitch as u32, mode, left, top, buffer },
            ) <==> result is Some,
            result matches Some(g) ==> (g == GlyphBitmap {
                width,
                rows,
                pitch: pitch as u32,
                mode,
                left,
                top,
                buffer,
            }),
    {
        if pitch < 0 {
            return None;
        }
        let per_row: u64 = match mode {
            PixelMode::Lcd => (width / 3) as u64 * 3,
            PixelMode::Bgra => width as u64 * 4,
            PixelMode::Other(_) => 0,
        };
        proof {
            let (r, p) = (rows as int, pitch as int);
            assert(r * p <= 0xffff_ffff * 0xffff_ffff) by (nonlinear_arith)
                requires
                    0 <= r <= 0xffff_ffff,
                    0 <= p <= 0xffff_ffff,
            ;
        }
        let needed: u64 = rows as u64 * pitch as u64;
        if per_row <= pitch as u64 && needed <= buffer.len() as u64 {
            Some(GlyphBitmap { width, rows, pitch: pitch as u32, mode, left, top, buffer })
        } else {
            None
        }
    }

    /// Decodes pixel `(x, y)` into straight RGBA.
    pub fn decode_pixel(&self, x: u32, y: u32) -> (rgba: Rgba)
        requires
            glyph_wf(*self),
            covers(*self, x as int, y as int),
        ensures
            rgba == decoded(*self, x as int, y as int),
    {
        let len = self.buffer.len();
        proof {
            lemma_pixel_bytes_in_buffer(*self, x as int, y as int);
        }
        match self.mode {
            PixelMode::Lcd => {
                let i = y as usize * self.pitch as usize + x as usize * 3;
                (self.buffer[i], self.buffer[i + 1], self.buffer[i + 2], 255)
            },
            PixelMode::Bgra => {
                let i = y as usize * self.pitch as usize + x as usize * 4;
                let a = self.buffer[i + 3];
                (
                    unpremultiply(self.buffer[i + 2], a),
                    unpremultiply(self.buffer[i + 1], a),
                    unpremultiply(self.buffer[i], a),
                    a,
                )
            },
            PixelMode::Other(_) => (0, 0, 0, 0),
        }
    }
}

} // verus!

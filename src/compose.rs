use vstd::prelude::*;
use crate::bitmap::{area, in_box, lemma_pos_in_area, lemma_pos_injective, pos_of, Rgba, StringBitmap, StringBitmapSize};
use crate::error::FontError;
use crate::glyph::{covers, decoded, glyph_wf, is_supported, pixels_per_row, GlyphBitmap, GlyphMetrics, PixelMode};
use crate::layout::{device_advance, lemma_pen_bound, measure_size, measured, pen_x, pen_y, LetterSpacing};
use crate::shape::Shape;

verus! {

/// Buffer column at which glyph `i`'s bitmap starts.
pub open spec fn origin_x(
    shapes: Seq<Shape>,
    glyphs: Seq<GlyphBitmap>,
    x_ppem: u16,
    spacing: LetterSpacing,
    i: int,
) -> int {
    pen_x(shapes, x_ppem, spacing, i) + glyphs[i].left
}

/// Buffer row at which glyph `i`'s bitmap starts: its top bearing is turned
/// from baseline-up into top-down buffer coordinates.
pub open spec fn origin_y(
    shapes: Seq<Shape>,
    glyphs: Seq<GlyphBitmap>,
    x_ppem: u16,
    spacing: LetterSpacing,
    size: StringBitmapSize,
    i: int,
) -> int {
    pen_y(shapes, x_ppem, spacing, i) + (size.height - (glyphs[i].top + size.y_min))
}

/// Pixel `(x, y)` of the buffer after the first `k` glyphs were drawn: the
/// decoded pixel of the last of them whose bitmap covers `(x, y)`, else
/// transparent black.
pub open spec fn composed(
    shapes: Seq<Shape>,
    glyphs: Seq<GlyphBitmap>,
    x_ppem: u16,
    spacing: LetterSpacing,
    size: StringBitmapSize,
    k: int,
    x: int,
    y: int,
) -> Rgba
    decreases k,
{
    if k <= 0 {
        (0u8, 0u8, 0u8, 0u8)
    } else {
        let g = glyphs[k - 1];
        let sx = x - origin_x(shapes, glyphs, x_ppem, spacing, k - 1);
        let sy = y - origin_y(shapes, glyphs, x_ppem, spacing, size, k - 1);
        if covers(g, sx, sy) {
            decoded(g, sx, sy)
        } else {
            composed(shapes, glyphs, x_ppem, spacing, size, k - 1, x, y)
        }
    }
}

/// A pixel that none of the first `k` glyph bitmaps covers stays transparent.
pub proof fn lemma_uncovered_pixel_is_clear(
    shapes: Seq<Shape>,
    glyphs: Seq<GlyphBitmap>,
    x_ppem: u16,
    spacing: LetterSpacing,
    size: StringBitmapSize,
    k: int,
    x: int,
    y: int,
)
    requires
        0 <= k <= glyphs.len(),
        forall|j: int|
            0 <= j < k ==> !covers(
                #[trigger] glyphs[j],
                x - origin_x(shapes, glyphs, x_ppem, spacing, j),
                y - origin_y(shapes, glyphs, x_ppem, spacing, size, j),
            ),
    ensures
        composed(shapes, glyphs, x_ppem, spacing, size, k, x, y) == (0u8, 0u8, 0u8, 0u8),
    decreases k,
{
    if k > 0 {
        lemma_uncovered_pixel_is_clear(shapes, glyphs, x_ppem, spacing, size, k - 1, x, y);
    }
}

/// The buffer while a glyph with origin `(ox, oy)` is drawn row by row: the
/// pixels of rows before `row`, and of `row` before column `col`, are drawn
/// over `base`.
spec fn painted(
    g: GlyphBitmap,
    ox: int,
    oy: int,
    row: int,
    col: int,
    base: spec_fn(int, int) -> Rgba,
    x: int,
    y: int,
) -> Rgba {
    let sx = x - ox;
    let sy = y - oy;
    if covers(g, sx, sy) && (sy < row || (sy == row && sx < col)) {
        decoded(g, sx, sy)
    } else {
        base(x, y)
    }
}

/// Pixels of the buffer agree with `f` everywhere in the box.
spec fn shows(bm: StringBitmap, f: spec_fn(int, int) -> Rgba) -> bool {
    forall|x: int, y: int| in_box(bm.size, x, y) ==> #[trigger] bm.pixel(x, y) == f(x, y)
}

proof fn lemma_write_step(
    before: StringBitmap,
    after: StringBitmap,
    g: GlyphBitmap,
    ox: int,
    oy: int,
    row: int,
    col: int,
    base: spec_fn(int, int) -> Rgba,
)
    requires
        before.wf(),
        after.wf(),
        after.size == before.size,
        covers(g, col, row),
        shows(before, |x: int, y: int| painted(g, ox, oy, row, col, base, x, y)),
        in_box(before.size, ox + col, oy + row) ==> {
            let p = pos_of(before.size, ox + col, oy + row);
            let v = decoded(g, col, row);
            &&& after.r@ == before.r@.update(p, v.0)
            &&& after.g@ == before.g@.update(p, v.1)
            &&& after.b@ == before.b@.update(p, v.2)
            &&& after.a@ == before.a@.update(p, v.3)
        },
        !in_box(before.size, ox + col, oy + row) ==> after == before,
    ensures
        shows(after, |x: int, y: int| painted(g, ox, oy, row, col + 1, base, x, y)),
{
    let size = before.size;
    if in_box(size, ox + col, oy + row) {
        lemma_pos_in_area(size, ox + col, oy + row);
    }
    assert forall|x: int, y: int| in_box(after.size, x, y) implies #[trigger] after.pixel(x, y)
        == painted(g, ox, oy, row, col + 1, base, x, y) by {
        lemma_pos_in_area(size, x, y);
        assert(before.pixel(x, y) == painted(g, ox, oy, row, col, base, x, y));
        if x == ox + col && y == oy + row {
        } else if in_box(size, ox + col, oy + row) {
            if pos_of(size, x, y) == pos_of(size, ox + col, oy + row) {
                lemma_pos_injective(size, x, y, ox + col, oy + row);
            }
        }
    }
}

/// Renders a glyph run into a bitmap sized by `measure_size`.
///
/// Each record's glyph bitmap is decoded and drawn with its top-left corner at
/// the pen position plus the bitmap's left bearing, and with its top row at
/// the baseline-relative height given by its top bearing; pixels outside the
/// buffer are clipped. The pen then moves by the record's converted advances.
/// Fails with `UnsupportedPixelFormat` where any glyph bitmap is in a format
/// other than `Lcd` or `Bgra`.
pub fn render_string(
    shapes: &[Shape],
    metrics: &[GlyphMetrics],
    glyphs: &[GlyphBitmap],
    x_ppem: u16,
    spacing: LetterSpacing,
) -> (result: Result<StringBitmap, FontError>)
    requires
        shapes@.len() == metrics@.len(),
        shapes@.len() == glyphs@.len(),
        forall|i: int| 0 <= i < glyphs@.len() ==> glyph_wf(#[trigger] glyphs@[i]),
        area(measured(shapes@, metrics@, x_ppem, spacing)) <= isize::MAX,
    ensures
        result is Err <==> exists|i: int|
            0 <= i < glyphs@.len() && !is_supported(#[trigger] glyphs@[i].mode),
        result is Err ==> result == Err::<StringBitmap, FontError>(FontError::UnsupportedPixelFormat),
        result matches Ok(bm) ==> {
            let size = measured(shapes@, metrics@, x_ppem, spacing);
            &&& bm.wf()
            &&& bm.size == size
            &&& forall|x: int, y: int|
                in_box(size, x, y) ==> #[trigger] bm.pixel(x, y) == composed(
                    shapes@,
                    glyphs@,
                    x_ppem,
                    spacing,
                    size,
                    glyphs@.len() as int,
                    x,
                    y,
                )
        },
{
    let n = glyphs.len();
    let mut k: usize = 0;
    while k < n
        invariant
            n == glyphs@.len(),
            k <= n,
            forall|j: int| 0 <= j < k ==> is_supported(#[trigger] glyphs@[j].mode),
        decreases n - k,
    {
        match glyphs[k].mode {
            PixelMode::Other(_) => {
                return Err(FontError::UnsupportedPixelFormat);
            },
            _ => {},
        }
        k = k + 1;
    }
    let size = measure_size(shapes, metrics, x_ppem, spacing);
    let ghost sh = shapes@;
    let ghost gs = glyphs@;
    let mut result = StringBitmap::new(size);
    assert(shows(result, |x: int, y: int| composed(sh, gs, x_ppem, spacing, size, 0, x, y))) by {
        assert forall|x: int, y: int| in_box(result.size, x, y) implies #[trigger] result.pixel(x, y)
            == composed(sh, gs, x_ppem, spacing, size, 0, x, y) by {
            lemma_pos_in_area(size, x, y);
            assert(result.pixel_at(pos_of(size, x, y)) == (0u8, 0u8, 0u8, 0u8));
        }
    }
    let mut pen_x_now: i128 = 0;
    let mut pen_y_now: i128 = 0;
    let mut i: usize = 0;
    while i < n
        invariant
            n == glyphs@.len(),
            n == shapes@.len(),
            sh == shapes@,
            gs == glyphs@,
            i <= n,
            forall|j: int| 0 <= j < n ==> glyph_wf(#[trigger] glyphs@[j]),
            forall|j: int| 0 <= j < n ==> is_supported(#[trigger] glyphs@[j].mode),
            size == measured(shapes@, metrics@, x_ppem, spacing),
            result.wf(),
            result.size == size,
            pen_x_now == pen_x(shapes@, x_ppem, spacing, i as int),
            pen_y_now == pen_y(shapes@, x_ppem, spacing, i as int),
            shows(result, |x: int, y: int| composed(sh, gs, x_ppem, spacing, size, i as int, x, y)),
        decreases n - i,
    {
        proof {
            lemma_pen_bound(shapes@, x_ppem, spacing, i as int);
            lemma_pen_bound(shapes@, x_ppem, spacing, i + 1);
        }
        let g = &glyphs[i];
        let ox: i128 = pen_x_now + g.left as i128;
        let oy: i128 = pen_y_now + (size.height as i128 - (g.top as i128 + size.y_min as i128));
        let per_row: u32 = match g.mode {
            PixelMode::Lcd => g.width / 3,
            PixelMode::Bgra => g.width,
            PixelMode::Other(_) => 0,
        };
        assert(-0x100_0000_0000_0000_0000_0000_0000_0000 <= ox <= 0x100_0000_0000_0000_0000_0000_0000_0000);
        assert(-0x100_0000_0000_0000_0000_0000_0000_0000 <= oy <= 0x100_0000_0000_0000_0000_0000_0000_0000);
        let ghost base = |x: int, y: int| composed(sh, gs, x_ppem, spacing, size, i as int, x, y);
        assert(shows(result, |x: int, y: int| painted(*g, ox as int, oy as int, 0, 0, base, x, y)));
        let mut row: u32 = 0;
        while row < g.rows
            invariant
                glyph_wf(*g),
                per_row == pixels_per_row(*g),
                row <= g.rows,
                -0x100_0000_0000_0000_0000_0000_0000_0000 <= ox <= 0x100_0000_0000_0000_0000_0000_0000_0000,
                -0x100_0000_0000_0000_0000_0000_0000_0000 <= oy <= 0x100_0000_0000_0000_0000_0000_0000_0000,
                result.wf(),
                result.size == size,
                shows(result, |x: int, y: int| painted(*g, ox as int, oy as int, row as int, 0, base, x, y)),
            decreases g.rows - row,
        {
            let mut col: u32 = 0;
            while col < per_row
                invariant
                    glyph_wf(*g),
                    per_row == pixels_per_row(*g),
                    row < g.rows,
                    col <= per_row,
                    -0x100_0000_0000_0000_0000_0000_0000_0000 <= ox <= 0x100_0000_0000_0000_0000_0000_0000_0000,
                    -0x100_0000_0000_0000_0000_0000_0000_0000 <= oy <= 0x100_0000_0000_0000_0000_0000_0000_0000,
                    result.wf(),
                    result.size == size,
                    shows(
                        result,
                        |x: int, y: int| painted(*g, ox as int, oy as int, row as int, col as int, base, x, y),
                    ),
                decreases per_row - col,
            {
                let dx: i128 = ox + col as i128;
                let dy: i128 = oy + row as i128;
                let ghost before = result;
                if 0 <= dx && dx < size.width as i128 && 0 <= dy && dy < size.height as i128 {
                    proof {
                        assert(size.width <= area(size)) by (nonlinear_arith)
                            requires
                                1 <= size.height,
                        ;
                        assert(size.height <= area(size)) by (nonlinear_arith)
                            requires
                                1 <= size.width,
                        ;
                    }
                    let rgba = g.decode_pixel(col, row);
                    result.set_rgba(dx as i64, dy as i64, rgba);
                }
                proof {
                    lemma_write_step(before, result, *g, ox as int, oy as int, row as int, col as int, base);
                }
                col = col + 1;
            }
            assert(shows(result, |x: int, y: int| painted(*g, ox as int, oy as int, row + 1, 0, base, x, y))) by {
                assert forall|x: int, y: int| in_box(result.size, x, y) implies #[trigger] result.pixel(x, y)
                    == painted(*g, ox as int, oy as int, row + 1, 0, base, x, y) by {
                    assert(result.pixel(x, y) == painted(*g, ox as int, oy as int, row as int, per_row as int, base, x, y));
                }
            }
            row = row + 1;
        }
        assert(shows(result, |x: int, y: int| composed(sh, gs, x_ppem, spacing, size, i + 1, x, y))) by {
            assert forall|x: int, y: int| in_box(result.size, x, y) implies #[trigger] result.pixel(x, y)
                == composed(sh, gs, x_ppem, spacing, size, i + 1, x, y) by {
                assert(result.pixel(x, y) == painted(*g, ox as int, oy as int, g.rows as int, 0, base, x, y));
            }
        }
        let s = shapes[i];
        pen_x_now = pen_x_now + device_advance(s.x_advance, x_ppem, spacing, s.scale) as i128;
        pen_y_now = pen_y_now + device_advance(s.y_advance, x_ppem, spacing, s.scale) as i128;
        i = i + 1;
    }
    Ok(result)
}

} // verus!

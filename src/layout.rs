use vstd::prelude::*;
use vstd::arithmetic::div_mod::{
    lemma_div_is_ordered_by_denominator, lemma_div_pos_is_pos, lemma_fundamental_div_mod,
};
use crate::bitmap::StringBitmapSize;
use crate::glyph::GlyphMetrics;
use crate::shape::Shape;

verus! {

/// Multiplier `num / den` applied to every converted advance: larger values
/// spread the glyphs further apart. A zero denominator yields zero advances.
#[derive(Clone, Copy, Debug, PartialEq, Eq, Structural)]
pub struct LetterSpacing {
    pub num: u8,
    pub den: u8,
}

impl LetterSpacing {
    /// The calibrated spacing, `5 / 6` (advances divided by 1.2).
    pub fn standard() -> (s: LetterSpacing)
        ensures
            s.num == 5 && s.den == 6,
    {
        LetterSpacing { num: 5, den: 6 }
    }
}

/// Largest magnitude of one converted advance.
pub open spec fn advance_bound() -> int {
    0x80_0000_0000_0000
}

/// Division of `n` by a positive `d`, rounded toward zero.
pub open spec fn trunc_div(n: int, d: int) -> int {
    if n >= 0 {
        n / d
    } else {
        -((-n) / d)
    }
}

/// A length `v` in shaping units (units-per-em `upem`) converted to whole
/// device pixels at `x_ppem` pixels per em, scaled by the letter spacing and
/// rounded toward zero.
pub open spec fn device_units(v: int, x_ppem: int, spacing: LetterSpacing, upem: int) -> int {
    let d = upem * spacing.den;
    if d == 0 {
        0
    } else {
        trunc_div(v * x_ppem * spacing.num, d)
    }
}

/// Horizontal pen advance of one glyph record, in pixels.
pub open spec fn advance_x(s: Shape, x_ppem: u16, spacing: LetterSpacing) -> int {
    device_units(s.x_advance as int, x_ppem as int, spacing, s.scale as int)
}

/// Vertical pen advance of one glyph record, in pixels.
pub open spec fn advance_y(s: Shape, x_ppem: u16, spacing: LetterSpacing) -> int {
    device_units(s.y_advance as int, x_ppem as int, spacing, s.scale as int)
}

/// Horizontal pen position before glyph `i`: the sum of the advances before it.
pub open spec fn pen_x(shapes: Seq<Shape>, x_ppem: u16, spacing: LetterSpacing, i: int) -> int
    decreases i,
{
    if i <= 0 {
        0
    } else {
        pen_x(shapes, x_ppem, spacing, i - 1) + advance_x(shapes[i - 1], x_ppem, spacing)
    }
}

/// Vertical pen position before glyph `i`.
pub open spec fn pen_y(shapes: Seq<Shape>, x_ppem: u16, spacing: LetterSpacing, i: int) -> int
    decreases i,
{
    if i <= 0 {
        0
    } else {
        pen_y(shapes, x_ppem, spacing, i - 1) + advance_y(shapes[i - 1], x_ppem, spacing)
    }
}

/// Deepest reach below the baseline of the first `i` glyphs (26.6), at least 0.
pub open spec fn depth_below(metrics: Seq<GlyphMetrics>, i: int) -> int
    decreases i,
{
    if i <= 0 {
        0
    } else {
        let m = metrics[i - 1];
        let prev = depth_below(metrics, i - 1);
        let d = m.height - m.hori_bearing_y;
        if d > prev {
            d
        } else {
            prev
        }
    }
}

/// Highest reach above the baseline of the first `i` glyphs (26.6), at least 0.
pub open spec fn rise_above(metrics: Seq<GlyphMetrics>, i: int) -> int
    decreases i,
{
    if i <= 0 {
        0
    } else {
        let m = metrics[i - 1];
        let prev = rise_above(metrics, i - 1);
        if m.hori_bearing_y > prev {
            m.hori_bearing_y as int
        } else {
            prev
        }
    }
}

/// A pixel width clamped into `u64`: negative totals give 0.
pub open spec fn clamp_width(w: int) -> u64 {
    if w <= 0 {
        0
    } else if w > u64::MAX {
        u64::MAX
    } else {
        w as u64
    }
}

/// The bounding box of a glyph run: the width is the sum of the converted
/// advances; the height is the extent below plus above the baseline, in whole
/// pixels, plus one guard row.
pub open spec fn measured(
    shapes: Seq<Shape>,
    metrics: Seq<GlyphMetrics>,
    x_ppem: u16,
    spacing: LetterSpacing,
) -> StringBitmapSize {
    let below = depth_below(metrics, metrics.len() as int);
    let above = rise_above(metrics, metrics.len() as int);
    StringBitmapSize {
        width: clamp_width(pen_x(shapes, x_ppem, spacing, shapes.len() as int)),
        height: ((below + above) / 64 + 1) as u64,
        y_min: (below / 64) as u64,
        y_max: (above / 64) as u64,
    }
}

/// One converted length is at most `advance_bound()` in magnitude.
pub proof fn lemma_device_units_bound(v: int, x_ppem: int, spacing: LetterSpacing, upem: int)
    requires
        i32::MIN <= v <= i32::MAX,
        0 <= x_ppem <= u16::MAX,
        0 <= upem,
    ensures
        -advance_bound() <= device_units(v, x_ppem, spacing, upem) <= advance_bound(),
{
    let d = upem * spacing.den;
    if d != 0 {
        let n = v * x_ppem * spacing.num;
        let m = if n >= 0 { n } else { -n };
        assert(0 <= m <= 0x8000_0000 * 0xffff * 0xff) by (nonlinear_arith)
            requires
                m == if v * x_ppem * spacing.num >= 0 { v * x_ppem * spacing.num } else { -(v * x_ppem * spacing.num) },
                -0x8000_0000 <= v <= 0x7fff_ffff,
                0 <= x_ppem <= 0xffff,
                0 <= spacing.num <= 0xff,
        ;
        assert(d >= 1) by (nonlinear_arith)
            requires
                d == upem * spacing.den,
                d != 0,
                0 <= upem,
                0 <= spacing.den,
        ;
        lemma_div_pos_is_pos(m, d);
        lemma_div_is_ordered_by_denominator(m, 1, d);
    }
}

/// The pen stays within `i * advance_bound()` of the origin.
pub proof fn lemma_pen_bound(shapes: Seq<Shape>, x_ppem: u16, spacing: LetterSpacing, i: int)
    requires
        0 <= i <= shapes.len(),
    ensures
        -i * advance_bound() <= pen_x(shapes, x_ppem, spacing, i) <= i * advance_bound(),
        -i * advance_bound() <= pen_y(shapes, x_ppem, spacing, i) <= i * advance_bound(),
    decreases i,
{
    if i > 0 {
        lemma_pen_bound(shapes, x_ppem, spacing, i - 1);
        let s = shapes[i - 1];
        lemma_device_units_bound(s.x_advance as int, x_ppem as int, spacing, s.scale as int);
        lemma_device_units_bound(s.y_advance as int, x_ppem as int, spacing, s.scale as int);
    }
}

proof fn lemma_extents_bound(metrics: Seq<GlyphMetrics>, i: int)
    requires
        0 <= i <= metrics.len(),
    ensures
        0 <= depth_below(metrics, i) <= 0x1_0000_0000_0000_0000,
        0 <= rise_above(metrics, i) <= i64::MAX,
    decreases i,
{
    if i > 0 {
        lemma_extents_bound(metrics, i - 1);
    }
}

/// Where `c * n1 / d1 <= n2 / d2`, a non-negative length converted with
/// spacing `n2 / d2` is at least `c` times the one converted with `n1 / d1`.
proof fn lemma_device_units_scale(v: int, x_ppem: int, s1: LetterSpacing, s2: LetterSpacing, upem: int, c: int)
    requires
        0 <= v,
        0 <= x_ppem,
        0 <= upem,
        0 <= c,
        s1.den > 0,
        s2.den > 0,
        c * s1.num * s2.den <= s2.num * s1.den,
    ensures
        device_units(v, x_ppem, s2, upem) >= c * device_units(v, x_ppem, s1, upem),
        device_units(v, x_ppem, s1, upem) >= 0,
{
    if upem > 0 {
        let vp = v * x_ppem;
        let a1 = vp * s1.num;
        let a2 = vp * s2.num;
        let b1 = upem * s1.den;
        let b2 = upem * s2.den;
        assert(vp >= 0 && a1 >= 0 && a2 >= 0) by (nonlinear_arith)
            requires
                vp == v * x_ppem,
                a1 == vp * s1.num,
                a2 == vp * s2.num,
                0 <= v,
                0 <= x_ppem,
                0 <= s1.num,
                0 <= s2.num,
        ;
        assert(b1 > 0 && b2 > 0) by (nonlinear_arith)
            requires
                b1 == upem * s1.den,
                b2 == upem * s2.den,
                upem > 0,
                s1.den > 0,
                s2.den > 0,
        ;
        assert(v * x_ppem * s1.num == a1);
        assert(v * x_ppem * s2.num == a2);
        let q1 = a1 / b1;
        let q2 = a2 / b2;
        lemma_div_pos_is_pos(a1, b1);
        lemma_fundamental_div_mod(a1, b1);
        lemma_fundamental_div_mod(a2, b2);
        assert(c * a1 * b2 <= a2 * b1) by (nonlinear_arith)
            requires
                a1 == vp * s1.num,
                a2 == vp * s2.num,
                b1 == upem * s1.den,
                b2 == upem * s2.den,
                vp >= 0,
                upem > 0,
                c * s1.num * s2.den <= s2.num * s1.den,
        ;
        assert(c * q1 * b2 <= a2) by (nonlinear_arith)
            requires
                q1 * b1 <= a1,
                c * a1 * b2 <= a2 * b1,
                b1 > 0,
                b2 > 0,
                c >= 0,
        ;
        assert(c * q1 <= q2) by (nonlinear_arith)
            requires
                c * q1 * b2 <= a2,
                a2 == b2 * q2 + a2 % b2,
                0 <= a2 % b2 < b2,
                b2 > 0,
        ;
    }
}

/// Where no record advances leftwards, widening the letter spacing by a
/// factor of at least `c` moves the pen at least `c` times as far.
pub proof fn lemma_spacing_scales_pen(
    shapes: Seq<Shape>,
    x_ppem: u16,
    s1: LetterSpacing,
    s2: LetterSpacing,
    c: nat,
    i: int,
)
    requires
        0 <= i <= shapes.len(),
        forall|j: int| 0 <= j < shapes.len() ==> #[trigger] shapes[j].x_advance >= 0,
        s1.den > 0,
        s2.den > 0,
        c * s1.num * s2.den <= s2.num * s1.den,
    ensures
        pen_x(shapes, x_ppem, s2, i) >= c * pen_x(shapes, x_ppem, s1, i),
        pen_x(shapes, x_ppem, s1, i) >= 0,
    decreases i,
{
    if i > 0 {
        lemma_spacing_scales_pen(shapes, x_ppem, s1, s2, c, i - 1);
        let s = shapes[i - 1];
        lemma_device_units_scale(s.x_advance as int, x_ppem as int, s1, s2, s.scale as int, c as int);
        let p1 = pen_x(shapes, x_ppem, s1, i - 1);
        let a1 = advance_x(s, x_ppem, s1);
        assert(c * (p1 + a1) == c * p1 + c * a1) by (nonlinear_arith);
    }
}

/// Where no record advances leftwards, doubling the letter spacing (or more)
/// gives a strictly wider box, as long as the box at the smaller spacing has a
/// width that is positive and not clamped.
pub proof fn lemma_wider_spacing_wider_box(
    shapes: Seq<Shape>,
    metrics: Seq<GlyphMetrics>,
    x_ppem: u16,
    s1: LetterSpacing,
    s2: LetterSpacing,
)
    requires
        forall|j: int| 0 <= j < shapes.len() ==> #[trigger] shapes[j].x_advance >= 0,
        s1.den > 0,
        s2.den > 0,
        2 * s1.num * s2.den <= s2.num * s1.den,
        0 < measured(shapes, metrics, x_ppem, s1).width < u64::MAX,
    ensures
        measured(shapes, metrics, x_ppem, s2).width > measured(shapes, metrics, x_ppem, s1).width,
        measured(shapes, metrics, x_ppem, s2).height == measured(shapes, metrics, x_ppem, s1).height,
{
    lemma_spacing_scales_pen(shapes, x_ppem, s1, s2, 2, shapes.len() as int);
}

/// An empty run measures zero pixels wide and one guard row high.
pub proof fn lemma_empty_run(x_ppem: u16, spacing: LetterSpacing)
    ensures
        measured(Seq::<Shape>::empty(), Seq::<GlyphMetrics>::empty(), x_ppem, spacing) == (
        StringBitmapSize { width: 0, height: 1, y_min: 0, y_max: 0 }),
{
}

/// Converts a length in shaping units to whole pixels: `device_units`.
pub fn device_advance(v: i32, x_ppem: u16, spacing: LetterSpacing, upem: u32) -> (r: i64)
    ensures
        r == device_units(v as int, x_ppem as int, spacing, upem as int),
{
    proof {
        lemma_device_units_bound(v as int, x_ppem as int, spacing, upem as int);
        let (u, e) = (upem as int, spacing.den as int);
        assert(0 <= u * e <= 0xffff_ffff * 0xff) by (nonlinear_arith)
            requires
                0 <= u <= 0xffff_ffff,
                0 <= e <= 0xff,
        ;
        let (a, b, c) = (v as int, x_ppem as int, spacing.num as int);
        assert(-0x8000_0000 * 0xffff <= a * b <= 0x8000_0000 * 0xffff) by (nonlinear_arith)
            requires
                -0x8000_0000 <= a <= 0x7fff_ffff,
                0 <= b <= 0xffff,
        ;
        assert(-0x8000_0000 * 0xffff * 0xff <= a * b * c <= 0x8000_0000 * 0xffff * 0xff)
            by (nonlinear_arith)
            requires
                -0x8000_0000 <= a <= 0x7fff_ffff,
                0 <= b <= 0xffff,
                0 <= c <= 0xff,
        ;
    }
    let d: i64 = upem as i64 * spacing.den as i64;
    if d == 0 {
        return 0;
    }
    let n: i64 = v as i64 * x_ppem as i64 * spacing.num as i64;
    if n >= 0 {
        n / d
    } else {
        -((-n) / d)
    }
}

/// Measures the bounding box of a glyph run, given each record's outline
/// metrics at the current size.
pub fn measure_size(
    shapes: &[Shape],
    metrics: &[GlyphMetrics],
    x_ppem: u16,
    spacing: LetterSpacing,
) -> (size: StringBitmapSize)
    requires
        shapes@.len() == metrics@.len(),
    ensures
        size == measured(shapes@, metrics@, x_ppem, spacing),
{
    let mut below: i128 = 0;
    let mut above: i128 = 0;
    let mut pen: i128 = 0;
    let mut i: usize = 0;
    while i < shapes.len()
        invariant
            shapes@.len() == metrics@.len(),
            i <= shapes@.len(),
            pen == pen_x(shapes@, x_ppem, spacing, i as int),
            below == depth_below(metrics@, i as int),
            above == rise_above(metrics@, i as int),
        decreases shapes@.len() - i,
    {
        proof {
            lemma_extents_bound(metrics@, i as int);
            lemma_pen_bound(shapes@, x_ppem, spacing, i as int);
            lemma_pen_bound(shapes@, x_ppem, spacing, i + 1);
        }
        let m = metrics[i];
        let d: i128 = m.height as i128 - m.hori_bearing_y as i128;
        if d > below {
            below = d;
        }
        if m.hori_bearing_y as i128 > above {
            above = m.hori_bearing_y as i128;
        }
        let s = shapes[i];
        let adv = device_advance(s.x_advance, x_ppem, spacing, s.scale);
        pen = pen + adv as i128;
        i = i + 1;
    }
    proof {
        lemma_extents_bound(metrics@, i as int);
    }
    let width: u64 = if pen <= 0 {
        0
    } else if pen > u64::MAX as i128 {
        u64::MAX
    } else {
        pen as u64
    };
    StringBitmapSize {
        width,
        height: ((below + above) / 64 + 1) as u64,
        y_min: (below / 64) as u64,
        y_max: (above / 64) as u64,
    }
}

} // verus!

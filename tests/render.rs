use freetyper::bitmap::{StringBitmap, StringBitmapSize};
use freetyper::compose::render_string;
use freetyper::error::FontError;
use freetyper::glyph::{unpremultiply, GlyphBitmap, GlyphMetrics, PixelMode};
use freetyper::layout::{device_advance, measure_size, LetterSpacing};
use freetyper::shape::{shapes_from_glyphs, GlyphPosition, Shape};
use freetyper::size::SizeConfig;

fn shape(glyph_id: u32, x_advance: i32) -> Shape {
    Shape { glyph_id, x_offset: 0, y_offset: 0, x_advance, y_advance: 0, scale: 1000 }
}

/// A 2x2 LCD glyph of full coverage, one pixel right of the pen, two rows tall above the baseline.
fn lcd_block() -> GlyphBitmap {
    GlyphBitmap::new(6, 2, 6, PixelMode::Lcd, 1, 2, vec![255u8; 12]).unwrap()
}

fn block_metrics() -> GlyphMetrics {
    GlyphMetrics { height: 128, hori_bearing_y: 128 }
}

fn one_to_one() -> LetterSpacing {
    LetterSpacing { num: 1, den: 1 }
}

/// Lengths of the runs of non-transparent pixels in row `y`, with their start columns.
fn ink_runs(bm: &StringBitmap, y: i64) -> Vec<(i64, i64)> {
    let mut runs = Vec::new();
    let mut x = 0i64;
    while x < bm.size.width as i64 {
        if bm.get_rgba(x, y).3 != 0 {
            let start = x;
            while x < bm.size.width as i64 && bm.get_rgba(x, y).3 != 0 {
                x += 1;
            }
            runs.push((start, x - start));
        } else {
            x += 1;
        }
    }
    runs
}

#[test]
fn unpremultiply_half_alpha() {
    let b = unpremultiply(64, 128);
    assert!((127..=129).contains(&b));
    assert_eq!(b, 127);
}

#[test]
fn unpremultiply_zero_alpha_is_zero() {
    assert_eq!(unpremultiply(64, 0), 0);
    assert_eq!(unpremultiply(0, 0), 0);
}

#[test]
fn unpremultiply_exact_values() {
    assert_eq!(unpremultiply(255, 255), 255);
    assert_eq!(unpremultiply(100, 200), 127);
    assert_eq!(unpremultiply(200, 100), 255);
}

#[test]
fn decode_bgra_pixel() {
    let g = GlyphBitmap::new(1, 1, 4, PixelMode::Bgra, 0, 0, vec![64, 32, 16, 128]).unwrap();
    assert_eq!(g.decode_pixel(0, 0), (31, 63, 127, 128));
    let clear = GlyphBitmap::new(1, 1, 4, PixelMode::Bgra, 0, 0, vec![64, 32, 16, 0]).unwrap();
    assert_eq!(clear.decode_pixel(0, 0), (0, 0, 0, 0));
}

#[test]
fn decode_lcd_pixel() {
    let g = GlyphBitmap::new(6, 1, 8, PixelMode::Lcd, 0, 0, vec![1, 2, 3, 10, 20, 30, 0, 0]).unwrap();
    assert_eq!(g.decode_pixel(0, 0), (1, 2, 3, 255));
    assert_eq!(g.decode_pixel(1, 0), (10, 20, 30, 255));
}

#[test]
fn glyph_bitmap_rejects_malformed() {
    assert!(GlyphBitmap::new(6, 2, -6, PixelMode::Lcd, 0, 0, vec![0u8; 12]).is_none());
    assert!(GlyphBitmap::new(6, 2, 6, PixelMode::Lcd, 0, 0, vec![0u8; 11]).is_none());
    assert!(GlyphBitmap::new(2, 1, 7, PixelMode::Bgra, 0, 0, vec![0u8; 7]).is_none());
    assert!(GlyphBitmap::new(2, 1, 8, PixelMode::Bgra, 0, 0, vec![0u8; 8]).is_some());
    assert!(GlyphBitmap::new(9, 3, 0, PixelMode::Other(2), 0, 0, Vec::new()).is_some());
}

#[test]
fn device_advance_values() {
    assert_eq!(device_advance(1000, 20, LetterSpacing::standard(), 2048), 8);
    assert_eq!(device_advance(-1000, 20, LetterSpacing::standard(), 2048), -8);
    assert_eq!(device_advance(1000, 20, one_to_one(), 1000), 20);
    assert_eq!(device_advance(1000, 20, LetterSpacing { num: 2, den: 1 }, 1000), 40);
    assert_eq!(device_advance(1000, 20, one_to_one(), 0), 0);
    assert_eq!(device_advance(1000, 20, LetterSpacing { num: 1, den: 0 }, 1000), 0);
    assert_eq!(device_advance(1000, 0, one_to_one(), 1000), 0);
}

#[test]
fn measure_two_glyphs() {
    let shapes = vec![shape(1, 1000), shape(2, 1000)];
    let metrics = vec![
        GlyphMetrics { height: 640, hori_bearing_y: 640 },
        GlyphMetrics { height: 896, hori_bearing_y: 640 },
    ];
    let size = measure_size(&shapes, &metrics, 20, one_to_one());
    assert_eq!(size, StringBitmapSize { width: 40, height: 15, y_min: 4, y_max: 10 });
}

#[test]
fn measure_clamps_negative_width() {
    let shapes = vec![shape(1, -1000)];
    let metrics = vec![block_metrics()];
    assert_eq!(measure_size(&shapes, &metrics, 20, one_to_one()).width, 0);
}

#[test]
fn empty_run_measures_and_renders_nothing() {
    let size = measure_size(&[], &[], 20, LetterSpacing::standard());
    assert_eq!(size, StringBitmapSize { width: 0, height: 1, y_min: 0, y_max: 0 });
    let bm = render_string(&[], &[], &[], 20, LetterSpacing::standard()).unwrap();
    assert_eq!(bm.size, size);
    assert!(bm.r.is_empty() && bm.g.is_empty() && bm.b.is_empty() && bm.a.is_empty());
}

#[test]
fn measure_twice_is_identical() {
    let mut config = SizeConfig::new();
    config.set_dpi(300, 300);
    config.set_char_size(20 * 64);
    let first = config.char_size_request();
    config.set_dpi(300, 300);
    config.set_char_size(20 * 64);
    assert_eq!(config.char_size_request(), first);
    let shapes = vec![shape(7, 600), shape(8, 550)];
    let metrics = vec![block_metrics(), GlyphMetrics { height: 300, hori_bearing_y: 200 }];
    let a = measure_size(&shapes, &metrics, 83, LetterSpacing::standard());
    let b = measure_size(&shapes, &metrics, 83, LetterSpacing::standard());
    assert_eq!(a, b);
}

#[test]
fn cloned_configs_keep_their_own_size() {
    let shared = SizeConfig::new();
    let mut first = shared;
    let mut second = shared;
    first.set_char_size(12 * 64);
    second.set_dpi(300, 150);
    second.set_char_size(30 * 64);
    let r1 = first.char_size_request();
    let r2 = second.char_size_request();
    assert_eq!((r1.char_width, r1.char_height, r1.hdpi, r1.vdpi), (768, 768, 72, 72));
    assert_eq!((r2.char_width, r2.char_height, r2.hdpi, r2.vdpi), (1920, 1920, 300, 150));
    first.set_dpi(300, 150);
    first.set_char_size(30 * 64);
    assert_eq!(first.char_size_request(), r2);
}

#[test]
fn default_size_config() {
    let c = SizeConfig::new();
    assert_eq!((c.hdpi, c.vdpi, c.char_size), (72, 72, 1280));
}

#[test]
fn pairs_glyph_ids_with_positions() {
    let positions = vec![
        GlyphPosition { x_advance: 500, y_advance: 0, x_offset: 3, y_offset: -2 },
        GlyphPosition { x_advance: 620, y_advance: 5, x_offset: 0, y_offset: 0 },
    ];
    let shapes = shapes_from_glyphs(&[43, 76], &positions, 2048);
    assert_eq!(
        shapes,
        vec![
            Shape { glyph_id: 43, x_offset: 3, y_offset: -2, x_advance: 500, y_advance: 0, scale: 2048 },
            Shape { glyph_id: 76, x_offset: 0, y_offset: 0, x_advance: 620, y_advance: 5, scale: 2048 },
        ]
    );
}

#[test]
fn bitmap_set_and_get() {
    let size = StringBitmapSize { width: 3, height: 2, y_min: 0, y_max: 0 };
    let mut bm = StringBitmap::new(size);
    assert_eq!(bm.r.len(), 6);
    assert_eq!(bm.get_rgba(2, 1), (0, 0, 0, 0));
    bm.set_rgba(2, 1, (1, 2, 3, 4));
    assert_eq!(bm.get_pos(2, 1), 5);
    assert_eq!(bm.get_rgba(2, 1), (1, 2, 3, 4));
    assert_eq!(bm.get_rgba(1, 1), (0, 0, 0, 0));
    assert_eq!((bm.r[5], bm.g[5], bm.b[5], bm.a[5]), (1, 2, 3, 4));
}

#[test]
fn render_places_glyphs_at_pen_and_bearing() {
    let shapes = vec![shape(1, 1000), shape(2, 1000)];
    let metrics = vec![block_metrics(), block_metrics()];
    let glyphs = vec![lcd_block(), lcd_block()];
    let bm = render_string(&shapes, &metrics, &glyphs, 4, one_to_one()).unwrap();
    assert_eq!(bm.size, StringBitmapSize { width: 8, height: 3, y_min: 0, y_max: 2 });
    assert_eq!(ink_runs(&bm, 0), vec![]);
    assert_eq!(ink_runs(&bm, 1), vec![(1, 2), (5, 2)]);
    assert_eq!(ink_runs(&bm, 2), vec![(1, 2), (5, 2)]);
    assert_eq!(bm.get_rgba(1, 1), (255, 255, 255, 255));
}

#[test]
fn render_hi_scenario() {
    // "H" and "i" as two LCD glyphs with a positive left bearing.
    let h = GlyphBitmap::new(9, 3, 9, PixelMode::Lcd, 1, 3, vec![
        255, 0, 0, 0, 0, 0, 255, 0, 0,
        255, 255, 255, 255, 255, 255, 255, 255, 255,
        255, 0, 0, 0, 0, 0, 255, 0, 0,
    ]).unwrap();
    let i = GlyphBitmap::new(3, 3, 3, PixelMode::Lcd, 1, 3, vec![80, 80, 80, 0, 0, 0, 200, 200, 200]).unwrap();
    let shapes = vec![shape(43, 1000), shape(76, 500)];
    let metrics = vec![
        GlyphMetrics { height: 192, hori_bearing_y: 192 },
        GlyphMetrics { height: 192, hori_bearing_y: 192 },
    ];
    let bm = render_string(&shapes, &metrics, &[h, i], 5, one_to_one()).unwrap();
    assert!(bm.size.width > 0 && bm.size.height > 0);
    assert_eq!(bm.size, StringBitmapSize { width: 7, height: 4, y_min: 0, y_max: 3 });
    assert_eq!(bm.get_rgba(0, 0), (0, 0, 0, 0));
    assert!(bm.a.iter().any(|&a| a == 255));
    assert_eq!(bm.get_rgba(1, 1), (255, 0, 0, 255));
    assert_eq!(bm.get_rgba(6, 1), (80, 80, 80, 255));
    assert_eq!(bm.get_rgba(6, 3), (200, 200, 200, 255));
}

#[test]
fn wider_spacing_shifts_second_glyph_only() {
    let shapes = vec![shape(36, 1000), shape(37, 1000)];
    let metrics = vec![block_metrics(), block_metrics()];
    let glyphs = vec![lcd_block(), lcd_block()];
    let narrow = render_string(&shapes, &metrics, &glyphs, 4, one_to_one()).unwrap();
    let wide = render_string(&shapes, &metrics, &glyphs, 4, LetterSpacing { num: 2, den: 1 }).unwrap();
    assert!(wide.size.width > narrow.size.width);
    assert_eq!(wide.size.height, narrow.size.height);
    for y in 0..narrow.size.height as i64 {
        let a = ink_runs(&narrow, y);
        let b = ink_runs(&wide, y);
        assert_eq!(a.len(), b.len());
        for (k, (ra, rb)) in a.iter().zip(b.iter()).enumerate() {
            assert_eq!(ra.1, rb.1);
            if k == 0 {
                assert_eq!(ra.0, rb.0);
            }
        }
    }
    assert_eq!(ink_runs(&wide, 1), vec![(1, 2), (9, 2)]);
}

#[test]
fn render_bgra_unpremultiplies() {
    let g = GlyphBitmap::new(1, 1, 4, PixelMode::Bgra, 0, 1, vec![64, 32, 16, 128]).unwrap();
    let bm = render_string(&[shape(5, 1000)], &[GlyphMetrics { height: 64, hori_bearing_y: 64 }], &[g], 1, one_to_one())
        .unwrap();
    assert_eq!(bm.size, StringBitmapSize { width: 1, height: 2, y_min: 0, y_max: 1 });
    assert_eq!(bm.get_rgba(0, 1), (31, 63, 127, 128));
    assert_eq!(bm.get_rgba(0, 0), (0, 0, 0, 0));
}

#[test]
fn render_clips_pixels_outside_the_box() {
    let g = GlyphBitmap::new(9, 2, 9, PixelMode::Lcd, -1, 2, vec![9u8; 18]).unwrap();
    let bm = render_string(&[shape(3, 1000)], &[block_metrics()], &[g], 2, one_to_one()).unwrap();
    assert_eq!(bm.size, StringBitmapSize { width: 2, height: 3, y_min: 0, y_max: 2 });
    assert_eq!(ink_runs(&bm, 1), vec![(0, 2)]);
    assert_eq!(bm.get_rgba(0, 2), (9, 9, 9, 255));
}

#[test]
fn render_rejects_unsupported_format() {
    let gray = GlyphBitmap::new(2, 2, 2, PixelMode::Other(2), 0, 2, vec![255u8; 4]).unwrap();
    let r = render_string(&[shape(1, 1000), shape(2, 1000)], &[block_metrics(), block_metrics()], &[lcd_block(), gray], 4, one_to_one());
    assert!(matches!(r, Err(FontError::UnsupportedPixelFormat)));
}

//! Text rendering: font slots, the glyph cache, layout and clipping.

use linht_gui::Color;
use linht_gui::DeviceInfo;
use linht_gui::FontId;
use linht_gui::Framebuffer;
use linht_gui::FramebufferError;
use linht_gui::Glyph;
use linht_gui::Point;
use linht_gui::DISPLAY_HEIGHT;
use linht_gui::DISPLAY_WIDTH;

fn fresh() -> Framebuffer {
    Framebuffer::new_offscreen(DeviceInfo::fallback()).expect("offscreen surface")
}

/// A solid block glyph: full coverage everywhere.
fn block_glyph(width: usize, height: usize, advance_centis: u32) -> Glyph {
    Glyph {
        width,
        height,
        xmin: 0,
        ymin: 0,
        advance_centis,
        bitmap: vec![255u8; width * height],
    }
}

fn snapshot(fb: &Framebuffer) -> Vec<Color> {
    let mut pixels = Vec::new();
    for y in 0..DISPLAY_HEIGHT {
        for x in 0..DISPLAY_WIDTH {
            pixels.push(fb.get_pixel(x, y).unwrap());
        }
    }
    pixels
}

#[test]
fn write_text_without_font_fails_and_writes_nothing() {
    let mut fb = fresh();
    fb.clear_screen(Color::black()).unwrap();
    let r = fb.write_text("A", Point::new(10, 50), 1600, Color::green(), FontId::Regular);
    assert!(matches!(r, Err(FramebufferError::FontNotLoaded(FontId::Regular))));
    for p in snapshot(&fb) {
        assert_eq!(p, Color::black());
    }
}

#[test]
fn write_text_without_cached_glyph_fails_and_writes_nothing() {
    let mut fb = fresh();
    fb.clear_screen(Color::black()).unwrap();
    fb.register_font(FontId::Regular);
    let r = fb.write_text("A", Point::new(10, 50), 1600, Color::green(), FontId::Regular);
    assert!(matches!(r, Err(FramebufferError::GlyphNotCached('A'))));
    for p in snapshot(&fb) {
        assert_eq!(p, Color::black());
    }
}

#[test]
fn glyph_cache_misses_then_hits() {
    let mut fb = fresh();
    fb.register_font(FontId::Regular);
    let missing = fb.glyphs_to_load("ABA B", FontId::Regular, 1600);
    assert_eq!(missing, vec!['A', 'B']);
    assert!(fb.insert_glyph(FontId::Regular, 'A', 1600, block_glyph(3, 4, 350)));
    assert!(fb.insert_glyph(FontId::Regular, 'B', 1600, block_glyph(3, 4, 350)));
    assert!(fb.glyphs_to_load("ABA B", FontId::Regular, 1600).is_empty());
    assert!(fb.glyph_cached(FontId::Regular, 'A', 1600));
    assert!(!fb.glyph_cached(FontId::Regular, 'A', 1601));
    assert!(!fb.glyph_cached(FontId::Regular, 'C', 1600));
}

#[test]
fn insert_glyph_rejects_mismatched_bitmap() {
    let mut fb = fresh();
    let bad = Glyph { width: 3, height: 4, xmin: 0, ymin: 0, advance_centis: 350, bitmap: vec![255u8; 5] };
    assert!(!fb.insert_glyph(FontId::Regular, 'A', 1600, bad));
    assert!(!fb.glyph_cached(FontId::Regular, 'A', 1600));
}

#[test]
fn rendering_one_glyph_paints_a_cluster_and_nothing_else() {
    let mut fb = fresh();
    fb.register_font(FontId::Regular);
    assert!(fb.insert_glyph(FontId::Regular, 'A', 1600, block_glyph(3, 4, 350)));
    fb.clear_screen(Color::black()).unwrap();
    fb.write_text("A", Point::new(10, 50), 1600, Color::green(), FontId::Regular).unwrap();
    // ascent = height + ymin = 4, so the block sits at x in 10..13, y in 46..50
    for y in 0..DISPLAY_HEIGHT {
        for x in 0..DISPLAY_WIDTH {
            let got = fb.get_pixel(x, y).unwrap();
            if (10..13).contains(&x) && (46..50).contains(&y) {
                assert_eq!(got, Color::green(), "expected green at ({}, {})", x, y);
            } else {
                assert_eq!(got, Color::black(), "expected black at ({}, {})", x, y);
            }
        }
    }
}

#[test]
fn rendering_twice_is_bit_identical_with_one_rasterization() {
    let mut fb = fresh();
    fb.register_font(FontId::Regular);
    assert_eq!(fb.glyphs_to_load("G", FontId::Regular, 1600), vec!['G']);
    assert!(fb.insert_glyph(FontId::Regular, 'G', 1600, block_glyph(2, 5, 300)));
    fb.clear_screen(Color::black()).unwrap();
    fb.write_text("G", Point::new(40, 60), 1600, Color::white(), FontId::Regular).unwrap();
    let first = snapshot(&fb);
    // the second call finds everything cached: nothing to rasterize
    assert!(fb.glyphs_to_load("G", FontId::Regular, 1600).is_empty());
    fb.clear_screen(Color::black()).unwrap();
    fb.write_text("G", Point::new(40, 60), 1600, Color::white(), FontId::Regular).unwrap();
    let second = snapshot(&fb);
    assert_eq!(first, second);
}

#[test]
fn spaces_only_write_nothing_and_advance_the_cursor() {
    let mut fb = fresh();
    fb.register_font(FontId::Regular);
    assert!(fb.insert_glyph(FontId::Regular, 'A', 1600, block_glyph(3, 4, 350)));
    fb.clear_screen(Color::black()).unwrap();
    fb.write_text("  ", Point::new(10, 50), 1600, Color::green(), FontId::Regular).unwrap();
    for p in snapshot(&fb) {
        assert_eq!(p, Color::black());
    }
    // a space advances by size * 0.3 = 4.8 px: " A" at x=10 lands where "A"
    // alone lands when started 4.8 px further right (both round to x=15)
    fb.clear_screen(Color::black()).unwrap();
    fb.write_text(" A", Point::new(10, 50), 1600, Color::green(), FontId::Regular).unwrap();
    let with_space = snapshot(&fb);
    fb.clear_screen(Color::black()).unwrap();
    fb.write_text("A", Point::new(15, 50), 1600, Color::green(), FontId::Regular).unwrap();
    let shifted = snapshot(&fb);
    assert_eq!(with_space, shifted);
    assert_eq!(fb.get_pixel(15, 47).unwrap(), Color::green());
    assert_eq!(fb.get_pixel(10, 47).unwrap(), Color::black());
}

#[test]
fn glyphs_clip_silently_at_the_edges() {
    let mut fb = fresh();
    fb.register_font(FontId::Regular);
    assert!(fb.insert_glyph(FontId::Regular, 'A', 1600, block_glyph(6, 6, 600)));
    fb.clear_screen(Color::black()).unwrap();
    // baseline near the top: part of the glyph falls above the screen
    fb.write_text("A", Point::new(157, 3), 1600, Color::white(), FontId::Regular).unwrap();
    for y in 0..DISPLAY_HEIGHT {
        for x in 0..DISPLAY_WIDTH {
            let got = fb.get_pixel(x, y).unwrap();
            if (157..160).contains(&x) && (0..3).contains(&y) {
                assert_eq!(got, Color::white());
            } else {
                assert_eq!(got, Color::black());
            }
        }
    }
}

#[test]
fn coverage_acts_as_alpha_when_blitting() {
    let mut fb = fresh();
    fb.register_font(FontId::Regular);
    let glyph = Glyph {
        width: 1,
        height: 1,
        xmin: 0,
        ymin: 0,
        advance_centis: 100,
        bitmap: vec![128u8],
    };
    assert!(fb.insert_glyph(FontId::Regular, 'x', 1600, glyph));
    fb.clear_screen(Color::black()).unwrap();
    fb.write_text("x", Point::new(20, 30), 1600, Color::new(255, 0, 0, 255), FontId::Regular)
        .unwrap();
    let got = fb.get_pixel(20, 29).unwrap();
    assert_eq!(got.r, (255u32 * 128 / 255) as u8);
    assert_eq!(got.g, 0);
    assert_eq!(got.b, 0);
    assert_eq!(got.a, 255);
}

//! Line breaking, measurement and glyph positioning.

use glyph_layout::font::{FontMetrics, GlyphMetric, VMetrics};
use glyph_layout::geom::Rect;
use glyph_layout::layout::{fits, positioned_glyphs, line_rects, text_height, text_size, Align};
use glyph_layout::wrap::{break_lines, measurable, LineSegment, Wrap};

/// A font where every mapped codepoint advances 10 units: ascent 16,
/// descent 4, line gap 2.
fn test_font() -> FontMetrics {
    let mut glyphs = Vec::new();
    let mut id = 1u32;
    for c in "abcdefghijklmnopqrstuvwxyzABCDEFGHIJKLMNOPQRSTUVWXYZ. \t".chars() {
        glyphs.push(GlyphMetric {
            ch: c,
            glyph: id,
            advance: 10,
            width: if c == ' ' || c == '\t' { 0 } else { 8 },
            height: if c == ' ' || c == '\t' { 0 } else { 12 },
        });
        id += 1;
    }
    FontMetrics::new(7, 20, VMetrics { ascent: 16, descent: 4, line_gap: 2 }, glyphs)
}

fn seg(start: usize, end: usize, width: u64) -> LineSegment {
    LineSegment { start, end, width }
}

#[test]
fn hello_world_wraps_at_exact_width() {
    // Bounds exactly as wide as "Hello": two lines, "Hello" and "world".
    let font = test_font();
    let segs = break_lines("Hello world", &font, Wrap::Whitespace, 50);
    assert_eq!(segs.len(), 2);
    assert_eq!(segs[0], seg(0, 5, 50));
    assert_eq!(segs[1], seg(6, 11, 50));
}

#[test]
fn empty_text_is_one_empty_line() {
    let font = test_font();
    for wrap in [Wrap::NoWrap, Wrap::Whitespace, Wrap::Character] {
        let segs = break_lines("", &font, wrap, 100);
        assert_eq!(segs.len(), 1);
        assert_eq!(segs[0], seg(0, 0, 0));
        assert_eq!(text_height("", &font, 22, wrap, 100), 22);
        let bounds = Rect::new(0, 0, 100, 100);
        let glyphs = positioned_glyphs("", bounds, &font, 22, wrap, Align::Start);
        assert_eq!(glyphs.len(), 0);
    }
}

#[test]
fn long_word_overflows_instead_of_clipping() {
    let font = test_font();
    let segs = break_lines("unbreakable", &font, Wrap::Whitespace, 50);
    assert_eq!(segs.len(), 1);
    assert_eq!(segs[0], seg(0, 11, 110));
    assert!(segs[0].width > 50);
}

#[test]
fn fits_depends_on_bounds_height() {
    let font = test_font();
    // line height 22; two words of width 50 each wrap into 2 lines at width 50.
    let tall = Rect::new(0, 0, 110, 30);
    assert!(fits("short text", &font, 22, Wrap::Whitespace, tall));
    let too_short = Rect::new(0, 0, 110, 21);
    assert!(!fits("short text", &font, 22, Wrap::Whitespace, too_short));
}

#[test]
fn character_wrap_height_is_monotone_in_width() {
    let font = test_font();
    let text = "the quick brown fox jumps over the lazy dog";
    let mut last = u64::MAX;
    for w in [0u64, 10, 25, 30, 55, 80, 120, 200, 440, 1000] {
        let h = text_height(text, &font, 22, Wrap::Character, w);
        assert!(h <= last, "height grew from {} to {} at width {}", last, h, w);
        last = h;
    }
}

#[test]
fn no_wrap_ignores_width() {
    let font = test_font();
    let text = "ab\ncd\nef";
    let h1 = text_height(text, &font, 22, Wrap::NoWrap, 1);
    let h2 = text_height(text, &font, 22, Wrap::NoWrap, 1000);
    assert_eq!(h1, 3 * 22);
    assert_eq!(h2, 3 * 22);
}

#[test]
fn segments_reassemble_to_original_text() {
    let font = test_font();
    let text = "the quick\nbrown fox jumps over the unbreakablelazydog yes";
    let chars: Vec<char> = text.chars().collect();
    for wrap in [Wrap::NoWrap, Wrap::Whitespace, Wrap::Character] {
        for w in [0u64, 10, 35, 50, 90, 1000] {
            let segs = break_lines(text, &font, wrap, w);
            let mut rebuilt = String::new();
            for (i, s) in segs.iter().enumerate() {
                rebuilt.extend(&chars[s.start..s.end]);
                if i + 1 < segs.len() && segs[i + 1].start == s.end + 1 {
                    rebuilt.push(chars[s.end]);
                }
            }
            assert_eq!(rebuilt, text, "wrap {:?} width {}", wrap, w);
        }
    }
}

#[test]
fn positioned_glyphs_is_idempotent() {
    let font = test_font();
    let bounds = Rect::new(30, 40, 100, 200);
    let a = positioned_glyphs("hello there world", bounds, &font, 22, Wrap::Character, Align::Center);
    let b = positioned_glyphs("hello there world", bounds, &font, 22, Wrap::Character, Align::Center);
    assert_eq!(a, b);
}

#[test]
fn character_wrap_prefers_last_whitespace() {
    let font = test_font();
    // "ab cd": at width 40 the fit reaches "ab c"; the break moves back to
    // the space, consuming it.
    let segs = break_lines("ab cd", &font, Wrap::Character, 40);
    assert_eq!(segs.len(), 2);
    assert_eq!(segs[0], seg(0, 2, 20));
    assert_eq!(segs[1], seg(3, 5, 20));
}

#[test]
fn character_wrap_splits_mid_word() {
    let font = test_font();
    let segs = break_lines("abcdef", &font, Wrap::Character, 30);
    assert_eq!(segs.len(), 2);
    assert_eq!(segs[0], seg(0, 3, 30));
    assert_eq!(segs[1], seg(3, 6, 30));
}

#[test]
fn newline_always_breaks() {
    let font = test_font();
    let segs = break_lines("ab\ncd", &font, Wrap::NoWrap, 1000);
    assert_eq!(segs.len(), 2);
    assert_eq!(segs[0], seg(0, 2, 20));
    assert_eq!(segs[1], seg(3, 5, 20));
    // A trailing newline yields a final empty line.
    let segs = break_lines("ab\n", &font, Wrap::Whitespace, 1000);
    assert_eq!(segs.len(), 2);
    assert_eq!(segs[1], seg(3, 3, 0));
}

#[test]
fn zero_width_degenerates_to_one_unit_per_line() {
    let font = test_font();
    let segs = break_lines("abc", &font, Wrap::Character, 0);
    assert_eq!(segs.len(), 3);
    let segs = break_lines("ab cd", &font, Wrap::Whitespace, 0);
    // One word per line; the space is consumed by the break.
    assert_eq!(segs.len(), 2);
    assert_eq!(segs[0], seg(0, 2, 20));
    assert_eq!(segs[1], seg(3, 5, 20));
}

#[test]
fn text_size_measures_widest_line_and_total_height() {
    let font = test_font();
    let s = text_size("ab\nabcd\nx", &font, 22, Wrap::Whitespace);
    assert_eq!(s.width, 40);
    assert_eq!(s.height, 3 * 22);
}

#[test]
fn line_rects_stack_and_align() {
    let font = test_font();
    let bounds = Rect::new(100, 200, 100, 400);
    let rects = line_rects("abcd\nab", bounds, &font, 22, Wrap::NoWrap, Align::Start);
    assert_eq!(rects.len(), 2);
    assert_eq!((rects[0].x, rects[0].y, rects[0].width, rects[0].height), (100, 200, 40, 22));
    assert_eq!((rects[1].x, rects[1].y, rects[1].width, rects[1].height), (100, 222, 20, 22));
    let rects = line_rects("abcd\nab", bounds, &font, 22, Wrap::NoWrap, Align::Center);
    assert_eq!(rects[0].x, 100 + (100 - 40) / 2);
    assert_eq!(rects[1].x, 100 + (100 - 20) / 2);
    let rects = line_rects("abcd\nab", bounds, &font, 22, Wrap::NoWrap, Align::End);
    assert_eq!(rects[0].x, 100 + 60);
    assert_eq!(rects[1].x, 100 + 80);
}

#[test]
fn glyphs_sit_on_the_baseline() {
    let font = test_font();
    let bounds = Rect::new(100, 200, 500, 400);
    let glyphs = positioned_glyphs("ab\nc", bounds, &font, 22, Wrap::NoWrap, Align::Start);
    assert_eq!(glyphs.len(), 3);
    // Baseline = line top + ascent(16); pen advances 10 per glyph.
    assert_eq!((glyphs[0].x, glyphs[0].y), (100, 216));
    assert_eq!((glyphs[1].x, glyphs[1].y), (110, 216));
    assert_eq!((glyphs[2].x, glyphs[2].y), (100, 238));
    // Glyph ids come from the font table: 'a' is id 1, 'b' id 2, 'c' id 3.
    assert_eq!(glyphs[0].glyph, 1);
    assert_eq!(glyphs[1].glyph, 2);
    assert_eq!(glyphs[2].glyph, 3);
}

#[test]
fn unmapped_codepoints_fall_back_to_missing_glyph() {
    let font = test_font();
    assert_eq!(font.glyph_id('?'), 0);
    assert_eq!(font.advance_width('?'), 0);
    assert_eq!(font.advance_width('a'), 10);
}

#[test]
fn measurable_rejects_oversized_totals() {
    let font = test_font();
    assert!(measurable("a reasonable amount of text", &font));
    let huge = FontMetrics::new(
        8,
        20,
        VMetrics { ascent: 16, descent: 4, line_gap: 2 },
        vec![GlyphMetric { ch: 'a', glyph: 1, advance: u32::MAX, width: 8, height: 12 }],
    );
    assert!(measurable("a", &huge));
    assert!(!measurable("aa", &huge));
}

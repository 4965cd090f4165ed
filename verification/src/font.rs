//! The font metrics provider: an immutable table of per-glyph metrics for one
//! font at one pixel size, plus the font-wide vertical metrics.
//!
//! The host resolves a font descriptor and a pixel size into a `FontMetrics`
//! value (for example from a TrueType font via a rasterizer crate) and hands
//! it to the layout engine; every query here is a pure function of that data.
//! `descent` is stored as a positive distance below the baseline, and glyph
//! positions are measured from the line top, with baseline = line top +
//! ascent.

use vstd::prelude::*;

verus! {

/// Font-wide vertical metrics at one pixel size, in layout units.
/// `descent` is the positive distance below the baseline.
#[derive(Clone, Copy, PartialEq, Eq, Structural, Debug)]
pub struct VMetrics {
    pub ascent: u32,
    pub descent: u32,
    pub line_gap: u32,
}

/// The metrics of one glyph: the codepoint it renders, its id in the font's
/// glyph table, its advance width, and the size of its rasterized bitmap
/// (zero for glyphs without ink, such as a space).
#[derive(Clone, Copy, PartialEq, Eq, Structural, Debug)]
pub struct GlyphMetric {
    pub ch: char,
    pub glyph: u32,
    pub advance: u32,
    pub width: u32,
    pub height: u32,
}

/// An immutable metric table for one (font, pixel size) pair.
/// A codepoint missing from the table maps to glyph id 0 (the font's
/// missing-glyph entry) with zero advance and an empty bitmap.
pub struct FontMetrics {
    /// A stable identifier for the (font, pixel size) pair, used to key the
    /// glyph cache and the renderer's font instance.
    pub font_id: u64,
    /// The pixel size the table was built for, in layout units.
    pub size: u32,
    pub v: VMetrics,
    pub glyphs: Vec<GlyphMetric>,
}

/// The metric entry the table gives to a codepoint: the first entry for that
/// codepoint, or the missing-glyph entry when there is none.
pub open spec fn find_glyph(s: Seq<GlyphMetric>, c: char) -> Option<GlyphMetric>
    decreases s.len(),
{
    if s.len() == 0 {
        None
    } else if s[0].ch == c {
        Some(s[0])
    } else {
        find_glyph(s.drop_first(), c)
    }
}

/// The first entry for a glyph id, if any.
pub open spec fn find_glyph_by_id(s: Seq<GlyphMetric>, id: u32) -> Option<GlyphMetric>
    decreases s.len(),
{
    if s.len() == 0 {
        None
    } else if s[0].glyph == id {
        Some(s[0])
    } else {
        find_glyph_by_id(s.drop_first(), id)
    }
}

/// The metric entry of a glyph id, or the missing-glyph entry.
pub open spec fn metric_of_id(font: FontMetrics, id: u32) -> GlyphMetric {
    match find_glyph_by_id(font.glyphs@, id) {
        Some(g) => g,
        None => missing_glyph(),
    }
}

pub open spec fn missing_glyph() -> GlyphMetric {
    GlyphMetric { ch: '\u{0}', glyph: 0, advance: 0, width: 0, height: 0 }
}

pub open spec fn metric_of(font: FontMetrics, c: char) -> GlyphMetric {
    match find_glyph(font.glyphs@, c) {
        Some(g) => g,
        None => missing_glyph(),
    }
}

/// The advance width of a codepoint: how far the pen moves to the right
/// after drawing it.
pub open spec fn advance_of(font: FontMetrics, c: char) -> u32 {
    metric_of(font, c).advance
}

/// The glyph id a codepoint renders as.
pub open spec fn glyph_id_of(font: FontMetrics, c: char) -> u32 {
    metric_of(font, c).glyph
}

impl FontMetrics {
    /// Builds a metric table. The host is responsible for the entries being
    /// the font's true metrics; the engine only reads them.
    pub fn new(font_id: u64, size: u32, v: VMetrics, glyphs: Vec<GlyphMetric>) -> (r: FontMetrics)
        ensures
            r == (FontMetrics { font_id, size, v, glyphs }),
    {
        FontMetrics { font_id, size, v, glyphs }
    }

    /// The vertical metrics of the font at this table's pixel size.
    pub fn v_metrics(&self) -> (r: VMetrics)
        ensures
            r == self.v,
    {
        self.v
    }

    /// Looks a codepoint up in the table: its first entry, or the
    /// missing-glyph entry when the font has none for it.
    pub fn metric(&self, c: char) -> (r: GlyphMetric)
        ensures
            r == metric_of(*self, c),
    {
        let n = self.glyphs.len();
        let mut i: usize = 0;
        proof {
            assert(self.glyphs@.skip(0) =~= self.glyphs@);
        }
        while i < n
            invariant
                0 <= i <= n,
                n == self.glyphs@.len(),
                find_glyph(self.glyphs@, c) == find_glyph(self.glyphs@.skip(i as int), c),
            decreases n - i,
        {
            let g = self.glyphs[i];
            proof {
                assert(self.glyphs@.skip(i as int)[0] == self.glyphs@[i as int]);
                assert(self.glyphs@.skip(i as int).drop_first() =~= self.glyphs@.skip(
                    i as int + 1,
                ));
            }
            if g.ch == c {
                return g;
            }
            i = i + 1;
        }
        proof {
            assert(self.glyphs@.skip(n as int) =~= Seq::<GlyphMetric>::empty());
        }
        GlyphMetric { ch: '\u{0}', glyph: 0, advance: 0, width: 0, height: 0 }
    }

    /// Looks a glyph id up in the table: its first entry, or the
    /// missing-glyph entry.
    pub fn metric_by_id(&self, id: u32) -> (r: GlyphMetric)
        ensures
            r == metric_of_id(*self, id),
    {
        let n = self.glyphs.len();
        let mut i: usize = 0;
        proof {
            assert(self.glyphs@.skip(0) =~= self.glyphs@);
        }
        while i < n
            invariant
                0 <= i <= n,
                n == self.glyphs@.len(),
                find_glyph_by_id(self.glyphs@, id) == find_glyph_by_id(
                    self.glyphs@.skip(i as int),
                    id,
                ),
            decreases n - i,
        {
            let g = self.glyphs[i];
            proof {
                assert(self.glyphs@.skip(i as int)[0] == self.glyphs@[i as int]);
                assert(self.glyphs@.skip(i as int).drop_first() =~= self.glyphs@.skip(
                    i as int + 1,
                ));
            }
            if g.glyph == id {
                return g;
            }
            i = i + 1;
        }
        proof {
            assert(self.glyphs@.skip(n as int) =~= Seq::<GlyphMetric>::empty());
        }
        GlyphMetric { ch: '\u{0}', glyph: 0, advance: 0, width: 0, height: 0 }
    }

    /// The advance width of a codepoint at this table's pixel size.
    pub fn advance_width(&self, c: char) -> (r: u32)
        ensures
            r == advance_of(*self, c),
    {
        self.metric(c).advance
    }

    /// The glyph id of a codepoint, 0 for codepoints the font does not map.
    pub fn glyph_id(&self, c: char) -> (r: u32)
        ensures
            r == glyph_id_of(*self, c),
    {
        self.metric(c).glyph
    }
}

} // verus!

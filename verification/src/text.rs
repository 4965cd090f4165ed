//! The text widget's resolved draw state: the text, font descriptor id,
//! size, colors, wrap mode and alignment a widget currently shows, with
//! measurement queries and the draw pass that turns the state into
//! renderer primitives. The host submits the primitives to its renderer.

use vstd::prelude::*;
use vstd::string::*;
use crate::font::FontMetrics;
use crate::geom::{Color, Rect, Size, spec_black, spec_transparent};
use crate::layout::{
    Align, GlyphInstance, glyphs_spec, line_rects, positioned_glyphs, rects_spec, text_height,
    text_size,
};
use crate::wrap::{Wrap, break_from, line_count, text_measurable};
use crate::layout::max_seg_width;

verus! {

/// One renderer-agnostic draw command.
pub enum DrawPrimitive {
    /// Fill `bounds` with `color`.
    FillRect { bounds: Rect, color: Color },
    /// Draw a glyph run in one font instance and color, clipped by the
    /// host to `bounds` or allowed to overflow, at the host's choice.
    Text { bounds: Rect, glyphs: Vec<GlyphInstance>, font_id: u64, font_size: u32, color: Color },
}

/// The resolved state of a text widget. `font` is the host's stable id for
/// the font descriptor; the metric table for (font, font_size) is passed
/// into each query, so the engine holds no global resources.
pub struct TextState {
    pub text: String,
    pub font: u64,
    pub font_size: u32,
    pub text_color: Color,
    pub background_color: Color,
    pub wrap: Wrap,
    pub align: Align,
}

/// Optional overrides for each field of `TextState`; `None` keeps the
/// widget's default.
pub struct TextStyle {
    pub text: Option<String>,
    pub font: Option<u64>,
    pub font_size: Option<u32>,
    pub text_color: Option<Color>,
    pub background_color: Option<Color>,
    pub wrap: Option<Wrap>,
    pub align: Option<Align>,
}

impl Default for TextStyle {
    /// The style that overrides nothing.
    fn default() -> (s: TextStyle)
        ensures
            s.text is None,
            s.font is None,
            s.font_size is None,
            s.text_color is None,
            s.background_color is None,
            s.wrap is None,
            s.align is None,
    {
        TextStyle {
            text: None,
            font: None,
            font_size: None,
            text_color: None,
            background_color: None,
            wrap: None,
            align: None,
        }
    }
}

impl TextStyle {
    /// A style that only sets the text.
    pub fn from_text(text: &str) -> (s: TextStyle)
        ensures
            s.text matches Some(t) && t@ == text@,
            s.font is None,
            s.font_size is None,
            s.text_color is None,
            s.background_color is None,
            s.wrap is None,
            s.align is None,
    {
        TextStyle {
            text: Some(String::from_str(text)),
            font: None,
            font_size: None,
            text_color: None,
            background_color: None,
            wrap: None,
            align: None,
        }
    }
}

impl TextState {
    /// Whether this state's vertical metrics stay within `u32` arithmetic
    /// for the given font table.
    pub open spec fn wf_with(self, font: FontMetrics) -> bool {
        self.font_size + font.v.line_gap <= u32::MAX
    }

    /// A state built from a style: overridden fields from the style, the
    /// rest the widget defaults (empty text, 24-unit font, black on
    /// transparent, whitespace wrap, start alignment).
    pub fn new(font: u64, style: &TextStyle) -> (s: TextState)
        ensures
            s.text@ == match style.text {
                Some(ref t) => t@,
                None => Seq::<char>::empty(),
            },
            s.font == match style.font {
                Some(f) => f,
                None => font,
            },
            s.font_size == match style.font_size {
                Some(z) => z,
                None => 24u32,
            },
            s.text_color == match style.text_color {
                Some(c) => c,
                None => spec_black(),
            },
            s.background_color == match style.background_color {
                Some(c) => c,
                None => spec_transparent(),
            },
            s.wrap == match style.wrap {
                Some(w) => w,
                None => Wrap::Whitespace,
            },
            s.align == match style.align {
                Some(a) => a,
                None => Align::Start,
            },
    {
        TextState {
            text: match style.text {
                Some(ref t) => t.clone(),
                None => String::new(),
            },
            font: match style.font {
                Some(f) => f,
                None => font,
            },
            font_size: match style.font_size {
                Some(z) => z,
                None => 24,
            },
            text_color: match style.text_color {
                Some(c) => c,
                None => Color { r: 0, g: 0, b: 0, a: 255 },
            },
            background_color: match style.background_color {
                Some(c) => c,
                None => Color { r: 0, g: 0, b: 0, a: 0 },
            },
            wrap: match style.wrap {
                Some(w) => w,
                None => Wrap::Whitespace,
            },
            align: match style.align {
                Some(a) => a,
                None => Align::Start,
            },
        }
    }

    /// The vertical distance between successive line tops: the font size
    /// plus the font's line gap.
    pub fn line_height(&self, metrics: &FontMetrics) -> (h: u32)
        requires
            self.wf_with(*metrics),
        ensures
            h == self.font_size + metrics.v.line_gap,
    {
        self.font_size + metrics.v.line_gap
    }

    /// The least height the widget can show any text at: one line.
    pub fn min_height(&self, metrics: &FontMetrics) -> (h: u32)
        requires
            self.wf_with(*metrics),
        ensures
            h == self.font_size + metrics.v.line_gap,
    {
        self.line_height(metrics)
    }

    /// The widget's intrinsic size: its text measured without a width
    /// limit, so wrapping happens at explicit newlines only.
    pub fn measure(&self, metrics: &FontMetrics) -> (s: Size)
        requires
            self.wf_with(*metrics),
            text_measurable(self.text@, *metrics),
        ensures
            s.height as int == line_count(self.text@, *metrics, self.wrap, u64::MAX as int) * (
            self.font_size + metrics.v.line_gap),
            s.width as int == max_seg_width(
                self.text@,
                *metrics,
                break_from(self.text@, *metrics, self.wrap, u64::MAX as int, 0),
            ),
    {
        let lh = self.line_height(metrics);
        text_size(self.text.as_str(), metrics, lh, self.wrap)
    }

    /// Whether `text`, wrapped to `bounds.width` under this state's wrap
    /// mode, fits within `bounds.height`.
    pub fn text_fits(&self, text: &str, metrics: &FontMetrics, bounds: Rect) -> (b: bool)
        requires
            self.wf_with(*metrics),
            text_measurable(text@, *metrics),
        ensures
            b == (line_count(text@, *metrics, self.wrap, bounds.width as int) * (self.font_size
                + metrics.v.line_gap) <= bounds.height),
    {
        let lh = self.line_height(metrics);
        let h = text_height(text, metrics, lh, self.wrap, bounds.width);
        h <= bounds.height
    }

    /// One rectangle per visual line of this state's text inside `bounds`.
    pub fn get_line_rects(&self, metrics: &FontMetrics, bounds: Rect) -> (rects: Vec<Rect>)
        requires
            self.wf_with(*metrics),
            text_measurable(self.text@, *metrics),
            bounds.wf(),
        ensures
            rects@ == rects_spec(
                self.text@,
                *metrics,
                bounds,
                (self.font_size + metrics.v.line_gap) as int,
                self.wrap,
                self.align,
            ),
    {
        let lh = self.line_height(metrics);
        line_rects(self.text.as_str(), bounds, metrics, lh, self.wrap, self.align)
    }

    /// Every glyph of this state's text positioned inside `bounds`.
    pub fn position_glyphs(&self, metrics: &FontMetrics, bounds: Rect) -> (gl: Vec<GlyphInstance>)
        requires
            self.wf_with(*metrics),
            text_measurable(self.text@, *metrics),
            bounds.wf(),
        ensures
            gl@ == glyphs_spec(
                self.text@,
                *metrics,
                bounds,
                (self.font_size + metrics.v.line_gap) as int,
                self.wrap,
                self.align,
            ),
    {
        let lh = self.line_height(metrics);
        positioned_glyphs(self.text.as_str(), bounds, metrics, lh, self.wrap, self.align)
    }

    /// The widget's draw pass: a background fill when the background color
    /// is not fully transparent, then the positioned glyph run.
    pub fn draw(&self, metrics: &FontMetrics, bounds: Rect) -> (prims: Vec<DrawPrimitive>)
        requires
            self.wf_with(*metrics),
            text_measurable(self.text@, *metrics),
            bounds.wf(),
        ensures
            ({
                let glyphs = glyphs_spec(
                    self.text@,
                    *metrics,
                    bounds,
                    (self.font_size + metrics.v.line_gap) as int,
                    self.wrap,
                    self.align,
                );
                let n = prims@.len() as int;
                &&& (self.background_color == spec_transparent() ==> n == 1)
                &&& (self.background_color != spec_transparent() ==> n == 2)
                &&& (n == 2 ==> (prims@[0] matches DrawPrimitive::FillRect { bounds: b, color: c }
                    && b == bounds && c == self.background_color))
                &&& (prims@[n - 1] matches DrawPrimitive::Text {
                    bounds: b,
                    glyphs: g,
                    font_id,
                    font_size,
                    color,
                } && b == bounds && g@ == glyphs && font_id == self.font && font_size
                    == self.font_size && color == self.text_color)
            }),
    {
        let glyphs = self.position_glyphs(metrics, bounds);
        let mut prims: Vec<DrawPrimitive> = Vec::new();
        let t = Color { r: 0, g: 0, b: 0, a: 0 };
        if !(self.background_color == t) {
            prims.push(DrawPrimitive::FillRect { bounds, color: self.background_color });
        }
        prims.push(
            DrawPrimitive::Text {
                bounds,
                glyphs,
                font_id: self.font,
                font_size: self.font_size,
                color: self.text_color,
            },
        );
        prims
    }
}

} // verus!

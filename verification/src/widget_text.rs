//! The property-styled text widget: a style whose fields may vary with the
//! widget's interaction state, the resolved draw state, and the draw pass
//! that runs the full pipeline — position glyphs, guarantee atlas
//! residency through the glyph cache, and collect one (screen rectangle,
//! atlas rectangle) pair per drawable glyph for the host's textured-quad
//! renderer.

use vstd::prelude::*;
use vstd::string::*;
use crate::cache::{
    AtlasRect, CacheEntry, CacheKey, GlyphCache, GlyphUpload, QueuedGlyph, entries_of_uploads,
    fits_all, lookup_key, sizes_of,
};
use crate::font::{FontMetrics, metric_of_id};
use crate::geom::{Color, Rect, Size, spec_black, spec_transparent};
use crate::layout::{Align, GlyphInstance, glyphs_spec, max_seg_width, positioned_glyphs, text_height, text_size};
use crate::property::PropSet;
use crate::style::Value;
use crate::wrap::{Wrap, break_from, line_count, text_measurable};

verus! {

/// A text widget's style: each field resolved against the widget's current
/// property set.
pub struct TextStyle {
    pub text: Value<String>,
    pub font_id: Value<u64>,
    pub font_size: Value<u32>,
    pub text_color: Value<Color>,
    pub background_color: Value<Color>,
}

impl TextStyle {
    /// Overrides the text with one fixed value.
    pub fn with_text(&mut self, text: &str)
        ensures
            final(self).text matches Value::Single(t) && t@ == text@,
            final(self).font_id == old(self).font_id,
            final(self).font_size == old(self).font_size,
            final(self).text_color == old(self).text_color,
            final(self).background_color == old(self).background_color,
    {
        self.text = Value::Single(String::from_str(text));
    }

    /// Overrides the text color with one fixed value.
    pub fn with_text_color(&mut self, text_color: Color)
        ensures
            final(self).text_color == Value::Single(text_color),
            final(self).text == old(self).text,
            final(self).font_id == old(self).font_id,
            final(self).font_size == old(self).font_size,
            final(self).background_color == old(self).background_color,
    {
        self.text_color = Value::Single(text_color);
    }

    /// Overrides the background color with one fixed value.
    pub fn with_background_color(&mut self, background_color: Color)
        ensures
            final(self).background_color == Value::Single(background_color),
            final(self).text == old(self).text,
            final(self).font_id == old(self).font_id,
            final(self).font_size == old(self).font_size,
            final(self).text_color == old(self).text_color,
    {
        self.background_color = Value::Single(background_color);
    }
}

/// The resolved draw state of a text widget.
pub struct TextDrawState {
    pub text: String,
    pub font_id: u64,
    pub font_size: u32,
    pub text_color: Color,
    pub background_color: Color,
}

/// The state a style resolves to under a property set.
pub open spec fn spec_resolved(style: TextStyle, props: PropSet) -> TextDrawState {
    TextDrawState {
        text: style.text.spec_from_props(props),
        font_id: style.font_id.spec_from_props(props),
        font_size: style.font_size.spec_from_props(props),
        text_color: style.text_color.spec_from_props(props),
        background_color: style.background_color.spec_from_props(props),
    }
}

/// The state a style resolves to in the widget's default state.
pub open spec fn spec_default_state(style: TextStyle) -> TextDrawState {
    TextDrawState {
        text: style.text.spec_default(),
        font_id: style.font_id.spec_default(),
        font_size: style.font_size.spec_default(),
        text_color: style.text_color.spec_default(),
        background_color: style.background_color.spec_default(),
    }
}

/// Re-resolves a widget's draw state after its property set changed.
pub fn apply_text_style(state: &mut TextDrawState, style: &TextStyle, props: &PropSet)
    ensures
        *final(state) == spec_resolved(*style, *props),
{
    state.text = style.text.from_props(props).clone();
    state.font_id = *style.font_id.from_props(props);
    state.font_size = *style.font_size.from_props(props);
    state.text_color = *style.text_color.from_props(props);
    state.background_color = *style.background_color.from_props(props);
}

impl TextDrawState {
    /// This widget family spaces lines at 1.25 times the font size; the
    /// quarter must not push the height past `u32` range.
    pub open spec fn wf(self) -> bool {
        self.font_size + self.font_size / 4 <= u32::MAX
    }

    /// The line height this widget family uses: the font size plus a
    /// quarter of it.
    pub open spec fn spec_line_height(self) -> int {
        self.font_size + self.font_size / 4
    }

    /// A state showing `text` with the widget defaults: 24-unit font,
    /// black text on a transparent background.
    pub fn new_default(text: String, font_id: u64) -> (s: TextDrawState)
        ensures
            s == (TextDrawState {
                text,
                font_id,
                font_size: 24u32,
                text_color: spec_black(),
                background_color: spec_transparent(),
            }),
    {
        TextDrawState {
            text,
            font_id,
            font_size: 24,
            text_color: Color { r: 0, g: 0, b: 0, a: 255 },
            background_color: Color { r: 0, g: 0, b: 0, a: 0 },
        }
    }

    /// The state a style gives a widget in its default state.
    pub fn new_style(style: &TextStyle) -> (s: TextDrawState)
        ensures
            s == spec_default_state(*style),
    {
        TextDrawState::new(
            style.text.default_value().clone(),
            *style.font_id.default_value(),
            *style.font_size.default_value(),
            *style.text_color.default_value(),
            *style.background_color.default_value(),
        )
    }

    pub fn new(
        text: String,
        font_id: u64,
        font_size: u32,
        text_color: Color,
        background_color: Color,
    ) -> (s: TextDrawState)
        ensures
            s == (TextDrawState { text, font_id, font_size, text_color, background_color }),
    {
        TextDrawState { text, font_id, font_size, text_color, background_color }
    }

    /// The widget's intrinsic size: its text measured without wrapping.
    pub fn measure_dims_no_wrap(&self, metrics: &FontMetrics) -> (s: Size)
        requires
            self.wf(),
            text_measurable(self.text@, *metrics),
        ensures
            s.height as int == line_count(self.text@, *metrics, Wrap::NoWrap, u64::MAX as int)
                * self.spec_line_height(),
            s.width as int == max_seg_width(
                self.text@,
                *metrics,
                break_from(self.text@, *metrics, Wrap::NoWrap, u64::MAX as int, 0),
            ),
    {
        let lh = self.font_size + self.font_size / 4;
        text_size(self.text.as_str(), metrics, lh, Wrap::NoWrap)
    }

    /// The height the text needs at the given width under character wrap.
    pub fn measure_height_wrapped(&self, metrics: &FontMetrics, width: u64) -> (h: u64)
        requires
            self.wf(),
            text_measurable(self.text@, *metrics),
        ensures
            h as int == line_count(self.text@, *metrics, Wrap::Character, width as int)
                * self.spec_line_height(),
    {
        let lh = self.font_size + self.font_size / 4;
        text_height(self.text.as_str(), metrics, lh, Wrap::Character, width)
    }
}

/// A widget's drawable part: its resolved draw state, and the style it is
/// re-resolved from when the widget's properties change.
pub struct Drawable {
    pub state: TextDrawState,
    pub style: Option<TextStyle>,
}

/// Builds a text widget's drawable from a style: the state resolved in the
/// default property set, with the style kept for later re-resolution.
pub fn text_drawable(style: TextStyle) -> (d: Drawable)
    ensures
        d.state == spec_default_state(style),
        d.style matches Some(s) && s == style,
{
    let state = TextDrawState::new_style(&style);
    Drawable { state, style: Some(style) }
}

/// The intrinsic (unwrapped) size of a drawable's text.
pub fn measure_dims_no_wrap(drawable: &Drawable, metrics: &FontMetrics) -> (s: Size)
    requires
        drawable.state.wf(),
        text_measurable(drawable.state.text@, *metrics),
    ensures
        s.height as int == line_count(drawable.state.text@, *metrics, Wrap::NoWrap, u64::MAX as int)
            * drawable.state.spec_line_height(),
        s.width as int == max_seg_width(
            drawable.state.text@,
            *metrics,
            break_from(drawable.state.text@, *metrics, Wrap::NoWrap, u64::MAX as int, 0),
        ),
{
    drawable.state.measure_dims_no_wrap(metrics)
}

/// The glyph run of a draw pass: the background to fill, the texture
/// uploads the host owes the atlas, and one (screen rectangle, atlas
/// rectangle) pair per glyph that is resident this frame.
pub struct TextDraw {
    pub background: Rect,
    pub background_color: Color,
    pub uploads: Vec<GlyphUpload>,
    pub glyph_rects: Vec<(Rect, AtlasRect)>,
    /// True when the atlas could not hold the full glyph set even after
    /// eviction; the missing glyphs are skipped for this frame.
    pub overflow: bool,
}

/// The cache key of a positioned glyph under a font table.
pub open spec fn key_of(g: GlyphInstance, font: FontMetrics) -> CacheKey {
    CacheKey { font_id: font.font_id, glyph: g.glyph, size: font.size }
}

/// The screen rectangle a glyph's bitmap covers: the glyph's pen position,
/// raised from the baseline to the line top, extended by the bitmap size.
pub open spec fn screen_rect(g: GlyphInstance, uv: AtlasRect, ascent: u32) -> Rect {
    Rect {
        x: g.x,
        y: (if g.y >= ascent {
            g.y - ascent
        } else {
            0
        }) as u64,
        width: uv.width as u64,
        height: uv.height as u64,
    }
}

/// The batch a run of positioned glyphs grows a glyph queue into: one
/// queued entry per distinct glyph key not queued before, first occurrence
/// first, each with its bitmap size from the metric table.
pub open spec fn batch_after(
    glyphs: Seq<GlyphInstance>,
    font: FontMetrics,
    q: Seq<QueuedGlyph>,
) -> Seq<QueuedGlyph>
    decreases glyphs.len(),
{
    if glyphs.len() == 0 {
        q
    } else {
        let g = glyphs[0];
        let key = key_of(g, font);
        let q2 = if exists|i: int| 0 <= i < q.len() && (#[trigger] q[i]).key == key {
            q
        } else {
            q.push(
                QueuedGlyph {
                    key,
                    width: metric_of_id(font, g.glyph).width,
                    height: metric_of_id(font, g.glyph).height,
                },
            )
        };
        batch_after(glyphs.drop_first(), font, q2)
    }
}

/// The (screen, atlas) rectangle pairs of the glyphs that are resident in
/// `entries`, in glyph order; non-resident glyphs are skipped.
pub open spec fn draw_rects_spec(
    glyphs: Seq<GlyphInstance>,
    entries: Seq<CacheEntry>,
    font: FontMetrics,
) -> Seq<(Rect, AtlasRect)>
    decreases glyphs.len(),
{
    if glyphs.len() == 0 {
        Seq::empty()
    } else {
        let g = glyphs[0];
        let rest = draw_rects_spec(glyphs.drop_first(), entries, font);
        match lookup_key(entries, key_of(g, font)) {
            Some(uv) => seq![(screen_rect(g, uv, font.v.ascent), uv)] + rest,
            None => rest,
        }
    }
}

/// One widget's full text draw pass.
///
/// Positions every glyph of the state's text inside `bounds` (character
/// wrap, start alignment, lines 1.25 font sizes apart), queues each
/// glyph's bitmap, packs the batch into the atlas, and collects the
/// textured-quad rectangles of every glyph the atlas now holds. Unless the
/// batch provably cannot fit even an empty atlas, every glyph of the text
/// is resident afterwards.
pub fn draw_text(
    state: &TextDrawState,
    metrics: &FontMetrics,
    bounds: Rect,
    cache: &mut GlyphCache,
) -> (d: TextDraw)
    requires
        state.wf(),
        text_measurable(state.text@, *metrics),
        bounds.wf(),
        old(cache).wf(),
    ensures
        final(cache).wf(),
        final(cache).atlas_width == old(cache).atlas_width,
        final(cache).atlas_height == old(cache).atlas_height,
        final(cache).queued@.len() == 0,
        d.background == bounds,
        d.background_color == state.background_color,
        final(cache).entries@ == old(cache).entries@ + entries_of_uploads(d.uploads@) || final(cache).entries@
            == entries_of_uploads(d.uploads@),
        ({
            let glyphs = glyphs_spec(
                state.text@,
                *metrics,
                bounds,
                state.spec_line_height(),
                Wrap::Character,
                Align::Start,
            );
            &&& d.glyph_rects@ == draw_rects_spec(glyphs, final(cache).entries@, *metrics)
            &&& (!d.overflow ==> forall|i: int|
                0 <= i < glyphs.len() ==> lookup_key(
                    final(cache).entries@,
                    key_of(#[trigger] glyphs[i], *metrics),
                ) is Some)
            &&& (d.overflow ==> !fits_all(
                sizes_of(batch_after(glyphs, *metrics, old(cache).queued@)),
                0,
                0,
                0,
                old(cache).atlas_width as int,
                old(cache).atlas_height as int,
            ))
        }),
{
    let lh = state.font_size + state.font_size / 4;
    let glyphs = positioned_glyphs(
        state.text.as_str(),
        bounds,
        metrics,
        lh,
        Wrap::Character,
        Align::Start,
    );
    let ghost gspec = glyphs_spec(
        state.text@,
        *metrics,
        bounds,
        state.spec_line_height(),
        Wrap::Character,
        Align::Start,
    );
    let n = glyphs.len();
    let mut i: usize = 0;
    proof {
        assert(gspec.skip(0) =~= gspec);
    }
    while i < n
        invariant
            0 <= i <= n,
            n == glyphs@.len(),
            glyphs@ == gspec,
            cache.wf(),
            cache.atlas_width == old(cache).atlas_width,
            cache.atlas_height == old(cache).atlas_height,
            cache.entries@ == old(cache).entries@,
            batch_after(gspec.skip(i as int), *metrics, cache.queued@) == batch_after(
                gspec,
                *metrics,
                old(cache).queued@,
            ),
            forall|j: int|
                #![trigger glyphs@[j]]
                0 <= j < i ==> exists|m: int|
                    0 <= m < cache.queued@.len() && (#[trigger] cache.queued@[m]).key == key_of(
                        glyphs@[j],
                        *metrics,
                    ),
        decreases n - i,
    {
        let g = glyphs[i];
        let m = metrics.metric_by_id(g.glyph);
        let key = CacheKey { font_id: metrics.font_id, glyph: g.glyph, size: metrics.size };
        let ghost preq = cache.queued@;
        cache.queue_glyph(key, m.width, m.height);
        proof {
            assert(gspec.skip(i as int)[0] == gspec[i as int]);
            assert(gspec.skip(i as int).drop_first() =~= gspec.skip(i as int + 1));
            assert(key == key_of(gspec[i as int], *metrics));
            assert(batch_after(gspec.skip(i as int), *metrics, preq) == batch_after(
                gspec.skip(i as int + 1),
                *metrics,
                cache.queued@,
            ));
            assert forall|j: int| #![trigger glyphs@[j]] 0 <= j < i + 1 implies exists|m2: int|
                0 <= m2 < cache.queued@.len() && (#[trigger] cache.queued@[m2]).key == key_of(
                    glyphs@[j],
                    *metrics,
                ) by {
                if j < i {
                    let w = choose|w: int|
                        0 <= w < preq.len() && (#[trigger] preq[w]).key == key_of(
                            glyphs@[j],
                            *metrics,
                        );
                    assert(cache.queued@[w].key == key_of(glyphs@[j], *metrics));
                }
            }
        }
        i = i + 1;
    }
    let ghost queued_before = cache.queued@;
    proof {
        assert(gspec.skip(n as int) =~= Seq::<GlyphInstance>::empty());
        assert(queued_before == batch_after(gspec, *metrics, old(cache).queued@));
    }
    let (uploads, outcome) = cache.cache_queued();
    let overflow = match outcome {
        Ok(()) => false,
        Err(_) => true,
    };
    proof {
        if !overflow {
            assert forall|j: int| 0 <= j < gspec.len() implies lookup_key(
                cache.entries@,
                key_of(#[trigger] gspec[j], *metrics),
            ) is Some by {
                let w = choose|w: int|
                    0 <= w < queued_before.len() && (#[trigger] queued_before[w]).key == key_of(
                        gspec[j],
                        *metrics,
                    );
                assert(lookup_key(cache.entries@, queued_before[w].key) is Some);
            }
        }
    }
    // Collect the textured-quad rectangles of the resident glyphs.
    let mut rects: Vec<(Rect, AtlasRect)> = Vec::new();
    let mut i: usize = 0;
    proof {
        assert(gspec.skip(0) =~= gspec);
    }
    while i < n
        invariant
            0 <= i <= n,
            n == glyphs@.len(),
            glyphs@ == gspec,
            cache.wf(),
            rects@ + draw_rects_spec(gspec.skip(i as int), cache.entries@, *metrics)
                == draw_rects_spec(gspec, cache.entries@, *metrics),
        decreases n - i,
    {
        let g = glyphs[i];
        let key = CacheKey { font_id: metrics.font_id, glyph: g.glyph, size: metrics.size };
        proof {
            assert(gspec.skip(i as int)[0] == gspec[i as int]);
            assert(gspec.skip(i as int).drop_first() =~= gspec.skip(i as int + 1));
            assert(key == key_of(gspec[i as int], *metrics));
        }
        match cache.rect_for(key) {
            Some(uv) => {
                let y = if g.y >= metrics.v.ascent as u64 {
                    g.y - metrics.v.ascent as u64
                } else {
                    0
                };
                rects.push(
                    (
                        Rect { x: g.x, y, width: uv.width as u64, height: uv.height as u64 },
                        uv,
                    ),
                );
                proof {
                    assert(rects@ + draw_rects_spec(gspec.skip(i as int + 1), cache.entries@, *metrics)
                        =~= draw_rects_spec(gspec, cache.entries@, *metrics));
                }
            },
            None => {},
        }
        i = i + 1;
    }
    proof {
        assert(draw_rects_spec(gspec.skip(n as int), cache.entries@, *metrics) =~= Seq::<
            (Rect, AtlasRect),
        >::empty());
        assert(rects@ =~= draw_rects_spec(gspec, cache.entries@, *metrics));
    }
    TextDraw {
        background: bounds,
        background_color: state.background_color,
        uploads,
        glyph_rects: rects,
        overflow,
    }
}

} // verus!

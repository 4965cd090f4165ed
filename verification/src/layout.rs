//! The layout engine: positions wrapped line segments and their glyphs
//! inside a bounding rectangle, and answers aggregate measurement queries.
//!
//! Conventions, applied uniformly: lines stack top-down from `bounds.y`,
//! each `line_height` tall; a glyph's `y` is its line's baseline, which is
//! the line's top plus the font's ascent; a glyph's `x` accumulates the
//! advances of the codepoints before it on the line, plus the line's
//! horizontal alignment offset. A line wider than the bounds keeps its
//! start alignment and overflows to the right; it is never clipped.

use vstd::prelude::*;
use crate::font::{FontMetrics, advance_of, glyph_id_of};
use crate::geom::{Rect, Size};
use crate::wrap::{
    Wrap, LineSegment, break_from, break_line_ranges, chars_of, lemma_break_from_wf,
    lemma_width_nonneg, lemma_width_sub, line_count, seg_pairs, seg_width, text_measurable,
};

verus! {

/// Horizontal alignment of each line inside the bounds.
#[derive(Clone, Copy, PartialEq, Eq, Structural, Debug)]
pub enum Align {
    Start,
    Center,
    End,
}

/// One glyph, positioned in screen space: its id in the font's glyph table,
/// its pen `x`, and its baseline `y`, all in layout units.
#[derive(Clone, Copy, PartialEq, Eq, Structural, Debug)]
pub struct GlyphInstance {
    pub glyph: u32,
    pub x: u64,
    pub y: u64,
}

/// The x-offset of a line of width `line_w` inside a span of width `avail`.
/// An overflowing line keeps offset 0 whatever the alignment.
pub open spec fn align_offset(align: Align, avail: int, line_w: int) -> int {
    match align {
        Align::Start => 0,
        Align::Center => if line_w <= avail {
            (avail - line_w) / 2
        } else {
            0
        },
        Align::End => if line_w <= avail {
            avail - line_w
        } else {
            0
        },
    }
}

fn align_offset_x(align: Align, avail: u64, line_w: u64) -> (r: u64)
    ensures
        r as int == align_offset(align, avail as int, line_w as int),
{
    match align {
        Align::Start => 0,
        Align::Center => if line_w <= avail {
            (avail - line_w) / 2
        } else {
            0
        },
        Align::End => if line_w <= avail {
            avail - line_w
        } else {
            0
        },
    }
}

/// The bounding rectangle of line number `i` of width `seg_w`.
pub open spec fn rect_for_line(bounds: Rect, line_height: int, align: Align, seg_w: int, i: int) -> Rect {
    Rect {
        x: (bounds.x + align_offset(align, bounds.width as int, seg_w)) as u64,
        y: (bounds.y + i * line_height) as u64,
        width: seg_w as u64,
        height: line_height as u64,
    }
}

/// The rectangles of the lines `segs[i..]`.
pub open spec fn rects_from_segs(
    text: Seq<char>,
    font: FontMetrics,
    segs: Seq<(int, int)>,
    i: int,
    bounds: Rect,
    line_height: int,
    align: Align,
) -> Seq<Rect>
    decreases segs.len() - i,
{
    if i >= segs.len() {
        Seq::empty()
    } else {
        seq![
            rect_for_line(
                bounds,
                line_height,
                align,
                seg_width(text, font, segs[i].0, segs[i].1),
                i,
            ),
        ] + rects_from_segs(text, font, segs, i + 1, bounds, line_height, align)
    }
}

/// One rectangle per visual line of the text, wrapped to `bounds.width`.
pub open spec fn rects_spec(
    text: Seq<char>,
    font: FontMetrics,
    bounds: Rect,
    line_height: int,
    wrap: Wrap,
    align: Align,
) -> Seq<Rect> {
    rects_from_segs(
        text,
        font,
        break_from(text, font, wrap, bounds.width as int, 0),
        0,
        bounds,
        line_height,
        align,
    )
}

/// The glyphs of the codepoint range `[a, b)` laid out on one line: pen
/// starts at `x` and accumulates advances; every glyph sits on baseline
/// `base`.
pub open spec fn glyphs_for_seg(
    text: Seq<char>,
    font: FontMetrics,
    a: int,
    b: int,
    x: int,
    base: int,
) -> Seq<GlyphInstance>
    decreases b - a,
{
    if a >= b {
        Seq::empty()
    } else {
        seq![GlyphInstance { glyph: glyph_id_of(font, text[a]), x: x as u64, y: base as u64 }]
            + glyphs_for_seg(text, font, a + 1, b, x + advance_of(font, text[a]), base)
    }
}

proof fn lemma_glyphs_for_seg_index(
    text: Seq<char>,
    font: FontMetrics,
    a: int,
    b: int,
    x: int,
    base: int,
)
    requires
        a <= b,
    ensures
        glyphs_for_seg(text, font, a, b, x, base).len() == b - a,
        forall|k: int|
            0 <= k < b - a ==> glyphs_for_seg(text, font, a, b, x, base)[k] == (GlyphInstance {
                glyph: glyph_id_of(font, text[a + k]),
                x: (x + seg_width(text, font, a, a + k)) as u64,
                y: base as u64,
            }),
    decreases b - a,
{
    if a < b {
        lemma_glyphs_for_seg_index(text, font, a + 1, b, x + advance_of(font, text[a]), base);
        assert forall|k: int| 0 <= k < b - a implies glyphs_for_seg(text, font, a, b, x, base)[k]
            == (GlyphInstance {
            glyph: glyph_id_of(font, text[a + k]),
            x: (x + seg_width(text, font, a, a + k)) as u64,
            y: base as u64,
        }) by {
            if k > 0 {
                assert(glyphs_for_seg(text, font, a, b, x, base)[k] == glyphs_for_seg(
                    text,
                    font,
                    a + 1,
                    b,
                    x + advance_of(font, text[a]),
                    base,
                )[k - 1]);
                assert(seg_width(text, font, a, a + k) == advance_of(font, text[a]) + seg_width(
                    text,
                    font,
                    a + 1,
                    a + k,
                ));
            } else {
                assert(seg_width(text, font, a, a) == 0);
            }
        }
    }
}

/// The glyphs of line number `i` alone: pen starting at the line's aligned
/// left edge, all on the line's baseline `bounds.y + i * line_height +
/// ascent`.
pub open spec fn line_glyphs(
    text: Seq<char>,
    font: FontMetrics,
    segs: Seq<(int, int)>,
    i: int,
    bounds: Rect,
    line_height: int,
    align: Align,
) -> Seq<GlyphInstance> {
    let a = segs[i].0;
    let b = segs[i].1;
    let x0 = bounds.x + align_offset(align, bounds.width as int, seg_width(text, font, a, b));
    let base = bounds.y + i * line_height + font.v.ascent;
    glyphs_for_seg(text, font, a, b, x0, base)
}

/// The glyphs of the lines `segs[i..]`, concatenated in line order.
pub open spec fn glyphs_from_segs(
    text: Seq<char>,
    font: FontMetrics,
    segs: Seq<(int, int)>,
    i: int,
    bounds: Rect,
    line_height: int,
    align: Align,
) -> Seq<GlyphInstance>
    decreases segs.len() - i,
{
    if i >= segs.len() {
        Seq::empty()
    } else {
        line_glyphs(text, font, segs, i, bounds, line_height, align) + glyphs_from_segs(
            text,
            font,
            segs,
            i + 1,
            bounds,
            line_height,
            align,
        )
    }
}

/// Every glyph of the text, wrapped to `bounds.width` and positioned inside
/// `bounds`. This is the complete screen-space layout of the text.
pub open spec fn glyphs_spec(
    text: Seq<char>,
    font: FontMetrics,
    bounds: Rect,
    line_height: int,
    wrap: Wrap,
    align: Align,
) -> Seq<GlyphInstance> {
    glyphs_from_segs(
        text,
        font,
        break_from(text, font, wrap, bounds.width as int, 0),
        0,
        bounds,
        line_height,
        align,
    )
}

proof fn lemma_rects_from_segs_index(
    text: Seq<char>,
    font: FontMetrics,
    segs: Seq<(int, int)>,
    j: int,
    bounds: Rect,
    line_height: int,
    align: Align,
)
    requires
        0 <= j <= segs.len(),
    ensures
        ({
            let r = rects_from_segs(text, font, segs, j, bounds, line_height, align);
            r.len() == segs.len() - j && forall|k: int|
                0 <= k < r.len() ==> r[k] == rect_for_line(
                    bounds,
                    line_height,
                    align,
                    seg_width(text, font, segs[j + k].0, segs[j + k].1),
                    j + k,
                )
        }),
    decreases segs.len() - j,
{
    if j < segs.len() {
        lemma_rects_from_segs_index(text, font, segs, j + 1, bounds, line_height, align);
    }
}

/// Agreement of the two layout views: provided the font's ascent does not
/// exceed the line height, glyph `k` of visual line `i` lies inside that
/// line's rectangle — on the baseline `rect.y + ascent` within the rect's
/// vertical extent, its pen x between the rect's left and right edges.
/// (An overflowing line's rectangle is as wide as the line itself, so the
/// glyphs overflow the bounds together with their rectangle, unclipped.)
pub proof fn lemma_glyphs_within_line_rects(
    text: Seq<char>,
    font: FontMetrics,
    bounds: Rect,
    line_height: u32,
    wrap: Wrap,
    align: Align,
    i: int,
    k: int,
)
    requires
        text_measurable(text, font),
        bounds.wf(),
        font.v.ascent <= line_height,
        ({
            let segs = break_from(text, font, wrap, bounds.width as int, 0);
            0 <= i < segs.len() && 0 <= k < segs[i].1 - segs[i].0
        }),
    ensures
        ({
            let segs = break_from(text, font, wrap, bounds.width as int, 0);
            let rect = rects_spec(text, font, bounds, line_height as int, wrap, align)[i];
            let g = line_glyphs(text, font, segs, i, bounds, line_height as int, align)[k];
            rect.y <= g.y <= rect.y + rect.height && rect.x <= g.x <= rect.x + rect.width
        }),
{
    let len = text.len() as int;
    let segs = break_from(text, font, wrap, bounds.width as int, 0);
    lemma_break_from_wf(text, font, wrap, bounds.width as int, 0);
    let a = segs[i].0;
    let b = segs[i].1;
    let lw = seg_width(text, font, a, b);
    let off = align_offset(align, bounds.width as int, lw);
    let x0 = bounds.x + off;
    let base = bounds.y + i * line_height + font.v.ascent;
    lemma_rects_from_segs_index(text, font, segs, 0, bounds, line_height as int, align);
    lemma_width_nonneg(text, font, a, b);
    lemma_width_nonneg(text, font, a, a + k);
    lemma_width_sub(text, font, 0, a, b, len);
    lemma_width_sub(text, font, a, a, a + k, b);
    lemma_glyphs_for_seg_index(text, font, a, b, x0, base);
    assert(0 <= off <= bounds.width);
    assert(bounds.y + i * line_height + font.v.ascent <= u64::MAX) by (nonlinear_arith)
        requires
            0 <= i <= text.len(),
            text.len() <= u32::MAX,
            0 <= line_height <= u32::MAX,
            0 <= bounds.y <= u32::MAX,
            0 <= font.v.ascent <= u32::MAX,
    ;
}

/// The widest line's width among the given segments.
pub open spec fn max_seg_width(text: Seq<char>, font: FontMetrics, segs: Seq<(int, int)>) -> int
    decreases segs.len(),
{
    if segs.len() == 0 {
        0
    } else {
        let w = seg_width(text, font, segs[0].0, segs[0].1);
        let rest = max_seg_width(text, font, segs.drop_first());
        if w >= rest {
            w
        } else {
            rest
        }
    }
}

/// The total height of the text wrapped at `max_width`: one `line_height`
/// per visual line. Empty text still has one line.
pub fn text_height(text: &str, font: &FontMetrics, line_height: u32, wrap: Wrap, max_width: u64) -> (h:
    u64)
    requires
        text_measurable(text@, *font),
    ensures
        h as int == line_count(text@, *font, wrap, max_width as int) * line_height,
{
    let chars = chars_of(text);
    let segs = break_line_ranges(&chars, font, wrap, max_width);
    proof {
        lemma_break_from_wf(text@, *font, wrap, max_width as int, 0);
        assert(segs@.len() == break_from(text@, *font, wrap, max_width as int, 0).len());
        assert((segs@.len() as int) * (line_height as int) <= u64::MAX) by (nonlinear_arith)
            requires
                0 <= segs@.len() as int <= u32::MAX as int + 1,
                0 <= line_height as int <= u32::MAX,
        ;
    }
    (segs.len() as u64) * (line_height as u64)
}

/// The size of the text measured without a width limit: wrapping then
/// happens at explicit newlines only, whatever the wrap mode.
pub fn text_size(text: &str, font: &FontMetrics, line_height: u32, wrap: Wrap) -> (s: Size)
    requires
        text_measurable(text@, *font),
    ensures
        s.height as int == line_count(text@, *font, wrap, u64::MAX as int) * line_height,
        s.width as int == max_seg_width(
            text@,
            *font,
            break_from(text@, *font, wrap, u64::MAX as int, 0),
        ),
{
    let chars = chars_of(text);
    let segs = break_line_ranges(&chars, font, wrap, u64::MAX);
    let ghost pairs = break_from(text@, *font, wrap, u64::MAX as int, 0);
    proof {
        lemma_break_from_wf(text@, *font, wrap, u64::MAX as int, 0);
        assert(seg_pairs(segs@) == pairs);
    }
    let n = segs.len();
    let mut widest: u64 = 0;
    let mut i: usize = 0;
    proof {
        assert(pairs.skip(0) =~= pairs);
    }
    while i < n
        invariant
            0 <= i <= n,
            n == segs@.len() == pairs.len(),
            seg_pairs(segs@) == pairs,
            forall|k: int|
                0 <= k < segs@.len() ==> (#[trigger] segs@[k]).width as int == seg_width(
                    text@,
                    *font,
                    segs@[k].start as int,
                    segs@[k].end as int,
                ),
            max_seg_width(text@, *font, pairs) == (if widest as int >= max_seg_width(
                text@,
                *font,
                pairs.skip(i as int),
            ) {
                widest as int
            } else {
                max_seg_width(text@, *font, pairs.skip(i as int))
            }),
            widest as int <= max_seg_width(text@, *font, pairs),
        decreases n - i,
    {
        let w = segs[i].width;
        proof {
            assert(pairs.skip(i as int)[0] == pairs[i as int]);
            assert(pairs[i as int] == (segs@[i as int].start as int, segs@[i as int].end as int));
            assert(pairs.skip(i as int).drop_first() =~= pairs.skip(i as int + 1));
        }
        if w > widest {
            widest = w;
        }
        i = i + 1;
    }
    proof {
        assert(pairs.skip(n as int) =~= Seq::<(int, int)>::empty());
    }
    proof {
        assert((n as int) * (line_height as int) <= u64::MAX) by (nonlinear_arith)
            requires
                0 <= n as int <= u32::MAX as int + 1,
                0 <= line_height as int <= u32::MAX,
        ;
    }
    let height = (n as u64) * (line_height as u64);
    Size { width: widest, height }
}

/// Whether the text, wrapped to `bounds.width`, fits within `bounds.height`.
/// This is the cheap query callers should prefer before asking for glyphs.
pub fn fits(text: &str, font: &FontMetrics, line_height: u32, wrap: Wrap, bounds: Rect) -> (b: bool)
    requires
        text_measurable(text@, *font),
    ensures
        b == (line_count(text@, *font, wrap, bounds.width as int) * line_height
            <= bounds.height),
{
    let h = text_height(text, font, line_height, wrap, bounds.width);
    h <= bounds.height
}

/// One rectangle per visual line, stacked top-down inside `bounds` and
/// aligned horizontally per `align`.
pub fn line_rects(
    text: &str,
    bounds: Rect,
    font: &FontMetrics,
    line_height: u32,
    wrap: Wrap,
    align: Align,
) -> (rects: Vec<Rect>)
    requires
        text_measurable(text@, *font),
        bounds.wf(),
    ensures
        rects@ == rects_spec(text@, *font, bounds, line_height as int, wrap, align),
{
    let chars = chars_of(text);
    let segs = break_line_ranges(&chars, font, wrap, bounds.width);
    let ghost pairs = break_from(text@, *font, wrap, bounds.width as int, 0);
    let ghost target = rects_spec(text@, *font, bounds, line_height as int, wrap, align);
    proof {
        lemma_break_from_wf(text@, *font, wrap, bounds.width as int, 0);
        assert(seg_pairs(segs@) == pairs);
    }
    let n = segs.len();
    let mut rects: Vec<Rect> = Vec::new();
    let mut i: usize = 0;
    let mut y: u64 = bounds.y;
    while i < n
        invariant
            0 <= i <= n,
            n == segs@.len() == pairs.len(),
            n <= text@.len() + 1,
            text@.len() <= u32::MAX,
            seg_pairs(segs@) == pairs,
            bounds.wf(),
            forall|k: int|
                0 <= k < segs@.len() ==> (#[trigger] segs@[k]).width as int == seg_width(
                    text@,
                    *font,
                    segs@[k].start as int,
                    segs@[k].end as int,
                ),
            y as int == bounds.y + i as int * line_height as int,
            rects@ + rects_from_segs(
                text@,
                *font,
                pairs,
                i as int,
                bounds,
                line_height as int,
                align,
            ) == target,
        decreases n - i,
    {
        let w = segs[i].width;
        let off = align_offset_x(align, bounds.width, w);
        proof {
            assert(pairs[i as int] == (segs@[i as int].start as int, segs@[i as int].end as int));
            assert(rects_from_segs(text@, *font, pairs, i as int, bounds, line_height as int, align)
                == seq![
                rect_for_line(
                    bounds,
                    line_height as int,
                    align,
                    seg_width(text@, *font, pairs[i as int].0, pairs[i as int].1),
                    i as int,
                ),
            ] + rects_from_segs(text@, *font, pairs, i as int + 1, bounds, line_height as int, align));
            assert(bounds.y + i as int * line_height as int + line_height as int <= u64::MAX)
                by (nonlinear_arith)
                requires
                    0 <= i as int,
                    i as int + 1 <= text@.len() + 1,
                    text@.len() <= u32::MAX,
                    0 <= line_height as int <= u32::MAX,
                    0 <= bounds.y <= u32::MAX,
            ;
        }
        let ghost rects_before = rects@;
        rects.push(Rect { x: bounds.x + off, y, width: w, height: line_height as u64 });
        proof {
            assert(rects@ =~= rects_before.push(
                rect_for_line(
                    bounds,
                    line_height as int,
                    align,
                    seg_width(text@, *font, pairs[i as int].0, pairs[i as int].1),
                    i as int,
                ),
            ));
            assert(rects@ + rects_from_segs(
                text@,
                *font,
                pairs,
                i as int + 1,
                bounds,
                line_height as int,
                align,
            ) =~= target);
        }
        proof {
            assert((i as int + 1) * line_height as int == i as int * line_height as int
                + line_height as int) by (nonlinear_arith);
        }
        y = y + line_height as u64;
        i = i + 1;
    }
    proof {
        assert(rects_from_segs(text@, *font, pairs, n as int, bounds, line_height as int, align)
            =~= Seq::<Rect>::empty());
        assert(rects@ =~= target);
    }
    rects
}

/// Every glyph of the text, wrapped to `bounds.width`, positioned inside
/// `bounds` per the engine's baseline convention. The same inputs always
/// yield the same glyphs.
pub fn positioned_glyphs(
    text: &str,
    bounds: Rect,
    font: &FontMetrics,
    line_height: u32,
    wrap: Wrap,
    align: Align,
) -> (gl: Vec<GlyphInstance>)
    requires
        text_measurable(text@, *font),
        bounds.wf(),
    ensures
        gl@ == glyphs_spec(text@, *font, bounds, line_height as int, wrap, align),
{
    let chars = chars_of(text);
    let segs = break_line_ranges(&chars, font, wrap, bounds.width);
    let ghost pairs = break_from(text@, *font, wrap, bounds.width as int, 0);
    let ghost target = glyphs_spec(text@, *font, bounds, line_height as int, wrap, align);
    proof {
        lemma_break_from_wf(text@, *font, wrap, bounds.width as int, 0);
        assert(seg_pairs(segs@) == pairs);
    }
    let n = segs.len();
    let mut gl: Vec<GlyphInstance> = Vec::new();
    let mut i: usize = 0;
    let mut line_top: u64 = bounds.y;
    while i < n
        invariant
            0 <= i <= n,
            n == segs@.len() == pairs.len(),
            n <= text@.len() + 1,
            text_measurable(text@, *font),
            seg_pairs(segs@) == pairs,
            bounds.wf(),
            chars@ == text@,
            forall|k: int|
                0 <= k < segs@.len() ==> (#[trigger] segs@[k]).width as int == seg_width(
                    text@,
                    *font,
                    segs@[k].start as int,
                    segs@[k].end as int,
                ),
            forall|k: int|
                0 <= k < pairs.len() ==> 0 <= (#[trigger] pairs[k]).0 <= pairs[k].1 <= text@.len(),
            line_top as int == bounds.y + i as int * line_height as int,
            target == glyphs_spec(text@, *font, bounds, line_height as int, wrap, align),
            gl@ + glyphs_from_segs(
                text@,
                *font,
                pairs,
                i as int,
                bounds,
                line_height as int,
                align,
            ) == target,
        decreases n - i,
    {
        let seg = segs[i];
        let a = seg.start;
        let b = seg.end;
        let w = seg.width;
        let off = align_offset_x(align, bounds.width, w);
        let x0: u64 = bounds.x + off;
        proof {
            assert(pairs[i as int] == (a as int, b as int));
            assert(bounds.y + i as int * line_height as int + font.v.ascent <= u64::MAX)
                by (nonlinear_arith)
                requires
                    0 <= i as int <= text@.len(),
                    text@.len() <= u32::MAX,
                    0 <= line_height as int <= u32::MAX,
                    0 <= bounds.y <= u32::MAX,
                    0 <= font.v.ascent <= u32::MAX,
            ;
            assert(bounds.y + i as int * line_height as int + line_height as int <= u64::MAX)
                by (nonlinear_arith)
                requires
                    0 <= i as int,
                    i as int + 1 <= text@.len() + 1,
                    text@.len() <= u32::MAX,
                    0 <= line_height as int <= u32::MAX,
                    0 <= bounds.y <= u32::MAX,
            ;
        }
        let base: u64 = line_top + font.v.ascent as u64;
        let ghost x0i = bounds.x + align_offset(
            align,
            bounds.width as int,
            seg_width(text@, *font, a as int, b as int),
        );
        let ghost seg_glyphs = glyphs_for_seg(text@, *font, a as int, b as int, x0i, base as int);
        proof {
            lemma_glyphs_for_seg_index(text@, *font, a as int, b as int, x0i, base as int);
            assert(glyphs_from_segs(text@, *font, pairs, i as int, bounds, line_height as int, align)
                == seg_glyphs + glyphs_from_segs(
                text@,
                *font,
                pairs,
                i as int + 1,
                bounds,
                line_height as int,
                align,
            ));
        }
        let ghost gl_before = gl@;
        let mut j: usize = a;
        let mut x: u64 = x0;
        while j < b
            invariant
                a <= j <= b <= chars@.len(),
                chars@ == text@,
                text_measurable(text@, *font),
                x as int == x0i + seg_width(text@, *font, a as int, j as int),
                x0i == bounds.x + align_offset(
                    align,
                    bounds.width as int,
                    seg_width(text@, *font, a as int, b as int),
                ),
                bounds.wf(),
                x0i <= bounds.x + bounds.width,
                base <= u64::MAX,
                seg_glyphs == glyphs_for_seg(text@, *font, a as int, b as int, x0i, base as int),
                seg_glyphs.len() == b - a,
                forall|k: int|
                    0 <= k < b - a ==> seg_glyphs[k] == (GlyphInstance {
                        glyph: glyph_id_of(*font, text@[a + k]),
                        x: (x0i + seg_width(text@, *font, a as int, a as int + k)) as u64,
                        y: base,
                    }),
                gl@ == gl_before + seg_glyphs.take(j - a),
            decreases b - j,
        {
            let c = chars[j];
            let g = font.glyph_id(c);
            proof {
                lemma_width_sub(text@, *font, 0, a as int, j as int, text@.len() as int);
                lemma_width_sub(text@, *font, 0, a as int, j as int + 1, text@.len() as int);
                assert(seg_width(text@, *font, j as int + 1, j as int + 1) == 0);
                assert(seg_width(text@, *font, j as int, j as int + 1) == advance_of(
                    *font,
                    text@[j as int],
                ));
                crate::wrap::lemma_width_split(
                    text@,
                    *font,
                    a as int,
                    j as int,
                    j as int + 1,
                );
            }
            gl.push(GlyphInstance { glyph: g, x, y: base });
            proof {
                assert(seg_glyphs.take(j as int - a + 1) =~= seg_glyphs.take(j as int - a).push(
                    seg_glyphs[j as int - a],
                ));
                assert(gl@ =~= gl_before + seg_glyphs.take(j as int - a + 1));
            }
            x = x + font.advance_width(c) as u64;
            j = j + 1;
        }
        proof {
            assert(seg_glyphs.take(b as int - a as int) =~= seg_glyphs);
            assert(gl@ + glyphs_from_segs(
                text@,
                *font,
                pairs,
                i as int + 1,
                bounds,
                line_height as int,
                align,
            ) =~= target);
        }
        proof {
            assert((i as int + 1) * line_height as int == i as int * line_height as int
                + line_height as int) by (nonlinear_arith);
        }
        line_top = line_top + line_height as u64;
        i = i + 1;
    }
    proof {
        assert(glyphs_from_segs(text@, *font, pairs, n as int, bounds, line_height as int, align)
            =~= Seq::<GlyphInstance>::empty());
        assert(gl@ =~= target);
    }
    gl
}

} // verus!

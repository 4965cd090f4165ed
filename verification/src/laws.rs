//! Engine-wide laws, proved once and for all over the line breaker's
//! greedy specification: reassembling the segments gives the text back,
//! unwrapped text ignores the available width, and widening the bounds
//! never adds lines under character wrapping.

use vstd::prelude::*;
use crate::font::{FontMetrics, advance_of};
use crate::wrap::{
    Wrap, break_from, fit_from, hard_end, is_hard_break, is_last_line, is_soft_break,
    last_soft, lemma_break_from_wf, lemma_fit_from, lemma_hard_end, lemma_last_soft,
    lemma_line_next, lemma_width_nonneg, lemma_width_split, lemma_width_sub, line_count,
    line_count_from, line_next, seg_width,
};

verus! {

/// The text a segment sequence stands for: each segment's codepoint range,
/// followed by the one break character the segment consumed, when the next
/// segment starts one past this segment's end.
pub open spec fn reassemble(text: Seq<char>, segs: Seq<(int, int)>) -> Seq<char>
    decreases segs.len(),
{
    if segs.len() == 0 {
        Seq::empty()
    } else {
        let a = segs[0].0;
        let b = segs[0].1;
        let chunk = text.subrange(a, b);
        let glued = if segs.len() > 1 && segs[1].0 == b + 1 {
            chunk + seq![text[b]]
        } else {
            chunk
        };
        glued + reassemble(text, segs.drop_first())
    }
}

proof fn lemma_reassemble_from(text: Seq<char>, font: FontMetrics, wrap: Wrap, max_w: int, p: int)
    requires
        0 <= p <= text.len(),
        max_w >= 0,
    ensures
        reassemble(text, break_from(text, font, wrap, max_w, p)) == text.subrange(
            p,
            text.len() as int,
        ),
    decreases text.len() - p,
{
    let s = break_from(text, font, wrap, max_w, p);
    let (end, next) = line_next(text, font, wrap, max_w, p);
    lemma_line_next(text, font, wrap, max_w, p);
    if is_last_line(text, end, next) {
        assert(s =~= seq![(p, end)]);
        assert(s.drop_first() =~= Seq::<(int, int)>::empty());
        assert(reassemble(text, Seq::<(int, int)>::empty()) == Seq::<char>::empty());
        assert(reassemble(text, s) == text.subrange(p, end) + Seq::<char>::empty());
        assert(text.subrange(p, end) + Seq::<char>::empty() =~= text.subrange(
            p,
            text.len() as int,
        ));
    } else {
        lemma_reassemble_from(text, font, wrap, max_w, next);
        let rest = break_from(text, font, wrap, max_w, next);
        lemma_break_from_wf(text, font, wrap, max_w, next);
        assert(s =~= seq![(p, end)] + rest);
        assert(s[0] == (p, end));
        assert(s.len() > 1);
        assert(s[1] == rest[0]);
        assert(s[1].0 == next);
        assert(s.drop_first() =~= rest);
        if next == end + 1 {
            assert(reassemble(text, s) == (text.subrange(p, end) + seq![text[end]]) + reassemble(
                text,
                rest,
            ));
            assert((text.subrange(p, end) + seq![text[end]]) + text.subrange(
                next,
                text.len() as int,
            ) =~= text.subrange(p, text.len() as int));
        } else {
            assert(next == end);
            assert(reassemble(text, s) == text.subrange(p, end) + reassemble(text, rest));
            assert(text.subrange(p, end) + text.subrange(next, text.len() as int) =~= text.subrange(
                p,
                text.len() as int,
            ));
        }
    }
}

/// Round trip: concatenating every segment's codepoint range, putting back
/// the single break character a segment consumed, reproduces the whole text
/// exactly — no codepoint is dropped or duplicated, under any wrap mode and
/// any available width.
pub proof fn lemma_round_trip(text: Seq<char>, font: FontMetrics, wrap: Wrap, max_w: int)
    requires
        max_w >= 0,
    ensures
        reassemble(text, break_from(text, font, wrap, max_w, 0)) == text,
{
    lemma_reassemble_from(text, font, wrap, max_w, 0);
    assert(text.subrange(0, text.len() as int) =~= text);
}

/// The canonical whitespace-wrap scenario, in general: a text of two words
/// separated by one soft-break character at position `sp`, measured at
/// exactly the first word's width, wraps into exactly two lines — the
/// first word, whose measured width is exactly the available width, and
/// the second word. Two assumptions the scenario needs: the separator's
/// advance is positive (with a zero-advance separator the whole text fits
/// on one line), and the second word is no wider than the first (else it
/// would wrap further).
pub proof fn lemma_two_word_wrap_scenario(text: Seq<char>, font: FontMetrics, sp: int)
    requires
        0 <= sp < text.len(),
        is_soft_break(text[sp]),
        forall|k: int|
            0 <= k < text.len() && k != sp ==> !is_soft_break(#[trigger] text[k])
                && !is_hard_break(text[k]),
        advance_of(font, text[sp]) > 0,
        seg_width(text, font, sp + 1, text.len() as int) <= seg_width(text, font, 0, sp),
    ensures
        ({
            let w = seg_width(text, font, 0, sp);
            let s = break_from(text, font, Wrap::Whitespace, w, 0);
            s.len() == 2 && s[0] == (0int, sp) && s[1] == (sp + 1, text.len() as int)
        }),
{
    let len = text.len() as int;
    let w = seg_width(text, font, 0, sp);
    lemma_width_nonneg(text, font, 0, sp);
    lemma_width_nonneg(text, font, sp + 1, len);
    assert(!is_hard_break(text[sp]));
    lemma_hard_end_at(text, 0, len);
    lemma_hard_end_at(text, sp + 1, len);
    // The whole text is wider than the first word: the separator advances.
    lemma_width_split(text, font, 0, sp, len);
    assert(seg_width(text, font, sp, len) == advance_of(font, text[sp]) + seg_width(
        text,
        font,
        sp + 1,
        len,
    ));
    assert(seg_width(text, font, 0, len) > w);
    // The greedy fit from the start stops exactly at the separator.
    let f = fit_from(text, font, w, 0, len);
    lemma_fit_from(text, font, w, 0, len);
    lemma_fit_max(text, font, w, 0, len, sp);
    assert(f == sp) by {
        if f > sp {
            lemma_width_split(text, font, 0, sp, sp + 1);
            assert(seg_width(text, font, sp, sp + 1) == advance_of(font, text[sp]) + seg_width(
                text,
                font,
                sp + 1,
                sp + 1,
            ));
            lemma_width_split(text, font, 0, sp + 1, f);
            lemma_width_nonneg(text, font, sp + 1, f);
            assert(seg_width(text, font, 0, f) > w);
        }
    }
    assert(last_soft(text, 0, sp) == Some(sp));
    assert(line_next(text, font, Wrap::Whitespace, w, 0) == (sp, sp + 1));
    assert(!is_last_line(text, sp, sp + 1));
    // The second line takes the rest of the text whole.
    if sp + 1 < len {
        assert(line_next(text, font, Wrap::Whitespace, w, sp + 1) == (len, len));
    }
    let s = break_from(text, font, Wrap::Whitespace, w, 0);
    assert(break_from(text, font, Wrap::Whitespace, w, sp + 1) =~= seq![(sp + 1, len)]);
    assert(s =~= seq![(0int, sp)] + seq![(sp + 1, len)]);
}

/// The number of explicit newlines at or after position `p`.
pub open spec fn newline_count(text: Seq<char>, p: int) -> int
    decreases text.len() - p,
{
    if p >= text.len() {
        0
    } else {
        (if is_hard_break(text[p]) {
            1int
        } else {
            0int
        }) + newline_count(text, p + 1)
    }
}

proof fn lemma_newline_count_skip(text: Seq<char>, p: int, h: int)
    requires
        0 <= p <= h <= text.len(),
        forall|k: int| p <= k < h ==> !is_hard_break(#[trigger] text[k]),
    ensures
        newline_count(text, p) == newline_count(text, h),
    decreases h - p,
{
    if p < h {
        lemma_newline_count_skip(text, p + 1, h);
    }
}

proof fn lemma_nowrap_count(text: Seq<char>, font: FontMetrics, max_w: int, p: int)
    requires
        0 <= p <= text.len(),
        max_w >= 0,
    ensures
        line_count_from(text, font, Wrap::NoWrap, max_w, p) == 1 + newline_count(text, p),
    decreases text.len() - p,
{
    let (end, next) = line_next(text, font, Wrap::NoWrap, max_w, p);
    lemma_line_next(text, font, Wrap::NoWrap, max_w, p);
    let s = break_from(text, font, Wrap::NoWrap, max_w, p);
    if p == text.len() {
        assert(s =~= seq![(p, end)]);
    } else {
        let h = hard_end(text, p);
        lemma_hard_end(text, p);
        assert(end == h);
        lemma_newline_count_skip(text, p, h);
        if is_last_line(text, end, next) {
            assert(s =~= seq![(p, end)]);
            assert(h == text.len());
            assert(newline_count(text, h) == 0);
        } else {
            assert(h < text.len() && next == h + 1);
            lemma_nowrap_count(text, font, max_w, next);
            assert(s =~= seq![(p, end)] + break_from(text, font, Wrap::NoWrap, max_w, next));
            assert(newline_count(text, h) == 1 + newline_count(text, h + 1));
        }
    }
}

/// With wrapping disabled the line count is one more than the number of
/// explicit newlines, whatever the available width — so the measured text
/// height is the same at every width.
pub proof fn lemma_no_wrap_ignores_width(text: Seq<char>, font: FontMetrics, wa: int, wb: int)
    requires
        wa >= 0,
        wb >= 0,
    ensures
        line_count(text, font, Wrap::NoWrap, wa) == 1 + newline_count(text, 0),
        line_count(text, font, Wrap::NoWrap, wa) == line_count(text, font, Wrap::NoWrap, wb),
{
    lemma_nowrap_count(text, font, wa, 0);
    lemma_nowrap_count(text, font, wb, 0);
}

/// Idempotence of positioning: the glyph layout is a pure function of the
/// text, font table, bounds, line height, wrap mode and alignment — two
/// results of identical inputs are identical, with no hidden state.
pub proof fn lemma_positioned_glyphs_idempotent(
    text: Seq<char>,
    font: FontMetrics,
    bounds: crate::geom::Rect,
    line_height: int,
    wrap: Wrap,
    align: crate::layout::Align,
    g1: Seq<crate::layout::GlyphInstance>,
    g2: Seq<crate::layout::GlyphInstance>,
)
    requires
        g1 == crate::layout::glyphs_spec(text, font, bounds, line_height, wrap, align),
        g2 == crate::layout::glyphs_spec(text, font, bounds, line_height, wrap, align),
    ensures
        g1 == g2,
{
}

proof fn lemma_hard_end_at(text: Seq<char>, p: int, h: int)
    requires
        0 <= p <= h <= text.len(),
        forall|k: int| p <= k < h ==> !is_hard_break(#[trigger] text[k]),
        h < text.len() ==> is_hard_break(text[h]),
    ensures
        hard_end(text, p) == h,
    decreases h - p,
{
    if p < h {
        lemma_hard_end_at(text, p + 1, h);
    }
}

proof fn lemma_hard_end_mono(text: Seq<char>, p1: int, p2: int)
    requires
        0 <= p1 <= p2 <= text.len(),
    ensures
        hard_end(text, p1) <= hard_end(text, p2),
    decreases p2 - p1,
{
    if p1 < p2 {
        lemma_hard_end(text, p2);
        if !is_hard_break(text[p1]) {
            lemma_hard_end_mono(text, p1 + 1, p2);
        }
    }
}

/// The greedy fit is maximal: anything that fits ends at or before it.
proof fn lemma_fit_max(text: Seq<char>, font: FontMetrics, max_w: int, p: int, h: int, g: int)
    requires
        0 <= p <= h <= text.len(),
        max_w >= 0,
        p <= g <= h,
        seg_width(text, font, p, g) <= max_w,
    ensures
        g <= fit_from(text, font, max_w, p, h),
{
    lemma_fit_from(text, font, max_w, p, h);
    let f = fit_from(text, font, max_w, p, h);
    if g > f {
        lemma_width_split(text, font, p, f + 1, g);
        lemma_width_nonneg(text, font, f + 1, g);
    }
}

/// Widening the available width, or starting a line later, never makes the
/// greedy break choose an earlier start for the following line; and a line
/// that was already the last one stays the last one.
proof fn lemma_next_mono(text: Seq<char>, font: FontMetrics, w1: int, w2: int, p1: int, p2: int)
    requires
        0 <= p1 <= p2 <= text.len(),
        0 <= w1 <= w2,
    ensures
        ({
            let (end1, next1) = line_next(text, font, Wrap::Character, w1, p1);
            let (end2, next2) = line_next(text, font, Wrap::Character, w2, p2);
            next1 <= next2 && (is_last_line(text, end1, next1) ==> is_last_line(text, end2, next2))
        }),
{
    let len = text.len() as int;
    lemma_line_next(text, font, Wrap::Character, w1, p1);
    lemma_line_next(text, font, Wrap::Character, w2, p2);
    if p2 == len {
    } else {
        let h1 = hard_end(text, p1);
        let h2 = hard_end(text, p2);
        lemma_hard_end(text, p1);
        lemma_hard_end(text, p2);
        lemma_hard_end_mono(text, p1, p2);
        if seg_width(text, font, p1, h1) <= w1 {
            // Line 1 is a hard-break (or final) line.
            if h1 >= p2 {
                lemma_hard_end_at(text, p2, h1);
                assert(h2 == h1);
                lemma_width_sub(text, font, p1, p2, h1, h1);
                assert(seg_width(text, font, p2, h2) <= w2);
            } else {
                // Line 1 ends before p2 even starts.
                assert(!is_last_line(text, h1, h1 + 1));
            }
        } else {
            // Line 1 must soft-break.
            lemma_width_nonneg(text, font, p1, p1);
            assert(h1 > p1) by {
                if h1 == p1 {
                    assert(seg_width(text, font, p1, h1) == 0);
                }
            }
            let f1 = fit_from(text, font, w1, p1, h1);
            lemma_fit_from(text, font, w1, p1, h1);
            assert(f1 < h1) by {
                if f1 == h1 {
                    assert(seg_width(text, font, p1, f1) <= w1);
                }
            }
            let e1 = if f1 > p1 {
                f1
            } else {
                p1 + 1
            };
            let u1 = if e1 < h1 {
                e1
            } else {
                h1 - 1
            };
            lemma_last_soft(text, p1, u1);
            if seg_width(text, font, p2, h2) <= w2 {
                // Line 2 is a hard-break (or final) line ending at h2 >= h1.
                match last_soft(text, p1, u1) {
                    Some(r1) => {
                        assert(r1 + 1 <= u1 + 1 <= h1 <= h2);
                    },
                    None => {
                        assert(e1 <= h1 <= h2);
                        if e1 == len {
                            assert(h1 == len && h2 == len);
                            assert(is_last_line(text, h2, len));
                        }
                    },
                }
            } else {
                // Both lines soft-break.
                lemma_width_nonneg(text, font, p2, p2);
                assert(h2 > p2) by {
                    if h2 == p2 {
                        assert(seg_width(text, font, p2, h2) == 0);
                    }
                }
                let f2 = fit_from(text, font, w2, p2, h2);
                lemma_fit_from(text, font, w2, p2, h2);
                assert(f2 < h2) by {
                    if f2 == h2 {
                        assert(seg_width(text, font, p2, f2) <= w2);
                    }
                }
                let e2 = if f2 > p2 {
                    f2
                } else {
                    p2 + 1
                };
                let u2 = if e2 < h2 {
                    e2
                } else {
                    h2 - 1
                };
                lemma_last_soft(text, p2, u2);
                // e1 <= e2.
                if f1 > p2 {
                    lemma_width_sub(text, font, p1, p2, f1, f1);
                    lemma_fit_max(text, font, w2, p2, h2, f1);
                }
                assert(e1 <= e2);
                // u1 <= u2.
                assert(u1 <= u2) by {
                    if e1 < h1 {
                        if e2 < h2 {
                        } else {
                            assert(e1 < h2);
                        }
                    }
                }
                match last_soft(text, p1, u1) {
                    Some(r1) => {
                        match last_soft(text, p2, u2) {
                            Some(r2) => {
                                if r1 >= p2 {
                                    assert(r1 <= u2);
                                    assert(r1 <= r2) by {
                                        if r1 > r2 {
                                            assert(!is_soft_break(text[r1]));
                                        }
                                    }
                                }
                            },
                            None => {
                                assert(r1 < p2) by {
                                    if r1 >= p2 {
                                        assert(r1 <= u2);
                                        assert(!is_soft_break(text[r1]));
                                    }
                                }
                            },
                        }
                    },
                    None => {
                        match last_soft(text, p2, u2) {
                            Some(r2) => {
                                assert(r2 > u1) by {
                                    if r2 <= u1 {
                                        assert(p1 <= r2 <= u1);
                                        assert(!is_soft_break(text[r2]));
                                    }
                                }
                                if e1 == len {
                                    // Impossible: both searches cover the
                                    // same single position.
                                    assert(h1 == len && h2 == len);
                                    assert(p1 + 1 == len) by {
                                        if f1 == len {
                                            assert(seg_width(text, font, p1, f1) <= w1);
                                        }
                                    }
                                    assert(u1 == p1 && p2 == p1 && u2 <= u1);
                                    assert(false);
                                }
                            },
                            None => {
                                if e1 == len {
                                    assert(h1 == len && h2 == len);
                                    assert(e2 >= e1);
                                    assert(is_last_line(text, e2, e2));
                                }
                            },
                        }
                    },
                }
            }
        }
    }
}

proof fn lemma_count_mono(text: Seq<char>, font: FontMetrics, w1: int, w2: int, p1: int, p2: int)
    requires
        0 <= p1 <= p2 <= text.len(),
        0 <= w1 <= w2,
    ensures
        break_from(text, font, Wrap::Character, w2, p2).len() <= break_from(
            text,
            font,
            Wrap::Character,
            w1,
            p1,
        ).len(),
    decreases text.len() - p1,
{
    let (end1, next1) = line_next(text, font, Wrap::Character, w1, p1);
    let (end2, next2) = line_next(text, font, Wrap::Character, w2, p2);
    lemma_line_next(text, font, Wrap::Character, w1, p1);
    lemma_line_next(text, font, Wrap::Character, w2, p2);
    lemma_next_mono(text, font, w1, w2, p1, p2);
    if is_last_line(text, end1, next1) {
        assert(is_last_line(text, end2, next2));
    } else if is_last_line(text, end2, next2) {
        assert(break_from(text, font, Wrap::Character, w1, p1).len() >= 1);
    } else {
        lemma_count_mono(text, font, w1, w2, next1, next2);
    }
}

/// Monotonicity of wrapping: under character wrap, widening the available
/// width never increases the number of lines, so the measured text height
/// `line_count * line_height` never grows as the width grows.
pub proof fn lemma_character_wrap_monotonic(
    text: Seq<char>,
    font: FontMetrics,
    w1: int,
    w2: int,
    line_height: u32,
)
    requires
        0 <= w1 <= w2,
    ensures
        line_count(text, font, Wrap::Character, w2) <= line_count(text, font, Wrap::Character, w1),
        line_count(text, font, Wrap::Character, w2) * line_height <= line_count(
            text,
            font,
            Wrap::Character,
            w1,
        ) * line_height,
{
    lemma_count_mono(text, font, w1, w2, 0, 0);
    let c1 = line_count(text, font, Wrap::Character, w1);
    let c2 = line_count(text, font, Wrap::Character, w2);
    assert(c2 * line_height <= c1 * line_height) by (nonlinear_arith)
        requires
            c2 <= c1,
            line_height >= 0,
    ;
}

} // verus!

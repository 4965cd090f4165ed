//! The line breaker: splits a text into visual line segments so that each
//! segment's rendered width stays within the available width, or is a single
//! unsplittable unit that is allowed to overflow.
//!
//! The policy, fixed by `line_next`, is greedy left-to-right filling:
//! - an explicit `'\n'` always ends a line, whatever the width;
//! - `Wrap::NoWrap` breaks at explicit newlines only;
//! - `Wrap::Whitespace` breaks only at soft-break characters (space or tab);
//!   a single word wider than the limit is kept whole and overflows;
//! - `Wrap::Character` breaks after the last codepoint that still fits,
//!   preferring the last soft-break character at or before that point.
//! The break character itself (newline or soft break) is consumed: it belongs
//! to no segment. A mid-word character break consumes nothing. Empty text
//! yields exactly one zero-width segment, and a zero available width
//! degenerates to one unit per line rather than failing.

use vstd::prelude::*;
use vstd::string::*;
use crate::font::{FontMetrics, advance_of};

verus! {

/// The wrap policy controlling where a line may be broken.
#[derive(Clone, Copy, PartialEq, Eq, Structural, Debug)]
pub enum Wrap {
    /// Break at explicit newlines only.
    NoWrap,
    /// Break at whitespace boundaries only; long words overflow.
    Whitespace,
    /// Break at any codepoint boundary, preferring whitespace.
    Character,
}

/// One visual line: the half-open codepoint range `[start, end)` of the
/// source text, and its measured width in layout units.
#[derive(Clone, Copy, PartialEq, Eq, Structural, Debug)]
pub struct LineSegment {
    pub start: usize,
    pub end: usize,
    pub width: u64,
}

/// Characters at which `Wrap::Whitespace` may break, and which a break
/// consumes: space and tab.
pub open spec fn is_soft_break(c: char) -> bool {
    c == ' ' || c == '\t'
}

/// The explicit line terminator.
pub open spec fn is_hard_break(c: char) -> bool {
    c == '\n'
}

pub open spec fn is_break_char(c: char) -> bool {
    is_soft_break(c) || is_hard_break(c)
}

/// The rendered width of the codepoint range `[i, j)`: the sum of the
/// advances of its codepoints.
pub open spec fn seg_width(text: Seq<char>, font: FontMetrics, i: int, j: int) -> int
    decreases j - i,
{
    if i >= j {
        0
    } else {
        advance_of(font, text[i]) + seg_width(text, font, i + 1, j)
    }
}

pub proof fn lemma_width_nonneg(text: Seq<char>, font: FontMetrics, i: int, j: int)
    ensures
        seg_width(text, font, i, j) >= 0,
    decreases j - i,
{
    if i < j {
        lemma_width_nonneg(text, font, i + 1, j);
    }
}

pub proof fn lemma_width_split(text: Seq<char>, font: FontMetrics, i: int, m: int, j: int)
    requires
        i <= m <= j,
    ensures
        seg_width(text, font, i, j) == seg_width(text, font, i, m) + seg_width(text, font, m, j),
    decreases m - i,
{
    if i < m {
        lemma_width_split(text, font, i + 1, m, j);
    }
}

/// A sub-range weighs no more than the range around it.
pub proof fn lemma_width_sub(text: Seq<char>, font: FontMetrics, i: int, i2: int, j2: int, j: int)
    requires
        i <= i2 <= j2 <= j,
    ensures
        seg_width(text, font, i2, j2) <= seg_width(text, font, i, j),
{
    lemma_width_split(text, font, i, i2, j);
    lemma_width_split(text, font, i2, j2, j);
    lemma_width_nonneg(text, font, i, i2);
    lemma_width_nonneg(text, font, j2, j);
}

/// The texts this engine can measure without leaving `u64` arithmetic:
/// the codepoint count and the total advance width each fit in 32 bits.
pub open spec fn text_measurable(text: Seq<char>, font: FontMetrics) -> bool {
    text.len() <= u32::MAX && seg_width(text, font, 0, text.len() as int) <= u32::MAX
}

/// The end of the line that unbroken text starting at `p` would have: the
/// position of the next explicit newline, or the end of the text.
pub open spec fn hard_end(text: Seq<char>, p: int) -> int
    decreases text.len() - p,
{
    if p >= text.len() {
        text.len() as int
    } else if is_hard_break(text[p]) {
        p
    } else {
        hard_end(text, p + 1)
    }
}

pub proof fn lemma_hard_end(text: Seq<char>, p: int)
    requires
        0 <= p <= text.len(),
    ensures
        p <= hard_end(text, p) <= text.len(),
        hard_end(text, p) < text.len() ==> is_hard_break(text[hard_end(text, p)]),
        forall|k: int| p <= k < hard_end(text, p) ==> !is_hard_break(#[trigger] text[k]),
    decreases text.len() - p,
{
    if p < text.len() && !is_hard_break(text[p]) {
        lemma_hard_end(text, p + 1);
    }
}

/// Greedy fill: starting from position `e` with accumulated width `acc`,
/// the first position at which adding the next codepoint would exceed
/// `max_w` (or `h`, when everything up to `h` fits).
pub open spec fn fit_end(
    text: Seq<char>,
    font: FontMetrics,
    max_w: int,
    acc: int,
    e: int,
    h: int,
) -> int
    decreases h - e,
{
    if e >= h {
        e
    } else if acc + advance_of(font, text[e]) <= max_w {
        fit_end(text, font, max_w, acc + advance_of(font, text[e]), e + 1, h)
    } else {
        e
    }
}

/// The longest prefix of `[p, h)` whose width fits in `max_w`.
pub open spec fn fit_from(text: Seq<char>, font: FontMetrics, max_w: int, p: int, h: int) -> int {
    fit_end(text, font, max_w, 0, p, h)
}

proof fn lemma_fit_end(text: Seq<char>, font: FontMetrics, max_w: int, p: int, e: int, h: int)
    requires
        0 <= p <= e <= h <= text.len(),
        seg_width(text, font, p, e) <= max_w,
    ensures
        ({
            let f = fit_end(text, font, max_w, seg_width(text, font, p, e), e, h);
            e <= f <= h && seg_width(text, font, p, f) <= max_w && (f < h ==> seg_width(
                text,
                font,
                p,
                f + 1,
            ) > max_w)
        }),
    decreases h - e,
{
    if e < h {
        lemma_width_split(text, font, p, e, e + 1);
        assert(seg_width(text, font, e, e + 1) == advance_of(font, text[e]) + seg_width(
            text,
            font,
            e + 1,
            e + 1,
        ));
        if seg_width(text, font, p, e) + advance_of(font, text[e]) <= max_w {
            lemma_fit_end(text, font, max_w, p, e + 1, h);
        }
    }
}

pub proof fn lemma_fit_from(text: Seq<char>, font: FontMetrics, max_w: int, p: int, h: int)
    requires
        0 <= p <= h <= text.len(),
        max_w >= 0,
    ensures
        ({
            let f = fit_from(text, font, max_w, p, h);
            p <= f <= h && seg_width(text, font, p, f) <= max_w && (f < h ==> seg_width(
                text,
                font,
                p,
                f + 1,
            ) > max_w)
        }),
{
    lemma_fit_end(text, font, max_w, p, p, h);
}

/// The last soft-break character in `[p, u]`, if any.
pub open spec fn last_soft(text: Seq<char>, p: int, u: int) -> Option<int>
    decreases u - p + 1,
{
    if u < p {
        None
    } else if is_soft_break(text[u]) {
        Some(u)
    } else {
        last_soft(text, p, u - 1)
    }
}

pub proof fn lemma_last_soft(text: Seq<char>, p: int, u: int)
    ensures
        match last_soft(text, p, u) {
            Some(r) => p <= r <= u && is_soft_break(text[r]) && forall|k: int|
                r < k <= u ==> !is_soft_break(#[trigger] text[k]),
            None => forall|k: int| p <= k <= u ==> !is_soft_break(#[trigger] text[k]),
        },
    decreases u - p + 1,
{
    if u >= p && !is_soft_break(text[u]) {
        lemma_last_soft(text, p, u - 1);
    }
}

/// The end of the word that starts at or before `e`: the first soft break at
/// or after `e`, capped at `h`.
pub open spec fn word_end(text: Seq<char>, e: int, h: int) -> int
    decreases h - e,
{
    if e >= h {
        h
    } else if is_soft_break(text[e]) {
        e
    } else {
        word_end(text, e + 1, h)
    }
}

pub proof fn lemma_word_end(text: Seq<char>, e: int, h: int)
    requires
        0 <= e <= h <= text.len(),
    ensures
        e <= word_end(text, e, h) <= h,
        word_end(text, e, h) < h ==> is_soft_break(text[word_end(text, e, h)]),
        forall|k: int| e <= k < word_end(text, e, h) ==> !is_soft_break(#[trigger] text[k]),
    decreases h - e,
{
    if e < h && !is_soft_break(text[e]) {
        lemma_word_end(text, e + 1, h);
    }
}

/// The boundary of the line starting at `p`: `(end, next)`, where `[p, end)`
/// is the line's codepoint range and `next` is where the following line
/// starts. `next == end + 1` means the break character at `end` is consumed;
/// the line is the last one exactly when `end == next == text.len()`.
pub open spec fn line_next(
    text: Seq<char>,
    font: FontMetrics,
    wrap: Wrap,
    max_w: int,
    p: int,
) -> (int, int) {
    let len = text.len() as int;
    if p >= len {
        (len, len)
    } else {
        let h = hard_end(text, p);
        if wrap == Wrap::NoWrap || seg_width(text, font, p, h) <= max_w {
            (h, if h < len {
                h + 1
            } else {
                len
            })
        } else {
            let f = fit_from(text, font, max_w, p, h);
            if wrap == Wrap::Character {
                let e = if f > p {
                    f
                } else {
                    p + 1
                };
                let u = if e < h {
                    e
                } else {
                    h - 1
                };
                match last_soft(text, p, u) {
                    Some(r) => (r, r + 1),
                    None => (e, e),
                }
            } else {
                match last_soft(text, p, f) {
                    Some(r) => (r, r + 1),
                    None => {
                        let q = word_end(text, f, h);
                        (q, if q < len {
                            q + 1
                        } else {
                            len
                        })
                    },
                }
            }
        }
    }
}

/// Whether `(end, next)` marks the last line of the text.
pub open spec fn is_last_line(text: Seq<char>, end: int, next: int) -> bool {
    end == text.len() && next == text.len()
}

/// Shape facts about one line boundary: the range is well formed, a consumed
/// character is a break character, no newline lies strictly inside the line,
/// and every non-final boundary makes progress.
pub proof fn lemma_line_next(text: Seq<char>, font: FontMetrics, wrap: Wrap, max_w: int, p: int)
    requires
        0 <= p <= text.len(),
        max_w >= 0,
    ensures
        ({
            let (end, next) = line_next(text, font, wrap, max_w, p);
            p <= end <= text.len() && end <= next <= text.len() && next <= end + 1 && (next == end
                + 1 ==> end < text.len() && is_break_char(text[end])) && (!is_last_line(
                text,
                end,
                next,
            ) ==> next > p) && (forall|k: int|
                p <= k < end ==> !is_hard_break(#[trigger] text[k]))
        }),
{
    let len = text.len() as int;
    if p < len {
        let h = hard_end(text, p);
        lemma_hard_end(text, p);
        if wrap == Wrap::NoWrap || seg_width(text, font, p, h) <= max_w {
        } else {
            lemma_width_nonneg(text, font, p, p);
            assert(seg_width(text, font, p, p) == 0);
            assert(h > p) by {
                if h == p {
                    assert(seg_width(text, font, p, h) == 0);
                }
            }
            let f = fit_from(text, font, max_w, p, h);
            lemma_fit_from(text, font, max_w, p, h);
            assert(f < h) by {
                if f == h {
                    assert(seg_width(text, font, p, f) <= max_w);
                }
            }
            if wrap == Wrap::Character {
                let e = if f > p {
                    f
                } else {
                    p + 1
                };
                let u = if e < h {
                    e
                } else {
                    h - 1
                };
                lemma_last_soft(text, p, u);
                assert(u < h);
            } else {
                lemma_last_soft(text, p, f);
                match last_soft(text, p, f) {
                    Some(r) => {}
                    None => {
                        lemma_word_end(text, f, h);
                    },
                }
            }
        }
    }
}

/// The segments of the text from `p` on, as `(start, end)` codepoint ranges,
/// under the greedy policy of `line_next`.
pub open spec fn break_from(
    text: Seq<char>,
    font: FontMetrics,
    wrap: Wrap,
    max_w: int,
    p: int,
) -> Seq<(int, int)>
    decreases text.len() - p,
    when 0 <= p <= text.len() && max_w >= 0
    via break_from_decreases
{
    let (end, next) = line_next(text, font, wrap, max_w, p);
    if is_last_line(text, end, next) {
        seq![(p, end)]
    } else {
        seq![(p, end)] + break_from(text, font, wrap, max_w, next)
    }
}

#[via_fn]
proof fn break_from_decreases(text: Seq<char>, font: FontMetrics, wrap: Wrap, max_w: int, p: int) {
    lemma_line_next(text, font, wrap, max_w, p);
}

/// Shape facts about a whole greedy break: there is at least one segment and
/// at most one per codepoint plus one; segments are ordered and sit between
/// `p` and the end of the text; the first starts at `p` and the last ends at
/// the text's end; between two segments at most one character lies, and a
/// skipped character is a consumed break character.
pub proof fn lemma_break_from_wf(text: Seq<char>, font: FontMetrics, wrap: Wrap, max_w: int, p: int)
    requires
        0 <= p <= text.len(),
        max_w >= 0,
    ensures
        ({
            let s = break_from(text, font, wrap, max_w, p);
            1 <= s.len() <= text.len() - p + 1 && s[0].0 == p && s[s.len() - 1].1 == text.len()
                && (forall|i: int|
                0 <= i < s.len() ==> p <= (#[trigger] s[i]).0 <= s[i].1 <= text.len()) && (forall|
                i: int,
            |
                0 <= i < s.len() - 1 ==> (#[trigger] s[i]).1 <= s[i + 1].0 <= s[i].1 + 1) && (
            forall|i: int|
                0 <= i < s.len() - 1 ==> ((#[trigger] s[i + 1]).0 == s[i].1 + 1 ==> s[i].1
                    < text.len() && is_break_char(text[s[i].1])))
        }),
    decreases text.len() - p,
{
    let (end, next) = line_next(text, font, wrap, max_w, p);
    lemma_line_next(text, font, wrap, max_w, p);
    let s = break_from(text, font, wrap, max_w, p);
    if is_last_line(text, end, next) {
        assert(s =~= seq![(p, end)]);
    } else {
        lemma_break_from_wf(text, font, wrap, max_w, next);
        let rest = break_from(text, font, wrap, max_w, next);
        assert(s =~= seq![(p, end)] + rest);
        assert(s[0] == (p, end));
        assert(s[1] == rest[0]);
        assert forall|i: int| 1 <= i < s.len() implies #[trigger] s[i] == rest[i - 1] by {}
    }
}

/// The number of visual lines of the text from `p` on.
pub open spec fn line_count_from(
    text: Seq<char>,
    font: FontMetrics,
    wrap: Wrap,
    max_w: int,
    p: int,
) -> int {
    break_from(text, font, wrap, max_w, p).len() as int
}

/// The number of visual lines of the whole text at the given width.
pub open spec fn line_count(text: Seq<char>, font: FontMetrics, wrap: Wrap, max_w: int) -> int {
    line_count_from(text, font, wrap, max_w, 0)
}

/// The `(start, end)` ranges of a segment vector.
pub open spec fn seg_pairs(s: Seq<LineSegment>) -> Seq<(int, int)> {
    s.map_values(|ls: LineSegment| (ls.start as int, ls.end as int))
}

/// The codepoints of a string, for random access during measuring.
pub fn chars_of(s: &str) -> (v: Vec<char>)
    ensures
        v@ == s@,
{
    let n = s.unicode_len();
    let mut v: Vec<char> = Vec::new();
    let mut i: usize = 0;
    while i < n
        invariant
            0 <= i <= n,
            n == s@.len(),
            v@ == s@.subrange(0, i as int),
        decreases n - i,
    {
        v.push(s.get_char(i));
        proof {
            assert(v@ =~= s@.subrange(0, i as int + 1));
        }
        i = i + 1;
    }
    proof {
        assert(v@ =~= s@);
    }
    v
}

fn soft_break(c: char) -> (r: bool)
    ensures
        r == is_soft_break(c),
{
    c == ' ' || c == '\t'
}

fn hard_end_x(text: &Vec<char>, p: usize) -> (h: usize)
    requires
        p <= text@.len(),
    ensures
        h as int == hard_end(text@, p as int),
{
    let n = text.len();
    let mut i: usize = p;
    while i < n
        invariant
            p <= i <= n,
            n == text@.len(),
            hard_end(text@, p as int) == hard_end(text@, i as int),
        decreases n - i,
    {
        if text[i] == '\n' {
            return i;
        }
        i = i + 1;
    }
    n
}

fn width_x(text: &Vec<char>, font: &FontMetrics, i: usize, j: usize) -> (w: u64)
    requires
        i <= j <= text@.len(),
        seg_width(text@, *font, i as int, j as int) <= u64::MAX,
    ensures
        w as int == seg_width(text@, *font, i as int, j as int),
{
    let mut acc: u64 = 0;
    let mut k: usize = i;
    while k < j
        invariant
            i <= k <= j <= text@.len(),
            seg_width(text@, *font, i as int, j as int) <= u64::MAX,
            acc as int == seg_width(text@, *font, i as int, k as int),
        decreases j - k,
    {
        let adv = font.advance_width(text[k]);
        proof {
            assert(seg_width(text@, *font, k as int + 1, k as int + 1) == 0);
            assert(seg_width(text@, *font, k as int, k as int + 1) == advance_of(
                *font,
                text@[k as int],
            ));
            lemma_width_split(text@, *font, i as int, k as int, k as int + 1);
            lemma_width_split(text@, *font, i as int, k as int + 1, j as int);
            lemma_width_nonneg(text@, *font, k as int + 1, j as int);
        }
        acc = acc + adv as u64;
        k = k + 1;
    }
    acc
}

fn fit_x(text: &Vec<char>, font: &FontMetrics, max_w: u64, p: usize, h: usize) -> (f: usize)
    requires
        p <= h <= text@.len(),
    ensures
        f as int == fit_from(text@, *font, max_w as int, p as int, h as int),
{
    let mut acc: u64 = 0;
    let mut e: usize = p;
    while e < h
        invariant
            p <= e <= h <= text@.len(),
            acc <= max_w,
            fit_from(text@, *font, max_w as int, p as int, h as int) == fit_end(
                text@,
                *font,
                max_w as int,
                acc as int,
                e as int,
                h as int,
            ),
        decreases h - e,
    {
        let adv = font.advance_width(text[e]);
        if adv as u64 <= max_w - acc {
            acc = acc + adv as u64;
            e = e + 1;
        } else {
            return e;
        }
    }
    e
}

/// Scans `[p, u]` downward for the last soft break; `p <= u` is required.
fn last_soft_x(text: &Vec<char>, p: usize, u: usize) -> (r: Option<usize>)
    requires
        p <= u < text@.len(),
    ensures
        match r {
            Some(k) => last_soft(text@, p as int, u as int) == Some(k as int),
            None => last_soft(text@, p as int, u as int) is None,
        },
{
    let mut k: usize = u;
    loop
        invariant
            p <= k <= u < text@.len(),
            last_soft(text@, p as int, u as int) == last_soft(text@, p as int, k as int),
        decreases k,
    {
        if soft_break(text[k]) {
            return Some(k);
        }
        if k == p {
            proof {
                assert(last_soft(text@, p as int, p as int - 1) is None);
            }
            return None;
        }
        k = k - 1;
    }
}

fn word_end_x(text: &Vec<char>, e: usize, h: usize) -> (q: usize)
    requires
        e <= h <= text@.len(),
    ensures
        q as int == word_end(text@, e as int, h as int),
{
    let mut i: usize = e;
    while i < h
        invariant
            e <= i <= h <= text@.len(),
            word_end(text@, e as int, h as int) == word_end(text@, i as int, h as int),
        decreases h - i,
    {
        if soft_break(text[i]) {
            return i;
        }
        i = i + 1;
    }
    h
}

fn line_next_x(text: &Vec<char>, font: &FontMetrics, wrap: Wrap, max_w: u64, p: usize) -> (r: (
    usize,
    usize,
))
    requires
        p <= text@.len(),
        text_measurable(text@, *font),
    ensures
        (r.0 as int, r.1 as int) == line_next(text@, *font, wrap, max_w as int, p as int),
        r.0 <= r.1 <= text@.len(),
        p <= r.0,
{
    let len = text.len();
    proof {
        lemma_line_next(text@, *font, wrap, max_w as int, p as int);
    }
    if p >= len {
        return (len, len);
    }
    let h = hard_end_x(text, p);
    proof {
        lemma_hard_end(text@, p as int);
        lemma_width_sub(text@, *font, 0, p as int, h as int, text@.len() as int);
    }
    let hw = width_x(text, font, p, h);
    let no_wrap = match wrap {
        Wrap::NoWrap => true,
        _ => false,
    };
    if no_wrap || hw <= max_w {
        return (h, if h < len {
            h + 1
        } else {
            len
        });
    }
    let f = fit_x(text, font, max_w, p, h);
    proof {
        lemma_fit_from(text@, *font, max_w as int, p as int, h as int);
    }
    let is_char = match wrap {
        Wrap::Character => true,
        _ => false,
    };
    if is_char {
        let e = if f > p {
            f
        } else {
            p + 1
        };
        let u = if e < h {
            e
        } else {
            h - 1
        };
        match last_soft_x(text, p, u) {
            Some(r) => (r, r + 1),
            None => (e, e),
        }
    } else {
        match last_soft_x(text, p, f) {
            Some(r) => (r, r + 1),
            None => {
                let q = word_end_x(text, f, h);
                (q, if q < len {
                    q + 1
                } else {
                    len
                })
            },
        }
    }
}

/// Breaks a text into visual line segments at the given available width.
///
/// The result is exactly the greedy break of `break_from`, and each
/// segment carries the measured width of its codepoint range.
pub fn break_lines(text: &str, font: &FontMetrics, wrap: Wrap, max_width: u64) -> (segs: Vec<
    LineSegment,
>)
    requires
        text_measurable(text@, *font),
    ensures
        seg_pairs(segs@) == break_from(text@, *font, wrap, max_width as int, 0),
        forall|i: int|
            0 <= i < segs@.len() ==> (#[trigger] segs@[i]).width as int == seg_width(
                text@,
                *font,
                segs@[i].start as int,
                segs@[i].end as int,
            ),
{
    let chars = chars_of(text);
    break_line_ranges(&chars, font, wrap, max_width)
}

/// As `break_lines`, over an already-decoded codepoint vector.
pub fn break_line_ranges(text: &Vec<char>, font: &FontMetrics, wrap: Wrap, max_width: u64) -> (segs:
    Vec<LineSegment>)
    requires
        text_measurable(text@, *font),
    ensures
        seg_pairs(segs@) == break_from(text@, *font, wrap, max_width as int, 0),
        forall|i: int|
            0 <= i < segs@.len() ==> (#[trigger] segs@[i]).width as int == seg_width(
                text@,
                *font,
                segs@[i].start as int,
                segs@[i].end as int,
            ),
{
    let ghost target = break_from(text@, *font, wrap, max_width as int, 0);
    let mut segs: Vec<LineSegment> = Vec::new();
    let mut p: usize = 0;
    let mut done = false;
    proof {
        assert(seg_pairs(segs@) =~= Seq::<(int, int)>::empty());
        assert(seg_pairs(segs@) + break_from(text@, *font, wrap, max_width as int, 0) =~= target);
    }
    while !done
        invariant
            text_measurable(text@, *font),
            p <= text@.len(),
            !done ==> target =~= seg_pairs(segs@) + break_from(
                text@,
                *font,
                wrap,
                max_width as int,
                p as int,
            ),
            done ==> target =~= seg_pairs(segs@),
            forall|i: int|
                0 <= i < segs@.len() ==> (#[trigger] segs@[i]).width as int == seg_width(
                    text@,
                    *font,
                    segs@[i].start as int,
                    segs@[i].end as int,
                ),
        decreases (if done {
            0int
        } else {
            text@.len() - p + 1
        }),
    {
        let (end, next) = line_next_x(text, font, wrap, max_width, p);
        proof {
            lemma_line_next(text@, *font, wrap, max_width as int, p as int);
            lemma_width_sub(text@, *font, 0, p as int, end as int, text@.len() as int);
        }
        let w = width_x(text, font, p, end);
        let ghost old_segs = segs@;
        segs.push(LineSegment { start: p, end, width: w });
        proof {
            assert(seg_pairs(segs@) =~= seg_pairs(old_segs).push((p as int, end as int)));
        }
        if end == text.len() && next == text.len() {
            done = true;
            proof {
                assert(break_from(text@, *font, wrap, max_width as int, p as int) =~= seq![
                    (p as int, end as int),
                ]);
                assert(target =~= seg_pairs(segs@));
            }
        } else {
            proof {
                assert(break_from(text@, *font, wrap, max_width as int, p as int) =~= seq![
                    (p as int, end as int),
                ] + break_from(text@, *font, wrap, max_width as int, next as int));
                assert(target =~= seg_pairs(segs@) + break_from(
                    text@,
                    *font,
                    wrap,
                    max_width as int,
                    next as int,
                ));
            }
            p = next;
        }
    }
    segs
}

/// Whether a text is within this engine's measuring range for a font:
/// at most `u32::MAX` codepoints, total advance width at most `u32::MAX`
/// layout units. Hosts check this before asking for a layout.
pub fn measurable(text: &str, font: &FontMetrics) -> (b: bool)
    ensures
        b == text_measurable(text@, *font),
{
    let chars = chars_of(text);
    let n = chars.len();
    if n > u32::MAX as usize {
        proof {
            assert(!text_measurable(text@, *font));
        }
        return false;
    }
    let mut acc: u64 = 0;
    let mut i: usize = 0;
    while i < n
        invariant
            0 <= i <= n,
            n == text@.len() <= u32::MAX,
            chars@ == text@,
            acc as int == seg_width(text@, *font, 0, i as int),
            acc <= u32::MAX,
        decreases n - i,
    {
        let adv = font.advance_width(chars[i]);
        proof {
            assert(seg_width(text@, *font, i as int + 1, i as int + 1) == 0);
            assert(seg_width(text@, *font, i as int, i as int + 1) == advance_of(
                *font,
                text@[i as int],
            ));
            lemma_width_split(text@, *font, 0, i as int, i as int + 1);
        }
        acc = acc + adv as u64;
        if acc > u32::MAX as u64 {
            proof {
                lemma_width_sub(text@, *font, 0, 0, i as int + 1, text@.len() as int);
            }
            return false;
        }
        i = i + 1;
    }
    true
}

} // verus!


//! Greedy word-wrap over measured word widths, and the text-height it
//! implies. The caller measures each word in pixels (with whatever font
//! metrics it has) and hands the widths in; every wrapping decision is
//! made here.

use vstd::prelude::*;

verus! {

/// All widths are non-negative (a measured advance cannot be less).
pub open spec fn spec_widths_ok(ws: Seq<int>) -> bool {
    forall|k: int| 0 <= k < ws.len() ==> #[trigger] ws[k] >= 0
}

/// Pixel width of the words `ws[s..e]` joined by single spaces of
/// width `sp`: the sum of the word widths plus one space between each
/// adjacent pair.
pub open spec fn spec_line_width(ws: Seq<int>, sp: int, s: int, e: int) -> int
    decreases e - s,
{
    if e <= s {
        0
    } else if e == s + 1 {
        ws[s]
    } else {
        spec_line_width(ws, sp, s, e - 1) + sp + ws[e - 1]
    }
}

/// Where the line starting at `s` and currently reaching `e` ends: it
/// greedily takes the next word while the joined width stays within
/// `max`; a line always holds at least one word.
pub open spec fn spec_line_end(ws: Seq<int>, sp: int, max: int, s: int, e: int) -> int
    decreases ws.len() - e,
{
    if e < 0 || e >= ws.len() {
        e
    } else if spec_line_width(ws, sp, s, e + 1) > max {
        e
    } else {
        spec_line_end(ws, sp, max, s, e + 1)
    }
}

proof fn lemma_line_end_bounds(ws: Seq<int>, sp: int, max: int, s: int, e: int)
    requires
        0 <= e <= ws.len(),
    ensures
        e <= spec_line_end(ws, sp, max, s, e) <= ws.len(),
    decreases ws.len() - e,
{
    if e >= ws.len() {
    } else if spec_line_width(ws, sp, s, e + 1) > max {
    } else {
        lemma_line_end_bounds(ws, sp, max, s, e + 1);
    }
}

/// The lines a greedy wrap of `ws[s..]` produces, as index ranges.
pub open spec fn spec_wrap(ws: Seq<int>, sp: int, max: int, s: int) -> Seq<(int, int)>
    decreases ws.len() - s,
    via spec_wrap_dec
{
    if s < 0 || s >= ws.len() {
        Seq::empty()
    } else {
        let e = spec_line_end(ws, sp, max, s, s + 1);
        seq![(s, e)] + spec_wrap(ws, sp, max, e)
    }
}

#[via_fn]
proof fn spec_wrap_dec(ws: Seq<int>, sp: int, max: int, s: int) {
    if 0 <= s < ws.len() {
        lemma_line_end_bounds(ws, sp, max, s, s + 1);
    }
}

/// The number of lines a greedy wrap produces.
pub open spec fn spec_line_count(ws: Seq<int>, sp: int, max: int) -> int {
    spec_wrap(ws, sp, max, 0).len() as int
}

/// The widths of an exec vector, as mathematical integers.
pub open spec fn spec_widths_of(v: Seq<u64>) -> Seq<int> {
    v.map_values(|w: u64| w as int)
}

/// Wraps the words with the given measured widths at `max_width`:
/// walks the words once, greedily accumulating each line while the
/// joined width stays within the limit, and flushing it when the next
/// word would exceed it. Returns each line as a half-open range of
/// word indices. Wrapping is a pure function of the widths, the space
/// width, and the limit, so repeating it gives identical lines.
pub fn wrap_lines(word_widths: &Vec<u64>, space_width: u64, max_width: u64) -> (lines: Vec<
    (usize, usize)>)
    ensures
        lines@.map_values(|p: (usize, usize)| (p.0 as int, p.1 as int)) == spec_wrap(
            spec_widths_of(word_widths@),
            space_width as int,
            max_width as int,
            0,
        ),
{
    let ghost ws = spec_widths_of(word_widths@);
    let ghost sp = space_width as int;
    let ghost max = max_width as int;
    let n = word_widths.len();
    let mut lines: Vec<(usize, usize)> = Vec::new();
    let mut s: usize = 0;
    proof {
        assert(lines@.map_values(|p: (usize, usize)| (p.0 as int, p.1 as int)) =~= Seq::<
            (int, int)>::empty());
    }
    while s < n
        invariant
            n == word_widths@.len(),
            ws == spec_widths_of(word_widths@),
            sp == space_width as int,
            max == max_width as int,
            0 <= s <= n,
            spec_wrap(ws, sp, max, 0) == lines@.map_values(
                |p: (usize, usize)| (p.0 as int, p.1 as int),
            ) + spec_wrap(ws, sp, max, s as int),
        decreases n - s,
    {
        let mut e: usize = s + 1;
        let mut cw: u64 = word_widths[s];
        let mut done = false;
        proof {
            assert(cw as int == spec_line_width(ws, sp, s as int, e as int));
        }
        while e < n && !done
            invariant
                n == word_widths@.len(),
                ws == spec_widths_of(word_widths@),
                sp == space_width as int,
                max == max_width as int,
                0 <= s < e <= n,
                cw as int == spec_line_width(ws, sp, s as int, e as int),
                !done ==> spec_line_end(ws, sp, max, s as int, e as int) == spec_line_end(
                    ws,
                    sp,
                    max,
                    s as int,
                    s + 1,
                ),
                done ==> e as int == spec_line_end(ws, sp, max, s as int, s + 1),
            decreases n - e, (if done { 0int } else { 1int }),
        {
            let w = word_widths[e];
            let exceeds = w > max_width || space_width > max_width - w || cw > max_width - w
                - space_width;
            proof {
                assert(spec_line_width(ws, sp, s as int, e + 1) == cw as int + sp + ws[e as int]);
                assert(exceeds == (spec_line_width(ws, sp, s as int, e + 1) > max));
            }
            if exceeds {
                done = true;
            } else {
                cw = cw + space_width + w;
                e = e + 1;
            }
        }
        proof {
            if !done {
                assert(e == n);
                assert(spec_line_end(ws, sp, max, s as int, e as int) == e as int);
            }
            assert(e as int == spec_line_end(ws, sp, max, s as int, s + 1));
        }
        let ghost prev = lines@.map_values(|p: (usize, usize)| (p.0 as int, p.1 as int));
        lines.push((s, e));
        proof {
            assert(lines@.map_values(|p: (usize, usize)| (p.0 as int, p.1 as int)) =~= prev
                + seq![(s as int, e as int)]);
            assert(spec_wrap(ws, sp, max, s as int) == seq![(s as int, e as int)] + spec_wrap(
                ws,
                sp,
                max,
                e as int,
            ));
        }
        s = e;
    }
    proof {
        assert(spec_wrap(ws, sp, max, s as int) =~= Seq::<(int, int)>::empty());
        assert(spec_wrap(ws, sp, max, 0) =~= lines@.map_values(
            |p: (usize, usize)| (p.0 as int, p.1 as int),
        ));
    }
    lines
}

/// The height of a wrapped text block: one and a half times the font
/// size for each line (halving rounds down).
pub open spec fn spec_text_height(ws: Seq<int>, sp: int, max: int, font_size: int) -> int {
    spec_line_count(ws, sp, max) * (font_size + font_size / 2)
}

/// The vertical distance between successive wrapped lines: one and a
/// half times the font size, rounded down.
pub fn line_advance(font_size: u32) -> (r: i64)
    ensures
        r == font_size + font_size as int / 2,
{
    font_size as i64 + (font_size as i64) / 2
}

/// The wrapped lines with their placement: line `k` of the greedy
/// wrap, as its word range and the vertical offset `k` line-advances
/// below the run's top.
pub fn wrap_lines_with_offsets(
    word_widths: &Vec<u64>,
    space_width: u64,
    max_width: u64,
    font_size: u32,
) -> (lines: Vec<(usize, usize, i64)>)
    requires
        word_widths@.len() <= 0x1_0000_0000,
        font_size <= 0x1_0000,
    ensures
        ({
            let breaks = spec_wrap(
                spec_widths_of(word_widths@),
                space_width as int,
                max_width as int,
                0,
            );
            &&& lines@.len() == breaks.len()
            &&& forall|k: int|
                0 <= k < breaks.len() ==> ((#[trigger] lines@[k]).0 as int == breaks[k].0
                    && lines@[k].1 as int == breaks[k].1 && lines@[k].2 as int == k * (
                font_size + font_size as int / 2))
        }),
{
    let ghost breaks = spec_wrap(
        spec_widths_of(word_widths@),
        space_width as int,
        max_width as int,
        0,
    );
    let ranges = wrap_lines(word_widths, space_width, max_width);
    proof {
        assert(ranges@.map_values(|p: (usize, usize)| (p.0 as int, p.1 as int)).len()
            == ranges@.len());
        lemma_wrap_len_bound(
            spec_widths_of(word_widths@),
            space_width as int,
            max_width as int,
            0,
        );
    }
    let advance = line_advance(font_size);
    let n = ranges.len();
    let mut lines: Vec<(usize, usize, i64)> = Vec::new();
    let mut offset: i64 = 0;
    let mut k: usize = 0;
    while k < n
        invariant
            n == ranges@.len(),
            n == breaks.len(),
            n <= 0x1_0000_0000,
            0 <= advance <= 0x1_8000,
            forall|j: int|
                0 <= j < n ==> ((#[trigger] ranges@[j]).0 as int == breaks[j].0
                    && ranges@[j].1 as int == breaks[j].1),
            0 <= k <= n,
            offset == k * advance,
            lines@.len() == k,
            forall|j: int|
                0 <= j < k ==> ((#[trigger] lines@[j]).0 as int == breaks[j].0
                    && lines@[j].1 as int == breaks[j].1 && lines@[j].2 == j * advance),
        decreases n - k,
    {
        let (s, e) = ranges[k];
        lines.push((s, e, offset));
        proof {
            assert((k + 1) * advance <= 0x1_0000_0001 * 0x1_8000) by (nonlinear_arith)
                requires
                    0 <= advance <= 0x1_8000,
                    0 <= k + 1 <= 0x1_0000_0001,
            ;
            assert(offset + advance == (k + 1) * advance) by (nonlinear_arith)
                requires
                    offset == k * advance,
            ;
        }
        offset = offset + advance;
        k = k + 1;
    }
    lines
}

/// Law: at any font size, a narrower wrap limit never lowers the
/// height of a wrapped text block.
pub proof fn lemma_text_height_monotone(
    ws: Seq<int>,
    sp: int,
    max1: int,
    max2: int,
    font_size: int,
)
    requires
        spec_widths_ok(ws),
        sp >= 0,
        max2 <= max1,
        font_size >= 0,
    ensures
        spec_text_height(ws, sp, max2, font_size) >= spec_text_height(ws, sp, max1, font_size),
{
    lemma_wrap_width_monotone(ws, sp, max1, max2, 0);
    let c1 = spec_wrap(ws, sp, max1, 0).len() as int;
    let c2 = spec_wrap(ws, sp, max2, 0).len() as int;
    let lh = font_size + font_size / 2;
    assert(c2 * lh >= c1 * lh) by (nonlinear_arith)
        requires
            c2 >= c1,
            lh >= 0,
    ;
}

/// Computes the pixel height that drawing the words at the given font
/// size and wrap limit takes.
pub fn calculate_text_height(
    word_widths: &Vec<u64>,
    space_width: u64,
    font_size: u64,
    max_width: u64,
) -> (h: u64)
    requires
        word_widths@.len() <= 0x1_0000_0000,
        font_size <= 0x1_0000,
    ensures
        h as int == spec_text_height(
            spec_widths_of(word_widths@),
            space_width as int,
            max_width as int,
            font_size as int,
        ),
{
    let lines = wrap_lines(word_widths, space_width, max_width);
    let count = lines.len() as u64;
    proof {
        assert(lines@.map_values(|p: (usize, usize)| (p.0 as int, p.1 as int)).len()
            == lines@.len());
        lemma_wrap_len_bound(
            spec_widths_of(word_widths@),
            space_width as int,
            max_width as int,
            0,
        );
    }
    let line_height = font_size + font_size / 2;
    proof {
        assert(count <= 0x1_0000_0000 && line_height <= 0x1_8000);
        assert(count * line_height <= 0x1_8000_0000_0000) by (nonlinear_arith)
            requires
                0 <= count <= 0x1_0000_0000,
                0 <= line_height <= 0x1_8000,
        ;
    }
    count * line_height
}

proof fn lemma_line_width_nonneg(ws: Seq<int>, sp: int, s: int, e: int)
    requires
        spec_widths_ok(ws),
        sp >= 0,
        0 <= s,
        e <= ws.len(),
    ensures
        spec_line_width(ws, sp, s, e) >= 0,
    decreases e - s,
{
    if e <= s || e == s + 1 {
    } else {
        lemma_line_width_nonneg(ws, sp, s, e - 1);
    }
}

/// Dropping leading words cannot widen a line: the width of `ws[s2..e]`
/// is at most that of `ws[s..e]` when `s <= s2`.
proof fn lemma_line_width_start_mono(ws: Seq<int>, sp: int, s: int, s2: int, e: int)
    requires
        spec_widths_ok(ws),
        sp >= 0,
        0 <= s <= s2,
        e <= ws.len(),
    ensures
        spec_line_width(ws, sp, s2, e) <= spec_line_width(ws, sp, s, e),
    decreases e - s2,
{
    if e <= s2 {
        lemma_line_width_nonneg(ws, sp, s, e);
    } else if s == s2 {
    } else if e == s2 + 1 {
        lemma_line_width_nonneg(ws, sp, s, e - 1);
        assert(spec_line_width(ws, sp, s, e) == spec_line_width(ws, sp, s, e - 1) + sp + ws[e - 1]);
    } else {
        lemma_line_width_start_mono(ws, sp, s, s2, e - 1);
    }
}

/// A lower wrap limit never moves a line's end later.
proof fn lemma_line_end_max_mono(ws: Seq<int>, sp: int, max1: int, max2: int, s: int, e: int)
    requires
        max2 <= max1,
        0 <= e <= ws.len(),
    ensures
        spec_line_end(ws, sp, max2, s, e) <= spec_line_end(ws, sp, max1, s, e),
    decreases ws.len() - e,
{
    if e >= ws.len() {
    } else if spec_line_width(ws, sp, s, e + 1) > max1 {
        lemma_line_end_bounds(ws, sp, max2, s, e);
    } else if spec_line_width(ws, sp, s, e + 1) > max2 {
        lemma_line_end_bounds(ws, sp, max1, s, e + 1);
    } else {
        lemma_line_end_max_mono(ws, sp, max1, max2, s, e + 1);
    }
}

/// Every prefix a line-end walk passed through stays within the limit.
proof fn lemma_line_end_widths(ws: Seq<int>, sp: int, max: int, s: int, e0: int)
    requires
        0 <= e0 <= ws.len(),
    ensures
        forall|j: int|
            e0 < j <= spec_line_end(ws, sp, max, s, e0) ==> spec_line_width(ws, sp, s, j) <= max,
    decreases ws.len() - e0,
{
    if e0 >= ws.len() {
    } else if spec_line_width(ws, sp, s, e0 + 1) > max {
    } else {
        lemma_line_end_widths(ws, sp, max, s, e0 + 1);
    }
}

/// If every step up to `t` stays within the limit, the line reaches at
/// least `t`.
proof fn lemma_line_end_extends(ws: Seq<int>, sp: int, max: int, s: int, e0: int, t: int)
    requires
        0 <= e0 <= t <= ws.len(),
        forall|j: int| e0 <= j < t ==> #[trigger] spec_line_width(ws, sp, s, j + 1) <= max,
    ensures
        spec_line_end(ws, sp, max, s, e0) >= t,
    decreases t - e0,
{
    if e0 == t {
        lemma_line_end_bounds(ws, sp, max, s, e0);
    } else {
        assert(spec_line_width(ws, sp, s, e0 + 1) <= max);
        lemma_line_end_extends(ws, sp, max, s, e0 + 1, t);
    }
}

/// A later line start never ends earlier.
proof fn lemma_line_end_start_mono(ws: Seq<int>, sp: int, max: int, s: int, s2: int)
    requires
        spec_widths_ok(ws),
        sp >= 0,
        0 <= s < s2 < ws.len(),
    ensures
        spec_line_end(ws, sp, max, s, s + 1) <= spec_line_end(ws, sp, max, s2, s2 + 1),
{
    let e1 = spec_line_end(ws, sp, max, s, s + 1);
    let e2 = spec_line_end(ws, sp, max, s2, s2 + 1);
    lemma_line_end_bounds(ws, sp, max, s, s + 1);
    lemma_line_end_bounds(ws, sp, max, s2, s2 + 1);
    if e1 <= s2 + 1 {
    } else {
        lemma_line_end_widths(ws, sp, max, s, s + 1);
        assert forall|j: int| s2 + 1 <= j < e1 implies #[trigger] spec_line_width(ws, sp, s2, j + 1)
            <= max by {
            lemma_line_width_start_mono(ws, sp, s, s2, j + 1);
            assert(spec_line_width(ws, sp, s, j + 1) <= max);
        }
        lemma_line_end_extends(ws, sp, max, s2, s2 + 1, e1);
    }
}

/// Starting a wrap later never yields more lines.
proof fn lemma_count_antitone(ws: Seq<int>, sp: int, max: int, s: int, s2: int)
    requires
        spec_widths_ok(ws),
        sp >= 0,
        0 <= s <= s2 <= ws.len(),
    ensures
        spec_wrap(ws, sp, max, s2).len() <= spec_wrap(ws, sp, max, s).len(),
    decreases ws.len() - s,
{
    if s == s2 {
    } else if s2 >= ws.len() {
    } else {
        let e1 = spec_line_end(ws, sp, max, s, s + 1);
        let e2 = spec_line_end(ws, sp, max, s2, s2 + 1);
        lemma_line_end_bounds(ws, sp, max, s, s + 1);
        lemma_line_end_bounds(ws, sp, max, s2, s2 + 1);
        lemma_line_end_start_mono(ws, sp, max, s, s2);
        lemma_count_antitone(ws, sp, max, e1, e2);
    }
}

/// Law (wrap monotonicity): wrapping is deterministic — the lines are
/// a function of the word widths, the space width, and the limit
/// alone, as the contract of `wrap_lines` states — and reducing the
/// wrap limit never decreases the number of lines produced.
pub proof fn lemma_wrap_width_monotone(ws: Seq<int>, sp: int, max1: int, max2: int, s: int)
    requires
        spec_widths_ok(ws),
        sp >= 0,
        max2 <= max1,
        0 <= s <= ws.len(),
    ensures
        spec_wrap(ws, sp, max2, s).len() >= spec_wrap(ws, sp, max1, s).len(),
    decreases ws.len() - s,
{
    if s >= ws.len() {
    } else {
        let e1 = spec_line_end(ws, sp, max1, s, s + 1);
        let e2 = spec_line_end(ws, sp, max2, s, s + 1);
        lemma_line_end_bounds(ws, sp, max1, s, s + 1);
        lemma_line_end_bounds(ws, sp, max2, s, s + 1);
        lemma_line_end_max_mono(ws, sp, max1, max2, s, s + 1);
        lemma_count_antitone(ws, sp, max2, e2, e1);
        lemma_wrap_width_monotone(ws, sp, max1, max2, e1);
    }
}

/// A wrap of `ws[s..]` yields at most one line per word.
proof fn lemma_wrap_len_bound(ws: Seq<int>, sp: int, max: int, s: int)
    requires
        0 <= s <= ws.len(),
    ensures
        spec_wrap(ws, sp, max, s).len() <= ws.len() - s,
    decreases ws.len() - s,
{
    if s >= ws.len() {
    } else {
        let e = spec_line_end(ws, sp, max, s, s + 1);
        lemma_line_end_bounds(ws, sp, max, s, s + 1);
        lemma_wrap_len_bound(ws, sp, max, e);
    }
}

} // verus!

//! Line layout: splitting a text on explicit line breaks, line widths, and
//! per-line justification offsets.

use vstd::prelude::*;

use crate::font::{advance_of, CharGlyph, FontMetrics};
use crate::geometry::COORD_LIMIT;
use crate::style::JustifyText;

verus! {

/// Largest number of characters a text handed to the engine may have.
pub const MAX_CHARS: usize = 0x1_0000;

/// Largest width a line can accumulate: `MAX_CHARS` advances of at most
/// `COORD_LIMIT` ticks each.
pub const MAX_LINE_WIDTH: i64 = 0x1_0000_0000_0000;

/// The position of the first line-break marker at or after `i`, or the text
/// length when the rest of the text has none.
pub open spec fn next_newline(text: Seq<char>, i: int) -> int
    decreases text.len() - i,
{
    if !(0 <= i < text.len()) {
        text.len() as int
    } else if text[i] == '\n' {
        i
    } else {
        next_newline(text, i + 1)
    }
}

/// `next_newline` finds the first line break at or after `i`: nothing before
/// it is one, and it is one unless the text ran out.
pub proof fn lemma_next_newline(text: Seq<char>, i: int)
    requires
        0 <= i <= text.len(),
    ensures
        i <= next_newline(text, i) <= text.len(),
        next_newline(text, i) < text.len() ==> text[next_newline(text, i)] == '\n',
        forall|k: int| i <= k < next_newline(text, i) ==> text[k] != '\n',
    decreases text.len() - i,
{
    if i < text.len() && text[i] != '\n' {
        lemma_next_newline(text, i + 1);
    }
}

/// Total advance width of the characters in `[start, end)`: the sum of each
/// character's charged advance, kerning never entering.
pub open spec fn width_range(
    text: Seq<char>,
    glyphs: Seq<CharGlyph>,
    m: FontMetrics,
    start: int,
    end: int,
) -> int
    decreases end - start,
{
    if start >= end {
        0
    } else {
        width_range(text, glyphs, m, start, end - 1) + advance_of(
            text[end - 1],
            glyphs[end - 1],
            m,
        )
    }
}

/// A width over well-formed glyphs is nonnegative and at most one
/// `COORD_LIMIT` per character.
pub proof fn lemma_width_range_bounds(
    text: Seq<char>,
    glyphs: Seq<CharGlyph>,
    m: FontMetrics,
    start: int,
    end: int,
)
    requires
        0 <= start <= end,
        end <= text.len(),
        glyphs.len() == text.len(),
        m.wf(),
        forall|i: int| 0 <= i < glyphs.len() ==> (#[trigger] glyphs[i]).wf(),
    ensures
        0 <= width_range(text, glyphs, m, start, end) <= (end - start) * (COORD_LIMIT as int),
    decreases end - start,
{
    if start < end {
        lemma_width_range_bounds(text, glyphs, m, start, end - 1);
        crate::font::lemma_advance_of_bounds(text[end - 1], glyphs[end - 1], m);
        assert((end - start) * (COORD_LIMIT as int) == (end - 1 - start) * (COORD_LIMIT as int)
            + COORD_LIMIT) by (nonlinear_arith);
    }
}

/// The starting x cursor of a line of the given width: lines grow rightward
/// from it, so centering shifts left by half the width and right-alignment
/// by the whole width.
pub open spec fn spec_justify_offset(j: JustifyText, w: int) -> int {
    match j {
        JustifyText::Left => 0,
        JustifyText::Center => -(w / 2),
        JustifyText::Right => -w,
    }
}

/// Left justification pins the line's left edge to zero, right justification
/// its right edge, and centering its midpoint to within half a tick.
pub proof fn lemma_justification_symmetry(j: JustifyText, w: int)
    requires
        0 <= w,
    ensures
        spec_justify_offset(JustifyText::Left, w) == 0,
        spec_justify_offset(JustifyText::Right, w) + w == 0,
        0 <= 2 * spec_justify_offset(JustifyText::Center, w) + w <= 1,
{
}

/// One line of a split text: the characters at `[start, end)`, the marker at
/// `end` (when the line is not the last) excluded.
#[derive(Clone, Copy, Debug, PartialEq, Eq, Structural)]
pub struct LineSpan {
    pub start: usize,
    pub end: usize,
}

impl View for LineSpan {
    type V = (int, int);

    open spec fn view(&self) -> (int, int) {
        (self.start as int, self.end as int)
    }
}

/// The spans of the lines of `text` from position `s` on, splitting strictly
/// on the line-break marker: every marker ends a line, and the text after
/// the last marker is a line even when empty.
pub open spec fn spans_from(text: Seq<char>, s: int) -> Seq<(int, int)>
    decreases text.len() - s,
    when 0 <= s <= text.len()
    via spans_from_decreases
{
    let e = next_newline(text, s);
    if e >= text.len() {
        seq![(s, text.len() as int)]
    } else {
        seq![(s, e)] + spans_from(text, e + 1)
    }
}

#[via_fn]
proof fn spans_from_decreases(text: Seq<char>, s: int) {
    lemma_next_newline(text, s);
}

/// Split a text into its lines. A text with `k` line-break markers has
/// exactly `k + 1` lines, in text order.
pub fn split_lines(text: &Vec<char>) -> (r: Vec<LineSpan>)
    ensures
        r@.map_values(|sp: LineSpan| sp@) == spans_from(text@, 0),
{
    let n = text.len();
    let mut r: Vec<LineSpan> = Vec::new();
    let mut s: usize = 0;
    loop
        invariant
            s <= n,
            n == text@.len(),
            spans_from(text@, 0) == r@.map_values(|sp: LineSpan| sp@) + spans_from(text@, s as int),
        decreases n - s,
    {
        proof {
            lemma_next_newline(text@, s as int);
        }
        let e = next_newline_pos(text, s);
        r.push(LineSpan { start: s, end: e });
        proof {
            assert(r@.map_values(|sp: LineSpan| sp@) == r@.drop_last().map_values(
                |sp: LineSpan| sp@,
            ).push((s as int, e as int)));
        }
        if e >= n {
            proof {
                assert(spans_from(text@, s as int) == seq![(s as int, e as int)]);
                assert(spans_from(text@, 0) =~= r@.map_values(|sp: LineSpan| sp@));
            }
            return r;
        }
        proof {
            assert(spans_from(text@, s as int) == seq![(s as int, e as int)] + spans_from(
                text@,
                e + 1,
            ));
            assert(r@.map_values(|sp: LineSpan| sp@) + spans_from(text@, e + 1) =~= spans_from(
                text@,
                0,
            ));
        }
        s = e + 1;
    }
}

/// Find the next line-break marker at or after `from`.
pub fn next_newline_pos(text: &Vec<char>, from: usize) -> (r: usize)
    requires
        from <= text@.len(),
    ensures
        r == next_newline(text@, from as int),
        from <= r <= text@.len(),
        r < text@.len() ==> text@[r as int] == '\n',
        forall|k: int| from <= k < r ==> text@[k] != '\n',
{
    let n = text.len();
    let mut i: usize = from;
    loop
        invariant
            from <= i <= n,
            n == text@.len(),
            next_newline(text@, from as int) == next_newline(text@, i as int),
            forall|k: int| from <= k < i ==> text@[k] != '\n',
        decreases n - i,
    {
        if i == n {
            return i;
        }
        if text[i] == '\n' {
            return i;
        }
        i = i + 1;
    }
}

/// Total advance width of the characters in `[start, end)` of the text.
pub fn calculate_line_width(
    text: &Vec<char>,
    glyphs: &Vec<CharGlyph>,
    m: &FontMetrics,
    start: usize,
    end: usize,
) -> (r: i64)
    requires
        start <= end <= text@.len(),
        text@.len() <= MAX_CHARS,
        glyphs@.len() == text@.len(),
        m.wf(),
        forall|i: int| 0 <= i < glyphs@.len() ==> (#[trigger] glyphs@[i]).wf(),
    ensures
        r == width_range(text@, glyphs@, *m, start as int, end as int),
        0 <= r <= MAX_LINE_WIDTH,
{
    let mut acc: i64 = 0;
    let mut i: usize = start;
    while i < end
        invariant
            start <= i <= end <= text@.len(),
            text@.len() <= MAX_CHARS,
            glyphs@.len() == text@.len(),
            m.wf(),
            forall|k: int| 0 <= k < glyphs@.len() ==> (#[trigger] glyphs@[k]).wf(),
            acc == width_range(text@, glyphs@, *m, start as int, i as int),
            0 <= acc <= (i - start) * (COORD_LIMIT as int),
        decreases end - i,
    {
        proof {
            crate::font::lemma_advance_of_bounds(text@[i as int], glyphs@[i as int], *m);
        }
        let a = crate::font::get_glyph_advance(text[i], &glyphs[i], m);
        acc = acc + a;
        i = i + 1;
    }
    proof {
        lemma_width_range_bounds(text@, glyphs@, *m, start as int, end as int);
    }
    acc
}

/// The starting x cursor for a line of width `line_width` under the given
/// justification.
pub fn calculate_justification_offset(j: JustifyText, line_width: i64) -> (r: i64)
    requires
        0 <= line_width <= MAX_LINE_WIDTH,
    ensures
        r == spec_justify_offset(j, line_width as int),
        -MAX_LINE_WIDTH <= r <= 0,
{
    match j {
        JustifyText::Left => 0,
        JustifyText::Center => -(((line_width as u64) / 2) as i64),
        JustifyText::Right => -line_width,
    }
}

/// The width of a whole text, line-break markers included: the sum of every
/// character's charged advance.
pub fn text_width(text: &Vec<char>, glyphs: &Vec<CharGlyph>, m: &FontMetrics) -> (r: i64)
    requires
        text@.len() <= MAX_CHARS,
        glyphs@.len() == text@.len(),
        m.wf(),
        forall|i: int| 0 <= i < glyphs@.len() ==> (#[trigger] glyphs@[i]).wf(),
    ensures
        r == width_range(text@, glyphs@, *m, 0, text@.len() as int),
{
    calculate_line_width(text, glyphs, m, 0, text.len())
}

/// The x position at which each character of a single line starts: character
/// `i` starts after the summed advances of the characters before it.
pub fn char_positions(text: &Vec<char>, glyphs: &Vec<CharGlyph>, m: &FontMetrics) -> (r: Vec<
    (usize, i64),
>)
    requires
        text@.len() <= MAX_CHARS,
        glyphs@.len() == text@.len(),
        m.wf(),
        forall|i: int| 0 <= i < glyphs@.len() ==> (#[trigger] glyphs@[i]).wf(),
    ensures
        r@.len() == text@.len(),
        forall|i: int|
            0 <= i < r@.len() ==> #[trigger] r@[i] == (
                i as usize,
                width_range(text@, glyphs@, *m, 0, i) as i64,
            ),
{
    let mut r: Vec<(usize, i64)> = Vec::new();
    let mut x: i64 = 0;
    let mut i: usize = 0;
    let n = text.len();
    while i < n
        invariant
            i <= n,
            n == text@.len(),
            n <= MAX_CHARS,
            glyphs@.len() == text@.len(),
            m.wf(),
            forall|k: int| 0 <= k < glyphs@.len() ==> (#[trigger] glyphs@[k]).wf(),
            x == width_range(text@, glyphs@, *m, 0, i as int),
            0 <= x <= i * (COORD_LIMIT as int),
            r@.len() == i,
            forall|k: int|
                0 <= k < i ==> #[trigger] r@[k] == (
                    k as usize,
                    width_range(text@, glyphs@, *m, 0, k) as i64,
                ),
        decreases n - i,
    {
        proof {
            crate::font::lemma_advance_of_bounds(text@[i as int], glyphs@[i as int], *m);
            lemma_width_range_bounds(text@, glyphs@, *m, 0, i as int);
        }
        r.push((i, x));
        let a = crate::font::get_glyph_advance(text[i], &glyphs[i], m);
        x = x + a;
        i = i + 1;
    }
    r
}

} // verus!

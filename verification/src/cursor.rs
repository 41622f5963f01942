//! The cursor walk: where every character of a text comes to rest.
//!
//! The model here is a sequence of placements, one per character that
//! contributes geometry, in emission order. The merged-mesh and per-glyph
//! outputs are both defined over it.

use vstd::prelude::*;

use crate::font::{advance_of, cursor_advance, emits, spec_is_whitespace, CharGlyph, FontMetrics};
use crate::layout::{next_newline, spec_justify_offset, width_range};
use crate::style::JustifyText;

verus! {

/// One emitted character: which character of the text it is, which line it
/// stands on, and the cursor position its fragment is translated by.
pub struct PlacedGlyph {
    pub idx: int,
    pub line: int,
    pub x: int,
    pub y: int,
}

/// The placements of the characters of one line at `[i, e)`, walking the
/// cursor from `x`: whitespace and extruded glyphs advance it, a character
/// the provider could not supply geometry for leaves it put, and only
/// extruded visible characters are emitted.
pub open spec fn line_placements(
    text: Seq<char>,
    glyphs: Seq<CharGlyph>,
    m: FontMetrics,
    e: int,
    i: int,
    x: int,
    y: int,
    li: int,
) -> Seq<PlacedGlyph>
    decreases e - i,
{
    if i >= e {
        Seq::empty()
    } else {
        let here = if emits(text[i], glyphs[i]) {
            seq![PlacedGlyph { idx: i, line: li, x, y }]
        } else {
            Seq::empty()
        };
        here + line_placements(
            text,
            glyphs,
            m,
            e,
            i + 1,
            x + cursor_advance(text[i], glyphs[i], m),
            y,
            li,
        )
    }
}

/// The placements of every line of the text from position `s` on, line `li`
/// sitting at height `y`: each line starts at its justification offset, and
/// each following line one line height lower.
pub open spec fn placements_from(
    text: Seq<char>,
    glyphs: Seq<CharGlyph>,
    m: FontMetrics,
    j: JustifyText,
    s: int,
    li: int,
    y: int,
) -> Seq<PlacedGlyph>
    decreases text.len() - s,
    when 0 <= s <= text.len()
    via placements_from_decreases
{
    let e = next_newline(text, s);
    let w = width_range(text, glyphs, m, s, e);
    let here = line_placements(text, glyphs, m, e, s, spec_justify_offset(j, w), y, li);
    if e >= text.len() {
        here
    } else {
        here + placements_from(text, glyphs, m, j, e + 1, li + 1, y - m.line_height)
    }
}

#[via_fn]
proof fn placements_from_decreases(
    text: Seq<char>,
    glyphs: Seq<CharGlyph>,
    m: FontMetrics,
    j: JustifyText,
    s: int,
    li: int,
    y: int,
) {
    crate::layout::lemma_next_newline(text, s);
}

/// The placements of a whole text: line 0 starts at height 0 and lines
/// stack downward by one line height each.
pub open spec fn all_placements(
    text: Seq<char>,
    glyphs: Seq<CharGlyph>,
    m: FontMetrics,
    j: JustifyText,
) -> Seq<PlacedGlyph> {
    placements_from(text, glyphs, m, j, 0, 0, 0)
}

/// Structure of one line's placements: every one belongs to a character of
/// the line, stands on line `li` at height `y`, and is emitting; and a line
/// emits at most one placement per character.
pub proof fn lemma_line_placements_props(
    text: Seq<char>,
    glyphs: Seq<CharGlyph>,
    m: FontMetrics,
    e: int,
    i: int,
    x: int,
    y: int,
    li: int,
)
    requires
        0 <= i,
        e <= text.len(),
    ensures
        line_placements(text, glyphs, m, e, i, x, y, li).len() <= if e >= i {
            e - i
        } else {
            0
        },
        forall|k: int|
            0 <= k < line_placements(text, glyphs, m, e, i, x, y, li).len() ==> {
                let p = #[trigger] line_placements(text, glyphs, m, e, i, x, y, li)[k];
                &&& i <= p.idx < e
                &&& p.line == li
                &&& p.y == y
                &&& emits(text[p.idx], glyphs[p.idx])
            },
    decreases e - i,
{
    if i < e {
        lemma_line_placements_props(
            text,
            glyphs,
            m,
            e,
            i + 1,
            x + cursor_advance(text[i], glyphs[i], m),
            y,
            li,
        );
    }
}

/// Structure of a text's placements from `s` on: every one belongs to a
/// character at or after `s`, stands on a line numbered from `li` at the
/// height that stacks lines downward from `y`, is emitting, and there are
/// no more placements than characters.
pub proof fn lemma_placements_from_props(
    text: Seq<char>,
    glyphs: Seq<CharGlyph>,
    m: FontMetrics,
    j: JustifyText,
    s: int,
    li: int,
    y: int,
)
    requires
        0 <= s <= text.len(),
    ensures
        placements_from(text, glyphs, m, j, s, li, y).len() <= text.len() - s,
        forall|k: int|
            0 <= k < placements_from(text, glyphs, m, j, s, li, y).len() ==> {
                let p = #[trigger] placements_from(text, glyphs, m, j, s, li, y)[k];
                &&& s <= p.idx < text.len()
                &&& li <= p.line
                &&& p.y == y - (p.line - li) * (m.line_height as int)
                &&& emits(text[p.idx], glyphs[p.idx])
            },
    decreases text.len() - s,
{
    crate::layout::lemma_next_newline(text, s);
    let e = next_newline(text, s);
    let w = width_range(text, glyphs, m, s, e);
    let x0 = spec_justify_offset(j, w);
    lemma_line_placements_props(text, glyphs, m, e, s, x0, y, li);
    let here = line_placements(text, glyphs, m, e, s, x0, y, li);
    if e < text.len() {
        lemma_placements_from_props(text, glyphs, m, j, e + 1, li + 1, y - m.line_height);
        let rest = placements_from(text, glyphs, m, j, e + 1, li + 1, y - m.line_height);
        assert forall|k: int|
            0 <= k < placements_from(text, glyphs, m, j, s, li, y).len() implies {
            let p = #[trigger] placements_from(text, glyphs, m, j, s, li, y)[k];
            &&& s <= p.idx < text.len()
            &&& li <= p.line
            &&& p.y == y - (p.line - li) * (m.line_height as int)
            &&& emits(text[p.idx], glyphs[p.idx])
        } by {
            let p = placements_from(text, glyphs, m, j, s, li, y)[k];
            if k < here.len() {
                assert(p == here[k]);
                assert(p.y == y - (p.line - li) * (m.line_height as int)) by {
                    assert(p.line == li);
                    assert((li - li) * (m.line_height as int) == 0) by (nonlinear_arith);
                }
            } else {
                assert(p == rest[k - here.len()]);
                assert(p.y == (y - m.line_height) - (p.line - (li + 1)) * (m.line_height as int));
                assert((p.line - li) * (m.line_height as int) == (p.line - (li + 1)) * (
                m.line_height as int) + m.line_height) by (nonlinear_arith);
            }
        }
    } else {
        assert forall|k: int|
            0 <= k < placements_from(text, glyphs, m, j, s, li, y).len() implies {
            let p = #[trigger] placements_from(text, glyphs, m, j, s, li, y)[k];
            &&& s <= p.idx < text.len()
            &&& li <= p.line
            &&& p.y == y - (p.line - li) * (m.line_height as int)
            &&& emits(text[p.idx], glyphs[p.idx])
        } by {
            let p = placements_from(text, glyphs, m, j, s, li, y)[k];
            assert(p == here[k]);
            assert(p.line == li);
            assert((li - li) * (m.line_height as int) == 0) by (nonlinear_arith);
        }
    }
}

/// Two texts differ only in whitespace: at every position either character
/// and glyph are the same, or both characters are whitespace other than the
/// line-break marker and the provider reported the same advance for them.
pub open spec fn whitespace_equiv(
    text1: Seq<char>,
    glyphs1: Seq<CharGlyph>,
    text2: Seq<char>,
    glyphs2: Seq<CharGlyph>,
    m: FontMetrics,
) -> bool {
    &&& text1.len() == text2.len()
    &&& glyphs1.len() == text1.len()
    &&& glyphs2.len() == text2.len()
    &&& forall|i: int|
        0 <= i < text1.len() ==> ((#[trigger] text1[i] == text2[i] && glyphs1[i] == glyphs2[i]) || (
        spec_is_whitespace(text1[i]) && spec_is_whitespace(text2[i]) && text1[i] != '\n'
            && text2[i] != '\n' && advance_of(text1[i], glyphs1[i], m) == advance_of(
            text2[i],
            glyphs2[i],
            m,
        )))
}

/// Whitespace-equivalent texts break into lines at the same positions.
proof fn lemma_ws_equiv_newlines(
    text1: Seq<char>,
    glyphs1: Seq<CharGlyph>,
    text2: Seq<char>,
    glyphs2: Seq<CharGlyph>,
    m: FontMetrics,
    i: int,
)
    requires
        whitespace_equiv(text1, glyphs1, text2, glyphs2, m),
        0 <= i,
    ensures
        next_newline(text1, i) == next_newline(text2, i),
    decreases text1.len() - i,
{
    if 0 <= i < text1.len() {
        assert(text1[i] == '\n' <==> text2[i] == '\n');
        if text1[i] != '\n' {
            lemma_ws_equiv_newlines(text1, glyphs1, text2, glyphs2, m, i + 1);
        }
    }
}

/// Whitespace-equivalent texts have the same line widths.
proof fn lemma_ws_equiv_width(
    text1: Seq<char>,
    glyphs1: Seq<CharGlyph>,
    text2: Seq<char>,
    glyphs2: Seq<CharGlyph>,
    m: FontMetrics,
    s: int,
    e: int,
)
    requires
        whitespace_equiv(text1, glyphs1, text2, glyphs2, m),
        0 <= s,
        e <= text1.len(),
    ensures
        width_range(text1, glyphs1, m, s, e) == width_range(text2, glyphs2, m, s, e),
    decreases e - s,
{
    if s < e {
        lemma_ws_equiv_width(text1, glyphs1, text2, glyphs2, m, s, e - 1);
        assert(advance_of(text1[e - 1], glyphs1[e - 1], m) == advance_of(
            text2[e - 1],
            glyphs2[e - 1],
            m,
        ));
    }
}

/// Whitespace-equivalent texts place each line's characters identically: a
/// whitespace character never emits and only its advance enters the walk.
proof fn lemma_ws_equiv_line(
    text1: Seq<char>,
    glyphs1: Seq<CharGlyph>,
    text2: Seq<char>,
    glyphs2: Seq<CharGlyph>,
    m: FontMetrics,
    e: int,
    i: int,
    x: int,
    y: int,
    li: int,
)
    requires
        whitespace_equiv(text1, glyphs1, text2, glyphs2, m),
        0 <= i,
        e <= text1.len(),
    ensures
        line_placements(text1, glyphs1, m, e, i, x, y, li) == line_placements(
            text2,
            glyphs2,
            m,
            e,
            i,
            x,
            y,
            li,
        ),
    decreases e - i,
{
    if i < e {
        assert(emits(text1[i], glyphs1[i]) == emits(text2[i], glyphs2[i]));
        assert(cursor_advance(text1[i], glyphs1[i], m) == cursor_advance(text2[i], glyphs2[i], m));
        lemma_ws_equiv_line(
            text1,
            glyphs1,
            text2,
            glyphs2,
            m,
            e,
            i + 1,
            x + cursor_advance(text1[i], glyphs1[i], m),
            y,
            li,
        );
    }
}

/// Whitespace-equivalent texts produce the very same placements.
pub proof fn lemma_ws_equiv_placements(
    text1: Seq<char>,
    glyphs1: Seq<CharGlyph>,
    text2: Seq<char>,
    glyphs2: Seq<CharGlyph>,
    m: FontMetrics,
    j: JustifyText,
    s: int,
    li: int,
    y: int,
)
    requires
        whitespace_equiv(text1, glyphs1, text2, glyphs2, m),
        0 <= s <= text1.len(),
    ensures
        placements_from(text1, glyphs1, m, j, s, li, y) == placements_from(
            text2,
            glyphs2,
            m,
            j,
            s,
            li,
            y,
        ),
    decreases text1.len() - s,
{
    crate::layout::lemma_next_newline(text1, s);
    lemma_ws_equiv_newlines(text1, glyphs1, text2, glyphs2, m, s);
    let e = next_newline(text1, s);
    lemma_ws_equiv_width(text1, glyphs1, text2, glyphs2, m, s, e);
    let w = width_range(text1, glyphs1, m, s, e);
    lemma_ws_equiv_line(
        text1,
        glyphs1,
        text2,
        glyphs2,
        m,
        e,
        s,
        spec_justify_offset(j, w),
        y,
        li,
    );
    if e < text1.len() {
        lemma_ws_equiv_placements(text1, glyphs1, text2, glyphs2, m, j, e + 1, li + 1, y
            - m.line_height);
    }
}

/// Every placement of a whole text stands exactly `line` line heights below
/// the first baseline: lines stack downward with no other vertical input.
pub proof fn lemma_line_stacking(
    text: Seq<char>,
    glyphs: Seq<CharGlyph>,
    m: FontMetrics,
    j: JustifyText,
)
    ensures
        forall|k: int|
            0 <= k < all_placements(text, glyphs, m, j).len() ==> {
                let p = #[trigger] all_placements(text, glyphs, m, j)[k];
                &&& 0 <= p.line
                &&& p.y == -p.line * (m.line_height as int)
            },
{
    lemma_placements_from_props(text, glyphs, m, j, 0, 0, 0);
    assert forall|k: int| 0 <= k < all_placements(text, glyphs, m, j).len() implies {
        let p = #[trigger] all_placements(text, glyphs, m, j)[k];
        &&& 0 <= p.line
        &&& p.y == -p.line * (m.line_height as int)
    } by {
        let p = placements_from(text, glyphs, m, j, 0, 0, 0)[k];
        assert(p.y == 0 - (p.line - 0) * (m.line_height as int));
        assert(0 - (p.line - 0) * (m.line_height as int) == -p.line * (m.line_height as int))
            by (nonlinear_arith);
    }
}

} // verus!

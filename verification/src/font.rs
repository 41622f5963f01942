//! What the engine knows of a font: its vertical metrics and, per character
//! of a text, the outline provider's answer in fixed-point ticks.

use vstd::prelude::*;

use crate::geometry::{Vec3i, COORD_LIMIT};

verus! {

/// Largest vertex count accepted from the provider for one glyph fragment,
/// so that a whole text's merged buffer stays indexable by `u32`.
pub const MAX_FRAG_VERTS: usize = 0x8000;

/// Font-level vertical metrics in ticks.
#[derive(Clone, Copy, Debug)]
pub struct FontMetrics {
    /// Baseline to the top of the tallest glyph.
    pub ascender: i64,
    /// Baseline to the bottom of the lowest glyph (typically negative).
    pub descender: i64,
    /// Extra space between lines.
    pub line_gap: i64,
    /// Vertical distance between consecutive baselines.
    pub line_height: i64,
}

impl FontMetrics {
    /// Metrics are bounded, the ascender is not below the descender, and the
    /// line height is the derived quantity it claims to be.
    pub open spec fn wf(self) -> bool {
        &&& -COORD_LIMIT <= self.descender
        &&& self.descender <= self.ascender
        &&& self.ascender <= COORD_LIMIT
        &&& -COORD_LIMIT <= self.line_gap <= COORD_LIMIT
        &&& self.line_height == self.ascender - self.descender + self.line_gap
    }

    /// Build metrics from the provider's three raw values; the line height
    /// is `ascender - descender + line_gap`.
    pub fn new(ascender: i64, descender: i64, line_gap: i64) -> (r: FontMetrics)
        requires
            -COORD_LIMIT <= descender <= ascender <= COORD_LIMIT,
            -COORD_LIMIT <= line_gap <= COORD_LIMIT,
        ensures
            r.ascender == ascender,
            r.descender == descender,
            r.line_gap == line_gap,
            r.line_height == ascender - descender + line_gap,
            r.wf(),
    {
        FontMetrics { ascender, descender, line_gap, line_height: ascender - descender + line_gap }
    }
}

/// The 3D geometry the provider produced for one character: vertex and
/// normal buffers in parallel, a flat triangle index list local to the
/// fragment, and the glyph's advance width.
#[derive(Clone, Debug)]
pub struct GlyphFragment {
    pub vertices: Vec<Vec3i>,
    pub normals: Vec<Vec3i>,
    pub indices: Vec<u32>,
    pub advance: i64,
}

impl GlyphFragment {
    /// Parallel buffers, local indices in range, bounded coordinates and a
    /// bounded, nonnegative advance.
    pub open spec fn wf(self) -> bool {
        &&& self.normals@.len() == self.vertices@.len()
        &&& self.vertices@.len() <= MAX_FRAG_VERTS
        &&& (forall|i: int| 0 <= i < self.vertices@.len() ==> (#[trigger] self.vertices@[i]).bounded())
        &&& (forall|i: int| 0 <= i < self.indices@.len() ==> (#[trigger] self.indices@[i]) < self.vertices@.len())
        &&& 0 <= self.advance <= COORD_LIMIT
    }
}

/// The provider's answer for one character of a text.
#[derive(Clone, Debug)]
pub enum CharGlyph {
    /// The font has no glyph for the character.
    Missing,
    /// The glyph exists and has an advance width, but no usable extruded
    /// outline: whitespace that was never extruded, or a failed extraction.
    Plain { advance: i64 },
    /// The glyph was extruded into a fragment; the advance is the fragment's.
    Outlined(GlyphFragment),
}

impl CharGlyph {
    pub open spec fn wf(self) -> bool {
        match self {
            CharGlyph::Missing => true,
            CharGlyph::Plain { advance } => 0 <= advance <= COORD_LIMIT,
            CharGlyph::Outlined(f) => f.wf(),
        }
    }
}

/// The Unicode `White_Space` code points.
pub open spec fn is_ws_code(u: u32) -> bool {
    ||| u == 0x20
    ||| 0x9 <= u <= 0xD
    ||| u == 0x85
    ||| u == 0xA0
    ||| u == 0x1680
    ||| 0x2000 <= u <= 0x200A
    ||| u == 0x2028
    ||| u == 0x2029
    ||| u == 0x202F
    ||| u == 0x205F
    ||| u == 0x3000
}

/// Whether a character is whitespace: it then advances the cursor but never
/// contributes geometry.
pub open spec fn spec_is_whitespace(c: char) -> bool {
    is_ws_code(c as u32)
}

pub fn is_whitespace_char(c: char) -> (r: bool)
    ensures
        r == spec_is_whitespace(c),
{
    let u = c as u32;
    u == 0x20 || (0x9 <= u && u <= 0xD) || u == 0x85 || u == 0xA0 || u == 0x1680
        || (0x2000 <= u && u <= 0x200A) || u == 0x2028 || u == 0x2029 || u == 0x202F
        || u == 0x205F || u == 0x3000
}

/// The advance width a whitespace character falls back to when the font has
/// no glyph for it: a quarter of the font's height.
pub open spec fn fallback_advance(m: FontMetrics) -> int {
    (m.ascender - m.descender) / 4
}

/// The advance width charged for a character: the glyph's own advance when
/// the font has one; otherwise the whitespace fallback, or zero width for an
/// unmapped visible character.
pub open spec fn advance_of(c: char, g: CharGlyph, m: FontMetrics) -> int {
    match g {
        CharGlyph::Outlined(f) => f.advance as int,
        CharGlyph::Plain { advance } => advance as int,
        CharGlyph::Missing => if spec_is_whitespace(c) {
            fallback_advance(m)
        } else {
            0
        },
    }
}

/// Every advance charged to the cursor is nonnegative and at most
/// `COORD_LIMIT`.
pub proof fn lemma_advance_of_bounds(c: char, g: CharGlyph, m: FontMetrics)
    requires
        g.wf(),
        m.wf(),
    ensures
        0 <= advance_of(c, g, m) <= COORD_LIMIT,
{
}

pub fn get_glyph_advance(c: char, g: &CharGlyph, m: &FontMetrics) -> (r: i64)
    requires
        g.wf(),
        m.wf(),
    ensures
        r == advance_of(c, *g, *m),
{
    match g {
        CharGlyph::Outlined(f) => f.advance,
        CharGlyph::Plain { advance } => *advance,
        CharGlyph::Missing => {
            if is_whitespace_char(c) {
                let h: i64 = m.ascender - m.descender;
                ((h as u64) / 4) as i64
            } else {
                0
            }
        },
    }
}

/// Whether a character contributes geometry to the output: visible (not
/// whitespace) and successfully extruded.
pub open spec fn emits(c: char, g: CharGlyph) -> bool {
    !spec_is_whitespace(c) && g is Outlined
}

/// The distance the cursor moves after a character: its advance for
/// whitespace and for successfully extruded glyphs, nothing otherwise (a
/// missing glyph has zero advance; a failed outline leaves the cursor put).
pub open spec fn cursor_advance(c: char, g: CharGlyph, m: FontMetrics) -> int {
    if spec_is_whitespace(c) || emits(c, g) {
        advance_of(c, g, m)
    } else {
        0
    }
}

/// A parsed font resolved against one text at one style: its metrics and
/// the provider's answer for each character, in character order.
#[derive(Clone, Debug)]
pub struct ResolvedFont {
    pub metrics: FontMetrics,
    pub glyphs: Vec<CharGlyph>,
}

impl ResolvedFont {
    pub open spec fn wf_for(self, text: Seq<char>) -> bool {
        &&& self.metrics.wf()
        &&& self.glyphs@.len() == text.len()
        &&& (forall|i: int| 0 <= i < self.glyphs@.len() ==> (#[trigger] self.glyphs@[i]).wf())
    }
}

} // verus!

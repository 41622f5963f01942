//! Style parameters: extrusion depth, curve subdivision, anchoring and
//! justification.

use vstd::prelude::*;

verus! {

/// One font unit (1.0 em in the outline provider's scale) in ticks. Anchor
/// pivot coordinates are fractions of the bounding box expressed in ticks:
/// `0` is the box's minimum edge and `UNIT` its maximum edge.
pub const UNIT: i64 = 1_000_000;

/// Where the text mesh sits relative to its local origin: the named point of
/// the text's bounding box is moved onto the origin.
///
/// `Custom(px, py)` is a pivot in box fractions scaled by [`UNIT`]:
/// `(0, 0)` is the bottom-left corner and `(UNIT, UNIT)` the top-right, so
/// every preset is equivalent to a specific custom pivot.
#[derive(Clone, Copy, Debug, PartialEq, Eq, Structural)]
pub enum TextAnchor {
    TopLeft,
    TopCenter,
    TopRight,
    CenterLeft,
    Center,
    CenterRight,
    BottomLeft,
    BottomCenter,
    BottomRight,
    Custom(i64, i64),
}

impl TextAnchor {
    /// A custom pivot must lie inside the box: both fractions in `[0, UNIT]`.
    pub open spec fn wf(self) -> bool {
        match self {
            TextAnchor::Custom(px, py) => 0 <= px <= UNIT && 0 <= py <= UNIT,
            _ => true,
        }
    }
}

/// Horizontal alignment of the lines of a multiline text among each other.
#[derive(Clone, Copy, Debug, PartialEq, Eq, Structural)]
pub enum JustifyText {
    /// Each line starts at `x = 0`.
    Left,
    /// Each line's midpoint sits at `x = 0`.
    Center,
    /// Each line ends at `x = 0`.
    Right,
}

/// Visual styling of a generated text mesh.
///
/// `depth` and `subdivision` parametrise the outline provider's extrusion;
/// the layout itself only carries them. `anchor` and `justify` drive the
/// placement arithmetic.
#[derive(Clone, Copy, Debug)]
pub struct TextMeshStyle {
    /// Extrusion depth in ticks ([`UNIT`] is one font unit).
    pub depth: i64,
    /// Number of segments approximating curved outlines.
    pub subdivision: u8,
    /// Which point of the text bounds is placed on the local origin.
    pub anchor: TextAnchor,
    /// Horizontal alignment for multiline text.
    pub justify: JustifyText,
}

impl TextMeshStyle {
    pub open spec fn wf(self) -> bool {
        self.anchor.wf()
    }
}

impl Default for TextMeshStyle {
    /// A tenth of a font unit of depth, moderately smooth curves, text
    /// hanging down-right of the origin, lines left-aligned.
    fn default() -> (r: Self)
        ensures
            r.depth == UNIT / 10,
            r.subdivision == 20u8,
            r.anchor == TextAnchor::TopLeft,
            r.justify == JustifyText::Left,
            r.wf(),
    {
        TextMeshStyle {
            depth: 100_000,
            subdivision: 20,
            anchor: TextAnchor::TopLeft,
            justify: JustifyText::Left,
        }
    }
}

} // verus!

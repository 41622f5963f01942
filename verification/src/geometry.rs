//! Points and axis-aligned bounding boxes in fixed-point coordinates.

use vstd::prelude::*;

verus! {

/// Largest magnitude allowed for a single input coordinate, advance width or
/// font metric, in ticks. Accumulated cursor positions and translated
/// vertices stay well inside `i64` because text length is also bounded.
pub const COORD_LIMIT: i64 = 0x1_0000_0000;

/// Largest magnitude a placed (cursor-translated) vertex component can reach:
/// an input coordinate plus a cursor position accumulated over a bounded text.
pub const PLACED_LIMIT: i64 = 0x8_0000_0000_0000;

/// A point or direction in 3D space, in fixed-point ticks.
#[derive(Clone, Copy, Debug)]
pub struct Vec3i {
    pub x: i64,
    pub y: i64,
    pub z: i64,
}

impl View for Vec3i {
    type V = (int, int, int);

    /// The mathematical value of the point, free of any integer width.
    open spec fn view(&self) -> (int, int, int) {
        (self.x as int, self.y as int, self.z as int)
    }
}

impl Vec3i {
    /// Every component within `COORD_LIMIT`.
    pub open spec fn bounded(self) -> bool {
        &&& -COORD_LIMIT <= self.x <= COORD_LIMIT
        &&& -COORD_LIMIT <= self.y <= COORD_LIMIT
        &&& -COORD_LIMIT <= self.z <= COORD_LIMIT
    }

}

/// The sequence of mathematical points behind a sequence of `Vec3i`.
pub open spec fn pts(s: Seq<Vec3i>) -> Seq<(int, int, int)> {
    s.map_values(|v: Vec3i| v@)
}

/// Componentwise containment of a point in a box.
pub open spec fn point_in_box(p: (int, int, int), lo: (int, int, int), hi: (int, int, int)) -> bool {
    &&& lo.0 <= p.0 <= hi.0
    &&& lo.1 <= p.1 <= hi.1
    &&& lo.2 <= p.2 <= hi.2
}

/// An axis-aligned bounding box over placed vertices.
#[derive(Clone, Copy, Debug)]
pub struct Bounds {
    pub min: Vec3i,
    pub max: Vec3i,
}

impl View for Bounds {
    type V = ((int, int, int), (int, int, int));

    open spec fn view(&self) -> ((int, int, int), (int, int, int)) {
        (self.min@, self.max@)
    }
}

impl Bounds {
    /// A box is well formed when it is nonempty and its corners are placed
    /// vertices of a bounded layout.
    pub open spec fn wf(self) -> bool {
        &&& point_in_box(self.min@, (-PLACED_LIMIT as int, -PLACED_LIMIT as int, -PLACED_LIMIT as int),
               (PLACED_LIMIT as int, PLACED_LIMIT as int, PLACED_LIMIT as int))
        &&& point_in_box(self.max@, (-PLACED_LIMIT as int, -PLACED_LIMIT as int, -PLACED_LIMIT as int),
               (PLACED_LIMIT as int, PLACED_LIMIT as int, PLACED_LIMIT as int))
        &&& self.min.x <= self.max.x
        &&& self.min.y <= self.max.y
        &&& self.min.z <= self.max.z
    }
}

/// The view of a running bounding box: `None` while no vertex has been seen.
pub open spec fn opt_bounds(b: Option<Bounds>) -> Option<((int, int, int), (int, int, int))> {
    match b {
        None => None,
        Some(bb) => Some(bb@),
    }
}

pub open spec fn min_i(a: int, b: int) -> int {
    if a <= b { a } else { b }
}

pub open spec fn max_i(a: int, b: int) -> int {
    if a >= b { a } else { b }
}

/// One step of the running bounding box: widen `b` to take in the point `p`.
pub open spec fn expand_box(
    b: Option<((int, int, int), (int, int, int))>,
    p: (int, int, int),
) -> Option<((int, int, int), (int, int, int))> {
    match b {
        None => Some((p, p)),
        Some((lo, hi)) => Some((
            (min_i(lo.0, p.0), min_i(lo.1, p.1), min_i(lo.2, p.2)),
            (max_i(hi.0, p.0), max_i(hi.1, p.1), max_i(hi.2, p.2)),
        )),
    }
}

/// The bounding box of a sequence of points, in emission order; `None` for an
/// empty sequence.
pub open spec fn box_of(ps: Seq<(int, int, int)>) -> Option<((int, int, int), (int, int, int))>
    decreases ps.len(),
{
    if ps.len() == 0 {
        None
    } else {
        expand_box(box_of(ps.drop_last()), ps.last())
    }
}

/// Widen the running box by one vertex.
pub fn expand_bounds(b: Option<Bounds>, p: Vec3i) -> (r: Option<Bounds>)
    requires
        -PLACED_LIMIT <= p.x <= PLACED_LIMIT,
        -PLACED_LIMIT <= p.y <= PLACED_LIMIT,
        -PLACED_LIMIT <= p.z <= PLACED_LIMIT,
        b matches Some(bb) ==> bb.wf(),
    ensures
        opt_bounds(r) == expand_box(opt_bounds(b), p@),
        r matches Some(bb) && bb.wf(),
{
    match b {
        None => Some(Bounds { min: p, max: p }),
        Some(bb) => {
            let min = Vec3i {
                x: if bb.min.x <= p.x { bb.min.x } else { p.x },
                y: if bb.min.y <= p.y { bb.min.y } else { p.y },
                z: if bb.min.z <= p.z { bb.min.z } else { p.z },
            };
            let max = Vec3i {
                x: if bb.max.x >= p.x { bb.max.x } else { p.x },
                y: if bb.max.y >= p.y { bb.max.y } else { p.y },
                z: if bb.max.z >= p.z { bb.max.z } else { p.z },
            };
            Some(Bounds { min, max })
        },
    }
}

/// The running box contains every point folded into it, and is `Some`
/// exactly when at least one point was.
pub proof fn lemma_box_contains(ps: Seq<(int, int, int)>)
    ensures
        box_of(ps) matches Some(b) ==> forall|i: int|
            0 <= i < ps.len() ==> point_in_box(#[trigger] ps[i], b.0, b.1),
        box_of(ps) is Some <==> ps.len() > 0,
    decreases ps.len(),
{
    if ps.len() > 0 {
        lemma_box_contains(ps.drop_last());
        assert(forall|i: int| 0 <= i < ps.len() - 1 ==> ps.drop_last()[i] == #[trigger] ps[i]);
    }
}

} // verus!

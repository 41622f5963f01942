//! The anchor resolver: the single translation that moves the chosen point
//! of the text's bounding box onto the local origin.

use vstd::prelude::*;

use crate::geometry::{Bounds, Vec3i, PLACED_LIMIT};
use crate::style::{TextAnchor, UNIT};

verus! {

/// The point of the box `[lo, hi]` an anchor targets, in the text's plane.
/// Presets name corners, edge midpoints and the center; a custom anchor
/// interpolates: `(0, 0)` is the bottom-left corner and `(UNIT, UNIT)` the
/// top-right.
pub open spec fn anchor_pivot(a: TextAnchor, lo: (int, int, int), hi: (int, int, int)) -> (
    int,
    int,
) {
    let cx = lo.0 + (hi.0 - lo.0) / 2;
    let cy = lo.1 + (hi.1 - lo.1) / 2;
    match a {
        TextAnchor::TopLeft => (lo.0, hi.1),
        TextAnchor::TopCenter => (cx, hi.1),
        TextAnchor::TopRight => (hi.0, hi.1),
        TextAnchor::CenterLeft => (lo.0, cy),
        TextAnchor::Center => (cx, cy),
        TextAnchor::CenterRight => (hi.0, cy),
        TextAnchor::BottomLeft => (lo.0, lo.1),
        TextAnchor::BottomCenter => (cx, lo.1),
        TextAnchor::BottomRight => (hi.0, lo.1),
        TextAnchor::Custom(px, py) => (
            lo.0 + ((hi.0 - lo.0) * px) / (UNIT as int),
            lo.1 + ((hi.1 - lo.1) * py) / (UNIT as int),
        ),
    }
}

/// The translation that carries the anchor's pivot onto the origin: minus
/// the pivot in the text's plane, the extrusion axis untouched.
pub open spec fn spec_anchor_offset(a: TextAnchor, lo: (int, int, int), hi: (int, int, int)) -> (
    int,
    int,
    int,
) {
    (-anchor_pivot(a, lo, hi).0, -anchor_pivot(a, lo, hi).1, 0)
}

/// After the offset is applied, the anchor's pivot point sits exactly on
/// the origin in the text's plane.
pub proof fn lemma_anchor_targets_origin(
    a: TextAnchor,
    lo: (int, int, int),
    hi: (int, int, int),
)
    ensures
        anchor_pivot(a, lo, hi).0 + spec_anchor_offset(a, lo, hi).0 == 0,
        anchor_pivot(a, lo, hi).1 + spec_anchor_offset(a, lo, hi).1 == 0,
        spec_anchor_offset(a, lo, hi).2 == 0,
{
}

/// A custom anchor of `(0, UNIT)` targets the top-left corner: it produces
/// the same offset as the `TopLeft` preset on every box.
pub proof fn lemma_custom_anchor_equivalence(lo: (int, int, int), hi: (int, int, int))
    requires
        lo.0 <= hi.0,
        lo.1 <= hi.1,
    ensures
        spec_anchor_offset(TextAnchor::Custom(0i64, UNIT), lo, hi) == spec_anchor_offset(
            TextAnchor::TopLeft,
            lo,
            hi,
        ),
{
    let sx = hi.0 - lo.0;
    let sy = hi.1 - lo.1;
    assert(sx * 0 == 0) by (nonlinear_arith);
    vstd::arithmetic::div_mod::lemma_basic_div(0, UNIT as int);
    vstd::arithmetic::div_mod::lemma_div_by_multiple(sy, UNIT as int);
    assert((sy * (UNIT as int)) / (UNIT as int) == sy);
    assert(lo.1 + sy == hi.1);
}

/// The anchor's pivot stays inside the box, so both it and the offset are
/// bounded by the box's corners.
pub proof fn lemma_anchor_pivot_in_box(a: TextAnchor, lo: (int, int, int), hi: (int, int, int))
    requires
        a.wf(),
        lo.0 <= hi.0,
        lo.1 <= hi.1,
    ensures
        lo.0 <= anchor_pivot(a, lo, hi).0 <= hi.0,
        lo.1 <= anchor_pivot(a, lo, hi).1 <= hi.1,
{
    let sx = hi.0 - lo.0;
    let sy = hi.1 - lo.1;
    assert(0 <= sx / 2 <= sx) by {
        vstd::arithmetic::div_mod::lemma_div_is_ordered(0, sx, 2);
        vstd::arithmetic::div_mod::lemma_div_is_ordered_by_denominator(sx, 1, 2);
    }
    assert(0 <= sy / 2 <= sy) by {
        vstd::arithmetic::div_mod::lemma_div_is_ordered(0, sy, 2);
        vstd::arithmetic::div_mod::lemma_div_is_ordered_by_denominator(sy, 1, 2);
    }
    match a {
        TextAnchor::Custom(px, py) => {
            lemma_scaled_fraction_in_range(sx, px as int);
            lemma_scaled_fraction_in_range(sy, py as int);
        },
        _ => {},
    }
}

/// Scaling a nonnegative size by a fraction of `[0, UNIT]` lands in
/// `[0, size]`.
proof fn lemma_scaled_fraction_in_range(size: int, t: int)
    requires
        0 <= size,
        0 <= t <= UNIT as int,
    ensures
        0 <= (size * t) / (UNIT as int) <= size,
{
    vstd::arithmetic::mul::lemma_mul_inequality(t, UNIT as int, size);
    assert(t * size <= (UNIT as int) * size);
    assert(size * t == t * size) by (nonlinear_arith);
    assert(size * (UNIT as int) == (UNIT as int) * size) by (nonlinear_arith);
    vstd::arithmetic::div_mod::lemma_div_is_ordered(size * t, size * (UNIT as int), UNIT as int);
    vstd::arithmetic::div_mod::lemma_div_by_multiple(size, UNIT as int);
    assert(size * t >= 0) by (nonlinear_arith)
        requires
            0 <= size,
            0 <= t,
    ;
    vstd::arithmetic::div_mod::lemma_div_is_ordered(0, size * t, UNIT as int);
    vstd::arithmetic::div_mod::lemma_basic_div(0, UNIT as int);
}

/// Compute the anchor offset for the accumulated bounding box: the
/// translation applied once to every merged vertex.
pub fn calculate_anchor_offset(anchor: TextAnchor, b: &Bounds) -> (r: Vec3i)
    requires
        anchor.wf(),
        b.wf(),
    ensures
        r@ == spec_anchor_offset(anchor, b.min@, b.max@),
        -PLACED_LIMIT <= r.x <= PLACED_LIMIT,
        -PLACED_LIMIT <= r.y <= PLACED_LIMIT,
        r.z == 0,
{
    proof {
        lemma_anchor_pivot_in_box(anchor, b.min@, b.max@);
    }
    let size_x: i64 = b.max.x - b.min.x;
    let size_y: i64 = b.max.y - b.min.y;
    let cx: i64 = b.min.x + (((size_x as u64) / 2) as i64);
    let cy: i64 = b.min.y + (((size_y as u64) / 2) as i64);
    proof {
        vstd::arithmetic::div_mod::lemma_div_is_ordered(0, size_x as int, 2);
        vstd::arithmetic::div_mod::lemma_div_is_ordered_by_denominator(size_x as int, 1, 2);
        vstd::arithmetic::div_mod::lemma_div_is_ordered(0, size_y as int, 2);
        vstd::arithmetic::div_mod::lemma_div_is_ordered_by_denominator(size_y as int, 1, 2);
    }
    match anchor {
        TextAnchor::TopLeft => Vec3i { x: -b.min.x, y: -b.max.y, z: 0 },
        TextAnchor::TopCenter => Vec3i { x: -cx, y: -b.max.y, z: 0 },
        TextAnchor::TopRight => Vec3i { x: -b.max.x, y: -b.max.y, z: 0 },
        TextAnchor::CenterLeft => Vec3i { x: -b.min.x, y: -cy, z: 0 },
        TextAnchor::Center => Vec3i { x: -cx, y: -cy, z: 0 },
        TextAnchor::CenterRight => Vec3i { x: -b.max.x, y: -cy, z: 0 },
        TextAnchor::BottomLeft => Vec3i { x: -b.min.x, y: -b.min.y, z: 0 },
        TextAnchor::BottomCenter => Vec3i { x: -cx, y: -b.min.y, z: 0 },
        TextAnchor::BottomRight => Vec3i { x: -b.max.x, y: -b.min.y, z: 0 },
        TextAnchor::Custom(px, py) => {
            proof {
                lemma_scaled_fraction_in_range(size_x as int, px as int);
                lemma_scaled_fraction_in_range(size_y as int, py as int);
            }
            let qx: i64 = (((size_x as u128) * (px as u128)) / (UNIT as u128)) as i64;
            let qy: i64 = (((size_y as u128) * (py as u128)) / (UNIT as u128)) as i64;
            Vec3i { x: -(b.min.x + qx), y: -(b.min.y + qy), z: 0 }
        },
    }
}

} // verus!

//! The mesh assembler: merging per-glyph fragments into one contiguous
//! vertex/normal/index buffer, rebasing each fragment's local indices by the
//! vertex count accumulated before it.

use vstd::prelude::*;

use crate::cursor::PlacedGlyph;
use crate::font::{CharGlyph, GlyphFragment, MAX_FRAG_VERTS};
use crate::geometry::{
    box_of, expand_box, opt_bounds, pts, Bounds, Vec3i, COORD_LIMIT, PLACED_LIMIT,
};
use crate::layout::MAX_LINE_WIDTH;

verus! {

/// Largest magnitude the cursor's vertical position can reach: one line
/// height per line over a bounded text.
pub const CURSOR_Y_LIMIT: i64 = 0x4_0000_0000_0000;

/// One indexed triangle-list buffer: vertex positions, parallel normals,
/// and a flat index list.
#[derive(Clone, Debug)]
pub struct MeshData {
    pub vertices: Vec<Vec3i>,
    pub normals: Vec<Vec3i>,
    pub indices: Vec<u32>,
}

/// A point translated by an offset.
pub open spec fn translate_pt(p: (int, int, int), o: (int, int, int)) -> (int, int, int) {
    (p.0 + o.0, p.1 + o.1, p.2 + o.2)
}

/// A whole point sequence translated by an offset.
pub open spec fn translate_pts(ps: Seq<(int, int, int)>, o: (int, int, int)) -> Seq<
    (int, int, int),
> {
    ps.map_values(|p: (int, int, int)| translate_pt(p, o))
}

/// A fragment's vertices as placed at cursor position `(x, y)`: translated
/// in the text's plane, the extrusion axis untouched.
pub open spec fn frag_pts_at(f: GlyphFragment, x: int, y: int) -> Seq<(int, int, int)> {
    f.vertices@.map_values(|v: Vec3i| (v.x + x, v.y + y, v.z as int))
}

/// The fragment behind an emitting character.
pub open spec fn frag_of(glyphs: Seq<CharGlyph>, idx: int) -> GlyphFragment {
    glyphs[idx]->Outlined_0
}

/// Every placement points at an extruded glyph of the text.
pub open spec fn placements_valid(ps: Seq<PlacedGlyph>, glyphs: Seq<CharGlyph>) -> bool {
    forall|k: int|
        0 <= k < ps.len() ==> {
            let p = #[trigger] ps[k];
            &&& 0 <= p.idx < glyphs.len()
            &&& glyphs[p.idx] is Outlined
        }
}

/// The merged vertex buffer: each placed fragment's vertices, translated to
/// its cursor position, concatenated in placement order.
pub open spec fn merged_verts(ps: Seq<PlacedGlyph>, glyphs: Seq<CharGlyph>) -> Seq<(int, int, int)>
    decreases ps.len(),
{
    if ps.len() == 0 {
        Seq::empty()
    } else {
        merged_verts(ps.drop_last(), glyphs) + frag_pts_at(
            frag_of(glyphs, ps.last().idx),
            ps.last().x,
            ps.last().y,
        )
    }
}

/// The merged normal buffer: fragment normals concatenated untouched, in
/// placement order.
pub open spec fn merged_normals(ps: Seq<PlacedGlyph>, glyphs: Seq<CharGlyph>) -> Seq<
    (int, int, int),
>
    decreases ps.len(),
{
    if ps.len() == 0 {
        Seq::empty()
    } else {
        merged_normals(ps.drop_last(), glyphs) + pts(frag_of(glyphs, ps.last().idx).normals@)
    }
}

/// The merged index buffer: each fragment's local indices rebased by the
/// total vertex count of the fragments before it.
pub open spec fn merged_indices(ps: Seq<PlacedGlyph>, glyphs: Seq<CharGlyph>) -> Seq<int>
    decreases ps.len(),
{
    if ps.len() == 0 {
        Seq::empty()
    } else {
        let base = merged_verts(ps.drop_last(), glyphs).len() as int;
        merged_indices(ps.drop_last(), glyphs) + frag_of(glyphs, ps.last().idx).indices@.map_values(
            |u: u32| u + base,
        )
    }
}

/// The merged buffers stay parallel, and grow by at most one fragment's
/// worth of vertices per placement.
pub proof fn lemma_merged_parallel(ps: Seq<PlacedGlyph>, glyphs: Seq<CharGlyph>)
    requires
        placements_valid(ps, glyphs),
        forall|i: int| 0 <= i < glyphs.len() ==> (#[trigger] glyphs[i]).wf(),
    ensures
        merged_normals(ps, glyphs).len() == merged_verts(ps, glyphs).len(),
        merged_verts(ps, glyphs).len() <= ps.len() * (MAX_FRAG_VERTS as int),
    decreases ps.len(),
{
    if ps.len() > 0 {
        assert(forall|k: int|
            0 <= k < ps.len() - 1 ==> ps.drop_last()[k] == #[trigger] ps[k]);
        lemma_merged_parallel(ps.drop_last(), glyphs);
        assert(ps.last() == ps[ps.len() - 1]);
        assert((ps.len() as int) * (MAX_FRAG_VERTS as int) == (ps.len() - 1) * (
        MAX_FRAG_VERTS as int) + MAX_FRAG_VERTS) by (nonlinear_arith);
    }
}

/// The rebasing invariant: every index of the merged buffer points inside
/// the merged vertex buffer.
pub proof fn lemma_merged_indices_valid(ps: Seq<PlacedGlyph>, glyphs: Seq<CharGlyph>)
    requires
        placements_valid(ps, glyphs),
        forall|i: int| 0 <= i < glyphs.len() ==> (#[trigger] glyphs[i]).wf(),
    ensures
        forall|k: int|
            0 <= k < merged_indices(ps, glyphs).len() ==> 0 <= #[trigger] merged_indices(
                ps,
                glyphs,
            )[k] < merged_verts(ps, glyphs).len(),
    decreases ps.len(),
{
    if ps.len() > 0 {
        assert(forall|k: int|
            0 <= k < ps.len() - 1 ==> ps.drop_last()[k] == #[trigger] ps[k]);
        lemma_merged_indices_valid(ps.drop_last(), glyphs);
        let base = merged_verts(ps.drop_last(), glyphs).len() as int;
        let f = frag_of(glyphs, ps.last().idx);
        assert(ps.last() == ps[ps.len() - 1]);
        assert(f.wf());
        assert forall|k: int|
            0 <= k < merged_indices(ps, glyphs).len() implies 0 <= #[trigger] merged_indices(
            ps,
            glyphs,
        )[k] < merged_verts(ps, glyphs).len() by {
            let prev = merged_indices(ps.drop_last(), glyphs);
            if k >= prev.len() {
                assert(merged_indices(ps, glyphs)[k] == f.indices@[k - prev.len()] + base);
                assert(f.indices@[k - prev.len()] < f.vertices@.len());
            }
        }
    }
}

/// The merged buffers depend only on the glyphs the placements point at:
/// two glyph tables that agree at every placed character merge identically.
pub proof fn lemma_merged_glyphs_agree(
    ps: Seq<PlacedGlyph>,
    glyphs1: Seq<CharGlyph>,
    glyphs2: Seq<CharGlyph>,
)
    requires
        forall|k: int|
            0 <= k < ps.len() ==> glyphs1[(#[trigger] ps[k]).idx] == glyphs2[ps[k].idx],
    ensures
        merged_verts(ps, glyphs1) == merged_verts(ps, glyphs2),
        merged_normals(ps, glyphs1) == merged_normals(ps, glyphs2),
        merged_indices(ps, glyphs1) == merged_indices(ps, glyphs2),
    decreases ps.len(),
{
    if ps.len() > 0 {
        assert(forall|k: int|
            0 <= k < ps.len() - 1 ==> #[trigger] ps.drop_last()[k] == ps[k]);
        lemma_merged_glyphs_agree(ps.drop_last(), glyphs1, glyphs2);
        assert(ps.last() == ps[ps.len() - 1]);
        assert(frag_of(glyphs1, ps.last().idx) == frag_of(glyphs2, ps.last().idx));
    }
}

/// Folding a box over a concatenation equals folding the second part onto
/// the box of the first: the running box the assembler keeps.
pub open spec fn box_fold(
    b: Option<((int, int, int), (int, int, int))>,
    ps: Seq<(int, int, int)>,
) -> Option<((int, int, int), (int, int, int))>
    decreases ps.len(),
{
    if ps.len() == 0 {
        b
    } else {
        expand_box(box_fold(b, ps.drop_last()), ps.last())
    }
}

pub proof fn lemma_box_of_append(a: Seq<(int, int, int)>, b: Seq<(int, int, int)>)
    ensures
        box_of(a + b) == box_fold(box_of(a), b),
    decreases b.len(),
{
    if b.len() == 0 {
        assert(a + b =~= a);
    } else {
        lemma_box_of_append(a, b.drop_last());
        assert((a + b).drop_last() =~= a + b.drop_last());
        assert((a + b).last() == b.last());
    }
}

/// Append one placed fragment to the merged buffers: vertices translated by
/// the cursor, normals copied, indices rebased by the vertex count already
/// present, and the running bounding box widened by every placed vertex.
pub fn append_fragment(
    mesh: &mut MeshData,
    f: &GlyphFragment,
    x: i64,
    y: i64,
    bounds: Option<Bounds>,
) -> (r: Option<Bounds>)
    requires
        f.wf(),
        -MAX_LINE_WIDTH <= x <= MAX_LINE_WIDTH,
        -CURSOR_Y_LIMIT <= y <= CURSOR_Y_LIMIT,
        old(mesh).vertices@.len() + f.vertices@.len() <= 0x8000_0000,
        bounds matches Some(b) ==> b.wf(),
    ensures
        pts(final(mesh).vertices@) == pts(old(mesh).vertices@) + frag_pts_at(
            *f,
            x as int,
            y as int,
        ),
        pts(final(mesh).normals@) == pts(old(mesh).normals@) + pts(f.normals@),
        final(mesh).indices@.map_values(|u: u32| u as int) == old(mesh).indices@.map_values(
            |u: u32| u as int,
        ) + f.indices@.map_values(|u: u32| u + old(mesh).vertices@.len() as int),
        opt_bounds(r) == box_fold(opt_bounds(bounds), frag_pts_at(*f, x as int, y as int)),
        r matches Some(b) ==> b.wf(),
        bounds is Some || f.vertices@.len() > 0 ==> r is Some,
        final(mesh).vertices@.len() == old(mesh).vertices@.len() + f.vertices@.len(),
        final(mesh).normals@.len() == old(mesh).normals@.len() + f.normals@.len(),
{
    let ghost m0 = *mesh;
    let ghost placed = frag_pts_at(*f, x as int, y as int);
    let base: u32 = mesh.vertices.len() as u32;
    let mut b = bounds;
    let nv = f.vertices.len();
    let mut k: usize = 0;
    while k < nv
        invariant
            k <= nv,
            nv == f.vertices@.len(),
            f.wf(),
            -MAX_LINE_WIDTH <= x <= MAX_LINE_WIDTH,
            -CURSOR_Y_LIMIT <= y <= CURSOR_Y_LIMIT,
            placed == frag_pts_at(*f, x as int, y as int),
            mesh.vertices@.len() == m0.vertices@.len() + k,
            m0.vertices@.len() + nv <= 0x8000_0000,
            pts(mesh.vertices@) == pts(m0.vertices@) + placed.take(k as int),
            opt_bounds(b) == box_fold(opt_bounds(bounds), placed.take(k as int)),
            b matches Some(bb) ==> bb.wf(),
            bounds is Some ==> b is Some,
            k > 0 ==> b is Some,
            mesh.normals@ == m0.normals@,
            mesh.indices@ == m0.indices@,
        decreases nv - k,
    {
        let v = f.vertices[k];
        assert(f.vertices@[k as int].bounded());
        let p = Vec3i { x: v.x + x, y: v.y + y, z: v.z };
        let ghost pre = mesh.vertices@;
        b = crate::geometry::expand_bounds(b, p);
        mesh.vertices.push(p);
        proof {
            assert(p@ == placed[k as int]);
            assert(placed.take(k + 1) =~= placed.take(k as int).push(placed[k as int]));
            assert(pts(pre.push(p)) =~= pts(pre).push(p@));
            assert(pts(m0.vertices@) + placed.take(k as int).push(placed[k as int]) =~= (pts(
                m0.vertices@,
            ) + placed.take(k as int)).push(placed[k as int]));
            assert(placed.take(k + 1).drop_last() =~= placed.take(k as int));
            assert(box_fold(opt_bounds(bounds), placed.take(k + 1)) == expand_box(
                box_fold(opt_bounds(bounds), placed.take(k as int)),
                placed[k as int],
            ));
        }
        k = k + 1;
    }
    proof {
        assert(placed.take(nv as int) =~= placed);
    }
    let nn = f.normals.len();
    let ghost nm = pts(f.normals@);
    let mut k2: usize = 0;
    while k2 < nn
        invariant
            k2 <= nn,
            nn == f.normals@.len(),
            nm == pts(f.normals@),
            placed == frag_pts_at(*f, x as int, y as int),
            mesh.vertices@.len() == m0.vertices@.len() + f.vertices@.len(),
            pts(mesh.vertices@) == pts(m0.vertices@) + placed,
            mesh.normals@.len() == m0.normals@.len() + k2,
            pts(mesh.normals@) == pts(m0.normals@) + nm.take(k2 as int),
            mesh.indices@ == m0.indices@,
        decreases nn - k2,
    {
        let v = f.normals[k2];
        let ghost pre = mesh.normals@;
        mesh.normals.push(v);
        proof {
            assert(v@ == nm[k2 as int]);
            assert(nm.take(k2 + 1) =~= nm.take(k2 as int).push(nm[k2 as int]));
            assert(pts(pre.push(v)) =~= pts(pre).push(v@));
            assert(pts(m0.normals@) + nm.take(k2 as int).push(nm[k2 as int]) =~= (pts(m0.normals@)
                + nm.take(k2 as int)).push(nm[k2 as int]));
        }
        k2 = k2 + 1;
    }
    proof {
        assert(nm.take(nn as int) =~= nm);
    }
    let ni = f.indices.len();
    let ghost rebased = f.indices@.map_values(|u: u32| u + m0.vertices@.len() as int);
    let mut k3: usize = 0;
    while k3 < ni
        invariant
            k3 <= ni,
            ni == f.indices@.len(),
            f.wf(),
            base == m0.vertices@.len(),
            m0.vertices@.len() + f.vertices@.len() <= 0x8000_0000,
            rebased == f.indices@.map_values(|u: u32| u + m0.vertices@.len() as int),
            placed == frag_pts_at(*f, x as int, y as int),
            mesh.vertices@.len() == m0.vertices@.len() + f.vertices@.len(),
            pts(mesh.vertices@) == pts(m0.vertices@) + placed,
            mesh.normals@.len() == m0.normals@.len() + f.normals@.len(),
            pts(mesh.normals@) == pts(m0.normals@) + pts(f.normals@),
            mesh.indices@.len() == m0.indices@.len() + k3,
            mesh.indices@.map_values(|u: u32| u as int) == m0.indices@.map_values(|u: u32| u as int)
                + rebased.take(k3 as int),
        decreases ni - k3,
    {
        let u = f.indices[k3];
        assert(f.indices@[k3 as int] < f.vertices@.len());
        let ghost pre = mesh.indices@;
        let shifted = u + base;
        mesh.indices.push(shifted);
        proof {
            assert(shifted as int == rebased[k3 as int]);
            assert(rebased.take(k3 + 1) =~= rebased.take(k3 as int).push(rebased[k3 as int]));
            assert(pre.push(shifted).map_values(|w: u32| w as int) =~= pre.map_values(
                |w: u32| w as int,
            ).push((u + base) as int));
            assert(m0.indices@.map_values(|w: u32| w as int) + rebased.take(k3 as int).push(
                rebased[k3 as int],
            ) =~= (m0.indices@.map_values(|w: u32| w as int) + rebased.take(k3 as int)).push(
                rebased[k3 as int],
            ));
        }

        k3 = k3 + 1;
    }
    proof {
        assert(rebased.take(ni as int) =~= rebased);
    }
    b
}

/// Widen the running box by one placed fragment's vertices without merging
/// them anywhere: the per-glyph pass tracks bounds over geometry it never
/// concatenates.
pub fn expand_bounds_by_fragment(
    f: &GlyphFragment,
    x: i64,
    y: i64,
    bounds: Option<Bounds>,
) -> (r: Option<Bounds>)
    requires
        f.wf(),
        -MAX_LINE_WIDTH <= x <= MAX_LINE_WIDTH,
        -CURSOR_Y_LIMIT <= y <= CURSOR_Y_LIMIT,
        bounds matches Some(b) ==> b.wf(),
    ensures
        opt_bounds(r) == box_fold(opt_bounds(bounds), frag_pts_at(*f, x as int, y as int)),
        r matches Some(b) ==> b.wf(),
        bounds is Some || f.vertices@.len() > 0 ==> r is Some,
{
    let ghost placed = frag_pts_at(*f, x as int, y as int);
    let mut b = bounds;
    let nv = f.vertices.len();
    let mut k: usize = 0;
    while k < nv
        invariant
            k <= nv,
            nv == f.vertices@.len(),
            f.wf(),
            -MAX_LINE_WIDTH <= x <= MAX_LINE_WIDTH,
            -CURSOR_Y_LIMIT <= y <= CURSOR_Y_LIMIT,
            placed == frag_pts_at(*f, x as int, y as int),
            opt_bounds(b) == box_fold(opt_bounds(bounds), placed.take(k as int)),
            b matches Some(bb) ==> bb.wf(),
            bounds is Some ==> b is Some,
            k > 0 ==> b is Some,
        decreases nv - k,
    {
        let v = f.vertices[k];
        assert(f.vertices@[k as int].bounded());
        let p = Vec3i { x: v.x + x, y: v.y + y, z: v.z };
        b = crate::geometry::expand_bounds(b, p);
        proof {
            assert(p@ == placed[k as int]);
            assert(placed.take(k + 1) =~= placed.take(k as int).push(placed[k as int]));
            assert(placed.take(k + 1).drop_last() =~= placed.take(k as int));
            assert(box_fold(opt_bounds(bounds), placed.take(k + 1)) == expand_box(
                box_fold(opt_bounds(bounds), placed.take(k as int)),
                placed[k as int],
            ));
        }
        k = k + 1;
    }
    proof {
        assert(placed.take(nv as int) =~= placed);
    }
    b
}

/// Translate every vertex of the merged buffer by one offset; normals and
/// indices stay untouched. Applied exactly once, after all characters.
pub fn apply_offset(mesh: &mut MeshData, off: Vec3i)
    requires
        -PLACED_LIMIT <= off.x <= PLACED_LIMIT,
        -PLACED_LIMIT <= off.y <= PLACED_LIMIT,
        -PLACED_LIMIT <= off.z <= PLACED_LIMIT,
        forall|k: int|
            0 <= k < old(mesh).vertices@.len() ==> {
                let v = #[trigger] old(mesh).vertices@[k];
                &&& -PLACED_LIMIT <= v.x <= PLACED_LIMIT
                &&& -PLACED_LIMIT <= v.y <= PLACED_LIMIT
                &&& -PLACED_LIMIT <= v.z <= PLACED_LIMIT
            },
    ensures
        pts(final(mesh).vertices@) == translate_pts(pts(old(mesh).vertices@), off@),
        final(mesh).normals@ == old(mesh).normals@,
        final(mesh).indices@ == old(mesh).indices@,
{
    let ghost m0 = *mesh;
    let n = mesh.vertices.len();
    let mut k: usize = 0;
    while k < n
        invariant
            k <= n,
            n == mesh.vertices@.len(),
            mesh.vertices@.len() == m0.vertices@.len(),
            -PLACED_LIMIT <= off.x <= PLACED_LIMIT,
            -PLACED_LIMIT <= off.y <= PLACED_LIMIT,
            -PLACED_LIMIT <= off.z <= PLACED_LIMIT,
            forall|i: int|
                0 <= i < m0.vertices@.len() ==> {
                    let v = #[trigger] m0.vertices@[i];
                    &&& -PLACED_LIMIT <= v.x <= PLACED_LIMIT
                    &&& -PLACED_LIMIT <= v.y <= PLACED_LIMIT
                    &&& -PLACED_LIMIT <= v.z <= PLACED_LIMIT
                },
            forall|i: int| k <= i < n ==> mesh.vertices@[i] == m0.vertices@[i],
            forall|i: int|
                0 <= i < k ==> (#[trigger] mesh.vertices@[i])@ == translate_pt(
                    m0.vertices@[i]@,
                    off@,
                ),
            mesh.normals@ == m0.normals@,
            mesh.indices@ == m0.indices@,
        decreases n - k,
    {
        let v = mesh.vertices[k];
        assert(v == m0.vertices@[k as int]);
        let nv = Vec3i { x: v.x + off.x, y: v.y + off.y, z: v.z + off.z };
        mesh.vertices.set(k, nv);
        k = k + 1;
    }
    proof {
        assert(pts(mesh.vertices@) =~= translate_pts(pts(m0.vertices@), off@));
    }
}

} // verus!

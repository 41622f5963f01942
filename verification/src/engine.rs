//! The layout passes: walk a text line by line and character by character,
//! placing each extruded fragment at the cursor, and either merge everything
//! into one buffer with an anchor offset or emit one placement record per
//! character.

use vstd::prelude::*;

use crate::anchor::{calculate_anchor_offset, spec_anchor_offset};
use crate::cursor::{
    all_placements, lemma_placements_from_props, lemma_ws_equiv_placements, line_placements,
    placements_from, whitespace_equiv, PlacedGlyph,
};
use crate::font::{cursor_advance, emits, CharGlyph, ResolvedFont};
use crate::geometry::{box_of, opt_bounds, pts, Bounds, COORD_LIMIT};
use crate::layout::{
    calculate_justification_offset, calculate_line_width, next_newline_pos, MAX_CHARS,
    MAX_LINE_WIDTH,
};
use crate::mesh::{
    append_fragment, apply_offset, frag_of, frag_pts_at, merged_indices, merged_normals,
    merged_verts, placements_valid, translate_pts, MeshData,
};
use crate::style::TextMeshStyle;

verus! {

/// The outcome of a merged-mode layout pass: one indexed buffer, and the
/// bounding box accumulated over the placed vertices before the anchor
/// offset was applied (`None` when no character produced geometry, in which
/// case no offset was applied either).
pub struct LayoutResult {
    pub mesh: MeshData,
    pub bounds: Option<Bounds>,
}

/// What a merged-mode layout pass returns, in full: the normals and rebased
/// indices of the placed fragments in placement order, the bounding box of
/// the placed vertices, and the vertices themselves, translated once by the
/// anchor offset of that box when there are any.
pub open spec fn is_layout_of(
    r: LayoutResult,
    text: Seq<char>,
    font: ResolvedFont,
    style: TextMeshStyle,
) -> bool {
    let ps = all_placements(text, font.glyphs@, font.metrics, style.justify);
    let base = merged_verts(ps, font.glyphs@);
    &&& opt_bounds(r.bounds) == box_of(base)
    &&& pts(r.mesh.normals@) == merged_normals(ps, font.glyphs@)
    &&& r.mesh.indices@.map_values(|u: u32| u as int) == merged_indices(ps, font.glyphs@)
    &&& (match box_of(base) {
        None => pts(r.mesh.vertices@) == base,
        Some(bb) => pts(r.mesh.vertices@) == translate_pts(
            base,
            spec_anchor_offset(style.anchor, bb.0, bb.1),
        ),
    })
}

/// Lay a text out and merge every character's fragment into one buffer.
///
/// Lines split on the line-break marker and stack downward one line height
/// apart; each line starts at its justification offset. Whitespace advances
/// the cursor without geometry; a character the provider had no glyph or no
/// outline for is skipped without aborting the text. Indices are rebased by
/// the vertex count accumulated before each fragment. When anything was
/// emitted, the whole buffer is translated once by the anchor offset of the
/// accumulated bounding box.
pub fn layout_text_mesh(text: &Vec<char>, font: &ResolvedFont, style: &TextMeshStyle) -> (r:
    LayoutResult)
    requires
        text@.len() <= MAX_CHARS,
        font.wf_for(text@),
        style.wf(),
    ensures
        is_layout_of(r, text@, *font, *style),
{
    let ghost tx = text@;
    let ghost gl = font.glyphs@;
    let ghost m = font.metrics;
    let ghost j = style.justify;
    let ghost ps = all_placements(tx, gl, m, j);
    let n = text.len();
    let mut mesh = MeshData { vertices: Vec::new(), normals: Vec::new(), indices: Vec::new() };
    let mut bounds: Option<Bounds> = None;
    let mut s: usize = 0;
    let mut li: usize = 0;
    let mut y: i64 = 0;
    let ghost mut done: Seq<PlacedGlyph> = Seq::empty();
    proof {
        assert(done + placements_from(tx, gl, m, j, 0, 0, 0) =~= placements_from(
            tx,
            gl,
            m,
            j,
            0,
            0,
            0,
        ));
        assert(pts(mesh.vertices@) =~= merged_verts(done, gl));
        assert(pts(mesh.normals@) =~= merged_normals(done, gl));
        assert(mesh.indices@.map_values(|u: u32| u as int) =~= merged_indices(done, gl));
    }
    loop
        invariant_except_break
            ps == done + placements_from(tx, gl, m, j, s as int, li as int, y as int),
            done.len() <= s,
        invariant
            n == tx.len(),
            n <= MAX_CHARS,
            tx == text@,
            gl == font.glyphs@,
            m == font.metrics,
            j == style.justify,
            ps == all_placements(tx, gl, m, j),
            font.wf_for(tx),
            style.wf(),
            s <= n,
            li <= s,
            -(li as int) * 0x3_0000_0000 <= y <= (li as int) * 0x3_0000_0000,
            placements_valid(done, gl),
            pts(mesh.vertices@) == merged_verts(done, gl),
            pts(mesh.normals@) == merged_normals(done, gl),
            mesh.indices@.map_values(|u: u32| u as int) == merged_indices(done, gl),
            mesh.vertices@.len() <= done.len() * 0x8000,
            opt_bounds(bounds) == box_of(merged_verts(done, gl)),
            bounds matches Some(bb) ==> bb.wf(),
        ensures
            ps == done,
            gl == font.glyphs@,
            m == font.metrics,
            j == style.justify,
            placements_valid(done, gl),
            pts(mesh.vertices@) == merged_verts(done, gl),
            pts(mesh.normals@) == merged_normals(done, gl),
            mesh.indices@.map_values(|u: u32| u as int) == merged_indices(done, gl),
            opt_bounds(bounds) == box_of(merged_verts(done, gl)),
            bounds matches Some(bb) ==> bb.wf(),
        decreases n - s,
    {
        proof {
            crate::layout::lemma_next_newline(tx, s as int);
        }
        let e = next_newline_pos(text, s);
        let w = calculate_line_width(text, &font.glyphs, &font.metrics, s, e);
        let x0 = calculate_justification_offset(style.justify, w);
        let mut x = x0;
        let mut i = s;
        let ghost rest = if e >= n {
            Seq::<PlacedGlyph>::empty()
        } else {
            placements_from(tx, gl, m, j, e + 1, li as int + 1, y - m.line_height)
        };
        proof {
            let lp0 = line_placements(tx, gl, m, e as int, s as int, x0 as int, y as int, li as int);
            if e >= n {
                assert(placements_from(tx, gl, m, j, s as int, li as int, y as int) == lp0);
                assert(lp0 + rest =~= lp0);
            }
            assert(done + (lp0 + rest) =~= done + lp0 + rest);
        }
        while i < e
            invariant
                n == tx.len(),
                n <= MAX_CHARS,
                tx == text@,
                gl == font.glyphs@,
                m == font.metrics,
                j == style.justify,
                ps == all_placements(tx, gl, m, j),
                font.wf_for(tx),
                style.wf(),
                s <= i <= e <= n,
                li <= s,
                -(li as int) * 0x3_0000_0000 <= y <= (li as int) * 0x3_0000_0000,
                -MAX_LINE_WIDTH <= x0 <= 0,
                x0 <= x <= x0 + (i - s) * (COORD_LIMIT as int),
                rest == (if e >= n {
                    Seq::<PlacedGlyph>::empty()
                } else {
                    placements_from(tx, gl, m, j, e + 1, li as int + 1, y - m.line_height)
                }),
                ps == done + line_placements(
                    tx,
                    gl,
                    m,
                    e as int,
                    i as int,
                    x as int,
                    y as int,
                    li as int,
                ) + rest,
                placements_valid(done, gl),
                done.len() <= i,
                pts(mesh.vertices@) == merged_verts(done, gl),
                pts(mesh.normals@) == merged_normals(done, gl),
                mesh.indices@.map_values(|u: u32| u as int) == merged_indices(done, gl),
                mesh.vertices@.len() <= done.len() * 0x8000,
                opt_bounds(bounds) == box_of(merged_verts(done, gl)),
                bounds matches Some(bb) ==> bb.wf(),
            decreases e - i,
        {
            let c = text[i];
            proof {
                crate::font::lemma_advance_of_bounds(tx[i as int], gl[i as int], m);
            }
            let ghost lp_i = line_placements(
                tx,
                gl,
                m,
                e as int,
                i as int,
                x as int,
                y as int,
                li as int,
            );
            if crate::font::is_whitespace_char(c) {
                let a = crate::font::get_glyph_advance(c, &font.glyphs[i], &font.metrics);
                proof {
                    assert(!emits(tx[i as int], gl[i as int]));
                    assert(cursor_advance(tx[i as int], gl[i as int], m) == a as int);
                    let tail = line_placements(
                        tx,
                        gl,
                        m,
                        e as int,
                        i as int + 1,
                        x as int + a as int,
                        y as int,
                        li as int,
                    );
                    assert(lp_i == Seq::<PlacedGlyph>::empty() + tail);
                    assert(Seq::<PlacedGlyph>::empty() + tail =~= tail);
                }
                x = x + a;
            } else {
                match &font.glyphs[i] {
                    CharGlyph::Outlined(f) => {
                        proof {
                            assert(gl[i as int] == CharGlyph::Outlined(*f));
                            assert(emits(tx[i as int], gl[i as int]));
                            assert(f.wf());
                            assert(mesh.vertices@.len() + f.vertices@.len() <= done.len() * 0x8000
                                + 0x8000);
                            assert(done.len() * 0x8000 + 0x8000 <= 0x8000_0000);
                        }
                        let ghost pl = PlacedGlyph {
                            idx: i as int,
                            line: li as int,
                            x: x as int,
                            y: y as int,
                        };
                        let ghost prev = done;
                        bounds = append_fragment(&mut mesh, f, x, y, bounds);
                        proof {
                            done = prev.push(pl);
                            assert(done.drop_last() =~= prev);
                            assert(done.last() == pl);
                            assert(frag_of(gl, i as int) == *f);
                            assert(merged_verts(done, gl) == merged_verts(prev, gl) + frag_pts_at(
                                *f,
                                x as int,
                                y as int,
                            ));
                            assert(merged_normals(done, gl) == merged_normals(prev, gl) + pts(
                                f.normals@,
                            ));
                            assert(merged_indices(done, gl) == merged_indices(prev, gl)
                                + f.indices@.map_values(
                                |u: u32| u + merged_verts(prev, gl).len() as int,
                            ));
                            crate::mesh::lemma_box_of_append(
                                merged_verts(prev, gl),
                                frag_pts_at(*f, x as int, y as int),
                            );
                            assert(placements_valid(done, gl)) by {
                                assert(forall|k: int|
                                    0 <= k < done.len() - 1 ==> done[k] == #[trigger] prev[k]);
                            }
                            let tail = line_placements(
                                tx,
                                gl,
                                m,
                                e as int,
                                i as int + 1,
                                x as int + cursor_advance(tx[i as int], gl[i as int], m),
                                y as int,
                                li as int,
                            );
                            assert(lp_i == seq![pl] + tail);
                            assert(prev + (seq![pl] + tail) + rest =~= done + tail + rest);
                        }
                        let a = crate::font::get_glyph_advance(c, &font.glyphs[i], &font.metrics);
                        proof {
                            assert(cursor_advance(tx[i as int], gl[i as int], m) == a as int);
                        }
                        x = x + a;
                    },
                    _ => {
                        proof {
                            assert(!(gl[i as int] is Outlined));
                            assert(!emits(tx[i as int], gl[i as int]));
                            assert(cursor_advance(tx[i as int], gl[i as int], m) == 0);
                            let tail = line_placements(
                                tx,
                                gl,
                                m,
                                e as int,
                                i as int + 1,
                                x as int + 0,
                                y as int,
                                li as int,
                            );
                            assert(lp_i == Seq::<PlacedGlyph>::empty() + tail);
                            assert(Seq::<PlacedGlyph>::empty() + tail =~= tail);
                        }
                    },
                }
            }
            i = i + 1;
        }
        proof {
            assert(line_placements(tx, gl, m, e as int, e as int, x as int, y as int, li as int)
                =~= Seq::<PlacedGlyph>::empty());
            assert(done + Seq::<PlacedGlyph>::empty() + rest =~= done + rest);
            assert(ps == done + rest);
        }
        if e == n {
            proof {
                assert(rest =~= Seq::<PlacedGlyph>::empty());
                assert(done + Seq::<PlacedGlyph>::empty() =~= done);
            }
            break;
        }
        s = e + 1;
        li = li + 1;
        y = y - font.metrics.line_height;
    }
    match bounds {
        None => LayoutResult { mesh, bounds: None },
        Some(bb) => {
            let off = calculate_anchor_offset(style.anchor, &bb);
            proof {
                crate::geometry::lemma_box_contains(merged_verts(done, gl));
                assert forall|k: int| 0 <= k < mesh.vertices@.len() implies {
                    let v = #[trigger] mesh.vertices@[k];
                    &&& -crate::geometry::PLACED_LIMIT <= v.x <= crate::geometry::PLACED_LIMIT
                    &&& -crate::geometry::PLACED_LIMIT <= v.y <= crate::geometry::PLACED_LIMIT
                    &&& -crate::geometry::PLACED_LIMIT <= v.z <= crate::geometry::PLACED_LIMIT
                } by {
                    assert(pts(mesh.vertices@)[k] == mesh.vertices@[k]@);
                    assert(crate::geometry::point_in_box(merged_verts(done, gl)[k], bb.min@, bb.max@));
                }
            }
            apply_offset(&mut mesh, off);
            LayoutResult { mesh, bounds: Some(bb) }
        },
    }
}

/// The placements behind a sequence of per-glyph records.
pub open spec fn placements_view(s: Seq<GlyphPlacement>) -> Seq<PlacedGlyph> {
    s.map_values(|gp: GlyphPlacement| gp@)
}

/// Pushing one record extends the viewed placements by its view.
proof fn lemma_placements_view_push(s: Seq<GlyphPlacement>, gp: GlyphPlacement)
    ensures
        placements_view(s.push(gp)) == placements_view(s).push(gp@),
{
    assert(placements_view(s.push(gp)) =~= placements_view(s).push(gp@));
}

/// Pushing a record whose character matches its index keeps every record's
/// character matching its index.
proof fn lemma_characters_preserved(s: Seq<GlyphPlacement>, gp: GlyphPlacement, tx: Seq<char>)
    requires
        forall|k: int| 0 <= k < s.len() ==> (#[trigger] s[k]).character == tx[s[k]@.idx],
        gp.character == tx[gp@.idx],
    ensures
        forall|k: int|
            0 <= k < s.push(gp).len() ==> (#[trigger] s.push(gp)[k]).character == tx[s.push(
                gp,
            )[k]@.idx],
{
    assert forall|k: int|
        0 <= k < s.push(gp).len() implies (#[trigger] s.push(gp)[k]).character == tx[s.push(
        gp,
    )[k]@.idx] by {
        if k < s.len() {
            assert(s.push(gp)[k] == s[k]);
        } else {
            assert(s.push(gp)[k] == gp);
        }
    }
}

/// One character's placement record in per-glyph mode: which character of
/// the text (line-break markers counted), which line, the character itself,
/// and the translation its own untranslated fragment is to be placed with.
#[derive(Clone, Copy, Debug)]
pub struct GlyphPlacement {
    pub char_index: usize,
    pub line_index: usize,
    pub character: char,
    pub x: i64,
    pub y: i64,
}

impl View for GlyphPlacement {
    type V = PlacedGlyph;

    open spec fn view(&self) -> PlacedGlyph {
        PlacedGlyph {
            idx: self.char_index as int,
            line: self.line_index as int,
            x: self.x as int,
            y: self.y as int,
        }
    }
}

/// The outcome of a per-glyph layout pass: one placement record per
/// character that has an extruded fragment, and the bounding box the same
/// geometry would accumulate, fragments placed but never merged.
pub struct GlyphLayoutResult {
    pub placements: Vec<GlyphPlacement>,
    pub bounds: Option<Bounds>,
}

/// Lay a text out without merging: emit one placement record per character
/// that has an extruded fragment, with cursor arithmetic identical to
/// merged mode, so a host can give each character its own object.
pub fn layout_glyph_placements(text: &Vec<char>, font: &ResolvedFont, style: &TextMeshStyle) -> (r:
    GlyphLayoutResult)
    requires
        text@.len() <= MAX_CHARS,
        font.wf_for(text@),
        style.wf(),
    ensures
        placements_view(r.placements@) == all_placements(
            text@,
            font.glyphs@,
            font.metrics,
            style.justify,
        ),
        forall|k: int|
            0 <= k < r.placements@.len() ==> (#[trigger] r.placements@[k]).character
                == text@[r.placements@[k]@.idx],
        opt_bounds(r.bounds) == box_of(
            merged_verts(
                all_placements(text@, font.glyphs@, font.metrics, style.justify),
                font.glyphs@,
            ),
        ),
{
    let ghost tx = text@;
    let ghost gl = font.glyphs@;
    let ghost m = font.metrics;
    let ghost j = style.justify;
    let ghost ps = all_placements(tx, gl, m, j);
    let n = text.len();
    let mut out: Vec<GlyphPlacement> = Vec::new();
    let mut bounds: Option<Bounds> = None;
    let mut s: usize = 0;
    let mut li: usize = 0;
    let mut y: i64 = 0;
    let ghost mut done: Seq<PlacedGlyph> = Seq::empty();
    proof {
        assert(done + placements_from(tx, gl, m, j, 0, 0, 0) =~= placements_from(
            tx,
            gl,
            m,
            j,
            0,
            0,
            0,
        ));
        assert(placements_view(out@) =~= done);
    }
    loop
        invariant_except_break
            ps == done + placements_from(tx, gl, m, j, s as int, li as int, y as int),
        invariant
            n == tx.len(),
            n <= MAX_CHARS,
            tx == text@,
            gl == font.glyphs@,
            m == font.metrics,
            j == style.justify,
            ps == all_placements(tx, gl, m, j),
            font.wf_for(tx),
            style.wf(),
            s <= n,
            li <= s,
            -(li as int) * 0x3_0000_0000 <= y <= (li as int) * 0x3_0000_0000,
            placements_view(out@) == done,
            placements_valid(done, gl),
            opt_bounds(bounds) == box_of(merged_verts(done, gl)),
            bounds matches Some(bb) ==> bb.wf(),
            forall|k: int|
                0 <= k < out@.len() ==> (#[trigger] out@[k]).character == tx[out@[k]@.idx],
        ensures
            ps == done,
            placements_view(out@) == done,
            opt_bounds(bounds) == box_of(merged_verts(done, gl)),
            forall|k: int|
                0 <= k < out@.len() ==> (#[trigger] out@[k]).character == tx[out@[k]@.idx],
        decreases n - s,
    {
        proof {
            crate::layout::lemma_next_newline(tx, s as int);
        }
        let e = next_newline_pos(text, s);
        let w = calculate_line_width(text, &font.glyphs, &font.metrics, s, e);
        let x0 = calculate_justification_offset(style.justify, w);
        let mut x = x0;
        let mut i = s;
        let ghost rest = if e >= n {
            Seq::<PlacedGlyph>::empty()
        } else {
            placements_from(tx, gl, m, j, e + 1, li as int + 1, y - m.line_height)
        };
        proof {
            let lp0 = line_placements(tx, gl, m, e as int, s as int, x0 as int, y as int, li as int);
            if e >= n {
                assert(placements_from(tx, gl, m, j, s as int, li as int, y as int) == lp0);
                assert(lp0 + rest =~= lp0);
            }
            assert(done + (lp0 + rest) =~= done + lp0 + rest);
        }
        while i < e
            invariant
                n == tx.len(),
                n <= MAX_CHARS,
                tx == text@,
                gl == font.glyphs@,
                m == font.metrics,
                j == style.justify,
                ps == all_placements(tx, gl, m, j),
                font.wf_for(tx),
                style.wf(),
                s <= i <= e <= n,
                li <= s,
                -(li as int) * 0x3_0000_0000 <= y <= (li as int) * 0x3_0000_0000,
                -MAX_LINE_WIDTH <= x0 <= 0,
                x0 <= x <= x0 + (i - s) * (COORD_LIMIT as int),
                rest == (if e >= n {
                    Seq::<PlacedGlyph>::empty()
                } else {
                    placements_from(tx, gl, m, j, e + 1, li as int + 1, y - m.line_height)
                }),
                ps == done + line_placements(
                    tx,
                    gl,
                    m,
                    e as int,
                    i as int,
                    x as int,
                    y as int,
                    li as int,
                ) + rest,
                placements_view(out@) == done,
                placements_valid(done, gl),
                opt_bounds(bounds) == box_of(merged_verts(done, gl)),
                bounds matches Some(bb) ==> bb.wf(),
                forall|k: int|
                    0 <= k < out@.len() ==> (#[trigger] out@[k]).character == tx[out@[k]@.idx],
            decreases e - i,
        {
            let c = text[i];
            proof {
                crate::font::lemma_advance_of_bounds(tx[i as int], gl[i as int], m);
            }
            let ghost lp_i = line_placements(
                tx,
                gl,
                m,
                e as int,
                i as int,
                x as int,
                y as int,
                li as int,
            );
            if crate::font::is_whitespace_char(c) {
                let a = crate::font::get_glyph_advance(c, &font.glyphs[i], &font.metrics);
                proof {
                    assert(!emits(tx[i as int], gl[i as int]));
                    assert(cursor_advance(tx[i as int], gl[i as int], m) == a as int);
                    let tail = line_placements(
                        tx,
                        gl,
                        m,
                        e as int,
                        i as int + 1,
                        x as int + a as int,
                        y as int,
                        li as int,
                    );
                    assert(lp_i == Seq::<PlacedGlyph>::empty() + tail);
                    assert(Seq::<PlacedGlyph>::empty() + tail =~= tail);
                }
                x = x + a;
            } else {
                match &font.glyphs[i] {
                    CharGlyph::Outlined(f) => {
                        proof {
                            assert(gl[i as int] == CharGlyph::Outlined(*f));
                            assert(emits(tx[i as int], gl[i as int]));
                            assert(f.wf());
                        }
                        let ghost pl = PlacedGlyph {
                            idx: i as int,
                            line: li as int,
                            x: x as int,
                            y: y as int,
                        };
                        let ghost prev = done;
                        let ghost pre_out = out@;
                        let gp = GlyphPlacement {
                            char_index: i,
                            line_index: li,
                            character: c,
                            x,
                            y,
                        };
                        out.push(gp);
                        bounds = crate::mesh::expand_bounds_by_fragment(f, x, y, bounds);
                        proof {
                            done = prev.push(pl);
                            assert(out@ == pre_out.push(gp));
                            assert(gp@ == pl);
                            lemma_placements_view_push(pre_out, gp);
                            lemma_characters_preserved(pre_out, gp, tx);
                            assert(done.drop_last() =~= prev);
                            assert(done.last() == pl);
                            assert(frag_of(gl, i as int) == *f);
                            assert(merged_verts(done, gl) == merged_verts(prev, gl) + frag_pts_at(
                                *f,
                                x as int,
                                y as int,
                            ));
                            crate::mesh::lemma_box_of_append(
                                merged_verts(prev, gl),
                                frag_pts_at(*f, x as int, y as int),
                            );
                            assert(placements_valid(done, gl)) by {
                                assert(forall|k: int|
                                    0 <= k < done.len() - 1 ==> done[k] == #[trigger] prev[k]);
                            }
                            let tail = line_placements(
                                tx,
                                gl,
                                m,
                                e as int,
                                i as int + 1,
                                x as int + cursor_advance(tx[i as int], gl[i as int], m),
                                y as int,
                                li as int,
                            );
                            assert(lp_i == seq![pl] + tail);
                            assert(prev + (seq![pl] + tail) + rest =~= done + tail + rest);
                        }
                        let a = crate::font::get_glyph_advance(c, &font.glyphs[i], &font.metrics);
                        proof {
                            assert(cursor_advance(tx[i as int], gl[i as int], m) == a as int);
                        }
                        x = x + a;
                    },
                    _ => {
                        proof {
                            assert(!emits(tx[i as int], gl[i as int]));
                            assert(cursor_advance(tx[i as int], gl[i as int], m) == 0);
                            let tail = line_placements(
                                tx,
                                gl,
                                m,
                                e as int,
                                i as int + 1,
                                x as int + 0,
                                y as int,
                                li as int,
                            );
                            assert(lp_i == Seq::<PlacedGlyph>::empty() + tail);
                            assert(Seq::<PlacedGlyph>::empty() + tail =~= tail);
                        }
                    },
                }
            }
            i = i + 1;
        }
        proof {
            assert(line_placements(tx, gl, m, e as int, e as int, x as int, y as int, li as int)
                =~= Seq::<PlacedGlyph>::empty());
            assert(done + Seq::<PlacedGlyph>::empty() + rest =~= done + rest);
            assert(ps == done + rest);
        }
        if e == n {
            proof {
                assert(rest =~= Seq::<PlacedGlyph>::empty());
                assert(done + Seq::<PlacedGlyph>::empty() =~= done);
            }
            break;
        }
        s = e + 1;
        li = li + 1;
        y = y - font.metrics.line_height;
    }
    GlyphLayoutResult { placements: out, bounds }
}

/// One host-driven layout invocation: when the font asset has not resolved
/// yet, the pass is deferred and produces no output and no error; once it
/// is available, the full merged layout is produced.
pub fn layout_pass(text: &Vec<char>, style: &TextMeshStyle, font: Option<&ResolvedFont>) -> (r:
    Option<LayoutResult>)
    requires
        text@.len() <= MAX_CHARS,
        style.wf(),
        font matches Some(f) ==> f.wf_for(text@),
    ensures
        font is None <==> r is None,
        font matches Some(f) ==> r matches Some(l) && is_layout_of(l, text@, *f, *style),
{
    match font {
        None => None,
        Some(f) => Some(layout_text_mesh(text, f, style)),
    }
}

/// Laying out the same text, font and style twice yields identical
/// vertex, normal and index buffers and the same bounds: the pass is a
/// pure function of its inputs.
pub proof fn lemma_layout_idempotent(
    r1: LayoutResult,
    r2: LayoutResult,
    text: Seq<char>,
    font: ResolvedFont,
    style: TextMeshStyle,
)
    requires
        is_layout_of(r1, text, font, style),
        is_layout_of(r2, text, font, style),
    ensures
        r1.mesh.vertices@ == r2.mesh.vertices@,
        r1.mesh.normals@ == r2.mesh.normals@,
        r1.mesh.indices@ == r2.mesh.indices@,
        r1.bounds == r2.bounds,
{
    assert(r1.mesh.vertices@ =~= r2.mesh.vertices@) by {
        assert(pts(r1.mesh.vertices@) == pts(r2.mesh.vertices@));
        assert forall|k: int|
            0 <= k < r1.mesh.vertices@.len() implies r1.mesh.vertices@[k] == r2.mesh.vertices@[k]
        by {
            assert(r1.mesh.vertices@[k]@ == pts(r1.mesh.vertices@)[k]);
            assert(r2.mesh.vertices@[k]@ == pts(r2.mesh.vertices@)[k]);
        }
    }
    assert(r1.mesh.normals@ =~= r2.mesh.normals@) by {
        assert(pts(r1.mesh.normals@) == pts(r2.mesh.normals@));
        assert(pts(r1.mesh.normals@).len() == r1.mesh.normals@.len());
        assert(pts(r2.mesh.normals@).len() == r2.mesh.normals@.len());
        assert forall|k: int|
            0 <= k < r1.mesh.normals@.len() implies r1.mesh.normals@[k] == r2.mesh.normals@[k]
        by {
            assert(r1.mesh.normals@[k]@ == pts(r1.mesh.normals@)[k]);
            assert(r2.mesh.normals@[k]@ == pts(r2.mesh.normals@)[k]);
        }
    }
    assert(r1.mesh.indices@ =~= r2.mesh.indices@) by {
        assert(r1.mesh.indices@.map_values(|u: u32| u as int) == r2.mesh.indices@.map_values(
            |u: u32| u as int,
        ));
        assert(r1.mesh.indices@.map_values(|u: u32| u as int).len() == r1.mesh.indices@.len());
        assert(r2.mesh.indices@.map_values(|u: u32| u as int).len() == r2.mesh.indices@.len());
        assert forall|k: int|
            0 <= k < r1.mesh.indices@.len() implies r1.mesh.indices@[k] == r2.mesh.indices@[k]
        by {
            assert(r1.mesh.indices@[k] as int == r1.mesh.indices@.map_values(|u: u32| u as int)[k]);
            assert(r2.mesh.indices@[k] as int == r2.mesh.indices@.map_values(|u: u32| u as int)[k]);
        }
    }
    assert(opt_bounds(r1.bounds) == opt_bounds(r2.bounds));
    match (r1.bounds, r2.bounds) {
        (Some(b1), Some(b2)) => {
            assert(b1@ == b2@);
            assert(b1.min == b2.min);
            assert(b1.max == b2.max);
            assert(b1 == b2);
        },
        _ => {},
    }
}

/// For a pass that produced geometry, every vertex as accumulated before
/// the anchor offset lies within the returned bounding box; a pass that
/// produced none returns no bounds and an empty buffer, and no offset was
/// applied.
pub proof fn lemma_bounds_contain_vertices(
    r: LayoutResult,
    text: Seq<char>,
    font: ResolvedFont,
    style: TextMeshStyle,
)
    requires
        is_layout_of(r, text, font, style),
    ensures
        r.bounds matches Some(b) ==> (forall|k: int|
            0 <= k < merged_verts(
                all_placements(text, font.glyphs@, font.metrics, style.justify),
                font.glyphs@,
            ).len() ==> crate::geometry::point_in_box(
                #[trigger] merged_verts(
                    all_placements(text, font.glyphs@, font.metrics, style.justify),
                    font.glyphs@,
                )[k],
                b@.0,
                b@.1,
            )),
        r.bounds is None ==> r.mesh.vertices@.len() == 0,
{
    let ps = all_placements(text, font.glyphs@, font.metrics, style.justify);
    let base = merged_verts(ps, font.glyphs@);
    crate::geometry::lemma_box_contains(base);
    if r.bounds is None {
        assert(base.len() == 0);
        assert(pts(r.mesh.vertices@).len() == r.mesh.vertices@.len());
    }
}

/// Every index of the merged output buffer points inside its vertex
/// buffer: rebasing keeps fragment-local indices valid after merging.
pub proof fn lemma_output_indices_valid(
    r: LayoutResult,
    text: Seq<char>,
    font: ResolvedFont,
    style: TextMeshStyle,
)
    requires
        is_layout_of(r, text, font, style),
        font.wf_for(text),
    ensures
        forall|k: int|
            0 <= k < r.mesh.indices@.len() ==> (#[trigger] r.mesh.indices@[k] as int)
                < r.mesh.vertices@.len(),
{
    let gl = font.glyphs@;
    let ps = all_placements(text, gl, font.metrics, style.justify);
    let base = merged_verts(ps, gl);
    lemma_placements_from_props(text, gl, font.metrics, style.justify, 0, 0, 0);
    assert(crate::mesh::placements_valid(ps, gl)) by {
        assert forall|k: int| 0 <= k < ps.len() implies {
            let p = #[trigger] ps[k];
            &&& 0 <= p.idx < gl.len()
            &&& gl[p.idx] is Outlined
        } by {
            assert(ps[k] == placements_from(text, gl, font.metrics, style.justify, 0, 0, 0)[k]);
            assert(emits(text[ps[k].idx], gl[ps[k].idx]));
        }
    }
    crate::mesh::lemma_merged_indices_valid(ps, gl);
    assert(pts(r.mesh.vertices@).len() == r.mesh.vertices@.len());
    assert(r.mesh.indices@.map_values(|u: u32| u as int).len() == r.mesh.indices@.len());
    assert forall|k: int|
        0 <= k < r.mesh.indices@.len() implies (#[trigger] r.mesh.indices@[k] as int)
        < r.mesh.vertices@.len() by {
        assert(r.mesh.indices@[k] as int == r.mesh.indices@.map_values(|u: u32| u as int)[k]);
        assert(merged_indices(ps, gl)[k] < base.len());
        match box_of(base) {
            None => {
                assert(pts(r.mesh.vertices@) == base);
            },
            Some(bb) => {
                assert(pts(r.mesh.vertices@) == translate_pts(
                    base,
                    spec_anchor_offset(style.anchor, bb.0, bb.1),
                ));
            },
        }
    }
}

/// Replacing whitespace by other non-line-break whitespace of the same
/// reported advance leaves the produced geometry byte-identical: whitespace
/// only ever moves the cursor, never the output.
pub proof fn lemma_whitespace_neutrality(
    r1: LayoutResult,
    r2: LayoutResult,
    text1: Seq<char>,
    font1: ResolvedFont,
    text2: Seq<char>,
    font2: ResolvedFont,
    style: TextMeshStyle,
)
    requires
        font1.metrics == font2.metrics,
        whitespace_equiv(text1, font1.glyphs@, text2, font2.glyphs@, font1.metrics),
        is_layout_of(r1, text1, font1, style),
        is_layout_of(r2, text2, font2, style),
    ensures
        r1.mesh.vertices@ == r2.mesh.vertices@,
        r1.mesh.normals@ == r2.mesh.normals@,
        r1.mesh.indices@ == r2.mesh.indices@,
        r1.bounds == r2.bounds,
{
    let gl1 = font1.glyphs@;
    let gl2 = font2.glyphs@;
    let m = font1.metrics;
    let j = style.justify;
    lemma_ws_equiv_placements(text1, gl1, text2, gl2, m, j, 0, 0, 0);
    let ps = all_placements(text1, gl1, m, j);
    assert(all_placements(text2, gl2, m, j) == ps);
    lemma_placements_from_props(text1, gl1, m, j, 0, 0, 0);
    assert forall|k: int|
        0 <= k < ps.len() implies gl1[(#[trigger] ps[k]).idx] == gl2[ps[k].idx] by {
        assert(ps[k] == placements_from(text1, gl1, m, j, 0, 0, 0)[k]);
        let p = ps[k];
        assert(emits(text1[p.idx], gl1[p.idx]));
        assert(!crate::font::spec_is_whitespace(text1[p.idx]));
        assert(text1[p.idx] == text2[p.idx] && gl1[p.idx] == gl2[p.idx]);
    }
    crate::mesh::lemma_merged_glyphs_agree(ps, gl1, gl2);
    assert(is_layout_of(r2, text1, font1, style));
    lemma_layout_idempotent(r1, r2, text1, font1, style);
}

} // verus!

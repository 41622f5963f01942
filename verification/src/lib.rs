//! A 3D text layout engine: lays characters of a text out in space and merges
//! per-character surface fragments into one indexed mesh, with multi-line
//! justification and anchor pivoting.
//!
//! All coordinates, advance widths and font metrics are fixed-point integers:
//! one font unit is [`UNIT`] ticks. The host converts the outline provider's
//! floating-point geometry into ticks before handing it to the engine, and
//! converts the finished buffers back.

mod anchor;
mod cache;
mod cursor;
mod engine;
mod font;
mod geometry;
mod layout;
mod mesh;
mod style;

pub use anchor::{
    anchor_pivot, calculate_anchor_offset, lemma_anchor_targets_origin,
    lemma_custom_anchor_equivalence, spec_anchor_offset,
};
pub use cache::{entries_map, sweep_of, unique_ids, FontCacheEntry, ParsedFontCache};
pub use cursor::{
    all_placements, lemma_line_stacking, lemma_placements_from_props, lemma_ws_equiv_placements,
    line_placements, placements_from, whitespace_equiv, PlacedGlyph,
};
pub use engine::{
    is_layout_of, layout_glyph_placements, layout_pass, layout_text_mesh,
    lemma_bounds_contain_vertices, lemma_layout_idempotent, lemma_output_indices_valid,
    lemma_whitespace_neutrality, placements_view, GlyphLayoutResult, GlyphPlacement, LayoutResult,
};
pub use font::{
    advance_of, cursor_advance, emits, fallback_advance, get_glyph_advance, is_whitespace_char,
    spec_is_whitespace, CharGlyph, FontMetrics, GlyphFragment, ResolvedFont, MAX_FRAG_VERTS,
};
pub use geometry::{
    box_of, expand_bounds, lemma_box_contains, opt_bounds, point_in_box, pts, Bounds, Vec3i,
    COORD_LIMIT, PLACED_LIMIT,
};
pub use layout::{
    calculate_justification_offset, calculate_line_width, char_positions,
    lemma_justification_symmetry, next_newline, next_newline_pos, spans_from, spec_justify_offset,
    split_lines, text_width, width_range, LineSpan, MAX_CHARS, MAX_LINE_WIDTH,
};
pub use mesh::{
    append_fragment, apply_offset, box_fold, frag_of, frag_pts_at, lemma_merged_indices_valid,
    lemma_merged_parallel, merged_indices, merged_normals, merged_verts, placements_valid,
    translate_pt, translate_pts, MeshData, CURSOR_Y_LIMIT,
};
pub use style::{JustifyText, TextAnchor, TextMeshStyle, UNIT};

use textmesh::{
    layout_glyph_placements, CharGlyph, FontMetrics, GlyphFragment, JustifyText, ResolvedFont,
    TextAnchor, TextMeshStyle, Vec3i,
};

fn metrics() -> FontMetrics {
    FontMetrics::new(1000, -200, 40)
}

fn style(justify: JustifyText) -> TextMeshStyle {
    TextMeshStyle { anchor: TextAnchor::TopLeft, justify, ..TextMeshStyle::default() }
}

fn v(x: i64, y: i64, z: i64) -> Vec3i {
    Vec3i { x, y, z }
}

fn outlined(advance: i64) -> CharGlyph {
    CharGlyph::Outlined(GlyphFragment {
        vertices: vec![v(0, 0, 0), v(50, 0, 0), v(0, 50, 0)],
        normals: vec![v(0, 0, 1), v(0, 0, 1), v(0, 0, 1)],
        indices: vec![0, 1, 2],
        advance,
    })
}

fn chars(s: &str) -> Vec<char> {
    s.chars().collect()
}

#[test]
fn placements_walk_the_cursor() {
    let t = chars("ab");
    let font = ResolvedFont { metrics: metrics(), glyphs: vec![outlined(600), outlined(500)] };
    let out = layout_glyph_placements(&t, &font, &style(JustifyText::Left));
    let r = &out.placements;
    assert_eq!(r.len(), 2);
    assert_eq!((r[0].char_index, r[0].line_index, r[0].character, r[0].x, r[0].y), (0, 0, 'a', 0, 0));
    assert_eq!((r[1].char_index, r[1].line_index, r[1].character, r[1].x, r[1].y), (1, 0, 'b', 600, 0));
    // The bounds cover the two placed triangles: x 0..650, y 0..50.
    let b = out.bounds.unwrap();
    assert_eq!((b.min.x, b.min.y, b.min.z), (0, 0, 0));
    assert_eq!((b.max.x, b.max.y, b.max.z), (650, 50, 0));
}

#[test]
fn placements_count_the_line_break() {
    // The implicit line break consumes one character index: 'b' is index 2.
    let t = chars("a\nb");
    let font = ResolvedFont {
        metrics: metrics(),
        glyphs: vec![outlined(600), CharGlyph::Missing, outlined(500)],
    };
    let out = layout_glyph_placements(&t, &font, &style(JustifyText::Left));
    let r = &out.placements;
    assert_eq!(r.len(), 2);
    assert_eq!((r[0].char_index, r[0].line_index, r[0].y), (0, 0, 0));
    assert_eq!((r[1].char_index, r[1].line_index, r[1].x, r[1].y), (2, 1, 0, -1240));
}

#[test]
fn placements_skip_whitespace_but_count_it() {
    let t = chars("a b");
    let font = ResolvedFont {
        metrics: metrics(),
        glyphs: vec![outlined(600), CharGlyph::Plain { advance: 300 }, outlined(500)],
    };
    let out = layout_glyph_placements(&t, &font, &style(JustifyText::Left));
    let r = &out.placements;
    assert_eq!(r.len(), 2);
    assert_eq!((r[1].char_index, r[1].x), (2, 900));
}

#[test]
fn placements_cursor_matches_merged_mode_on_outline_failure() {
    // A character whose outline failed neither places nor advances, in
    // per-glyph mode just as in merged mode.
    let t = chars("aqb");
    let font = ResolvedFont {
        metrics: metrics(),
        glyphs: vec![outlined(600), CharGlyph::Plain { advance: 500 }, outlined(500)],
    };
    let out = layout_glyph_placements(&t, &font, &style(JustifyText::Left));
    let r = &out.placements;
    assert_eq!(r.len(), 2);
    assert_eq!((r[1].char_index, r[1].x), (2, 600));
}

#[test]
fn placements_justify_each_line_on_its_own() {
    let t = chars("ab\nc");
    let font = ResolvedFont {
        metrics: metrics(),
        glyphs: vec![outlined(600), outlined(400), CharGlyph::Missing, outlined(500)],
    };
    let out = layout_glyph_placements(&t, &font, &style(JustifyText::Right));
    let r = &out.placements;
    assert_eq!(r.len(), 3);
    // Line 1 width 1000, line 2 width 500.
    assert_eq!((r[0].x, r[0].y), (-1000, 0));
    assert_eq!((r[1].x, r[1].y), (-400, 0));
    assert_eq!((r[2].x, r[2].y), (-500, -1240));
}

#[test]
fn placements_empty_for_whitespace_only_text() {
    let t = chars(" \n ");
    let font = ResolvedFont {
        metrics: metrics(),
        glyphs: vec![CharGlyph::Missing, CharGlyph::Missing, CharGlyph::Missing],
    };
    let out = layout_glyph_placements(&t, &font, &style(JustifyText::Center));
    assert!(out.placements.is_empty());
    assert!(out.bounds.is_none());
}

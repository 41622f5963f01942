use textmesh::{
    layout_pass, layout_text_mesh, CharGlyph, FontMetrics, GlyphFragment, JustifyText,
    ResolvedFont, TextAnchor, TextMeshStyle, Vec3i,
};

fn metrics() -> FontMetrics {
    // line height = 1000 - (-200) + 40 = 1240
    FontMetrics::new(1000, -200, 40)
}

fn style(anchor: TextAnchor, justify: JustifyText) -> TextMeshStyle {
    TextMeshStyle { anchor, justify, ..TextMeshStyle::default() }
}

fn v(x: i64, y: i64, z: i64) -> Vec3i {
    Vec3i { x, y, z }
}

fn tri(p0: (i64, i64, i64), p1: (i64, i64, i64), p2: (i64, i64, i64), advance: i64) -> CharGlyph {
    CharGlyph::Outlined(GlyphFragment {
        vertices: vec![v(p0.0, p0.1, p0.2), v(p1.0, p1.1, p1.2), v(p2.0, p2.1, p2.2)],
        normals: vec![v(0, 0, 1), v(0, 0, 1), v(0, 0, 1)],
        indices: vec![0, 1, 2],
        advance,
    })
}

fn frag_a() -> CharGlyph {
    tri((0, 0, 0), (100, 0, 0), (0, 100, 0), 600)
}

fn frag_b() -> CharGlyph {
    tri((10, 20, 0), (110, 20, 0), (10, 120, 5), 500)
}

fn chars(s: &str) -> Vec<char> {
    s.chars().collect()
}

fn verts(r: &textmesh::LayoutResult) -> Vec<(i64, i64, i64)> {
    r.mesh.vertices.iter().map(|p| (p.x, p.y, p.z)).collect()
}

#[test]
fn single_char_top_left() {
    let t = chars("a");
    let font = ResolvedFont { metrics: metrics(), glyphs: vec![frag_a()] };
    let r = layout_text_mesh(&t, &font, &style(TextAnchor::TopLeft, JustifyText::Left));
    // Pre-offset bounds: (0,0,0)..(100,100,0); TopLeft offset = (0, -100, 0).
    assert_eq!(verts(&r), vec![(0, -100, 0), (100, -100, 0), (0, 0, 0)]);
    assert_eq!(r.mesh.indices, vec![0, 1, 2]);
    let b = r.bounds.unwrap();
    assert_eq!((b.min.x, b.min.y, b.min.z), (0, 0, 0));
    assert_eq!((b.max.x, b.max.y, b.max.z), (100, 100, 0));
}

#[test]
fn two_chars_merge_with_rebased_indices() {
    let t = chars("ab");
    let font = ResolvedFont { metrics: metrics(), glyphs: vec![frag_a(), frag_b()] };
    let r = layout_text_mesh(&t, &font, &style(TextAnchor::TopLeft, JustifyText::Left));
    // 'b' is placed at the cursor after 'a': x = 600.
    // Pre-offset vertices: a at (0,0),(100,0),(0,100); b at (610,20),(710,20),(610,120,z5).
    // Bounds: (0,0,0)..(710,120,5). TopLeft offset: (0,-120,0).
    assert_eq!(
        verts(&r),
        vec![
            (0, -120, 0),
            (100, -120, 0),
            (0, -20, 0),
            (610, -100, 0),
            (710, -100, 0),
            (610, 0, 5)
        ]
    );
    assert_eq!(r.mesh.indices, vec![0, 1, 2, 3, 4, 5]);
    assert_eq!(r.mesh.normals.len(), 6);
    // Every index points inside the merged vertex buffer.
    for &ix in r.mesh.indices.iter() {
        assert!((ix as usize) < r.mesh.vertices.len());
    }
}

#[test]
fn lines_stack_down_by_one_line_height() {
    let t = chars("a\nb");
    let font = ResolvedFont { metrics: metrics(), glyphs: vec![frag_a(), CharGlyph::Missing, frag_b()] };
    let r = layout_text_mesh(&t, &font, &style(TextAnchor::TopLeft, JustifyText::Left));
    // Line 2 sits exactly one line height (1240) below line 1, with no
    // horizontal coupling: both lines start at x = 0.
    // Pre-offset: a at (0,0); b at (0,-1240): (10,-1220),(110,-1220),(10,-1120,z5).
    // Bounds: (0,-1220,0)..(110,100,5). TopLeft offset: (0,-100,0).
    assert_eq!(
        verts(&r),
        vec![
            (0, -100, 0),
            (100, -100, 0),
            (0, 0, 0),
            (10, -1320, 0),
            (110, -1320, 0),
            (10, -1220, 5)
        ]
    );
    let b = r.bounds.unwrap();
    assert_eq!((b.min.x, b.min.y, b.min.z), (0, -1220, 0));
    assert_eq!((b.max.x, b.max.y, b.max.z), (110, 100, 5));
}

#[test]
fn empty_text_has_no_geometry_and_no_bounds() {
    let t = chars("");
    let font = ResolvedFont { metrics: metrics(), glyphs: vec![] };
    let r = layout_text_mesh(&t, &font, &style(TextAnchor::Center, JustifyText::Center));
    assert!(r.mesh.vertices.is_empty());
    assert!(r.mesh.normals.is_empty());
    assert!(r.mesh.indices.is_empty());
    assert!(r.bounds.is_none());
}

#[test]
fn whitespace_only_text_has_no_geometry() {
    let t = chars("  ");
    let font = ResolvedFont {
        metrics: metrics(),
        glyphs: vec![CharGlyph::Plain { advance: 300 }, CharGlyph::Missing],
    };
    let r = layout_text_mesh(&t, &font, &style(TextAnchor::BottomLeft, JustifyText::Left));
    assert!(r.mesh.vertices.is_empty());
    assert!(r.bounds.is_none());
}

#[test]
fn missing_glyph_is_zero_width_and_skipped() {
    // 'a', then an unmapped visible character, then 'b': the middle one
    // contributes no geometry and no advance.
    let t = chars("aqb");
    let font = ResolvedFont {
        metrics: metrics(),
        glyphs: vec![frag_a(), CharGlyph::Missing, frag_b()],
    };
    let r = layout_text_mesh(&t, &font, &style(TextAnchor::TopLeft, JustifyText::Left));
    // 'b' still starts at x = 600.
    assert_eq!(verts(&r)[3], (610, -100, 0));
    assert_eq!(r.mesh.vertices.len(), 6);
}

#[test]
fn outline_failure_skips_that_character_only() {
    // The middle character has a glyph (advance 500) but no usable outline:
    // it is skipped locally and the cursor stays put, the rest still lays out.
    let t = chars("aqb");
    let font = ResolvedFont {
        metrics: metrics(),
        glyphs: vec![frag_a(), CharGlyph::Plain { advance: 500 }, frag_b()],
    };
    let r = layout_text_mesh(&t, &font, &style(TextAnchor::TopLeft, JustifyText::Left));
    assert_eq!(r.mesh.vertices.len(), 6);
    assert_eq!(verts(&r)[3], (610, -100, 0));
}

#[test]
fn center_justification_centers_the_line() {
    let t = chars("ab");
    let font = ResolvedFont { metrics: metrics(), glyphs: vec![frag_a(), frag_b()] };
    let r = layout_text_mesh(&t, &font, &style(TextAnchor::BottomLeft, JustifyText::Center));
    // Line width 1100, so the line starts at x = -550: a's first vertex at
    // x = -550 pre-offset; bounds min x = -550, min y = 0; BottomLeft offset
    // (550, 0, 0).
    assert_eq!(verts(&r)[0], (0, 0, 0));
    // b's first vertex pre-offset: (-550+600+10, 20) = (60, 20); +550 => 610.
    assert_eq!(verts(&r)[3], (610, 20, 0));
}

#[test]
fn bounds_contain_every_vertex() {
    let t = chars("ab\ncd");
    let font = ResolvedFont {
        metrics: metrics(),
        glyphs: vec![frag_a(), frag_b(), CharGlyph::Missing, frag_b(), frag_a()],
    };
    let r = layout_text_mesh(&t, &font, &style(TextAnchor::Center, JustifyText::Right));
    let b = r.bounds.unwrap();
    let o = textmesh::calculate_anchor_offset(TextAnchor::Center, &b);
    // Bounds are computed before the anchor offset; the emitted vertices
    // carry the offset, so they lie within the translated box.
    for p in r.mesh.vertices.iter() {
        assert!(b.min.x + o.x <= p.x && p.x <= b.max.x + o.x);
        assert!(b.min.y + o.y <= p.y && p.y <= b.max.y + o.y);
        assert!(b.min.z + o.z <= p.z && p.z <= b.max.z + o.z);
    }
}

#[test]
fn center_anchor_maps_box_center_to_origin() {
    let t = chars("a");
    // A symmetric fragment: box (0,0,0)..(100,100,0), center (50,50).
    let font = ResolvedFont { metrics: metrics(), glyphs: vec![frag_a()] };
    let r = layout_text_mesh(&t, &font, &style(TextAnchor::Center, JustifyText::Left));
    let b = r.bounds.unwrap();
    let o = textmesh::calculate_anchor_offset(TextAnchor::Center, &b);
    let cx = b.min.x + (b.max.x - b.min.x) / 2;
    let cy = b.min.y + (b.max.y - b.min.y) / 2;
    assert_eq!(cx + o.x, 0);
    assert_eq!(cy + o.y, 0);
    assert_eq!(verts(&r), vec![(-50, -50, 0), (50, -50, 0), (-50, 50, 0)]);
}

#[test]
fn layout_is_idempotent() {
    let t = chars("ab\nc");
    let font = ResolvedFont {
        metrics: metrics(),
        glyphs: vec![frag_a(), frag_b(), CharGlyph::Missing, frag_a()],
    };
    let st = style(TextAnchor::TopCenter, JustifyText::Center);
    let r1 = layout_text_mesh(&t, &font, &st);
    let r2 = layout_text_mesh(&t, &font, &st);
    assert_eq!(verts(&r1), verts(&r2));
    assert_eq!(r1.mesh.indices, r2.mesh.indices);
    assert_eq!(r1.mesh.normals.len(), r2.mesh.normals.len());
    for (n1, n2) in r1.mesh.normals.iter().zip(r2.mesh.normals.iter()) {
        assert_eq!((n1.x, n1.y, n1.z), (n2.x, n2.y, n2.z));
    }
    let b1 = r1.bounds.unwrap();
    let b2 = r2.bounds.unwrap();
    assert_eq!((b1.min.x, b1.min.y, b1.max.x, b1.max.y), (b2.min.x, b2.min.y, b2.max.x, b2.max.y));
}

#[test]
fn whitespace_replacement_is_neutral() {
    // "a b" and "a\tb", the space and the tab reported with the same
    // advance: byte-identical geometry.
    let t1 = chars("a b");
    let t2 = chars("a\tb");
    let glyphs = |ws: CharGlyph| ResolvedFont {
        metrics: metrics(),
        glyphs: vec![frag_a(), ws, frag_b()],
    };
    let st = style(TextAnchor::TopLeft, JustifyText::Left);
    let r1 = layout_text_mesh(&t1, &glyphs(CharGlyph::Plain { advance: 300 }), &st);
    let r2 = layout_text_mesh(&t2, &glyphs(CharGlyph::Plain { advance: 300 }), &st);
    assert_eq!(verts(&r1), verts(&r2));
    assert_eq!(r1.mesh.indices, r2.mesh.indices);
    // And 'b' starts after a' advance plus the whitespace advance: x = 900.
    assert_eq!(verts(&r1)[3].0, 910);
}

#[test]
fn deferred_pass_produces_nothing() {
    let t = chars("ab");
    let st = style(TextAnchor::TopLeft, JustifyText::Left);
    assert!(layout_pass(&t, &st, None).is_none());
    // Once the font resolves, the same call produces the full geometry.
    let font = ResolvedFont { metrics: metrics(), glyphs: vec![frag_a(), frag_b()] };
    let r = layout_pass(&t, &st, Some(&font)).unwrap();
    assert_eq!(r.mesh.vertices.len(), 6);
    assert_eq!(r.mesh.indices, vec![0, 1, 2, 3, 4, 5]);
}

#[test]
fn default_style() {
    let st = TextMeshStyle::default();
    assert_eq!(st.depth, 100_000);
    assert_eq!(st.subdivision, 20);
    assert!(matches!(st.anchor, TextAnchor::TopLeft));
    assert!(matches!(st.justify, JustifyText::Left));
}

use textmesh::{
    calculate_justification_offset, calculate_line_width, char_positions, is_whitespace_char,
    split_lines, text_width, CharGlyph, FontMetrics, JustifyText, LineSpan,
};

fn metrics() -> FontMetrics {
    // ascender 1000, descender -200, line gap 40 => line height 1240
    FontMetrics::new(1000, -200, 40)
}

fn chars(s: &str) -> Vec<char> {
    s.chars().collect()
}

#[test]
fn split_lines_single() {
    let t = chars("abc");
    let spans = split_lines(&t);
    assert_eq!(spans, vec![LineSpan { start: 0, end: 3 }]);
}

#[test]
fn split_lines_multi() {
    let t = chars("ab\nc");
    let spans = split_lines(&t);
    assert_eq!(spans, vec![LineSpan { start: 0, end: 2 }, LineSpan { start: 3, end: 4 }]);
}

#[test]
fn split_lines_empty_text_is_one_empty_line() {
    let t = chars("");
    let spans = split_lines(&t);
    assert_eq!(spans, vec![LineSpan { start: 0, end: 0 }]);
}

#[test]
fn split_lines_trailing_marker_makes_empty_line() {
    let t = chars("a\n");
    let spans = split_lines(&t);
    assert_eq!(spans, vec![LineSpan { start: 0, end: 1 }, LineSpan { start: 2, end: 2 }]);
}

#[test]
fn split_lines_adjacent_markers() {
    let t = chars("a\n\nb");
    let spans = split_lines(&t);
    assert_eq!(
        spans,
        vec![
            LineSpan { start: 0, end: 1 },
            LineSpan { start: 2, end: 2 },
            LineSpan { start: 3, end: 4 }
        ]
    );
}

#[test]
fn text_width_sums_advances() {
    let t = chars("ab");
    let glyphs = vec![CharGlyph::Plain { advance: 600 }, CharGlyph::Plain { advance: 500 }];
    let m = metrics();
    assert_eq!(text_width(&t, &glyphs, &m), 1100);
}

#[test]
fn text_width_whitespace_fallback_is_quarter_height() {
    // An unmapped space falls back to (ascender - descender) / 4 = 300.
    let t = chars(" ");
    let glyphs = vec![CharGlyph::Missing];
    let m = metrics();
    assert_eq!(text_width(&t, &glyphs, &m), 300);
}

#[test]
fn text_width_unmapped_visible_char_is_zero() {
    let t = chars("q");
    let glyphs = vec![CharGlyph::Missing];
    let m = metrics();
    assert_eq!(text_width(&t, &glyphs, &m), 0);
}

#[test]
fn line_width_over_range() {
    let t = chars("abc");
    let glyphs = vec![
        CharGlyph::Plain { advance: 10 },
        CharGlyph::Plain { advance: 20 },
        CharGlyph::Plain { advance: 40 },
    ];
    let m = metrics();
    assert_eq!(calculate_line_width(&t, &glyphs, &m, 0, 3), 70);
    assert_eq!(calculate_line_width(&t, &glyphs, &m, 1, 3), 60);
    assert_eq!(calculate_line_width(&t, &glyphs, &m, 2, 2), 0);
}

#[test]
fn char_positions_are_prefix_sums() {
    let t = chars("abc");
    let glyphs = vec![
        CharGlyph::Plain { advance: 10 },
        CharGlyph::Plain { advance: 20 },
        CharGlyph::Plain { advance: 40 },
    ];
    let m = metrics();
    let ps = char_positions(&t, &glyphs, &m);
    assert_eq!(ps, vec![(0usize, 0i64), (1, 10), (2, 30)]);
}

#[test]
fn justification_offsets() {
    assert_eq!(calculate_justification_offset(JustifyText::Left, 1100), 0);
    assert_eq!(calculate_justification_offset(JustifyText::Center, 1100), -550);
    assert_eq!(calculate_justification_offset(JustifyText::Right, 1100), -1100);
    // Odd width: the midpoint lands within half a tick of the origin.
    assert_eq!(calculate_justification_offset(JustifyText::Center, 7), -3);
    assert_eq!(calculate_justification_offset(JustifyText::Left, 0), 0);
}

#[test]
fn whitespace_classification() {
    assert!(is_whitespace_char(' '));
    assert!(is_whitespace_char('\t'));
    assert!(is_whitespace_char('\n'));
    assert!(is_whitespace_char('\u{a0}'));
    assert!(is_whitespace_char('\u{2003}'));
    assert!(is_whitespace_char('\u{3000}'));
    assert!(!is_whitespace_char('a'));
    assert!(!is_whitespace_char('_'));
    assert!(!is_whitespace_char('\u{200b}'));
}

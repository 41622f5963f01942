use textmesh::{calculate_anchor_offset, Bounds, TextAnchor, Vec3i, UNIT};

fn example_box() -> Bounds {
    // size (200, 400, 10), center (50, 100)
    Bounds { min: Vec3i { x: -50, y: -100, z: 0 }, max: Vec3i { x: 150, y: 300, z: 10 } }
}

fn offset(a: TextAnchor) -> (i64, i64, i64) {
    let o = calculate_anchor_offset(a, &example_box());
    (o.x, o.y, o.z)
}

#[test]
fn anchor_offset_presets() {
    assert_eq!(offset(TextAnchor::TopLeft), (50, -300, 0));
    assert_eq!(offset(TextAnchor::TopCenter), (-50, -300, 0));
    assert_eq!(offset(TextAnchor::TopRight), (-150, -300, 0));
    assert_eq!(offset(TextAnchor::CenterLeft), (50, -100, 0));
    assert_eq!(offset(TextAnchor::Center), (-50, -100, 0));
    assert_eq!(offset(TextAnchor::CenterRight), (-150, -100, 0));
    assert_eq!(offset(TextAnchor::BottomLeft), (50, 100, 0));
    assert_eq!(offset(TextAnchor::BottomCenter), (-50, 100, 0));
    assert_eq!(offset(TextAnchor::BottomRight), (-150, 100, 0));
}

#[test]
fn custom_anchor_matches_top_left() {
    // (0, 1) in box fractions is the top-left corner.
    assert_eq!(offset(TextAnchor::Custom(0, UNIT)), offset(TextAnchor::TopLeft));
}

#[test]
fn custom_anchor_matches_center() {
    assert_eq!(offset(TextAnchor::Custom(UNIT / 2, UNIT / 2)), offset(TextAnchor::Center));
}

#[test]
fn custom_anchor_matches_bottom_right() {
    assert_eq!(offset(TextAnchor::Custom(UNIT, 0)), offset(TextAnchor::BottomRight));
}

#[test]
fn custom_anchor_interpolates() {
    // A quarter of the way across, three quarters up:
    // pivot = (-50 + 200/4, -100 + 400*3/4) = (0, 200).
    assert_eq!(offset(TextAnchor::Custom(UNIT / 4, 3 * (UNIT / 4))), (0, -200, 0));
}

#[test]
fn anchor_z_is_always_zero() {
    assert_eq!(offset(TextAnchor::Custom(123_456, 654_321)).2, 0);
    assert_eq!(offset(TextAnchor::BottomCenter).2, 0);
}

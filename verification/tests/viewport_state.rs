use hdim::viewport::{App, ZOOM_MIN, ZOOM_SCALE};

#[test]
fn scroll_clamps_to_image_dimension() {
    let mut app = App::new(100, 100, ZOOM_SCALE);
    app.scroll(1_000_000, 0);
    assert_eq!(app.source_pos.0, 100);
    assert_eq!(app.source_pos.1, 0);
}

#[test]
fn scroll_never_underflows_or_overshoots() {
    let mut app = App::new(50, 50, ZOOM_SCALE);
    app.scroll(-10, -10);
    assert_eq!(app.source_pos, (0, 0));
    app.scroll(7, 3);
    app.scroll(-100, -1);
    assert_eq!(app.source_pos, (0, 2));
    app.scroll(i32::MAX, i32::MAX);
    assert_eq!(app.source_pos, (50, 50));
    app.scroll(i32::MIN, i32::MIN);
    assert_eq!(app.source_pos, (0, 0));
}

#[test]
fn tiny_zoom_factor_clamps_to_floor() {
    // Shrinking a 1.0 zoom by a factor of one ten-thousandth lands on the
    // floor of 0.01, not below it.
    let mut app = App::new(100, 100, ZOOM_SCALE);
    app.zoom(1);
    assert_eq!(app.zoom, ZOOM_MIN);
}

#[test]
fn zoom_never_falls_below_floor() {
    let mut app = App::new(100, 100, ZOOM_SCALE);
    for _ in 0..100 {
        app.zoom(ZOOM_SCALE / 2);
        assert!(app.zoom >= ZOOM_MIN);
    }
    assert_eq!(app.zoom, ZOOM_MIN);
}

#[test]
fn zoom_scales_multiplicatively() {
    let mut app = App::new(100, 100, 2 * ZOOM_SCALE);
    app.zoom(3 * ZOOM_SCALE / 2);
    assert_eq!(app.zoom, 3 * ZOOM_SCALE);
}

#[test]
fn zoom_reclamps_the_viewport_origin() {
    let mut app = App::new(100, 100, ZOOM_SCALE);
    app.scroll(60, 80);
    app.zoom(2 * ZOOM_SCALE);
    assert_eq!(app.source_pos, (60, 80));
}

#[test]
fn new_starts_at_origin_and_respects_floor() {
    let app = App::new(10, 20, 0);
    assert_eq!(app.source_pos, (0, 0));
    assert_eq!(app.image_width, 10);
    assert_eq!(app.image_height, 20);
    assert_eq!(app.zoom, ZOOM_MIN);
}

#[test]
fn current_view_derives_source_extent_from_zoom() {
    let app = App::new(100, 80, 2 * ZOOM_SCALE);
    let v = app.current_view(10, 5);
    assert_eq!(v.source_x, 0);
    assert_eq!(v.source_y, 0);
    assert_eq!(v.source_width, 20);
    assert_eq!(v.source_height, 10);
    assert_eq!(v.target_width, 10);
    assert_eq!(v.target_height, 5);
}

#[test]
fn current_view_coerces_zero_targets() {
    let app = App::new(10, 10, ZOOM_SCALE);
    let v = app.current_view(0, 0);
    assert_eq!(v.target_width, 1);
    assert_eq!(v.target_height, 1);
}

use serpentines::monitor::{rect_from_bounds, MonitorRect, DEFAULT_DPI};

#[test]
fn bounds_give_position_and_size() {
    let r = rect_from_bounds(100, 50, 2020, 1130, Some(144));
    assert_eq!(
        r,
        MonitorRect { x: 100, y: 50, width: 1920, height: 1080, dpi: 144 }
    );
}

#[test]
fn failed_scaling_query_falls_back_to_the_default() {
    let r = rect_from_bounds(0, 0, 640, 480, None);
    assert_eq!(r.dpi, DEFAULT_DPI);
    assert_eq!(r.dpi, 96);
}

#[test]
fn negative_origin_is_kept() {
    let r = rect_from_bounds(-1920, -64, 0, 1016, Some(96));
    assert_eq!(r.x, -1920);
    assert_eq!(r.y, -64);
    assert_eq!(r.width, 1920);
    assert_eq!(r.height, 1080);
}

use serpentines::fmt::{format_i32, format_i64, format_u64, layout_description, refresh_summary};
use serpentines::monitor::MonitorRect;

fn rect(x: i32, y: i32, width: i32, height: i32, dpi: u32) -> MonitorRect {
    MonitorRect { x, y, width, height, dpi }
}

#[test]
fn unsigned_decimal_notation() {
    assert_eq!(format_u64(0), "0");
    assert_eq!(format_u64(7), "7");
    assert_eq!(format_u64(10), "10");
    assert_eq!(format_u64(12345), "12345");
    assert_eq!(format_u64(u64::MAX), "18446744073709551615");
}

#[test]
fn signed_decimal_notation() {
    assert_eq!(format_i64(0), "0");
    assert_eq!(format_i64(-1), "-1");
    assert_eq!(format_i64(42), "42");
    assert_eq!(format_i64(i64::MIN), "-9223372036854775808");
    assert_eq!(format_i32(-1920), "-1920");
    assert_eq!(format_i32(i32::MIN), "-2147483648");
    assert_eq!(format_i32(i32::MAX), "2147483647");
}

#[test]
fn empty_layout_has_an_empty_description() {
    assert_eq!(layout_description(&Vec::new()), "");
}

#[test]
fn one_display_layout_description() {
    let rects = vec![rect(100, -50, 1920, 1080, 144)];
    assert_eq!(
        layout_description(&rects),
        "display 0: origin=(100, -50), size=1920x1080, dpi=144"
    );
}

#[test]
fn two_display_layout_description() {
    let rects = vec![rect(0, 0, 1920, 1080, 96), rect(1920, 0, 800, 600, 120)];
    assert_eq!(
        layout_description(&rects),
        "display 0: origin=(0, 0), size=1920x1080, dpi=96; \
         display 1: origin=(1920, 0), size=800x600, dpi=120"
    );
}

#[test]
fn refresh_summary_counts_and_lists_displays() {
    let rects = vec![rect(0, 0, 1920, 1080, 96), rect(1920, 0, 800, 600, 120)];
    assert_eq!(
        refresh_summary(&rects),
        "Overlay refresh => 2 displays: [1920x1080 @ (0, 0) dpi 96], [800x600 @ (1920, 0) dpi 120]"
    );
    assert_eq!(refresh_summary(&Vec::new()), "Overlay refresh => 0 displays: ");
}

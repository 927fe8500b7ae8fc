use serpentines::ui::{close_request_directives, show_command_directives, ViewportDirective};

#[test]
fn show_with_a_native_window_raises_it_first() {
    assert_eq!(
        show_command_directives(true),
        vec![
            ViewportDirective::ShowNativeWindow,
            ViewportDirective::SetVisible(true),
            ViewportDirective::Focus,
            ViewportDirective::RequestRepaint,
        ]
    );
}

#[test]
fn show_without_a_native_window_skips_the_raise() {
    assert_eq!(
        show_command_directives(false),
        vec![
            ViewportDirective::SetVisible(true),
            ViewportDirective::Focus,
            ViewportDirective::RequestRepaint,
        ]
    );
}

#[test]
fn a_close_request_hides_instead_of_closing() {
    assert_eq!(
        close_request_directives(true),
        vec![
            ViewportDirective::SetVisible(false),
            ViewportDirective::CancelClose,
            ViewportDirective::RequestRepaint,
        ]
    );
}

#[test]
fn no_close_request_means_no_work() {
    assert_eq!(close_request_directives(false), Vec::new());
}

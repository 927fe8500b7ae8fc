use serpentines::tray::{
    menu_response, solid_white_rgba, tray_icon_response, TrayButton, TrayIconInteraction,
    TrayResponse,
};

#[test]
fn left_click_opens_the_settings() {
    assert_eq!(
        tray_icon_response(TrayIconInteraction::Click(TrayButton::Left)),
        TrayResponse::ShowSettings
    );
}

#[test]
fn other_interactions_are_ignored() {
    assert_eq!(
        tray_icon_response(TrayIconInteraction::Click(TrayButton::Right)),
        TrayResponse::Ignore
    );
    assert_eq!(
        tray_icon_response(TrayIconInteraction::Click(TrayButton::Middle)),
        TrayResponse::Ignore
    );
    assert_eq!(tray_icon_response(TrayIconInteraction::Other), TrayResponse::Ignore);
}

#[test]
fn menu_selection_routes_by_identifier() {
    let settings = String::from("1001");
    let exit = String::from("1002");
    assert_eq!(
        menu_response(&String::from("1001"), &settings, &exit),
        TrayResponse::ShowSettings
    );
    assert_eq!(
        menu_response(&String::from("1002"), &settings, &exit),
        TrayResponse::Quit
    );
    assert_eq!(
        menu_response(&String::from("9999"), &settings, &exit),
        TrayResponse::Ignore
    );
}

#[test]
fn equal_identifiers_prefer_the_settings_entry() {
    let shared = String::from("77");
    assert_eq!(
        menu_response(&String::from("77"), &shared, &shared),
        TrayResponse::ShowSettings
    );
}

#[test]
fn tray_icon_pixels_are_opaque_white() {
    let pixels = solid_white_rgba(16, 16);
    assert_eq!(pixels.len(), 16 * 16 * 4);
    assert!(pixels.iter().all(|&b| b == 255));
}

#[test]
fn empty_icon_has_no_pixels() {
    assert_eq!(solid_white_rgba(0, 7), Vec::<u8>::new());
}

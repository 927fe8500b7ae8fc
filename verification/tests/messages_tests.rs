use serpentines::messages::{
    classify_window_message, EnvironmentChangeReason, WindowMessageAction, DBT_DEVICEARRIVAL,
    DBT_DEVICEREMOVECOMPLETE, DBT_DEVNODES_CHANGED, WM_DESTROY, WM_DEVICECHANGE, WM_DISPLAYCHANGE,
    WM_DPICHANGED, WM_NCHITTEST, WM_SETTINGCHANGE,
};

#[test]
fn hit_tests_are_transparent() {
    assert_eq!(
        classify_window_message(WM_NCHITTEST, 0),
        WindowMessageAction::TransparentHitTest
    );
}

#[test]
fn device_change_reasons_follow_the_event_code() {
    assert_eq!(
        classify_window_message(WM_DEVICECHANGE, DBT_DEVICEARRIVAL),
        WindowMessageAction::EnvironmentChange(EnvironmentChangeReason::DeviceArrival)
    );
    assert_eq!(
        classify_window_message(WM_DEVICECHANGE, DBT_DEVICEREMOVECOMPLETE),
        WindowMessageAction::EnvironmentChange(EnvironmentChangeReason::DeviceRemoval)
    );
    assert_eq!(
        classify_window_message(WM_DEVICECHANGE, DBT_DEVNODES_CHANGED),
        WindowMessageAction::EnvironmentChange(EnvironmentChangeReason::DeviceNodesChanged)
    );
    assert_eq!(
        classify_window_message(WM_DEVICECHANGE, 0x1234),
        WindowMessageAction::EnvironmentChange(EnvironmentChangeReason::DeviceChange)
    );
}

#[test]
fn display_dpi_and_setting_changes_refresh() {
    assert_eq!(
        classify_window_message(WM_DISPLAYCHANGE, 0),
        WindowMessageAction::EnvironmentChange(EnvironmentChangeReason::DisplayChange)
    );
    assert_eq!(
        classify_window_message(WM_DPICHANGED, 0),
        WindowMessageAction::EnvironmentChange(EnvironmentChangeReason::DpiChange)
    );
    assert_eq!(
        classify_window_message(WM_SETTINGCHANGE, 0),
        WindowMessageAction::EnvironmentChange(EnvironmentChangeReason::SettingChange)
    );
}

#[test]
fn destruction_clears_the_manager_link() {
    assert_eq!(
        classify_window_message(WM_DESTROY, 0),
        WindowMessageAction::ClearManagerLink
    );
}

#[test]
fn other_messages_pass_through() {
    assert_eq!(classify_window_message(0x0001, 0), WindowMessageAction::PassThrough);
    assert_eq!(classify_window_message(0xFFFF, 7), WindowMessageAction::PassThrough);
}

#[test]
fn reason_wording() {
    assert_eq!(EnvironmentChangeReason::DeviceArrival.text(), "device arrival");
    assert_eq!(EnvironmentChangeReason::DeviceRemoval.text(), "device removal");
    assert_eq!(
        EnvironmentChangeReason::DeviceNodesChanged.text(),
        "device nodes changed"
    );
    assert_eq!(EnvironmentChangeReason::DeviceChange.text(), "device change");
    assert_eq!(EnvironmentChangeReason::DisplayChange.text(), "display change");
    assert_eq!(EnvironmentChangeReason::DpiChange.text(), "dpi change");
    assert_eq!(EnvironmentChangeReason::SettingChange.text(), "setting change");
}

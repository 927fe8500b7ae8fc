//! Classification of the window messages an overlay window receives.
//!
//! The overlay window procedure reacts to a handful of messages: hit tests
//! are declared transparent so the overlay stays click-through, hardware and
//! display notifications trigger a topology refresh, and destruction severs
//! the link back to the manager.  The numeric codes are the documented
//! Windows message and device-broadcast constants.

use vstd::prelude::*;

verus! {

pub const WM_DESTROY: u32 = 0x0002;
pub const WM_SETTINGCHANGE: u32 = 0x001A;
pub const WM_DISPLAYCHANGE: u32 = 0x007E;
pub const WM_NCHITTEST: u32 = 0x0084;
pub const WM_DEVICECHANGE: u32 = 0x0219;
pub const WM_DPICHANGED: u32 = 0x02E0;

pub const DBT_DEVNODES_CHANGED: u32 = 0x0007;
pub const DBT_DEVICEARRIVAL: u32 = 0x8000;
pub const DBT_DEVICEREMOVECOMPLETE: u32 = 0x8004;

/// The hit-test answer that makes a window invisible to the mouse.
pub const HIT_TEST_TRANSPARENT: i32 = -1;

/// Why the display environment is being re-examined.
#[derive(Clone, Copy, PartialEq, Eq, Structural, Debug)]
pub enum EnvironmentChangeReason {
    DeviceArrival,
    DeviceRemoval,
    DeviceNodesChanged,
    DeviceChange,
    DisplayChange,
    DpiChange,
    SettingChange,
}

impl EnvironmentChangeReason {
    /// The wording used when the reason is logged.
    pub open spec fn text_spec(self) -> Seq<char> {
        match self {
            EnvironmentChangeReason::DeviceArrival => "device arrival"@,
            EnvironmentChangeReason::DeviceRemoval => "device removal"@,
            EnvironmentChangeReason::DeviceNodesChanged => "device nodes changed"@,
            EnvironmentChangeReason::DeviceChange => "device change"@,
            EnvironmentChangeReason::DisplayChange => "display change"@,
            EnvironmentChangeReason::DpiChange => "dpi change"@,
            EnvironmentChangeReason::SettingChange => "setting change"@,
        }
    }

    pub fn text(&self) -> (t: &'static str)
        ensures
            t@ == self.text_spec(),
    {
        match self {
            EnvironmentChangeReason::DeviceArrival => "device arrival",
            EnvironmentChangeReason::DeviceRemoval => "device removal",
            EnvironmentChangeReason::DeviceNodesChanged => "device nodes changed",
            EnvironmentChangeReason::DeviceChange => "device change",
            EnvironmentChangeReason::DisplayChange => "display change",
            EnvironmentChangeReason::DpiChange => "dpi change",
            EnvironmentChangeReason::SettingChange => "setting change",
        }
    }
}

/// What the overlay window procedure must do with one message.
///
/// Every variant except `TransparentHitTest` also hands the message on to the
/// default window procedure.
#[derive(Clone, Copy, PartialEq, Eq, Structural, Debug)]
pub enum WindowMessageAction {
    /// Answer the hit test with [`HIT_TEST_TRANSPARENT`] so clicks fall
    /// through the overlay.
    TransparentHitTest,
    /// Refresh the overlay topology, then log the layout under the given
    /// reason.
    EnvironmentChange(EnvironmentChangeReason),
    /// The window is going away: clear the pointer that links it back to the
    /// manager.
    ClearManagerLink,
    /// Nothing special: default handling only.
    PassThrough,
}

/// Which reason a device-broadcast event code stands for.
pub open spec fn device_event_reason_spec(device_event: u32) -> EnvironmentChangeReason {
    if device_event == DBT_DEVICEARRIVAL {
        EnvironmentChangeReason::DeviceArrival
    } else if device_event == DBT_DEVICEREMOVECOMPLETE {
        EnvironmentChangeReason::DeviceRemoval
    } else if device_event == DBT_DEVNODES_CHANGED {
        EnvironmentChangeReason::DeviceNodesChanged
    } else {
        EnvironmentChangeReason::DeviceChange
    }
}

/// How the overlay window procedure treats a message.  For
/// `WM_DEVICECHANGE` the word parameter of the message carries the
/// device-broadcast event code.
pub open spec fn classify_window_message_spec(message: u32, device_event: u32) -> WindowMessageAction {
    if message == WM_NCHITTEST {
        WindowMessageAction::TransparentHitTest
    } else if message == WM_DEVICECHANGE {
        WindowMessageAction::EnvironmentChange(device_event_reason_spec(device_event))
    } else if message == WM_DISPLAYCHANGE {
        WindowMessageAction::EnvironmentChange(EnvironmentChangeReason::DisplayChange)
    } else if message == WM_DPICHANGED {
        WindowMessageAction::EnvironmentChange(EnvironmentChangeReason::DpiChange)
    } else if message == WM_SETTINGCHANGE {
        WindowMessageAction::EnvironmentChange(EnvironmentChangeReason::SettingChange)
    } else if message == WM_DESTROY {
        WindowMessageAction::ClearManagerLink
    } else {
        WindowMessageAction::PassThrough
    }
}

/// Decides what to do with a message delivered to an overlay window.
pub fn classify_window_message(message: u32, device_event: u32) -> (action: WindowMessageAction)
    ensures
        action == classify_window_message_spec(message, device_event),
{
    if message == WM_NCHITTEST {
        WindowMessageAction::TransparentHitTest
    } else if message == WM_DEVICECHANGE {
        let reason = if device_event == DBT_DEVICEARRIVAL {
            EnvironmentChangeReason::DeviceArrival
        } else if device_event == DBT_DEVICEREMOVECOMPLETE {
            EnvironmentChangeReason::DeviceRemoval
        } else if device_event == DBT_DEVNODES_CHANGED {
            EnvironmentChangeReason::DeviceNodesChanged
        } else {
            EnvironmentChangeReason::DeviceChange
        };
        WindowMessageAction::EnvironmentChange(reason)
    } else if message == WM_DISPLAYCHANGE {
        WindowMessageAction::EnvironmentChange(EnvironmentChangeReason::DisplayChange)
    } else if message == WM_DPICHANGED {
        WindowMessageAction::EnvironmentChange(EnvironmentChangeReason::DpiChange)
    } else if message == WM_SETTINGCHANGE {
        WindowMessageAction::EnvironmentChange(EnvironmentChangeReason::SettingChange)
    } else if message == WM_DESTROY {
        WindowMessageAction::ClearManagerLink
    } else {
        WindowMessageAction::PassThrough
    }
}

} // verus!

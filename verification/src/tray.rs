//! Decisions of the system-tray side: what a tray interaction or a menu
//! selection leads to, and the pixels of the tray icon.

use vstd::prelude::*;

verus! {

/// Bytes per pixel of an RGBA image.
pub const RGBA_BYTES_PER_PIXEL: u32 = 4;

/// A mouse button on the tray icon.
#[derive(Clone, Copy, PartialEq, Eq, Structural, Debug)]
pub enum TrayButton {
    Left,
    Right,
    Middle,
}

/// An interaction with the tray icon itself (not with its menu).
#[derive(Clone, Copy, PartialEq, Eq, Structural, Debug)]
pub enum TrayIconInteraction {
    Click(TrayButton),
    Other,
}

/// What the application does in response to a tray interaction or a menu
/// selection.
#[derive(Clone, Copy, PartialEq, Eq, Structural, Debug)]
pub enum TrayResponse {
    /// Bring up the settings window.
    ShowSettings,
    /// Leave the message loop and end the application.
    Quit,
    /// Nothing.
    Ignore,
}

/// A left click on the tray icon opens the settings window; everything else
/// is ignored.
pub open spec fn tray_icon_response_spec(interaction: TrayIconInteraction) -> TrayResponse {
    if interaction == TrayIconInteraction::Click(TrayButton::Left) {
        TrayResponse::ShowSettings
    } else {
        TrayResponse::Ignore
    }
}

pub fn tray_icon_response(interaction: TrayIconInteraction) -> (response: TrayResponse)
    ensures
        response == tray_icon_response_spec(interaction),
{
    match interaction {
        TrayIconInteraction::Click(TrayButton::Left) => TrayResponse::ShowSettings,
        _ => TrayResponse::Ignore,
    }
}

/// Which response a menu selection gets, given the identifiers of the
/// settings and exit entries.  The settings entry is checked first.
pub open spec fn menu_response_spec(
    selected_id: Seq<char>,
    settings_id: Seq<char>,
    exit_id: Seq<char>,
) -> TrayResponse {
    if selected_id == settings_id {
        TrayResponse::ShowSettings
    } else if selected_id == exit_id {
        TrayResponse::Quit
    } else {
        TrayResponse::Ignore
    }
}

pub fn menu_response(selected_id: &String, settings_id: &String, exit_id: &String) -> (response: TrayResponse)
    ensures
        response == menu_response_spec(selected_id@, settings_id@, exit_id@),
{
    if *selected_id == *settings_id {
        TrayResponse::ShowSettings
    } else if *selected_id == *exit_id {
        TrayResponse::Quit
    } else {
        TrayResponse::Ignore
    }
}

/// The pixels of an opaque white RGBA image, as the tray icon uses: four
/// bytes per pixel, every byte 255.
pub fn solid_white_rgba(width: u32, height: u32) -> (pixels: Vec<u8>)
    requires
        width * height * RGBA_BYTES_PER_PIXEL <= usize::MAX,
    ensures
        pixels@.len() == width * height * RGBA_BYTES_PER_PIXEL,
        forall|i: int| 0 <= i < pixels@.len() ==> pixels@[i] == 255u8,
{
    let total: usize = (width as usize) * (height as usize) * (RGBA_BYTES_PER_PIXEL as usize);
    let mut pixels: Vec<u8> = Vec::new();
    let mut filled: usize = 0;
    while filled < total
        invariant
            pixels@.len() == filled,
            filled <= total,
            total == width * height * RGBA_BYTES_PER_PIXEL,
            forall|i: int| 0 <= i < pixels@.len() ==> pixels@[i] == 255u8,
        decreases total - filled,
    {
        pixels.push(255);
        filled = filled + 1;
    }
    pixels
}

} // verus!

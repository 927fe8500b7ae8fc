//! Serpentines: per-monitor overlay topology management.
//!
//! The heart of the crate is the overlay reconciliation logic: given the set
//! of overlay windows currently alive and a fresh enumeration of the attached
//! displays, compute exactly which overlays must be destroyed, resized, or
//! created, and keep the bookkeeping in step with what the platform layer
//! actually did.  The platform layer (window creation, tray icon, settings
//! window) performs the operating-system calls and feeds the results back.

pub mod fmt;
pub mod messages;
pub mod monitor;
pub mod overlay;
pub mod platform;
pub mod reconcile;
pub mod tray;
pub mod ui;

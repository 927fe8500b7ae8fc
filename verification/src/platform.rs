//! Platform abstraction traits, so the reconciliation logic stays
//! OS-agnostic.  The platform layer implements these around the native
//! windowing, input, rendering, and tray facilities.

use vstd::prelude::*;
use crate::monitor::MonitorRect;

verus! {

/// An error reported by a platform implementation.
#[derive(Clone, Debug)]
pub struct PlatformError {
    pub message: String,
}

impl PlatformError {
    pub fn new(message: String) -> (e: Self)
        ensures
            e.message == message,
    {
        PlatformError { message }
    }
}

/// The result type the platform traits report.
pub type PlatformResult<T> = Result<T, PlatformError>;

/// Manages per-monitor transparent overlays.
pub trait OverlayManager: Send + Sync {
    fn init(&mut self) -> PlatformResult<()>;

    fn monitors(&self) -> PlatformResult<Vec<MonitorRect>>;

    fn create_overlays(&mut self) -> PlatformResult<()>;

    fn destroy_overlays(&mut self) -> PlatformResult<()>;
}

/// Source of global mouse events.
pub trait InputSource: Send + Sync {
    fn start(&mut self) -> PlatformResult<()>;

    fn stop(&mut self) -> PlatformResult<()>;
}

/// GPU renderer abstraction.
pub trait GpuRenderer: Send + Sync {
    fn init(&mut self) -> PlatformResult<()>;

    fn render_frame(&mut self) -> PlatformResult<()>;

    fn resize(&mut self, _width: u32, _height: u32) -> PlatformResult<()> {
        Ok(())
    }
}

/// System tray with context menu and activation.
pub trait SystemTray: Send + Sync {
    fn init(&mut self) -> PlatformResult<()>;

    fn show_message(&self, _title: &str, _body: &str) -> PlatformResult<()> {
        Ok(())
    }
}

/// Control panel window (native UI), kept separate from overlays.
pub trait ControlPanel: Send + Sync {
    fn open(&mut self) -> PlatformResult<()>;

    fn close(&mut self) -> PlatformResult<()>;
}

} // verus!

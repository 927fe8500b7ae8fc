//! Decisions of the settings-window side: which viewport operations follow
//! from a command or from a close request.  The GUI toolkit executes the
//! directives; the choice of directives is made here.

use vstd::prelude::*;

verus! {

/// A command sent to the settings-window thread.
#[derive(Clone, Copy, PartialEq, Eq, Structural, Debug)]
pub enum UiCommand {
    Show,
}

/// An event reported by the settings window.
#[derive(Clone, Copy, PartialEq, Eq, Structural, Debug)]
pub enum UiEvent {
    HelloClicked,
}

/// One operation on the settings window's viewport, to be carried out by the
/// GUI toolkit or the native windowing layer.
#[derive(Clone, Copy, PartialEq, Eq, Structural, Debug)]
pub enum ViewportDirective {
    /// Show the native window and bring it to the foreground.
    ShowNativeWindow,
    /// Make the viewport visible or invisible.
    SetVisible(bool),
    /// Give the viewport focus.
    Focus,
    /// Cancel a pending close request.
    CancelClose,
    /// Ask the toolkit to repaint.
    RequestRepaint,
}

/// The directives that carry out one [`UiCommand::Show`]: raise the native
/// window first when its handle is known, then make the viewport visible,
/// focus it, and repaint.
pub open spec fn show_directives_spec(has_native_window: bool) -> Seq<ViewportDirective> {
    (if has_native_window {
        seq![ViewportDirective::ShowNativeWindow]
    } else {
        Seq::<ViewportDirective>::empty()
    }) + seq![
        ViewportDirective::SetVisible(true),
        ViewportDirective::Focus,
        ViewportDirective::RequestRepaint,
    ]
}

pub fn show_command_directives(has_native_window: bool) -> (directives: Vec<ViewportDirective>)
    ensures
        directives@ == show_directives_spec(has_native_window),
{
    let mut directives: Vec<ViewportDirective> = Vec::new();
    if has_native_window {
        directives.push(ViewportDirective::ShowNativeWindow);
    }
    directives.push(ViewportDirective::SetVisible(true));
    directives.push(ViewportDirective::Focus);
    directives.push(ViewportDirective::RequestRepaint);
    proof {
        assert(directives@ =~= show_directives_spec(has_native_window));
    }
    directives
}

/// The directives that answer a close request: the window hides instead of
/// closing.  Without a close request nothing is done.
pub open spec fn close_request_directives_spec(close_requested: bool) -> Seq<ViewportDirective> {
    if close_requested {
        seq![
            ViewportDirective::SetVisible(false),
            ViewportDirective::CancelClose,
            ViewportDirective::RequestRepaint,
        ]
    } else {
        Seq::<ViewportDirective>::empty()
    }
}

pub fn close_request_directives(close_requested: bool) -> (directives: Vec<ViewportDirective>)
    ensures
        directives@ == close_request_directives_spec(close_requested),
{
    let mut directives: Vec<ViewportDirective> = Vec::new();
    if close_requested {
        directives.push(ViewportDirective::SetVisible(false));
        directives.push(ViewportDirective::CancelClose);
        directives.push(ViewportDirective::RequestRepaint);
    }
    proof {
        assert(directives@ =~= close_request_directives_spec(close_requested));
    }
    directives
}

} // verus!

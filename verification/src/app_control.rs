//! What the application does itself with window events: quit, show the debug window, follow
//! the window's size.

use vstd::prelude::*;

verus! {

/// A window event, as far as the application handles it.
#[derive(Copy, Clone, Debug, PartialEq, Eq, Structural)]
pub enum AppEvent {
    /// The window was closed.
    Quit,
    /// The key that shows and hides the debug window (F1) went down.
    DebugKeyDown,
    /// The window now has this size.
    WindowResized { w: i32, h: i32 },
    /// Anything else.
    Other,
}

/// Whether the main loop goes on, and whether the debug window is shown.
#[derive(Copy, Clone, Debug, PartialEq, Eq, Structural)]
pub struct AppControl {
    pub running: bool,
    pub show_debug_window: bool,
}

impl AppControl {
    /// Running, with the debug window hidden.
    pub fn new() -> (r: AppControl)
        ensures
            r == (AppControl { running: true, show_debug_window: false }),
    {
        AppControl { running: true, show_debug_window: false }
    }

    /// Ends the main loop after the current frame.
    pub fn exit(&mut self)
        ensures
            *final(self) == (AppControl { running: false, ..*old(self) }),
    {
        self.running = false;
    }

    /// Applies `event`; a resize gives the window's new size for the renderer (each side cast
    /// to `u32`).
    pub fn handle_input(&mut self, event: AppEvent) -> (r: Option<(u32, u32)>)
        ensures
            match event {
                AppEvent::Quit => *final(self) == (AppControl { running: false, ..*old(self) }) && r is None,
                AppEvent::DebugKeyDown => *final(self) == (AppControl {
                    show_debug_window: !old(self).show_debug_window,
                    ..*old(self)
                }) && r is None,
                AppEvent::WindowResized { w, h } => *final(self) == *old(self) && r == Some((w as u32, h as u32)),
                AppEvent::Other => *final(self) == *old(self) && r is None,
            },
    {
        match event {
            AppEvent::Quit => {
                self.running = false;
                None
            },
            AppEvent::DebugKeyDown => {
                self.show_debug_window = !self.show_debug_window;
                None
            },
            AppEvent::WindowResized { w, h } => Some((w as u32, h as u32)),
            AppEvent::Other => None,
        }
    }
}

} // verus!

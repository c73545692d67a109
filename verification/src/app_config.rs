//! How the application's window starts.

use vstd::prelude::*;

verus! {

/// The window's title, size, position (centered when `None`) and whether it can be resized.
pub struct AppConfig {
    pub window_name: String,
    pub window_size: (u32, u32),
    pub window_position: Option<(i32, i32)>,
    pub window_resizable: bool,
}

} // verus!

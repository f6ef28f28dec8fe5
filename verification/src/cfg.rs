//! Engine-adjacent configuration: window geometry for the renderer and the
//! fall cadence the driver should use. Neither value affects gameplay logic.

use vstd::prelude::*;

verus! {

/// Driver-facing settings: the window size in pixels and the time step, in
/// milliseconds, at which the driver should call `Tetris::update`.
pub struct Settings {
    pub window_size: (u32, u32),
    pub speed: u64,
}

impl Settings {
    /// The settings a fresh engine starts with.
    pub fn new() -> (s: Settings)
        ensures
            s.window_size == (500u32, 700u32),
            s.speed == 200,
    {
        Settings { window_size: (500, 700), speed: 200 }
    }
}

impl Default for Settings {
    fn default() -> (s: Settings)
        ensures
            s.window_size == (500u32, 700u32),
            s.speed == 200,
    {
        Settings::new()
    }
}

} // verus!

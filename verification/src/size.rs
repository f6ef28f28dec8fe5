//! A width/height pair in pixels, as reported by the windowing layer.

use vstd::prelude::*;

verus! {

/// A window size in pixels.
#[derive(Clone, Copy, PartialEq, Eq, Structural, Debug)]
pub struct Size {
    pub width: u32,
    pub height: u32,
}

impl Size {
    /// The size a fresh window opens with.
    pub fn window_default() -> (s: Size)
        ensures
            s.width == 400,
            s.height == 800,
    {
        Size { width: 400, height: 800 }
    }
}

impl From<(u32, u32)> for Size {
    fn from(s: (u32, u32)) -> (r: Size) {
        Size { width: s.0, height: s.1 }
    }
}

impl vstd::std_specs::convert::FromSpecImpl<(u32, u32)> for Size {
    open spec fn obeys_from_spec() -> bool {
        true
    }

    open spec fn from_spec(s: (u32, u32)) -> Size {
        Size { width: s.0, height: s.1 }
    }
}

} // verus!

use vstd::prelude::*;

verus! {

/// The part of the window that one rendered frame covers.
#[derive(Debug, Clone, Copy, PartialEq, Eq)]
pub struct Frame {
    viewport: (i32, i32, i32, i32),
}

impl Frame {
    /// Left, bottom, width, height.
    pub closed spec fn spec_viewport(&self) -> (i32, i32, i32, i32) {
        self.viewport
    }

    /// A frame over the whole window.
    pub fn start(window_dimensions: (i32, i32)) -> (frame: Frame)
        ensures
            frame.spec_viewport() == (0i32, 0i32, window_dimensions.0, window_dimensions.1),
    {
        Frame { viewport: (0, 0, window_dimensions.0, window_dimensions.1) }
    }

    /// Left, bottom, width, height.
    #[verifier::when_used_as_spec(spec_viewport)]
    pub fn viewport(&self) -> (v: (i32, i32, i32, i32))
        ensures
            v == self.spec_viewport(),
    {
        self.viewport
    }
}

} // verus!

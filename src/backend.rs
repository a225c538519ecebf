use vstd::prelude::*;

use crate::frame::Frame;

verus! {

/// Where finished frames go.
///
/// `display_spec` describes, as a function of the state and the frame shown,
/// what `display_frame` does to the backend.
pub trait Backend: Sized {
    /// The backend's state after it has shown a frame with contents `frame`;
    /// left unspecified unless the implementation states it.
    closed spec fn display_spec(&self, frame: Seq<u8>) -> Self {
        arbitrary()
    }

    /// Shows `frame`.
    fn display_frame(&mut self, frame: &Frame)
        requires
            frame.wf(),
        ensures
            *final(self) == old(self).display_spec(frame@),
    ;
}

/// A backend that shows nothing, for running without hardware.
#[derive(Debug, Clone, Copy, PartialEq, Eq, Structural)]
pub struct NullBackend;

impl Backend for NullBackend {
    open spec fn display_spec(&self, frame: Seq<u8>) -> Self {
        *self
    }

    fn display_frame(&mut self, _frame: &Frame) {
    }
}

} // verus!

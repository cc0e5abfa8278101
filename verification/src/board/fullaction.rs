use vstd::prelude::*;

verus! {

/// Whether a move may, must or must not capture.
#[derive(Clone, Copy, Debug, PartialEq, Eq, Structural)]
pub enum CaptureType {
    CantCapture,
    MustCapture,
    OptionallyCapture,
}

} // verus!

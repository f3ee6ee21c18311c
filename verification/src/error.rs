//! The one way in which the library's operations fail.

use vstd::prelude::*;

verus! {

/// Two shapes that had to agree did not.
#[derive(Clone, Copy, Debug, PartialEq, Eq, Structural)]
pub enum GridError {
    /// Two fields differ in height or width, or a frame has another height
    /// or width than the field it is to show, or a buffer too short for
    /// that many pixels.
    DimensionMismatch,
}

} // verus!

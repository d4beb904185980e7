//! Errors of selection masks.

use vstd::prelude::*;

verus! {

/// Errors of mask editing.
#[derive(Debug)]
pub enum MaskError {
    PointNotFound,
    MaskNotClosed,
}

} // verus!

//! Kinds of operations recorded in the settings' history.

use vstd::prelude::*;

verus! {

/// Kind of a recorded operation.
#[derive(PartialEq, Eq, Structural, Clone, Copy, Debug)]
pub enum OpType {
    Saturation,
    Contrast,
    Filter,
}

} // verus!

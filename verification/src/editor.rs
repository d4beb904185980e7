//! The editor's processing core: its backends, errors and the filters it
//! applies, each with a fixed slot in the filter array.

pub mod buffers;
pub mod filters;
pub mod masks;
pub mod rendering;

use vstd::prelude::*;

verus! {

/// Errors of the processing core.
#[derive(Debug)]
pub enum CoreError<'a> {
    GENERICERROR(&'a str),
}

/// Where the processing core renders.
#[derive(Debug)]
pub enum CoreBackends {
    GPU,
    CPU,
}

/// The filters of the processing core, in their order of application.
#[derive(Clone, Copy, Debug)]
pub enum FilterType {
    Sharpening,
    GaussianBlur,
    Boxblur,
    Contrast,
    Saturation,
}

impl FilterType {
    /// Position of the filter in the order of application.
    pub open spec fn slot(self) -> nat {
        match self {
            FilterType::Sharpening => 0,
            FilterType::GaussianBlur => 1,
            FilterType::Boxblur => 2,
            FilterType::Contrast => 3,
            FilterType::Saturation => 4,
        }
    }

    /// The slot of the filter in the filter array.
    pub fn index(&self) -> (r: usize)
        ensures
            r == self.slot(),
    {
        match self {
            FilterType::Sharpening => 0,
            FilterType::GaussianBlur => 1,
            FilterType::Boxblur => 2,
            FilterType::Contrast => 3,
            FilterType::Saturation => 4,
        }
    }
}

} // verus!

//! The rendering backends and their errors.

use crate::gpu::GPUError;
use vstd::prelude::*;

verus! {

/// Errors of rendering.
#[allow(dead_code)]
#[derive(Debug)]
pub enum RenderingError<'a> {
    GENERICERROR(&'a str),
    GPUERROR(GPUError),
}

/// Where images are rendered; the GPU unless the settings say otherwise.
#[derive(Debug, PartialEq, Eq, Structural, Clone, Copy)]
pub enum RenderingBackends {
    GPU,
    CPU,
}

impl RenderingBackends {
    /// The name the backend is shown under.
    pub open spec fn spec_name(self) -> Seq<char> {
        match self {
            RenderingBackends::CPU => "CPU"@,
            RenderingBackends::GPU => "GPU"@,
        }
    }

    pub fn name(&self) -> (r: &'static str)
        ensures
            r@ == self.spec_name(),
    {
        match self {
            RenderingBackends::CPU => "CPU",
            RenderingBackends::GPU => "GPU",
        }
    }
}

impl Default for RenderingBackends {
    fn default() -> (r: Self)
        ensures
            r == RenderingBackends::GPU,
    {
        RenderingBackends::GPU
    }
}

} // verus!

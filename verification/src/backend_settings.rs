//! Settings that only choose the rendering backend.

use crate::editor::rendering::RenderingBackends;
use vstd::prelude::*;

verus! {

/// Settings that only choose the rendering backend.
pub struct Settings {
    pub backend: RenderingBackends,
}

/// The built-in settings: rendering on the GPU.
pub fn load_settings() -> (s: Settings)
    ensures
        s.backend == RenderingBackends::GPU,
{
    Settings { backend: RenderingBackends::GPU }
}

} // verus!

//! Verified core of an image editor: matrices and channel handling,
//! histogram statistics, summed-area box blurs, Bayer demosaicing,
//! the undo/redo history and its temporary-file bookkeeping, and
//! the small enumerations and settings the editor is configured with.

pub mod backend_settings;
pub mod contrast;
pub mod editor;
pub mod gpu;
pub mod boxblur;
pub mod window;
pub mod raw_decoder;
pub mod history;
pub mod img_processing;
pub mod settings;
pub mod shader;
pub mod snapshot;
pub mod text;
pub mod math;
pub mod matrix;
pub mod utils;

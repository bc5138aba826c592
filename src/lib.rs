//! Core of a frame decoder for a DCT/modular still-image codec: spline
//! parsing and control-point reconstruction, the crop planner, the section
//! dispatcher and the per-frame section store.

pub mod numeric;
pub mod toc;
pub mod crop;
pub mod error;
pub mod spline;
pub mod frame;
pub mod loader;
pub mod dct;

//! A verified Mandelbrot renderer.
//!
//! The plane is modelled in exact fixed-point arithmetic (see [`fixed`]),
//! which makes every stage of the pipeline — escape-time kernel, viewport
//! mapping, parallel dispatch, rescaling and colorizing — a deterministic
//! integer function with a proved contract.

pub mod constants;
pub mod fixed;
pub mod kernel;
pub mod imaging;
pub mod rendering;
pub mod viewer;

pub use imaging::PostProc;
pub use viewer::Viewer;

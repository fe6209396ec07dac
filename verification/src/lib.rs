//! A pixel pipeline: an in-memory RGB image, palette quantization with
//! error-diffusion dithering, windowed resampling, and the chain of stages
//! that composes them from a command sequence.
//!
//! The library computes; it reads and writes no files. A stage that needs a
//! file says so, and goes on when it is handed the outcome.

pub mod color;
pub mod dithering;
pub mod error;
pub mod image_handling;
pub mod numeral;
pub mod pipeline;
pub mod resizing;

pub use color::Color;
pub use dithering::{dither_image, map_to_palette, palette16, DitheringKernel};
pub use error::{Argument, DecodeFailure, PipelineError, StageKind};
pub use image_handling::{load_image_from_memory, save_image_to_file, Image, PngJob};
pub use pipeline::{Action, Pipeline, Progress, Reply, Stage, Step};
pub use resizing::{resize_lanczos, Filter, SampleSite};

//! A string-art tracing engine.
//!
//! The library turns a grayscale target image into an ordered sequence of
//! straight chords between nodes laid out on a circle, such that drawing the
//! chords with a semi-transparent darkening blend reproduces the light/dark
//! structure of the target.  All geometry and coverage arithmetic is done in
//! Q16 fixed point: an `i64` or `u32` value scaled by 65536 stands for the
//! corresponding real quantity.

pub mod canvas;
pub mod fixed;
pub mod geometry;
pub mod line_set;
pub mod raster;
pub mod settings;
pub mod trace;

pub use canvas::Canvas;
pub use line_set::LineSet;
pub use raster::Visit;
pub use raster::trace_line;
pub use settings::ColorDistanceFn;
pub use settings::Settings;
pub use trace::ConfigError;
pub use trace::StepOutcome;
pub use trace::StringTrace;

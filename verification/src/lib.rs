//! Deterministic augmentation of image datasets.
//!
//! Every output of a run is a function of the input pixels, the file's
//! identity and the caller's base seed, never of the order in which files
//! are processed.
//!
//! - [`seed`] derives one seed for each file and transformation.
//! - [`registry`] names the transformations and finds them by name.
//! - [`raster`] holds RGBA8 images; [`shift`] and [`ops`] transform them.
//! - [`pipeline`] says what is done to one image, and does it;
//!   [`outputs`] says where the results are written.
//! - [`schedule`] cuts a run into chunks for a pool of workers, and
//!   [`progress`] reports how far the run has come.
//! - [`config`] checks what a run is asked to work on.
//! - [`paths`] rescales directory names that stand for image dimensions.

pub mod config;
pub mod ops;
pub mod outputs;
pub mod paths;
pub mod pipeline;
pub mod progress;
pub mod raster;
pub mod registry;
pub mod schedule;
pub mod seed;
pub mod shift;
pub mod text;

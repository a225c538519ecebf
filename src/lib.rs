//! Drives an 8×8×8 voxel cube: a frame buffer, composable animations with
//! rate limiting, time limits, chaining and repetition, a render driver, and a
//! temporally dithered bitstream for shift-register hardware.

pub mod frame;
pub mod animation;
pub mod backend;
pub mod render;
pub mod dither;

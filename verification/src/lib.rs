//! Escape-time classification of points of the complex plane and the text
//! raster that shows the classic Mandelbrot silhouette, with the byte-level
//! rules of the buffers that are handed to a host.
//!
//! The numeric recurrence itself runs on machine floats and therefore lives
//! with the caller; this crate holds every decision around it: when an orbit
//! is given up, which count is reported, how outcomes become symbols and how
//! the symbols are laid out in the buffer.

pub mod cstring;
pub mod escape;
pub mod grid;
pub mod host;

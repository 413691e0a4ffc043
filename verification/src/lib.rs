//! Tile scheduling, palette construction, pixel mapping, snapshot naming
//! and frame scheduling for an interactive escape-time fractal explorer.
//!
//! The floating-point iteration itself, drawing and file access are left
//! to the program that uses this library.
pub mod cache;
pub mod palette;
pub mod pixels;
pub mod progress;
pub mod schedule;
pub mod snapshots;
pub mod sort;
pub mod tiles;

//! Multi-resolution tile management for large photo collections.
//!
//! Every image is kept as a pyramid of levels, each level cut into tiles
//! that are stored under 64-bit keys. A viewer shows thousands of images at
//! once by holding, of each, only the tiles of the level that suits the zoom.
//!
//! - [`key`]: the packed key of a tile.
//! - [`scale`], [`pyramid`], [`grid`], [`plan`]: the levels of a pyramid,
//!   their size classes and tile grids, and the level nearest to a wanted
//!   resolution.
//! - [`cache`], [`queue`], [`jobs`], [`image`], [`error`]: the parts of the
//!   scheduler's state.
//! - [`sched`]: the scheduler's state and what holds of it.
//! - [`loader`]: the loading pass, which brings every queued image one level
//!   nearer to its target within a deadline.
//! - [`thumbs`]: the admission of thumbnail jobs and what becomes of their
//!   results.
//! - [`visible`]: the rebuilding of the queues, nearest images first.
//! - [`progress`]: why a pass steps an image once.
//!
//! The library does no input or output. Its caller fetches tiles, runs jobs,
//! reads the clock and measures the viewport, and tells the scheduler what
//! came of it.

pub mod cache;
pub mod error;
pub mod grid;
pub mod image;
pub mod jobs;
pub mod key;
pub mod loader;
pub mod plan;
pub mod progress;
pub mod pyramid;
pub mod queue;
pub mod scale;
pub mod sched;
pub mod thumbs;
pub mod visible;

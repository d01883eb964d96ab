//! Escape-time fractal viewer core: tile specifications, gathering of
//! per-row results into tiles, and the foreground side of the tile
//! compute pipeline.
pub mod gather;
pub mod pipeline;
pub mod text;
pub mod timing;
pub mod viewport;

//! Approximates a target raster image by an ordered list of translucent
//! vector shapes. The core is an integer raster canvas with alpha
//! compositing, a closed set of shape primitives with rasterizers, an
//! ordered shape genome, and a prefix-memoizing canvas cache with LRU
//! eviction.
//!
//! All quantities are held on a fixed-point grid: color channels are
//! bytes, opacities and normalized coordinates are thousandths. This is
//! the same grid the cache keys are quantized to, so cache keys are
//! stable by construction.

pub mod canvas;
pub mod canvascache;
pub mod color;
pub mod rando;
pub mod shapelist;
pub mod shapes;
pub mod textfmt;

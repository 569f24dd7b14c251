//! The verified core of a progressive CPU path tracer: pass statistics and their rolling
//! window, the render thread's command and resize decisions, integer lane operations and
//! lane packing for the eight-wide intersection path, the material dispatch and table, and
//! the PPM encoder. The floating-point light transport runs on top of these.

pub mod geometry;
pub mod material;
pub mod metrics;
pub mod pipeline;
pub mod ppm;
pub mod renderer;
pub mod simd;

use vstd::prelude::*;

verus! {

/// Bounce depth at which a path is cut off and contributes black; a path ends at a depth in
/// `0..=MAX_DEPTH`, one bucket each of the depth histogram.
pub const MAX_DEPTH: usize = 10;

/// The single-threaded CPU path tracer; it holds no state of its own between passes.
#[derive(Clone, Copy, Debug)]
pub struct CPURenderer {}

impl CPURenderer {
    pub fn new() -> (r: CPURenderer) {
        CPURenderer {}
    }
}

/// Turns window input into camera motion; it holds no state of its own.
#[derive(Clone, Copy, Debug)]
pub struct CameraController {}

impl CameraController {
    pub fn new() -> (r: Self) {
        Self {}
    }
}

} // verus!

/// The edge-masked composition that produces the cartoon look.
pub mod compose;
/// Conversions between byte buffers and working samples.
pub mod convert;
/// Gradient magnitude, thresholding, and the zero-crossing detector.
pub mod edges;
/// The sliding-window median and convolution filters.
pub mod filters;
/// Properties that hold across the stages, stated and proved once.
pub mod laws;
/// The mathematical model: buffer indexing and the per-stage value
/// functions the contracts are written against.
pub mod model;
/// The fixed stage sequences wiring the filters into a whole run.
pub mod pipeline;
/// Sorting of sample neighborhoods, exact down to the element order.
pub mod sorting;

use vstd::prelude::*;

verus! {

/// Clamp a sample value into an inclusive range.
pub fn clamp(val: i64, min: i64, max: i64) -> (r: i64)
    requires
        min <= max,
    ensures
        r == if val > max { max } else if val < min { min } else { val },
{
    if val > max {
        max
    } else if val < min {
        min
    } else {
        val
    }
}

} // verus!

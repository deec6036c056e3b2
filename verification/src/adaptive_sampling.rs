//! The counting side of adaptive sampling of a curve by arc length.

use vstd::prelude::*;

verus! {

/// Whether a sampled curve is open (linear) or closed (circular).
#[derive(Clone, Copy, Debug, PartialEq, Eq, Structural)]
pub enum Topology1D {
    Circular,
    Linear,
}

/// The number of segments and of sample points for a curve whose arc length calls for
/// `estimated_segments` segments. There are at least three segments, so that a closed polyline
/// has at least three points; a linear curve has one more point than segments, as it includes
/// both ends, while a circular one does not repeat its first point.
pub fn num_samples(topology: Topology1D, estimated_segments: usize) -> (r: (usize, usize))
    requires
        estimated_segments < usize::MAX,
    ensures
        r.0 == (if estimated_segments < 3 {
            3
        } else {
            estimated_segments
        }),
        r.1 == (match topology {
            Topology1D::Circular => r.0 as int,
            Topology1D::Linear => r.0 + 1,
        }),
{
    let num_segments = if estimated_segments < 3 {
        3
    } else {
        estimated_segments
    };
    let num_points = match topology {
        Topology1D::Circular => num_segments,
        Topology1D::Linear => num_segments + 1,
    };
    (num_segments, num_points)
}

} // verus!

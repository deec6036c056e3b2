use polytwister_mesher::adaptive_sampling::{num_samples, Topology1D};

#[test]
fn at_least_three_segments() {
    assert_eq!(num_samples(Topology1D::Linear, 0), (3, 4));
    assert_eq!(num_samples(Topology1D::Circular, 1), (3, 3));
}

#[test]
fn linear_includes_both_ends() {
    assert_eq!(num_samples(Topology1D::Linear, 10), (10, 11));
    assert_eq!(num_samples(Topology1D::Circular, 10), (10, 10));
}

/// A very short curve, shorter than one target distance, still gets more than two samples.
#[test]
fn very_short_curve_gets_more_than_two_points() {
    let estimated_segments = (0.01f64 / 0.1).ceil() as usize;
    let (_, num_points) = num_samples(Topology1D::Linear, estimated_segments);
    assert!(num_points > 2);
}

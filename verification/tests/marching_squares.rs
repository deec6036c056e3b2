use polytwister_mesher::marching_squares::grid::{Grid, GridAxis, GridAxisTopology};
use polytwister_mesher::marching_squares::{MSPoint, MarchingSquares, Square};

fn axis(topology: GridAxisTopology, size: usize) -> GridAxis<f64> {
    GridAxis { topology, size, values: (0..size).map(|i| i as f64).collect() }
}

#[test]
fn grid_axis_segments_and_wrap() {
    let linear = axis(GridAxisTopology::Linear, 5);
    let circular = axis(GridAxisTopology::Circular, 5);
    assert_eq!(linear.num_segments(), 4);
    assert_eq!(circular.num_segments(), 5);
    assert_eq!(linear.wrap(5), 5);
    assert_eq!(circular.wrap(5), 0);
    assert_eq!(circular.wrap(7), 2);
}

#[test]
fn single_corner_triangle() {
    let s = Square::new(2, 3);
    let t = s.triangulate((true, false, false, false));
    assert_eq!(t.len(), 1);
    assert_eq!(t[0].v1, MSPoint::Corner(Square { ui: 2, vi: 3 }));
    assert_eq!(t[0].v2, MSPoint::VerticalEdge(Square { ui: 2, vi: 3 }));
    assert_eq!(t[0].v3, MSPoint::HorizontalEdge(Square { ui: 2, vi: 3 }));
}

#[test]
fn triangle_counts_per_case() {
    let s = Square::new(0, 0);
    let mut counts = vec![];
    for bits in 0..16u8 {
        let c = (bits & 8 != 0, bits & 4 != 0, bits & 2 != 0, bits & 1 != 0);
        counts.push(s.triangulate(c).len());
    }
    assert_eq!(counts, vec![0, 1, 1, 2, 1, 2, 2, 3, 1, 2, 2, 3, 2, 3, 3, 2]);
}

#[test]
fn neighbouring_squares_agree_on_their_shared_edge() {
    // The right edge of square (0, 0) is the left edge of square (0, 1).
    let a = Square::new(0, 0);
    let b = Square::new(0, 1);
    let shared = MSPoint::VerticalEdge(Square { ui: 0, vi: 1 });
    let uses = |ts: &Vec<polytwister_mesher::marching_squares::MSTriangle>, p: MSPoint| {
        ts.iter().any(|t| t.v1 == p || t.v2 == p || t.v3 == p)
    };
    // Top-right inside, bottom-right outside for a; the same corners are b's left corners.
    assert!(uses(&a.triangulate((false, true, false, false)), shared));
    assert!(uses(&b.triangulate((true, false, false, false)), shared));
    assert!(!uses(&a.triangulate((false, true, false, true)), shared));
    assert!(!uses(&b.triangulate((true, false, true, false)), shared));
}

#[test]
fn square_wrap_on_circular_axis() {
    let grid = Grid { u_axis: axis(GridAxisTopology::Circular, 3), v_axis: axis(GridAxisTopology::Linear, 2) };
    assert_eq!(Square::new(3, 1).wrap(&grid), Square { ui: 0, vi: 1 });
    assert_eq!(MSPoint::HorizontalEdge(Square::new(4, 2)).wrap(&grid), MSPoint::HorizontalEdge(Square { ui: 1, vi: 2 }));
}

/// A triangular prism with open caps has 6 vertices; 8 would mean the circular axis is not
/// wrapped.
#[test]
fn test_triangular_prism() {
    let grid = Grid { u_axis: axis(GridAxisTopology::Circular, 3), v_axis: axis(GridAxisTopology::Linear, 2) };
    let mut ms = MarchingSquares::new(grid);
    let corners = vec![(true, true, true, true); 3];
    let (vertices, faces) = ms.mesh(&corners);
    assert_eq!(vertices.len(), 6);
    assert_eq!(faces.len(), 6);
    for face in &faces {
        assert!(face.v1 < 6 && face.v2 < 6 && face.v3 < 6);
    }
    assert_eq!(vertices[0], MSPoint::Corner(Square { ui: 0, vi: 0 }));
    assert_eq!(vertices[1], MSPoint::Corner(Square { ui: 1, vi: 0 }));
    assert_eq!(vertices[2], MSPoint::Corner(Square { ui: 0, vi: 1 }));
    assert_eq!(vertices[3], MSPoint::Corner(Square { ui: 1, vi: 1 }));
}

#[test]
fn empty_shape_gives_empty_mesh() {
    let grid = Grid { u_axis: axis(GridAxisTopology::Linear, 4), v_axis: axis(GridAxisTopology::Circular, 4) };
    let mut ms = MarchingSquares::new(grid);
    let (vertices, faces) = ms.mesh(&vec![(false, false, false, false); 12]);
    assert!(vertices.is_empty());
    assert!(faces.is_empty());
}

#[test]
fn shared_points_are_realized_once() {
    // Two cells side by side, the shape covering the left half of the first cell boundary.
    let grid = Grid { u_axis: axis(GridAxisTopology::Linear, 2), v_axis: axis(GridAxisTopology::Linear, 3) };
    let mut ms = MarchingSquares::new(grid);
    let (vertices, faces) = ms.mesh(&vec![(true, true, true, true), (true, false, true, false)]);
    // Full cell: 4 corners; second cell reuses its two left corners and adds two edge points.
    assert_eq!(vertices.len(), 6);
    assert_eq!(faces.len(), 4);
    let mut sorted = vertices.clone();
    sorted.sort_by_key(|p| format!("{:?}", p));
    sorted.dedup();
    assert_eq!(sorted.len(), 6);
}

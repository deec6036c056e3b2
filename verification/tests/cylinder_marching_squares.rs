use polytwister_mesher::cylinder_marching_squares::{Grid, MSPoint, MSSquare, MarchingSquares, Subtree};

#[test]
fn inv_depth_scale_is_power_of_two() {
    assert_eq!(Grid::<usize>::inv_depth_scale(0), 1);
    assert_eq!(Grid::<usize>::inv_depth_scale(3), 8);
    assert_eq!(Grid::<usize>::inv_depth_scale(40), 1u64 << 40);
}

#[test]
fn offset_wraps_around_the_cylinder() {
    let s = MSSquare::new_root(2, 4, 5);
    assert_eq!(s.offset(1, 1), MSSquare { u_index: 3, theta_index: 0, depth: 0, theta_cells: 5 });
    let deep = MSSquare { u_index: 0, theta_index: 9, depth: 1, theta_cells: 5 };
    assert_eq!(deep.offset(0, 1).theta_index, 0);
    let mid = MSSquare { u_index: 0, theta_index: 8, depth: 1, theta_cells: 5 };
    assert_eq!(mid.offset(0, 1).theta_index, 9);
}

#[test]
fn offset_by_more_than_one_square() {
    let s = MSSquare::new_root(2, 3, 5);
    assert_eq!(s.offset(4, 7), MSSquare { u_index: 6, theta_index: 0, depth: 0, theta_cells: 5 });
    let deep = MSSquare { u_index: 1, theta_index: 6, depth: 2, theta_cells: 3 };
    assert_eq!(deep.offset(10, 30), MSSquare { u_index: 11, theta_index: 0, depth: 2, theta_cells: 3 });
}

#[test]
fn subdivide_gives_the_four_quarters() {
    let s = MSSquare::new_root(1, 4, 5);
    let (a, b, c, d) = s.subdivide();
    assert_eq!(a, MSSquare { u_index: 2, theta_index: 8, depth: 1, theta_cells: 5 });
    assert_eq!(b, MSSquare { u_index: 2, theta_index: 9, depth: 1, theta_cells: 5 });
    assert_eq!(c, MSSquare { u_index: 3, theta_index: 8, depth: 1, theta_cells: 5 });
    assert_eq!(d, MSSquare { u_index: 3, theta_index: 9, depth: 1, theta_cells: 5 });
}

#[test]
fn triangulate_uses_wrapped_corners() {
    let s = MSSquare::new_root(0, 2, 3);
    let t = s.triangulate((true, true, true, true));
    assert_eq!(t.len(), 2);
    assert_eq!(t[0].v3, MSPoint::Corner(MSSquare::new_root(0, 0, 3)));
}

#[test]
fn quadtree_refines_mixed_squares() {
    let grid = Grid { u_cells: 1, theta_cells: 2, u_min: -1.0, u_max: 1.0 };
    let mut ms = MarchingSquares::new(grid, 1);
    // Only the top-left corner of the first root square is inside at depth 0; the quarters at
    // depth 1 are all inside.
    let sample = |s: MSSquare| {
        if s.depth == 0 && s.theta_index == 0 {
            (true, false, false, false)
        } else if s.depth == 0 {
            (false, false, false, false)
        } else {
            (true, true, true, true)
        }
    };
    let (vertices, faces) = ms.mesh(&sample);
    // The first root square is split into four full quarters: 8 triangles on a 3 x 3 grid.
    assert_eq!(faces.len(), 8);
    assert_eq!(vertices.len(), 9);
}

#[test]
fn make_node_stops_at_max_depth() {
    let grid = Grid { u_cells: 1, theta_cells: 4, u_min: 0.0, u_max: 1.0 };
    let ms = MarchingSquares::new(grid, 2);
    let node = ms.make_node(MSSquare::new_root(0, 1, 4), &|_s: MSSquare| (true, false, true, false));
    let mut leaves = 0;
    let mut stack = vec![&node];
    while let Some(n) = stack.pop() {
        match &n.subtree {
            Subtree::Parent(ch) => {
                assert!(n.square.depth < 2);
                stack.push(&ch.0);
                stack.push(&ch.1);
                stack.push(&ch.2);
                stack.push(&ch.3);
            }
            Subtree::Leaf(c) => {
                assert_eq!(n.square.depth, 2);
                assert_eq!(*c, (true, false, true, false));
                leaves += 1;
            }
            _ => panic!("mixed corners never give a full or empty node"),
        }
    }
    assert_eq!(leaves, 16);
}

//! A Marching Squares mesher for the intersection of a hollow cylinder with a shape given by an
//! indicator function. Surface coordinates are (u, theta), where theta is circular. Squares that
//! cross the shape's boundary are refined as a quadtree up to a maximal depth.
//!
//! Where a grid point lies in 3D space, where exactly on an edge a boundary point lies, and
//! whether a point is inside the shape are all decided by the caller.

use vstd::prelude::*;
use vstd::arithmetic::power2::{pow2, lemma_pow2_pos, lemma_pow2_unfold, lemma_pow2_adds};
use crate::mesh::Face;
use crate::marching_squares::{
    Corners,
    triangle_table,
    distinct8,
    dedup,
    triangle_corners,
    indexes_triangles,
    lemma_dedup_push,
    lemma_triangle_corners_push,
    Point2,
    square_positions,
    map8,
    map3,
    lemma_triangle_table_map,
};

verus! {

/// Information about the grid: `u_cells` by `theta_cells` root squares, with u ranging from
/// `u_min` to `u_max`.
#[derive(Clone, Copy, Debug)]
pub struct Grid<T> {
    pub u_cells: usize,
    pub theta_cells: usize,
    pub u_min: T,
    pub u_max: T,
}

/// A unique square in the quad tree. The discrete coordinate of its upper left corner is
/// (u_index, theta_index) / 2^depth and its side length is 1 / 2^depth.
#[derive(Clone, Copy, Debug, PartialEq, Eq, Structural)]
pub struct MSSquare {
    pub u_index: usize,
    pub theta_index: usize,
    pub depth: u8,
    /// The number of radial segments of the cylinder.
    pub theta_cells: usize,
}

/// A discrete vertex location: at the corner of a square, or on one of its edges.
#[derive(Clone, Copy, Debug, PartialEq, Eq, Structural)]
pub enum MSPoint {
    Corner(MSSquare),
    HorizontalEdge(MSSquare),
    VerticalEdge(MSSquare),
}

#[derive(Clone, Copy, Debug)]
pub struct MSTriangle {
    pub v1: MSPoint,
    pub v2: MSPoint,
    pub v3: MSPoint,
}

impl MSTriangle {
    pub open spec fn points(self) -> (MSPoint, MSPoint, MSPoint) {
        (self.v1, self.v2, self.v3)
    }
}

pub open spec fn triangle_points(ts: Seq<MSTriangle>) -> Seq<(MSPoint, MSPoint, MSPoint)> {
    ts.map_values(|t: MSTriangle| t.points())
}

/// The number of squares around the cylinder at the depth of the square.
pub open spec fn theta_period(s: MSSquare) -> int {
    s.theta_cells * pow2(s.depth as nat)
}

/// The square can be offset by one in both directions.
pub open spec fn square_ok(s: MSSquare) -> bool {
    &&& s.depth < 64
    &&& s.theta_cells >= 1
    &&& theta_period(s) <= usize::MAX
    &&& s.theta_index < theta_period(s)
    &&& s.u_index < usize::MAX
}

/// The square `du` steps down and `dtheta` steps around (wrapping) at the same depth.
pub open spec fn square_offset(s: MSSquare, du: int, dtheta: int) -> MSSquare {
    MSSquare {
        u_index: (s.u_index + du) as usize,
        theta_index: ((s.theta_index + dtheta) % theta_period(s)) as usize,
        depth: s.depth,
        theta_cells: s.theta_cells,
    }
}

/// The eight points of a square in the order of [`triangle_table`].
pub open spec fn square_points(s: MSSquare) -> (
    MSPoint,
    MSPoint,
    MSPoint,
    MSPoint,
    MSPoint,
    MSPoint,
    MSPoint,
    MSPoint,
) {
    (
        MSPoint::Corner(s),
        MSPoint::HorizontalEdge(s),
        MSPoint::Corner(square_offset(s, 0, 1)),
        MSPoint::VerticalEdge(s),
        MSPoint::VerticalEdge(square_offset(s, 0, 1)),
        MSPoint::Corner(square_offset(s, 1, 0)),
        MSPoint::HorizontalEdge(square_offset(s, 1, 0)),
        MSPoint::Corner(square_offset(s, 1, 1)),
    )
}

/// Where a point lies on the cylinder, in units of half a square of its depth: `(x, y)` with x
/// around the cylinder and y along it. Corners lie at even coordinates, edge points half-way
/// between two corners.
pub open spec fn point_position(p: MSPoint) -> Point2 {
    match p {
        MSPoint::Corner(s) => (2 * s.theta_index, 2 * s.u_index),
        MSPoint::HorizontalEdge(s) => (2 * s.theta_index + 1, 2 * s.u_index),
        MSPoint::VerticalEdge(s) => (2 * s.theta_index, 2 * s.u_index + 1),
    }
}

/// The square that a point is named by.
pub open spec fn point_square(p: MSPoint) -> MSSquare {
    match p {
        MSPoint::Corner(s) => s,
        MSPoint::HorizontalEdge(s) => s,
        MSPoint::VerticalEdge(s) => s,
    }
}

/// The square's eight places on its boundary, in the order of [`triangle_table`]: its corners
/// and the middles of its edges, with x taken around the cylinder, modulo twice the number of
/// squares around it.
pub open spec fn square_places(s: MSSquare) -> (Point2, Point2, Point2, Point2, Point2, Point2, Point2, Point2) {
    let (x, y) = (2 * s.theta_index, 2 * s.u_index);
    let w = 2 * theta_period(s);
    let q = square_positions();
    (
        ((x + q.0.0) % w, y + q.0.1),
        ((x + q.1.0) % w, y + q.1.1),
        ((x + q.2.0) % w, y + q.2.1),
        ((x + q.3.0) % w, y + q.3.1),
        ((x + q.4.0) % w, y + q.4.1),
        ((x + q.5.0) % w, y + q.5.1),
        ((x + q.6.0) % w, y + q.6.1),
        ((x + q.7.0) % w, y + q.7.1),
    )
}

/// The geometry of a square on the cylinder: each of its eight points is named at the square's
/// depth and lies at its place on the square's boundary, going around the cylinder where the
/// square is the last one of its ring; so each triangle of its triangulation is the table's
/// triangle placed on the square. Neighbouring squares share the points of their common edge,
/// so the triangulated shape has no cracks.
pub proof fn lemma_square_geometry(s: MSSquare, c: Corners)
    requires
        square_ok(s),
    ensures
        map8(square_points(s), |p: MSPoint| point_position(p)) == square_places(s),
        map8(square_points(s), |p: MSPoint| point_square(p).depth) == (
            s.depth,
            s.depth,
            s.depth,
            s.depth,
            s.depth,
            s.depth,
            s.depth,
            s.depth,
        ),
        map8(square_points(s), |p: MSPoint| point_square(p).theta_cells) == (
            s.theta_cells,
            s.theta_cells,
            s.theta_cells,
            s.theta_cells,
            s.theta_cells,
            s.theta_cells,
            s.theta_cells,
            s.theta_cells,
        ),
        triangle_table(c, square_points(s)).map_values(
            |t: (MSPoint, MSPoint, MSPoint)| map3(t, |p: MSPoint| point_position(p)),
        ) == triangle_table(c, square_places(s)),
        square_points(s).5 == square_points(square_offset(s, 1, 0)).0,
        square_points(s).6 == square_points(square_offset(s, 1, 0)).1,
        square_points(s).7 == square_points(square_offset(s, 1, 0)).2,
        square_points(s).2 == square_points(square_offset(s, 0, 1)).0,
        square_points(s).4 == square_points(square_offset(s, 0, 1)).3,
        square_points(s).7 == square_points(square_offset(s, 0, 1)).5,
{
    let p = theta_period(s);
    let t = s.theta_index as int;
    lemma_pow2_pos(s.depth as nat);
    assert(p >= 1) by (nonlinear_arith)
        requires
            p == s.theta_cells * pow2(s.depth as nat),
            s.theta_cells >= 1,
            pow2(s.depth as nat) >= 1,
    ;
    vstd::arithmetic::div_mod::lemma_small_mod(t as nat, p as nat);
    vstd::arithmetic::div_mod::lemma_small_mod((2 * t) as nat, (2 * p) as nat);
    vstd::arithmetic::div_mod::lemma_small_mod((2 * t + 1) as nat, (2 * p) as nat);
    if t + 1 < p {
        vstd::arithmetic::div_mod::lemma_small_mod((t + 1) as nat, p as nat);
        vstd::arithmetic::div_mod::lemma_small_mod((2 * t + 2) as nat, (2 * p) as nat);
    } else {
        vstd::arithmetic::div_mod::lemma_mod_self_0(p);
        vstd::arithmetic::div_mod::lemma_mod_self_0(2 * p);
    }
    let f = |q: MSPoint| point_position(q);
    assert(map8(square_points(s), f) == square_places(s));
    lemma_triangle_table_map(c, square_points(s), f);
}

/// The four quarters of a square, one level deeper: top left, top right, bottom left, bottom
/// right.
pub open spec fn square_subdivide(s: MSSquare) -> (MSSquare, MSSquare, MSSquare, MSSquare) {
    let top_left = MSSquare {
        u_index: (s.u_index * 2) as usize,
        theta_index: (s.theta_index * 2) as usize,
        depth: (s.depth + 1) as u8,
        theta_cells: s.theta_cells,
    };
    (top_left, square_offset(top_left, 0, 1), square_offset(top_left, 1, 0), square_offset(top_left, 1, 1))
}

/// The quarters of a square are one level deeper and tile it: the top-left quarter starts
/// where the square starts (positions doubling from one depth to the next), each of the other
/// quarters starts at the top-right, bottom-left or bottom-right corner of the top-left quarter,
/// and the bottom-right quarter ends where the square ends.
pub proof fn lemma_subdivide_geometry(s: MSSquare)
    requires
        square_ok(s),
        s.depth < 63,
        2 * theta_period(s) <= usize::MAX,
        s.u_index * 2 + 1 < usize::MAX,
    ensures
        ({
            let r = square_subdivide(s);
            &&& r.0.depth == s.depth + 1 && r.1.depth == s.depth + 1
            &&& r.2.depth == s.depth + 1 && r.3.depth == s.depth + 1
            &&& r.0.theta_cells == s.theta_cells && r.1.theta_cells == s.theta_cells
            &&& r.2.theta_cells == s.theta_cells && r.3.theta_cells == s.theta_cells
            &&& point_position(MSPoint::Corner(r.0)) == (
                2 * point_position(MSPoint::Corner(s)).0,
                2 * point_position(MSPoint::Corner(s)).1,
            )
            &&& square_points(r.0).2 == MSPoint::Corner(r.1)
            &&& square_points(r.0).5 == MSPoint::Corner(r.2)
            &&& square_points(r.0).7 == MSPoint::Corner(r.3)
            &&& point_position(square_points(r.3).7) == (
                2 * point_position(square_points(s).7).0,
                2 * point_position(square_points(s).7).1,
            )
        }),
{
    let r = square_subdivide(s);
    let p = theta_period(s);
    let t = s.theta_index as int;
    lemma_pow2_pos(s.depth as nat);
    lemma_pow2_unfold((s.depth + 1) as nat);
    assert(theta_period(r.0) == 2 * p) by (nonlinear_arith)
        requires
            theta_period(r.0) == s.theta_cells * pow2((s.depth + 1) as nat),
            pow2((s.depth + 1) as nat) == 2 * pow2(s.depth as nat),
            p == s.theta_cells * pow2(s.depth as nat),
    ;
    assert(p >= 1) by (nonlinear_arith)
        requires
            p == s.theta_cells * pow2(s.depth as nat),
            s.theta_cells >= 1,
            pow2(s.depth as nat) >= 1,
    ;
    let q = 2 * p;
    vstd::arithmetic::div_mod::lemma_small_mod(t as nat, p as nat);
    vstd::arithmetic::div_mod::lemma_small_mod((2 * t) as nat, q as nat);
    vstd::arithmetic::div_mod::lemma_small_mod((2 * t + 1) as nat, q as nat);
    if t + 1 < p {
        vstd::arithmetic::div_mod::lemma_small_mod((t + 1) as nat, p as nat);
        vstd::arithmetic::div_mod::lemma_small_mod((2 * t + 2) as nat, q as nat);
    } else {
        vstd::arithmetic::div_mod::lemma_mod_self_0(p);
        vstd::arithmetic::div_mod::lemma_mod_self_0(q);
    }
    assert(theta_period(r.3) == q);
    assert(theta_period(r.1) == q);
}

/// With at least two squares around the cylinder, the points of a square are distinct.
pub proof fn lemma_square_points_distinct(s: MSSquare)
    requires
        square_ok(s),
        theta_period(s) >= 2,
    ensures
        distinct8(square_points(s)),
{
    let v = square_points(s);
    let q = seq![v.0, v.1, v.2, v.3, v.4, v.5, v.6, v.7];
    let p = theta_period(s);
    let t = s.theta_index as int;
    vstd::arithmetic::div_mod::lemma_fundamental_div_mod_converse(t, p, 0, t);
    if t + 1 < p {
        vstd::arithmetic::div_mod::lemma_fundamental_div_mod_converse(t + 1, p, 0, t + 1);
    } else {
        vstd::arithmetic::div_mod::lemma_fundamental_div_mod_converse(t + 1, p, 1, 0);
    }
    assert((t + 1) % p != t);
    assert((t + 0) % p == t);
    assert forall|a: int, b: int| 0 <= a < b < 8 implies q[a] != q[b] by {}
}

impl Grid<usize> {
    /// `2^depth`, the number of squares along each side of a root square at that depth.
    pub fn inv_depth_scale(depth: u8) -> (r: u64)
        requires
            depth < 64,
        ensures
            r == pow2(depth as nat),
    {
        proof {
            vstd::bits::lemma_u64_pow2_no_overflow(depth as nat);
            vstd::bits::lemma_u64_shl_is_mul(1, depth as u64);
        }
        1u64 << (depth as u64)
    }
}

impl MSSquare {
    pub fn new_root(u_index: usize, theta_index: usize, theta_cells: usize) -> (s: Self)
        ensures
            s == (MSSquare { u_index, theta_index, theta_cells, depth: 0 }),
    {
        MSSquare { u_index, theta_index, theta_cells, depth: 0 }
    }

    /// Offset this square to another square of the same depth, wrapping around the cylinder.
    /// Only positive offsets are allowed: u moves by `du`, and theta by `dtheta` modulo the
    /// number of squares around the cylinder at this depth.
    pub fn offset(&self, du: usize, dtheta: usize) -> (s: Self)
        requires
            self.depth < 64,
            self.theta_cells >= 1,
            theta_period(*self) <= u64::MAX,
            self.u_index + du <= usize::MAX,
            self.theta_index + dtheta <= usize::MAX,
        ensures
            s == square_offset(*self, du as int, dtheta as int),
            s.theta_index < theta_period(*self),
    {
        let scale = Grid::inv_depth_scale(self.depth);
        proof {
            lemma_pow2_pos(self.depth as nat);
            assert(self.theta_cells as int * (scale as int) <= u64::MAX);
            assert(self.theta_cells as int * (scale as int) >= 1) by (nonlinear_arith)
                requires
                    self.theta_cells >= 1,
                    scale >= 1,
            ;
        }
        let period: u64 = self.theta_cells as u64 * scale;
        let theta_index = ((self.theta_index + dtheta) as u64) % period;
        MSSquare {
            u_index: self.u_index + du,
            theta_index: theta_index as usize,
            depth: self.depth,
            theta_cells: self.theta_cells,
        }
    }

    pub fn top_left(&self) -> (p: MSPoint)
        ensures
            p == square_points(*self).0,
    {
        MSPoint::Corner(*self)
    }

    pub fn top_right(&self) -> (p: MSPoint)
        requires
            square_ok(*self),
        ensures
            p == square_points(*self).2,
    {
        MSPoint::Corner(self.offset(0, 1))
    }

    pub fn bottom_left(&self) -> (p: MSPoint)
        requires
            square_ok(*self),
        ensures
            p == square_points(*self).5,
    {
        MSPoint::Corner(self.offset(1, 0))
    }

    pub fn bottom_right(&self) -> (p: MSPoint)
        requires
            square_ok(*self),
        ensures
            p == square_points(*self).7,
    {
        MSPoint::Corner(self.offset(1, 1))
    }

    pub fn top_middle(&self) -> (p: MSPoint)
        ensures
            p == square_points(*self).1,
    {
        MSPoint::HorizontalEdge(*self)
    }

    pub fn left_middle(&self) -> (p: MSPoint)
        ensures
            p == square_points(*self).3,
    {
        MSPoint::VerticalEdge(*self)
    }

    pub fn bottom_middle(&self) -> (p: MSPoint)
        requires
            square_ok(*self),
        ensures
            p == square_points(*self).6,
    {
        MSPoint::HorizontalEdge(self.offset(1, 0))
    }

    pub fn right_middle(&self) -> (p: MSPoint)
        requires
            square_ok(*self),
        ensures
            p == square_points(*self).4,
    {
        MSPoint::VerticalEdge(self.offset(0, 1))
    }

    /// Given the "inside-ness" of the four corners of this square (true if inside the shape and
    /// false otherwise), triangulate the shape in this square.
    pub fn triangulate(&self, corners: Corners) -> (r: Vec<MSTriangle>)
        requires
            square_ok(*self),
        ensures
            triangle_points(r@) == triangle_table(corners, square_points(*self)),
    {
        //     0---1---2
        //     3---x---4
        //     5---6---7
        let v = (
            self.top_left(),
            self.top_middle(),
            self.top_right(),
            self.left_middle(),
            self.right_middle(),
            self.bottom_left(),
            self.bottom_middle(),
            self.bottom_right(),
        );
        let r = match corners {
            // Empty
            (false, false, false, false) => vec![],
            // Full
            (true, true, true, true) => vec![
                MSTriangle { v1: v.0, v2: v.5, v3: v.2 },
                MSTriangle { v1: v.2, v2: v.5, v3: v.7 },
            ],
            // Single corner
            (true, false, false, false) => vec![MSTriangle { v1: v.0, v2: v.3, v3: v.1 }],
            (false, true, false, false) => vec![MSTriangle { v1: v.2, v2: v.1, v3: v.4 }],
            (false, false, true, false) => vec![MSTriangle { v1: v.3, v2: v.5, v3: v.6 }],
            (false, false, false, true) => vec![MSTriangle { v1: v.4, v2: v.6, v3: v.7 }],
            // Opposite, diagonal corners
            (true, false, false, true) => vec![
                MSTriangle { v1: v.0, v2: v.3, v3: v.1 },
                MSTriangle { v1: v.4, v2: v.6, v3: v.7 },
            ],
            (false, true, true, false) => vec![
                MSTriangle { v1: v.2, v2: v.1, v3: v.4 },
                MSTriangle { v1: v.3, v2: v.5, v3: v.6 },
            ],
            // Two adjacent corners
            (true, true, false, false) => vec![
                MSTriangle { v1: v.0, v2: v.3, v3: v.2 },
                MSTriangle { v1: v.3, v2: v.4, v3: v.2 },
            ],
            (true, false, true, false) => vec![
                MSTriangle { v1: v.0, v2: v.5, v3: v.1 },
                MSTriangle { v1: v.1, v2: v.5, v3: v.6 },
            ],
            (false, false, true, true) => vec![
                MSTriangle { v1: v.3, v2: v.5, v3: v.4 },
                MSTriangle { v1: v.5, v2: v.7, v3: v.4 },
            ],
            (false, true, false, true) => vec![
                MSTriangle { v1: v.1, v2: v.6, v3: v.2 },
                MSTriangle { v1: v.6, v2: v.7, v3: v.2 },
            ],
            // Three corners
            (true, true, true, false) => vec![
                MSTriangle { v1: v.0, v2: v.4, v3: v.2 },
                MSTriangle { v1: v.0, v2: v.6, v3: v.4 },
                MSTriangle { v1: v.0, v2: v.5, v3: v.6 },
            ],
            (true, false, true, true) => vec![
                MSTriangle { v1: v.0, v2: v.5, v3: v.1 },
                MSTriangle { v1: v.1, v2: v.5, v3: v.4 },
                MSTriangle { v1: v.4, v2: v.5, v3: v.7 },
            ],
            (true, true, false, true) => vec![
                MSTriangle { v1: v.2, v2: v.0, v3: v.3 },
                MSTriangle { v1: v.2, v2: v.3, v3: v.6 },
                MSTriangle { v1: v.2, v2: v.6, v3: v.7 },
            ],
            (false, true, true, true) => vec![
                MSTriangle { v1: v.7, v2: v.2, v3: v.1 },
                MSTriangle { v1: v.7, v2: v.1, v3: v.3 },
                MSTriangle { v1: v.7, v2: v.3, v3: v.5 },
            ],
        };
        assert(triangle_points(r@) =~= triangle_table(corners, square_points(*self)));
        r
    }

    /// The four quarters of this square, one level deeper.
    pub fn subdivide(&self) -> (r: (MSSquare, MSSquare, MSSquare, MSSquare))
        requires
            square_ok(*self),
            self.depth < 63,
            2 * theta_period(*self) <= usize::MAX,
            self.u_index * 2 + 1 < usize::MAX,
        ensures
            r == square_subdivide(*self),
            square_ok(r.0),
            square_ok(r.1),
            square_ok(r.2),
            square_ok(r.3),
    {
        let top_left = MSSquare {
            u_index: self.u_index * 2,
            theta_index: self.theta_index * 2,
            depth: self.depth + 1,
            theta_cells: self.theta_cells,
        };
        proof {
            lemma_pow2_unfold(top_left.depth as nat);
            assert(theta_period(top_left) == 2 * theta_period(*self)) by (nonlinear_arith)
                requires
                    theta_period(top_left) == top_left.theta_cells * pow2(top_left.depth as nat),
                    theta_period(*self) == self.theta_cells * pow2(self.depth as nat),
                    pow2(top_left.depth as nat) == 2 * pow2(self.depth as nat),
                    top_left.theta_cells == self.theta_cells,
            ;
        }
        let r = (top_left, top_left.offset(0, 1), top_left.offset(1, 0), top_left.offset(1, 1));
        r
    }
}

/// A node of the quadtree and the square it covers.
pub struct Node {
    pub square: MSSquare,
    pub subtree: Subtree,
}

/// The subtree associated with a node.
pub enum Subtree {
    /// The node has four children: top left, top right, bottom left, bottom right.
    Parent(Box<(Node, Node, Node, Node)>),
    /// A square at the lowest level of the quadtree which contains the boundary of the shape. The
    /// four bools indicate which of the top left, top right, bottom left, and bottom right corners
    /// are in the shape.
    Leaf(Corners),
    /// A square entirely inside the shape.
    Full,
    /// A square entirely outside the shape.
    Empty,
}

/// Some but not all corners are inside.
pub open spec fn mixed(c: Corners) -> bool {
    c != (true, true, true, true) && c != (false, false, false, false)
}

/// Every square of the tree can be offset by one.
pub open spec fn node_ok(n: Node) -> bool
    decreases n,
{
    &&& square_ok(n.square)
    &&& match n.subtree {
        Subtree::Parent(ch) => node_ok(ch.0) && node_ok(ch.1) && node_ok(ch.2) && node_ok(ch.3),
        _ => true,
    }
}

/// The triangles of a tree: those of its leaves and full squares, in depth-first order.
pub open spec fn node_triangles(n: Node) -> Seq<(MSPoint, MSPoint, MSPoint)>
    decreases n,
{
    match n.subtree {
        Subtree::Empty => Seq::empty(),
        Subtree::Full => triangle_table((true, true, true, true), square_points(n.square)),
        Subtree::Leaf(c) => triangle_table(c, square_points(n.square)),
        Subtree::Parent(ch) => node_triangles(ch.0) + node_triangles(ch.1) + node_triangles(ch.2)
            + node_triangles(ch.3),
    }
}

/// The tree was built by sampling each square's corners with `sample`: a square whose corners
/// are all inside is full, all outside is empty, and a mixed square is a leaf at the maximal
/// depth and is split into its four quarters above it.
pub open spec fn tree_sampled<F: Fn(MSSquare) -> Corners>(n: Node, max_depth: u8, sample: F) -> bool
    decreases n,
{
    match n.subtree {
        Subtree::Full => call_ensures(sample, (n.square,), (true, true, true, true)),
        Subtree::Empty => call_ensures(sample, (n.square,), (false, false, false, false)),
        Subtree::Leaf(c) => {
            &&& call_ensures(sample, (n.square,), c)
            &&& mixed(c)
            &&& n.square.depth >= max_depth
        },
        Subtree::Parent(ch) => {
            &&& exists|c: Corners| call_ensures(sample, (n.square,), c) && mixed(c)
            &&& n.square.depth < max_depth
            &&& (ch.0.square, ch.1.square, ch.2.square, ch.3.square) == square_subdivide(n.square)
            &&& tree_sampled(ch.0, max_depth, sample)
            &&& tree_sampled(ch.1, max_depth, sample)
            &&& tree_sampled(ch.2, max_depth, sample)
            &&& tree_sampled(ch.3, max_depth, sample)
        },
    }
}

/// The square and all its descendants down to `max_depth` can be offset by one.
pub open spec fn square_ok_to(s: MSSquare, max_depth: u8) -> bool {
    &&& s.depth <= max_depth < 64
    &&& s.theta_cells >= 1
    &&& s.theta_cells * pow2(max_depth as nat) <= usize::MAX
    &&& s.theta_index < theta_period(s)
    &&& (s.u_index + 1) * pow2((max_depth - s.depth) as nat) <= usize::MAX
}

proof fn lemma_pow2_le(a: nat, b: nat)
    requires
        a <= b,
    ensures
        pow2(a) <= pow2(b),
        pow2(b) == pow2(a) * pow2((b - a) as nat),
{
    lemma_pow2_adds(a, (b - a) as nat);
    lemma_pow2_pos(a);
    lemma_pow2_pos((b - a) as nat);
    assert(pow2(a) <= pow2(a) * pow2((b - a) as nat)) by (nonlinear_arith)
        requires
            pow2((b - a) as nat) >= 1,
            pow2(a) >= 0,
    ;
}

proof fn lemma_square_ok_to(s: MSSquare, max_depth: u8)
    requires
        square_ok_to(s, max_depth),
    ensures
        square_ok(s),
        s.depth < max_depth ==> {
            &&& s.depth < 63
            &&& 2 * theta_period(s) <= usize::MAX
            &&& s.u_index * 2 + 1 < usize::MAX
        },
{
    lemma_pow2_le(s.depth as nat, max_depth as nat);
    let k = (max_depth - s.depth) as nat;
    lemma_pow2_pos(k);
    assert(theta_period(s) <= s.theta_cells * pow2(max_depth as nat)) by (nonlinear_arith)
        requires
            pow2(s.depth as nat) <= pow2(max_depth as nat),
            theta_period(s) == s.theta_cells * pow2(s.depth as nat),
            s.theta_cells >= 1,
    ;
    assert(s.u_index + 1 <= (s.u_index + 1) * pow2(k)) by (nonlinear_arith)
        requires
            pow2(k) >= 1,
    ;
    if s.depth < max_depth {
        lemma_pow2_unfold((s.depth + 1) as nat);
        lemma_pow2_le((s.depth + 1) as nat, max_depth as nat);
        assert(2 * theta_period(s) <= s.theta_cells * pow2(max_depth as nat)) by (nonlinear_arith)
            requires
                pow2((s.depth + 1) as nat) <= pow2(max_depth as nat),
                pow2((s.depth + 1) as nat) == 2 * pow2(s.depth as nat),
                theta_period(s) == s.theta_cells * pow2(s.depth as nat),
                s.theta_cells >= 1,
        ;
        lemma_pow2_unfold(k);
        lemma_pow2_pos((k - 1) as nat);
        assert((s.u_index + 1) * 2 <= (s.u_index + 1) * pow2(k)) by (nonlinear_arith)
            requires
                pow2(k) == 2 * pow2((k - 1) as nat),
                pow2((k - 1) as nat) >= 1,
        ;
    }
}

/// The quarters of a square that can be refined down to `max_depth` can be too.
proof fn lemma_subdivide_ok_to(s: MSSquare, max_depth: u8, r: (MSSquare, MSSquare, MSSquare, MSSquare))
    requires
        square_ok_to(s, max_depth),
        s.depth < max_depth,
        r == square_subdivide(s),
        square_ok(r.0),
        square_ok(r.1),
        square_ok(r.2),
        square_ok(r.3),
    ensures
        square_ok_to(r.0, max_depth),
        square_ok_to(r.1, max_depth),
        square_ok_to(r.2, max_depth),
        square_ok_to(r.3, max_depth),
{
    lemma_square_ok_to(s, max_depth);
    let k = (max_depth - s.depth) as nat;
    lemma_pow2_unfold(k);
    let k1 = (k - 1) as nat;
    assert(r.0.u_index == s.u_index * 2);
    assert(r.2.u_index == s.u_index * 2 + 1);
    assert((s.u_index * 2 + 1 + 1) * pow2(k1) == (s.u_index + 1) * pow2(k)) by (nonlinear_arith)
        requires
            pow2(k) == 2 * pow2(k1),
    ;
    assert((s.u_index * 2 + 1) * pow2(k1) <= (s.u_index * 2 + 1 + 1) * pow2(k1)) by (nonlinear_arith)
        requires
            pow2(k1) >= 0,
    ;
    assert((max_depth - r.0.depth) as nat == k1);
}

impl Node {
    /// The triangles of the tree, in depth-first order.
    pub fn triangulate(&self) -> (r: Vec<MSTriangle>)
        requires
            node_ok(*self),
        ensures
            triangle_points(r@) == node_triangles(*self),
        decreases self,
    {
        match &self.subtree {
            Subtree::Empty => {
                let r: Vec<MSTriangle> = Vec::new();
                assert(triangle_points(r@) =~= node_triangles(*self));
                r
            },
            Subtree::Full => self.square.triangulate((true, true, true, true)),
            Subtree::Leaf(corners) => self.square.triangulate(*corners),
            Subtree::Parent(children) => {
                let mut result: Vec<MSTriangle> = Vec::new();
                let mut t0 = children.0.triangulate();
                let mut t1 = children.1.triangulate();
                let mut t2 = children.2.triangulate();
                let mut t3 = children.3.triangulate();
                result.append(&mut t0);
                result.append(&mut t1);
                result.append(&mut t2);
                result.append(&mut t3);
                assert(triangle_points(result@) =~= node_triangles(*self));
                result
            },
        }
    }
}

/// Marching Squares mesher for cylindrical 2D space with coordinates (u, theta). The root
/// squares are stored in u-major order, each as the root of a quadtree.
pub struct MarchingSquares<T> {
    grid: Grid<T>,
    cells: Vec<Node>,
    max_depth: u8,
}

/// The squares of the grid can be refined down to `max_depth`.
pub open spec fn grid_ok<T>(grid: Grid<T>, max_depth: u8) -> bool {
    &&& max_depth < 64
    &&& grid.u_cells * pow2(max_depth as nat) <= usize::MAX
    &&& grid.theta_cells * pow2(max_depth as nat) <= usize::MAX
}

/// The triangles of the trees, one tree after the other.
pub open spec fn cells_triangles(cells: Seq<Node>) -> Seq<(MSPoint, MSPoint, MSPoint)>
    decreases cells.len(),
{
    if cells.len() == 0 {
        Seq::empty()
    } else {
        cells_triangles(cells.drop_last()) + node_triangles(cells.last())
    }
}

/// Index of `p` in `points`, adding it at the end if it is not there yet.
pub fn realize_point(points: &mut Vec<MSPoint>, p: MSPoint) -> (r: usize)
    ensures
        final(points)@ == (if old(points)@.contains(p) {
            old(points)@
        } else {
            old(points)@.push(p)
        }),
        r < final(points)@.len(),
        final(points)@[r as int] == p,
{
    let mut i: usize = 0;
    while i < points.len()
        invariant
            i <= points@.len(),
            points@ == old(points)@,
            forall|k: int| 0 <= k < i ==> points@[k] != p,
        decreases points@.len() - i,
    {
        if points[i] == p {
            return i;
        }
        i = i + 1;
    }
    assert(!points@.contains(p));
    points.push(p);
    i
}

/// Adds one triangle to a mesh built from a list of triangles.
fn add_triangle(
    vertices: &mut Vec<MSPoint>,
    faces: &mut Vec<Face>,
    t: (MSPoint, MSPoint, MSPoint),
    ts: Ghost<Seq<(MSPoint, MSPoint, MSPoint)>>,
)
    requires
        indexes_triangles(old(vertices)@, old(faces)@, ts@),
    ensures
        indexes_triangles(final(vertices)@, final(faces)@, ts@.push(t)),
{
    proof {
        lemma_triangle_corners_push(ts@, t);
        let c = triangle_corners(ts@);
        lemma_dedup_push(c, t.0);
        lemma_dedup_push(c.push(t.0), t.1);
        lemma_dedup_push(c.push(t.0).push(t.1), t.2);
    }
    let ghost old_vertices = vertices@;
    let v1 = realize_point(vertices, t.0);
    let ghost after1 = vertices@;
    let v2 = realize_point(vertices, t.1);
    let ghost after2 = vertices@;
    let v3 = realize_point(vertices, t.2);
    assert(vertices@.take(after2.len() as int) =~= after2);
    assert(after2.take(after1.len() as int) =~= after1);
    assert(after1.take(old_vertices.len() as int) =~= old_vertices);
    assert(vertices@[v1 as int] == after1[v1 as int]);
    assert(vertices@[v2 as int] == after2[v2 as int]);
    let ghost old_faces = faces@;
    faces.push(Face { v1, v2, v3 });
    let ghost ts2 = ts@.push(t);
    assert forall|p: int| 0 <= p < faces@.len() implies {
        &&& (#[trigger] faces@[p]).v1 < vertices@.len()
        &&& faces@[p].v2 < vertices@.len()
        &&& faces@[p].v3 < vertices@.len()
        &&& vertices@[faces@[p].v1 as int] == ts2[p].0
        &&& vertices@[faces@[p].v2 as int] == ts2[p].1
        &&& vertices@[faces@[p].v3 as int] == ts2[p].2
    } by {
        if p < old_faces.len() {
            let f = old_faces[p];
            assert(faces@[p] == f);
            assert(ts2[p] == ts@[p]);
            assert(vertices@[f.v1 as int] == old_vertices[f.v1 as int]);
            assert(vertices@[f.v2 as int] == old_vertices[f.v2 as int]);
            assert(vertices@[f.v3 as int] == old_vertices[f.v3 as int]);
        }
    }
}

impl<T> MarchingSquares<T> {
    #[verifier::type_invariant]
    closed spec fn cells_ok(self) -> bool {
        forall|k: int| 0 <= k < self.cells@.len() ==> node_ok(#[trigger] self.cells@[k])
    }

    pub closed spec fn spec_grid(&self) -> Grid<T> {
        self.grid
    }

    pub closed spec fn spec_cells(&self) -> Seq<Node> {
        self.cells@
    }

    pub closed spec fn spec_max_depth(&self) -> u8 {
        self.max_depth
    }

    pub fn new(grid: Grid<T>, max_depth: u8) -> (ms: Self)
        requires
            grid.theta_cells * grid.u_cells <= usize::MAX,
        ensures
            ms.spec_grid() == grid,
            ms.spec_max_depth() == max_depth,
            ms.spec_cells().len() == 0,
    {
        let capacity = grid.theta_cells * grid.u_cells;
        MarchingSquares { grid, cells: Vec::with_capacity(capacity), max_depth }
    }

    /// Build the quadtree below a square: sample its corners; a square with all corners inside is
    /// full, with all outside empty, and a mixed square is a leaf at the maximal depth and is
    /// split into its four quarters above it.
    pub fn make_node<F: Fn(MSSquare) -> Corners>(&self, square: MSSquare, sample: &F) -> (n: Node)
        requires
            square_ok_to(square, self.spec_max_depth()),
            forall|s: MSSquare| sample.requires((s,)),
        ensures
            n.square == square,
            node_ok(n),
            tree_sampled(n, self.spec_max_depth(), *sample),
        decreases self.spec_max_depth() - square.depth,
    {
        proof {
            lemma_square_ok_to(square, self.max_depth);
        }
        let corners = sample(square);
        let subtree = match corners {
            (true, true, true, true) => Subtree::Full,
            (false, false, false, false) => Subtree::Empty,
            _ => {
                if square.depth >= self.max_depth {
                    Subtree::Leaf(corners)
                } else {
                    let subsquares = square.subdivide();
                    proof {
                        lemma_subdivide_ok_to(square, self.max_depth, subsquares);
                    }
                    let n0 = self.make_node(subsquares.0, sample);
                    let n1 = self.make_node(subsquares.1, sample);
                    let n2 = self.make_node(subsquares.2, sample);
                    let n3 = self.make_node(subsquares.3, sample);
                    assert(mixed(corners));
                    Subtree::Parent(Box::new((n0, n1, n2, n3)))
                }
            },
        };
        Node { square, subtree }
    }

    /// Sample the shape on every root square of the grid (in u-major order, building a quadtree
    /// below each) and triangulate all trees. Returns the points of the mesh, each once and in
    /// order of first appearance, and its faces, one per triangle.
    #[verifier::spinoff_prover]
    pub fn mesh<F: Fn(MSSquare) -> Corners>(&mut self, sample: &F) -> (r: (Vec<MSPoint>, Vec<Face>))
        requires
            grid_ok(old(self).spec_grid(), old(self).spec_max_depth()),
            forall|s: MSSquare| sample.requires((s,)),
        ensures
            final(self).spec_grid() == old(self).spec_grid(),
            final(self).spec_max_depth() == old(self).spec_max_depth(),
            final(self).spec_cells().len() == old(self).spec_cells().len()
                + old(self).spec_grid().u_cells * old(self).spec_grid().theta_cells,
            final(self).spec_cells().take(old(self).spec_cells().len() as int) == old(self).spec_cells(),
            forall|k: int|
                0 <= k < old(self).spec_grid().u_cells * old(self).spec_grid().theta_cells ==> {
                    let n = #[trigger] final(self).spec_cells()[old(self).spec_cells().len() + k];
                    &&& n.square == MSSquare {
                        u_index: (k / old(self).spec_grid().theta_cells as int) as usize,
                        theta_index: (k % old(self).spec_grid().theta_cells as int) as usize,
                        depth: 0,
                        theta_cells: old(self).spec_grid().theta_cells,
                    }
                    &&& tree_sampled(n, old(self).spec_max_depth(), *sample)
                },
            indexes_triangles(r.0@, r.1@, cells_triangles(final(self).spec_cells())),
    {
        proof {
            use_type_invariant(&*self);
        }
        let u_cells = self.grid.u_cells;
        let theta_cells = self.grid.theta_cells;
        let ghost old_len = self.cells@.len();
        let ghost m = self.max_depth;
        let mut new_cells: Vec<Node> = Vec::new();
        let mut u_index: usize = 0;
        while u_index < u_cells
            invariant
                u_cells == self.grid.u_cells,
                theta_cells == self.grid.theta_cells,
                m == self.max_depth,
                grid_ok(self.grid, m),
                forall|s: MSSquare| sample.requires((s,)),
                u_index <= u_cells,
                new_cells@.len() == u_index * theta_cells,
                forall|k: int| 0 <= k < new_cells@.len() ==> node_ok(#[trigger] new_cells@[k]),
                forall|k: int|
                    0 <= k < new_cells@.len() ==> {
                        &&& (#[trigger] new_cells@[k]).square == MSSquare {
                            u_index: (k / theta_cells as int) as usize,
                            theta_index: (k % theta_cells as int) as usize,
                            depth: 0,
                            theta_cells,
                        }
                        &&& tree_sampled(new_cells@[k], m, *sample)
                    },
            decreases u_cells - u_index,
        {
            let mut t_index: usize = 0;
            while t_index < theta_cells
                invariant
                    u_cells == self.grid.u_cells,
                    theta_cells == self.grid.theta_cells,
                    m == self.max_depth,
                    grid_ok(self.grid, m),
                    forall|s: MSSquare| sample.requires((s,)),
                    u_index < u_cells,
                    t_index <= theta_cells,
                    new_cells@.len() == u_index * theta_cells + t_index,
                    forall|k: int| 0 <= k < new_cells@.len() ==> node_ok(#[trigger] new_cells@[k]),
                    forall|k: int|
                        0 <= k < new_cells@.len() ==> {
                            &&& (#[trigger] new_cells@[k]).square == MSSquare {
                                u_index: (k / theta_cells as int) as usize,
                                theta_index: (k % theta_cells as int) as usize,
                                depth: 0,
                                theta_cells,
                            }
                            &&& tree_sampled(new_cells@[k], m, *sample)
                        },
                decreases theta_cells - t_index,
            {
                let square = MSSquare::new_root(u_index, t_index, theta_cells);
                proof {
                    let p = u_index * theta_cells + t_index;
                    vstd::arithmetic::div_mod::lemma_fundamental_div_mod_converse(
                        p as int,
                        theta_cells as int,
                        u_index as int,
                        t_index as int,
                    );
                    assert(pow2(0) == 1) by {
                        vstd::arithmetic::power2::lemma2_to64();
                    }
                    lemma_pow2_pos(m as nat);
                    assert((u_index + 1) * pow2(m as nat) <= u_cells * pow2(m as nat)) by (nonlinear_arith)
                        requires
                            u_index + 1 <= u_cells,
                            pow2(m as nat) >= 1,
                    ;
                    assert(theta_period(square) == theta_cells) by {
                        assert(theta_cells * pow2(0) == theta_cells * 1);
                    }
                    assert(((m - square.depth) as nat) == m as nat);
                    assert((square.u_index + 1) * pow2((m - square.depth) as nat) <= usize::MAX);
                    assert(square_ok_to(square, m));
                }
                let node = self.make_node(square, sample);
                new_cells.push(node);
                t_index = t_index + 1;
            }
            assert(u_index * theta_cells + theta_cells == (u_index + 1) * theta_cells) by (nonlinear_arith);
            u_index = u_index + 1;
        }
        let mut cells_so_far: Vec<Node> = Vec::new();
        std::mem::swap(&mut cells_so_far, &mut self.cells);
        let ghost old_cells = cells_so_far@;
        cells_so_far.append(&mut new_cells);
        self.cells = cells_so_far;
        let ghost cells = self.cells@;
        assert(cells.take(old_len as int) =~= old_cells);
        let mut vertices: Vec<MSPoint> = Vec::new();
        let mut faces: Vec<Face> = Vec::new();
        let mut c: usize = 0;
        while c < self.cells.len()
            invariant
                cells == self.cells@,
                forall|k: int| 0 <= k < cells.len() ==> node_ok(#[trigger] cells[k]),
                c <= cells.len(),
                indexes_triangles(vertices@, faces@, cells_triangles(cells.take(c as int))),
            decreases cells.len() - c,
        {
            let ghost done = cells_triangles(cells.take(c as int));
            let triangles = self.cells[c].triangulate();
            let ghost these = node_triangles(cells[c as int]);
            let mut k: usize = 0;
            while k < triangles.len()
                invariant
                    triangle_points(triangles@) == these,
                    k <= triangles@.len(),
                    indexes_triangles(vertices@, faces@, done + these.take(k as int)),
                decreases triangles@.len() - k,
            {
                let t = triangles[k];
                assert(triangle_points(triangles@)[k as int] == t.points());
                add_triangle(&mut vertices, &mut faces, (t.v1, t.v2, t.v3), Ghost(done + these.take(k as int)));
                assert(done + these.take(k + 1) =~= (done + these.take(k as int)).push((t.v1, t.v2, t.v3)));
                k = k + 1;
            }
            assert(these.take(triangles@.len() as int) =~= these);
            assert(cells.take(c + 1).drop_last() =~= cells.take(c as int));
            c = c + 1;
        }
        assert(cells.take(cells.len() as int) =~= cells);
        (vertices, faces)
    }
}

} // verus!

//! A Marching Squares mesher for 2D manifolds embedded in 3D space.
//!
//! The mesher works on a grid of cells with coordinates (u, v). Each cell is a square whose four
//! corners have been found to be inside or outside the shape; the square is then cut into
//! triangles whose corners are grid points (corners of squares or points on their edges). Where
//! a point on an edge lies exactly, and where a grid point lies in 3D space, is decided by the
//! caller. Either axis can be circular, so the surface can be a topological cylinder or torus.

use vstd::prelude::*;
use crate::mesh::Face;

pub mod grid;

use grid::{Grid, GridAxis};

verus! {

/// Whether the top-left, top-right, bottom-left and bottom-right corners of a square are inside
/// the shape.
pub type Corners = (bool, bool, bool, bool);

/// The triangles that fill the inside of a square, given which of its corners are inside.
/// `v` lists the square's points as
///
/// ```text
/// v.0---v.1---v.2
///  |           |
/// v.3         v.4
///  |           |
/// v.5---v.6---v.7
/// ```
///
/// and `c` its corners as (top left, top right, bottom left, bottom right).
pub open spec fn triangle_table<P>(c: Corners, v: (P, P, P, P, P, P, P, P)) -> Seq<(P, P, P)> {
    match c {
        // Empty
        (false, false, false, false) => seq![],
        // Full
        (true, true, true, true) => seq![(v.0, v.5, v.2), (v.2, v.5, v.7)],
        // Single corner
        (true, false, false, false) => seq![(v.0, v.3, v.1)],
        (false, true, false, false) => seq![(v.2, v.1, v.4)],
        (false, false, true, false) => seq![(v.3, v.5, v.6)],
        (false, false, false, true) => seq![(v.4, v.6, v.7)],
        // Opposite, diagonal corners
        (true, false, false, true) => seq![(v.0, v.3, v.1), (v.4, v.6, v.7)],
        (false, true, true, false) => seq![(v.2, v.1, v.4), (v.3, v.5, v.6)],
        // Two adjacent corners
        (true, true, false, false) => seq![(v.0, v.3, v.2), (v.3, v.4, v.2)],
        (true, false, true, false) => seq![(v.0, v.5, v.1), (v.1, v.5, v.6)],
        (false, false, true, true) => seq![(v.3, v.5, v.4), (v.5, v.7, v.4)],
        (false, true, false, true) => seq![(v.1, v.6, v.2), (v.6, v.7, v.2)],
        // Three corners
        (true, true, true, false) => seq![(v.0, v.4, v.2), (v.0, v.6, v.4), (v.0, v.5, v.6)],
        (true, false, true, true) => seq![(v.0, v.5, v.1), (v.1, v.5, v.4), (v.4, v.5, v.7)],
        (true, true, false, true) => seq![(v.2, v.0, v.3), (v.2, v.3, v.6), (v.2, v.6, v.7)],
        (false, true, true, true) => seq![(v.7, v.2, v.1), (v.7, v.1, v.3), (v.7, v.3, v.5)],
    }
}

/// `p` is a corner of one of the triangles.
pub open spec fn used_by<P>(ts: Seq<(P, P, P)>, p: P) -> bool {
    exists|i: int| 0 <= i < ts.len() && (ts[i].0 == p || ts[i].1 == p || ts[i].2 == p)
}

/// The eight points of a square are distinct.
pub open spec fn distinct8<P>(v: (P, P, P, P, P, P, P, P)) -> bool {
    let s = seq![v.0, v.1, v.2, v.3, v.4, v.5, v.6, v.7];
    forall|a: int, b: int| 0 <= a < b < 8 ==> s[a] != s[b]
}

/// The triangulation of a square touches exactly its inside corners and the middles of the
/// edges whose two corners differ. So two neighbouring squares always agree on the points of
/// their shared edge, and the triangulated shape has no cracks.
pub proof fn lemma_triangle_table_points<P>(c: Corners, v: (P, P, P, P, P, P, P, P), p: P)
    requires
        distinct8(v),
    ensures
        used_by(triangle_table(c, v), p) <==> {
            ||| p == v.0 && c.0
            ||| p == v.2 && c.1
            ||| p == v.5 && c.2
            ||| p == v.7 && c.3
            ||| p == v.1 && c.0 != c.1
            ||| p == v.3 && c.0 != c.2
            ||| p == v.4 && c.1 != c.3
            ||| p == v.6 && c.2 != c.3
        },
{
    let s = seq![v.0, v.1, v.2, v.3, v.4, v.5, v.6, v.7];
    assert(s[0] == v.0 && s[1] == v.1 && s[2] == v.2 && s[3] == v.3);
    assert(s[4] == v.4 && s[5] == v.5 && s[6] == v.6 && s[7] == v.7);
    let ts = triangle_table(c, v);
    if used_by(ts, p) {
        let i = choose|i: int| 0 <= i < ts.len() && (ts[i].0 == p || ts[i].1 == p || ts[i].2 == p);
    } else {
        assert(forall|i: int| 0 <= i < ts.len() ==> !(ts[i].0 == p || ts[i].1 == p || ts[i].2 == p));
        assert(ts.len() > 0 ==> ts[0].0 != p && ts[0].1 != p && ts[0].2 != p);
        assert(ts.len() > 1 ==> ts[1].0 != p && ts[1].1 != p && ts[1].2 != p);
        assert(ts.len() > 2 ==> ts[2].0 != p && ts[2].1 != p && ts[2].2 != p);
    }
}

/// The number of inside corners.
pub open spec fn inside_count(c: Corners) -> int {
    (if c.0 { 1int } else { 0int }) + (if c.1 { 1int } else { 0int }) + (if c.2 { 1int } else { 0int })
        + (if c.3 { 1int } else { 0int })
}

/// The part of a square that should be filled, in eighths of the square: a corner triangle for
/// one inside corner, half the square for two adjacent ones, two corner triangles for two
/// opposite ones, all but a corner triangle for three, and the whole square for four.
pub open spec fn inside_eighths(c: Corners) -> int {
    let k = inside_count(c);
    if k == 0 {
        0
    } else if k == 1 {
        1
    } else if k == 2 {
        if c.0 == c.3 {
            2
        } else {
            4
        }
    } else if k == 3 {
        7
    } else {
        8
    }
}

/// A point in the plane with integer coordinates: x to the right, y downwards.
pub type Point2 = (int, int);

/// The eight points of a square of side 2 with its top left corner at the origin, in the order
/// of [`triangle_table`]: corners at even coordinates, edge middles in between.
pub open spec fn square_positions() -> (Point2, Point2, Point2, Point2, Point2, Point2, Point2, Point2) {
    ((0, 0), (1, 0), (2, 0), (0, 1), (2, 1), (0, 2), (1, 2), (2, 2))
}

/// Twice the signed area of a triangle; negative when its corners turn clockwise on the page
/// (counterclockwise with y pointing up).
pub open spec fn double_area(t: (Point2, Point2, Point2)) -> int {
    (t.1.0 - t.0.0) * (t.2.1 - t.0.1) - (t.1.1 - t.0.1) * (t.2.0 - t.0.0)
}

/// The sum of [`double_area`] over the triangles.
pub open spec fn total_double_area(ts: Seq<(Point2, Point2, Point2)>) -> int
    decreases ts.len(),
{
    if ts.len() == 0 {
        0
    } else {
        total_double_area(ts.drop_last()) + double_area(ts.last())
    }
}

/// The triangles of the square's table, placed on the plane, each have a negative
/// [`double_area`], and together have the doubled area of [`inside_eighths`], negated.
spec fn table_areas_ok(c: Corners) -> bool {
    let ts = triangle_table(c, square_positions());
    &&& ts.len() <= 3
    &&& (ts.len() < 1 || double_area(ts[0]) < 0)
    &&& (ts.len() < 2 || double_area(ts[1]) < 0)
    &&& (ts.len() < 3 || double_area(ts[2]) < 0)
    &&& total_double_area(ts) == -inside_eighths(c)
}

/// The total doubled area of at most three triangles, spelled out.
proof fn lemma_total_double_area_small(ts: Seq<(Point2, Point2, Point2)>)
    requires
        ts.len() <= 3,
    ensures
        total_double_area(ts) == (if ts.len() >= 1 { double_area(ts[0]) } else { 0 }) + (if ts.len()
            >= 2 {
            double_area(ts[1])
        } else {
            0
        }) + (if ts.len() >= 3 { double_area(ts[2]) } else { 0 }),
{
    let e: Seq<(Point2, Point2, Point2)> = Seq::empty();
    assert(total_double_area(e) == 0);
    if ts.len() >= 1 {
        assert(ts.take(1).drop_last() =~= e);
        assert(total_double_area(ts.take(1)) == double_area(ts[0]));
    }
    if ts.len() >= 2 {
        assert(ts.take(2).drop_last() =~= ts.take(1));
        assert(total_double_area(ts.take(2)) == double_area(ts[0]) + double_area(ts[1]));
    }
    if ts.len() >= 3 {
        assert(ts.take(3).drop_last() =~= ts.take(2));
    }
    assert(ts.take(ts.len() as int) =~= ts);
}

/// A square with `k` inside corners is cut into `k` triangles, or two when it is full. Placed on
/// the plane, every triangle has a nonzero area and the same winding, and together they fill
/// exactly the part given by [`inside_eighths`]: 0, 1/8, 1/2 (two adjacent corners), 1/4 (two
/// opposite corners), 7/8 or all of the square, whose doubled area is 8.
pub proof fn lemma_triangle_table_count_and_area<P>(c: Corners, v: (P, P, P, P, P, P, P, P))
    ensures
        triangle_table(c, v).len() == (if inside_count(c) == 4 {
            2
        } else {
            inside_count(c)
        }),
        forall|i: int|
            0 <= i < triangle_table(c, square_positions()).len() ==> double_area(
                #[trigger] triangle_table(c, square_positions())[i],
            ) < 0,
        total_double_area(triangle_table(c, square_positions())) == -inside_eighths(c),
{
    lemma_total_double_area_small(triangle_table(c, square_positions()));
    match c {
        (false, false, false, false) => {
            assert(table_areas_ok((false, false, false, false)));
        },
        (false, false, false, true) => {
            assert(double_area(((2int, 1int), (1int, 2int), (2int, 2int))) == -1) by (nonlinear_arith);
            assert(triangle_table(c, square_positions())[0] == ((2int, 1int), (1int, 2int), (2int, 2int)));
            assert(table_areas_ok((false, false, false, true)));
        },
        (false, false, true, false) => {
            assert(double_area(((0int, 1int), (0int, 2int), (1int, 2int))) == -1) by (nonlinear_arith);
            assert(triangle_table(c, square_positions())[0] == ((0int, 1int), (0int, 2int), (1int, 2int)));
            assert(table_areas_ok((false, false, true, false)));
        },
        (false, false, true, true) => {
            assert(double_area(((0int, 1int), (0int, 2int), (2int, 1int))) == -2) by (nonlinear_arith);
            assert(triangle_table(c, square_positions())[0] == ((0int, 1int), (0int, 2int), (2int, 1int)));
            assert(double_area(((0int, 2int), (2int, 2int), (2int, 1int))) == -2) by (nonlinear_arith);
            assert(triangle_table(c, square_positions())[1] == ((0int, 2int), (2int, 2int), (2int, 1int)));
            assert(table_areas_ok((false, false, true, true)));
        },
        (false, true, false, false) => {
            assert(double_area(((2int, 0int), (1int, 0int), (2int, 1int))) == -1) by (nonlinear_arith);
            assert(triangle_table(c, square_positions())[0] == ((2int, 0int), (1int, 0int), (2int, 1int)));
            assert(table_areas_ok((false, true, false, false)));
        },
        (false, true, false, true) => {
            assert(double_area(((1int, 0int), (1int, 2int), (2int, 0int))) == -2) by (nonlinear_arith);
            assert(triangle_table(c, square_positions())[0] == ((1int, 0int), (1int, 2int), (2int, 0int)));
            assert(double_area(((1int, 2int), (2int, 2int), (2int, 0int))) == -2) by (nonlinear_arith);
            assert(triangle_table(c, square_positions())[1] == ((1int, 2int), (2int, 2int), (2int, 0int)));
            assert(table_areas_ok((false, true, false, true)));
        },
        (false, true, true, false) => {
            assert(double_area(((2int, 0int), (1int, 0int), (2int, 1int))) == -1) by (nonlinear_arith);
            assert(triangle_table(c, square_positions())[0] == ((2int, 0int), (1int, 0int), (2int, 1int)));
            assert(double_area(((0int, 1int), (0int, 2int), (1int, 2int))) == -1) by (nonlinear_arith);
            assert(triangle_table(c, square_positions())[1] == ((0int, 1int), (0int, 2int), (1int, 2int)));
            assert(table_areas_ok((false, true, true, false)));
        },
        (false, true, true, true) => {
            assert(double_area(((2int, 2int), (2int, 0int), (1int, 0int))) == -2) by (nonlinear_arith);
            assert(triangle_table(c, square_positions())[0] == ((2int, 2int), (2int, 0int), (1int, 0int)));
            assert(double_area(((2int, 2int), (1int, 0int), (0int, 1int))) == -3) by (nonlinear_arith);
            assert(triangle_table(c, square_positions())[1] == ((2int, 2int), (1int, 0int), (0int, 1int)));
            assert(double_area(((2int, 2int), (0int, 1int), (0int, 2int))) == -2) by (nonlinear_arith);
            assert(triangle_table(c, square_positions())[2] == ((2int, 2int), (0int, 1int), (0int, 2int)));
            assert(table_areas_ok((false, true, true, true)));
        },
        (true, false, false, false) => {
            assert(double_area(((0int, 0int), (0int, 1int), (1int, 0int))) == -1) by (nonlinear_arith);
            assert(triangle_table(c, square_positions())[0] == ((0int, 0int), (0int, 1int), (1int, 0int)));
            assert(table_areas_ok((true, false, false, false)));
        },
        (true, false, false, true) => {
            assert(double_area(((0int, 0int), (0int, 1int), (1int, 0int))) == -1) by (nonlinear_arith);
            assert(triangle_table(c, square_positions())[0] == ((0int, 0int), (0int, 1int), (1int, 0int)));
            assert(double_area(((2int, 1int), (1int, 2int), (2int, 2int))) == -1) by (nonlinear_arith);
            assert(triangle_table(c, square_positions())[1] == ((2int, 1int), (1int, 2int), (2int, 2int)));
            assert(table_areas_ok((true, false, false, true)));
        },
        (true, false, true, false) => {
            assert(double_area(((0int, 0int), (0int, 2int), (1int, 0int))) == -2) by (nonlinear_arith);
            assert(triangle_table(c, square_positions())[0] == ((0int, 0int), (0int, 2int), (1int, 0int)));
            assert(double_area(((1int, 0int), (0int, 2int), (1int, 2int))) == -2) by (nonlinear_arith);
            assert(triangle_table(c, square_positions())[1] == ((1int, 0int), (0int, 2int), (1int, 2int)));
            assert(table_areas_ok((true, false, true, false)));
        },
        (true, false, true, true) => {
            assert(double_area(((0int, 0int), (0int, 2int), (1int, 0int))) == -2) by (nonlinear_arith);
            assert(triangle_table(c, square_positions())[0] == ((0int, 0int), (0int, 2int), (1int, 0int)));
            assert(double_area(((1int, 0int), (0int, 2int), (2int, 1int))) == -3) by (nonlinear_arith);
            assert(triangle_table(c, square_positions())[1] == ((1int, 0int), (0int, 2int), (2int, 1int)));
            assert(double_area(((2int, 1int), (0int, 2int), (2int, 2int))) == -2) by (nonlinear_arith);
            assert(triangle_table(c, square_positions())[2] == ((2int, 1int), (0int, 2int), (2int, 2int)));
            assert(table_areas_ok((true, false, true, true)));
        },
        (true, true, false, false) => {
            assert(double_area(((0int, 0int), (0int, 1int), (2int, 0int))) == -2) by (nonlinear_arith);
            assert(triangle_table(c, square_positions())[0] == ((0int, 0int), (0int, 1int), (2int, 0int)));
            assert(double_area(((0int, 1int), (2int, 1int), (2int, 0int))) == -2) by (nonlinear_arith);
            assert(triangle_table(c, square_positions())[1] == ((0int, 1int), (2int, 1int), (2int, 0int)));
            assert(table_areas_ok((true, true, false, false)));
        },
        (true, true, false, true) => {
            assert(double_area(((2int, 0int), (0int, 0int), (0int, 1int))) == -2) by (nonlinear_arith);
            assert(triangle_table(c, square_positions())[0] == ((2int, 0int), (0int, 0int), (0int, 1int)));
            assert(double_area(((2int, 0int), (0int, 1int), (1int, 2int))) == -3) by (nonlinear_arith);
            assert(triangle_table(c, square_positions())[1] == ((2int, 0int), (0int, 1int), (1int, 2int)));
            assert(double_area(((2int, 0int), (1int, 2int), (2int, 2int))) == -2) by (nonlinear_arith);
            assert(triangle_table(c, square_positions())[2] == ((2int, 0int), (1int, 2int), (2int, 2int)));
            assert(table_areas_ok((true, true, false, true)));
        },
        (true, true, true, false) => {
            assert(double_area(((0int, 0int), (2int, 1int), (2int, 0int))) == -2) by (nonlinear_arith);
            assert(triangle_table(c, square_positions())[0] == ((0int, 0int), (2int, 1int), (2int, 0int)));
            assert(double_area(((0int, 0int), (1int, 2int), (2int, 1int))) == -3) by (nonlinear_arith);
            assert(triangle_table(c, square_positions())[1] == ((0int, 0int), (1int, 2int), (2int, 1int)));
            assert(double_area(((0int, 0int), (0int, 2int), (1int, 2int))) == -2) by (nonlinear_arith);
            assert(triangle_table(c, square_positions())[2] == ((0int, 0int), (0int, 2int), (1int, 2int)));
            assert(table_areas_ok((true, true, true, false)));
        },
        (true, true, true, true) => {
            assert(double_area(((0int, 0int), (0int, 2int), (2int, 0int))) == -4) by (nonlinear_arith);
            assert(triangle_table(c, square_positions())[0] == ((0int, 0int), (0int, 2int), (2int, 0int)));
            assert(double_area(((2int, 0int), (0int, 2int), (2int, 2int))) == -4) by (nonlinear_arith);
            assert(triangle_table(c, square_positions())[1] == ((2int, 0int), (0int, 2int), (2int, 2int)));
            assert(table_areas_ok((true, true, true, true)));
        },
    }
    let ts = triangle_table(c, square_positions());
    assert forall|i: int| 0 <= i < ts.len() implies double_area(#[trigger] ts[i]) < 0 by {
        if i == 0 {
        } else if i == 1 {
        } else {
        }
    }
}

/// The eight values with `f` applied to each.
pub open spec fn map8<P, Q>(v: (P, P, P, P, P, P, P, P), f: spec_fn(P) -> Q) -> (Q, Q, Q, Q, Q, Q, Q, Q) {
    (f(v.0), f(v.1), f(v.2), f(v.3), f(v.4), f(v.5), f(v.6), f(v.7))
}

/// The triangle with `f` applied to each corner.
pub open spec fn map3<P, Q>(t: (P, P, P), f: spec_fn(P) -> Q) -> (Q, Q, Q) {
    (f(t.0), f(t.1), f(t.2))
}

/// The table only picks points: applying a map to the eight points before or after choosing
/// the triangles gives the same triangles.
pub proof fn lemma_triangle_table_map<P, Q>(c: Corners, v: (P, P, P, P, P, P, P, P), f: spec_fn(P) -> Q)
    ensures
        triangle_table(c, map8(v, f)) == triangle_table(c, v).map_values(|t: (P, P, P)| map3(t, f)),
{
    assert(triangle_table(c, map8(v, f)) =~= triangle_table(c, v).map_values(|t: (P, P, P)| map3(t, f)));
}

/// The sequence without repetitions, each element where it first occurs.
pub open spec fn dedup<P>(s: Seq<P>) -> Seq<P>
    decreases s.len(),
{
    if s.len() == 0 {
        Seq::empty()
    } else {
        let d = dedup(s.drop_last());
        if d.contains(s.last()) {
            d
        } else {
            d.push(s.last())
        }
    }
}

/// The deduplicated sequence has no repetitions and holds exactly the elements of the sequence.
pub proof fn lemma_dedup<P>(s: Seq<P>)
    ensures
        dedup(s).no_duplicates(),
        forall|x: P| dedup(s).contains(x) <==> s.contains(x),
    decreases s.len(),
{
    if s.len() > 0 {
        let init = s.drop_last();
        lemma_dedup(init);
        assert forall|x: P| s.contains(x) <==> init.contains(x) || x == s.last() by {
            if s.contains(x) {
                let i = choose|i: int| 0 <= i < s.len() && s[i] == x;
                if i < s.len() - 1 {
                    assert(init[i] == x);
                }
            }
            if init.contains(x) {
                let i = choose|i: int| 0 <= i < init.len() && init[i] == x;
                assert(s[i] == x);
            }
            if x == s.last() {
                assert(s[s.len() - 1] == x);
            }
        }
        let d = dedup(init);
        if !d.contains(s.last()) {
            assert forall|x: P| d.push(s.last()).contains(x) <==> d.contains(x) || x == s.last() by {
                if d.push(s.last()).contains(x) {
                    let i = choose|i: int| 0 <= i < d.push(s.last()).len() && d.push(s.last())[i] == x;
                    if i < d.len() {
                        assert(d[i] == x);
                    }
                }
                if d.contains(x) {
                    let i = choose|i: int| 0 <= i < d.len() && d[i] == x;
                    assert(d.push(s.last())[i] == x);
                }
                if x == s.last() {
                    assert(d.push(s.last())[d.len() as int] == x);
                }
            }
        }
    }
}

/// The corners of the triangles, one triangle after the other.
pub open spec fn triangle_corners<P>(ts: Seq<(P, P, P)>) -> Seq<P>
    decreases ts.len(),
{
    if ts.len() == 0 {
        Seq::empty()
    } else {
        triangle_corners(ts.drop_last()) + seq![ts.last().0, ts.last().1, ts.last().2]
    }
}

/// The mesh of a list of triangles: `vertices` lists each point once, in order of first
/// appearance, and face `p` is triangle `p` with its corners replaced by their indices.
pub open spec fn indexes_triangles<P>(vertices: Seq<P>, faces: Seq<Face>, ts: Seq<(P, P, P)>) -> bool {
    &&& vertices == dedup(triangle_corners(ts))
    &&& faces.len() == ts.len()
    &&& forall|p: int|
        0 <= p < faces.len() ==> {
            &&& (#[trigger] faces[p]).v1 < vertices.len()
            &&& faces[p].v2 < vertices.len()
            &&& faces[p].v3 < vertices.len()
            &&& vertices[faces[p].v1 as int] == ts[p].0
            &&& vertices[faces[p].v2 as int] == ts[p].1
            &&& vertices[faces[p].v3 as int] == ts[p].2
        }
}

/// A unit-size square in Marching Squares.
#[derive(Clone, Copy, Debug, PartialEq, Eq, Structural)]
pub struct Square {
    /// u index of the top left corner.
    pub ui: usize,
    /// v index of the top left corner.
    pub vi: usize,
}

/// A point on the grid which is either a corner or on the edge of a Square. If it's on an edge,
/// where exactly is decided later.
#[derive(Clone, Copy, Debug, PartialEq, Eq, Structural)]
pub enum MSPoint {
    Corner(Square),
    HorizontalEdge(Square),
    VerticalEdge(Square),
}

/// A triangle produced by Marching Squares.
#[derive(Clone, Copy, Debug)]
pub struct MSTriangle {
    pub v1: MSPoint,
    pub v2: MSPoint,
    pub v3: MSPoint,
}

impl MSTriangle {
    pub open spec fn points(self) -> (MSPoint, MSPoint, MSPoint) {
        (self.v1, self.v2, self.v3)
    }
}

pub open spec fn triangle_points(ts: Seq<MSTriangle>) -> Seq<(MSPoint, MSPoint, MSPoint)> {
    ts.map_values(|t: MSTriangle| t.points())
}

/// A cell in Marching Squares whose corners have been determined to be inside or outside the
/// implicit surface.
#[derive(Clone, Copy, Debug)]
pub struct Cell {
    pub square: Square,
    pub corners: Corners,
}

/// The square `(ui + du, vi + dv)`.
pub open spec fn square_offset(s: Square, du: int, dv: int) -> Square {
    Square { ui: (s.ui + du) as usize, vi: (s.vi + dv) as usize }
}

/// The eight points of a square in the order of [`triangle_table`].
pub open spec fn square_points(s: Square) -> (
    MSPoint,
    MSPoint,
    MSPoint,
    MSPoint,
    MSPoint,
    MSPoint,
    MSPoint,
    MSPoint,
) {
    (
        MSPoint::Corner(s),
        MSPoint::HorizontalEdge(s),
        MSPoint::Corner(square_offset(s, 0, 1)),
        MSPoint::VerticalEdge(s),
        MSPoint::VerticalEdge(square_offset(s, 0, 1)),
        MSPoint::Corner(square_offset(s, 1, 0)),
        MSPoint::HorizontalEdge(square_offset(s, 1, 0)),
        MSPoint::Corner(square_offset(s, 1, 1)),
    )
}

/// Both indices of the square can be stepped by one.
pub open spec fn square_in_range(s: Square) -> bool {
    s.ui < usize::MAX && s.vi < usize::MAX
}

/// The points of a square in range are distinct.
pub proof fn lemma_square_points_distinct(s: Square)
    requires
        square_in_range(s),
    ensures
        distinct8(square_points(s)),
{
    let v = square_points(s);
    let q = seq![v.0, v.1, v.2, v.3, v.4, v.5, v.6, v.7];
    assert forall|a: int, b: int| 0 <= a < b < 8 implies q[a] != q[b] by {}
}

/// Where a grid point lies, in units of half a square: `(x, y)` with x along v and y along u.
/// Corners lie at even coordinates, edge points half-way between two corners.
pub open spec fn point_position(p: MSPoint) -> Point2 {
    match p {
        MSPoint::Corner(s) => (2 * s.vi, 2 * s.ui),
        MSPoint::HorizontalEdge(s) => (2 * s.vi + 1, 2 * s.ui),
        MSPoint::VerticalEdge(s) => (2 * s.vi, 2 * s.ui + 1),
    }
}

/// The square's eight places on its boundary, in the order of [`triangle_table`]: its corners
/// and the middles of its edges.
pub open spec fn square_places(s: Square) -> (Point2, Point2, Point2, Point2, Point2, Point2, Point2, Point2) {
    let (x, y) = (2 * s.vi, 2 * s.ui);
    let q = square_positions();
    (
        (x + q.0.0, y + q.0.1),
        (x + q.1.0, y + q.1.1),
        (x + q.2.0, y + q.2.1),
        (x + q.3.0, y + q.3.1),
        (x + q.4.0, y + q.4.1),
        (x + q.5.0, y + q.5.1),
        (x + q.6.0, y + q.6.1),
        (x + q.7.0, y + q.7.1),
    )
}

/// The geometry of a square: each of its eight points lies at its place on the square's
/// boundary, so each triangle of its triangulation is the table's triangle placed on the
/// square; and neighbouring squares share the points of their common edge, so the
/// triangulated shape has no cracks.
pub proof fn lemma_square_geometry(s: Square, c: Corners)
    requires
        square_in_range(s),
    ensures
        map8(square_points(s), |p: MSPoint| point_position(p)) == square_places(s),
        triangle_table(c, square_points(s)).map_values(
            |t: (MSPoint, MSPoint, MSPoint)| map3(t, |p: MSPoint| point_position(p)),
        ) == triangle_table(c, square_places(s)),
        square_points(s).5 == square_points(square_offset(s, 1, 0)).0,
        square_points(s).6 == square_points(square_offset(s, 1, 0)).1,
        square_points(s).7 == square_points(square_offset(s, 1, 0)).2,
        square_points(s).2 == square_points(square_offset(s, 0, 1)).0,
        square_points(s).4 == square_points(square_offset(s, 0, 1)).3,
        square_points(s).7 == square_points(square_offset(s, 0, 1)).5,
{
    let f = |p: MSPoint| point_position(p);
    assert(map8(square_points(s), f) == square_places(s));
    lemma_triangle_table_map(c, square_points(s), f);
}

/// The square with its indices wrapped around the grid's circular axes.
pub open spec fn square_wrap<T>(s: Square, grid: Grid<T>) -> Square {
    Square {
        ui: grid.u_axis.spec_wrap(s.ui as int) as usize,
        vi: grid.v_axis.spec_wrap(s.vi as int) as usize,
    }
}

pub open spec fn point_wrap<T>(p: MSPoint, grid: Grid<T>) -> MSPoint {
    match p {
        MSPoint::Corner(s) => MSPoint::Corner(square_wrap(s, grid)),
        MSPoint::HorizontalEdge(s) => MSPoint::HorizontalEdge(square_wrap(s, grid)),
        MSPoint::VerticalEdge(s) => MSPoint::VerticalEdge(square_wrap(s, grid)),
    }
}

pub open spec fn triangle_wrap<T>(t: (MSPoint, MSPoint, MSPoint), grid: Grid<T>) -> (
    MSPoint,
    MSPoint,
    MSPoint,
) {
    (point_wrap(t.0, grid), point_wrap(t.1, grid), point_wrap(t.2, grid))
}

/// The triangles of a cell.
pub open spec fn cell_triangles(c: Cell) -> Seq<(MSPoint, MSPoint, MSPoint)> {
    triangle_table(c.corners, square_points(c.square))
}

/// The triangles of the cells, one cell after the other, with their points wrapped.
pub open spec fn cells_triangles<T>(cells: Seq<Cell>, grid: Grid<T>) -> Seq<(MSPoint, MSPoint, MSPoint)>
    decreases cells.len(),
{
    if cells.len() == 0 {
        Seq::empty()
    } else {
        cells_triangles(cells.drop_last(), grid) + cell_triangles(cells.last()).map_values(
            |t: (MSPoint, MSPoint, MSPoint)| triangle_wrap(t, grid),
        )
    }
}

/// The cells of the grid in u-major order: cell `ui * v_cells + vi` is square `(ui, vi)`, with
/// the given corners.
pub open spec fn grid_cells(u_cells: int, v_cells: int, corners: Seq<Corners>) -> Seq<Cell> {
    Seq::new(
        (u_cells * v_cells) as nat,
        |p: int| Cell { square: Square { ui: (p / v_cells) as usize, vi: (p % v_cells) as usize }, corners: corners[p] },
    )
}

impl Square {
    pub fn new(ui: usize, vi: usize) -> (s: Self)
        ensures
            s == (Square { ui, vi }),
    {
        Square { ui, vi }
    }

    /// Given a Grid, produce a new square which wraps the indices as necessary for circular axes.
    pub fn wrap<T>(&self, grid: &Grid<T>) -> (s: Self)
        requires
            grid.valid(),
        ensures
            s == square_wrap(*self, *grid),
    {
        Square { ui: grid.u_axis.wrap(self.ui), vi: grid.v_axis.wrap(self.vi) }
    }

    /// Offset this Square to another Square. Only positive offsets are allowed. Offsets of (1, 0)
    /// and (0, 1) move to vertically and horizontally adjacent squares.
    pub fn offset(&self, du: usize, dv: usize) -> (s: Self)
        requires
            self.ui + du <= usize::MAX,
            self.vi + dv <= usize::MAX,
        ensures
            s == square_offset(*self, du as int, dv as int),
    {
        Square { ui: self.ui + du, vi: self.vi + dv }
    }

    pub fn top_left(&self) -> (p: MSPoint)
        ensures
            p == square_points(*self).0,
    {
        MSPoint::Corner(*self)
    }

    pub fn top_right(&self) -> (p: MSPoint)
        requires
            square_in_range(*self),
        ensures
            p == square_points(*self).2,
    {
        MSPoint::Corner(self.offset(0, 1))
    }

    pub fn bottom_left(&self) -> (p: MSPoint)
        requires
            square_in_range(*self),
        ensures
            p == square_points(*self).5,
    {
        MSPoint::Corner(self.offset(1, 0))
    }

    pub fn bottom_right(&self) -> (p: MSPoint)
        requires
            square_in_range(*self),
        ensures
            p == square_points(*self).7,
    {
        MSPoint::Corner(self.offset(1, 1))
    }

    pub fn top_middle(&self) -> (p: MSPoint)
        ensures
            p == square_points(*self).1,
    {
        MSPoint::HorizontalEdge(*self)
    }

    pub fn left_middle(&self) -> (p: MSPoint)
        ensures
            p == square_points(*self).3,
    {
        MSPoint::VerticalEdge(*self)
    }

    pub fn bottom_middle(&self) -> (p: MSPoint)
        requires
            square_in_range(*self),
        ensures
            p == square_points(*self).6,
    {
        MSPoint::HorizontalEdge(self.offset(1, 0))
    }

    pub fn right_middle(&self) -> (p: MSPoint)
        requires
            square_in_range(*self),
        ensures
            p == square_points(*self).4,
    {
        MSPoint::VerticalEdge(self.offset(0, 1))
    }

    /// Given the "inside-ness" of the four corners of this square (true if inside the shape and
    /// false otherwise), triangulate the shape in this square.
    pub fn triangulate(&self, corners: Corners) -> (r: Vec<MSTriangle>)
        requires
            square_in_range(*self),
        ensures
            triangle_points(r@) == triangle_table(corners, square_points(*self)),
    {
        //     0---1---2
        //     3---x---4
        //     5---6---7
        let v = (
            self.top_left(),
            self.top_middle(),
            self.top_right(),
            self.left_middle(),
            self.right_middle(),
            self.bottom_left(),
            self.bottom_middle(),
            self.bottom_right(),
        );
        let r = match corners {
            // Empty
            (false, false, false, false) => vec![],
            // Full
            (true, true, true, true) => vec![
                MSTriangle { v1: v.0, v2: v.5, v3: v.2 },
                MSTriangle { v1: v.2, v2: v.5, v3: v.7 },
            ],
            // Single corner
            (true, false, false, false) => vec![MSTriangle { v1: v.0, v2: v.3, v3: v.1 }],
            (false, true, false, false) => vec![MSTriangle { v1: v.2, v2: v.1, v3: v.4 }],
            (false, false, true, false) => vec![MSTriangle { v1: v.3, v2: v.5, v3: v.6 }],
            (false, false, false, true) => vec![MSTriangle { v1: v.4, v2: v.6, v3: v.7 }],
            // Opposite, diagonal corners
            (true, false, false, true) => vec![
                MSTriangle { v1: v.0, v2: v.3, v3: v.1 },
                MSTriangle { v1: v.4, v2: v.6, v3: v.7 },
            ],
            (false, true, true, false) => vec![
                MSTriangle { v1: v.2, v2: v.1, v3: v.4 },
                MSTriangle { v1: v.3, v2: v.5, v3: v.6 },
            ],
            // Two adjacent corners
            (true, true, false, false) => vec![
                MSTriangle { v1: v.0, v2: v.3, v3: v.2 },
                MSTriangle { v1: v.3, v2: v.4, v3: v.2 },
            ],
            (true, false, true, false) => vec![
                MSTriangle { v1: v.0, v2: v.5, v3: v.1 },
                MSTriangle { v1: v.1, v2: v.5, v3: v.6 },
            ],
            (false, false, true, true) => vec![
                MSTriangle { v1: v.3, v2: v.5, v3: v.4 },
                MSTriangle { v1: v.5, v2: v.7, v3: v.4 },
            ],
            (false, true, false, true) => vec![
                MSTriangle { v1: v.1, v2: v.6, v3: v.2 },
                MSTriangle { v1: v.6, v2: v.7, v3: v.2 },
            ],
            // Three corners
            (true, true, true, false) => vec![
                MSTriangle { v1: v.0, v2: v.4, v3: v.2 },
                MSTriangle { v1: v.0, v2: v.6, v3: v.4 },
                MSTriangle { v1: v.0, v2: v.5, v3: v.6 },
            ],
            (true, false, true, true) => vec![
                MSTriangle { v1: v.0, v2: v.5, v3: v.1 },
                MSTriangle { v1: v.1, v2: v.5, v3: v.4 },
                MSTriangle { v1: v.4, v2: v.5, v3: v.7 },
            ],
            (true, true, false, true) => vec![
                MSTriangle { v1: v.2, v2: v.0, v3: v.3 },
                MSTriangle { v1: v.2, v2: v.3, v3: v.6 },
                MSTriangle { v1: v.2, v2: v.6, v3: v.7 },
            ],
            (false, true, true, true) => vec![
                MSTriangle { v1: v.7, v2: v.2, v3: v.1 },
                MSTriangle { v1: v.7, v2: v.1, v3: v.3 },
                MSTriangle { v1: v.7, v2: v.3, v3: v.5 },
            ],
        };
        assert(triangle_points(r@) =~= triangle_table(corners, square_points(*self)));
        r
    }
}

impl MSPoint {
    /// Given a Grid, produce a new MSPoint which wraps the indices as necessary for circular axes.
    pub fn wrap<T>(&self, grid: &Grid<T>) -> (p: Self)
        requires
            grid.valid(),
        ensures
            p == point_wrap(*self, *grid),
    {
        match self {
            MSPoint::Corner(square) => MSPoint::Corner(square.wrap(grid)),
            MSPoint::HorizontalEdge(square) => MSPoint::HorizontalEdge(square.wrap(grid)),
            MSPoint::VerticalEdge(square) => MSPoint::VerticalEdge(square.wrap(grid)),
        }
    }
}

impl Cell {
    pub fn triangulate(&self) -> (r: Vec<MSTriangle>)
        requires
            square_in_range(self.square),
        ensures
            triangle_points(r@) == cell_triangles(*self),
    {
        self.square.triangulate(self.corners)
    }
}

/// Marching Squares mesher for 2D space with coordinates (u, v). The grid cells are stored in
/// u-major order. For visualization we flatten out the grid and say that u is the vertical
/// direction and v is the horizontal direction.
pub struct MarchingSquares<T> {
    grid: Grid<T>,
    cells: Vec<Cell>,
}

/// Index of `p` in `points`, adding it at the end if it is not there yet.
pub fn realize_point(points: &mut Vec<MSPoint>, p: MSPoint) -> (r: usize)
    ensures
        final(points)@ == (if old(points)@.contains(p) {
            old(points)@
        } else {
            old(points)@.push(p)
        }),
        r < final(points)@.len(),
        final(points)@[r as int] == p,
{
    let mut i: usize = 0;
    while i < points.len()
        invariant
            i <= points@.len(),
            points@ == old(points)@,
            forall|k: int| 0 <= k < i ==> points@[k] != p,
        decreases points@.len() - i,
    {
        if points[i] == p {
            return i;
        }
        i = i + 1;
    }
    assert(!points@.contains(p));
    points.push(p);
    i
}

/// Appending an element to a sequence appends it to the deduplicated sequence, unless it is
/// already there.
pub proof fn lemma_dedup_push<P>(s: Seq<P>, x: P)
    ensures
        dedup(s.push(x)) == (if dedup(s).contains(x) {
            dedup(s)
        } else {
            dedup(s).push(x)
        }),
{
    assert(s.push(x).drop_last() =~= s);
}

/// Appending a triangle appends its three corners.
pub proof fn lemma_triangle_corners_push<P>(ts: Seq<(P, P, P)>, t: (P, P, P))
    ensures
        triangle_corners(ts.push(t)) == triangle_corners(ts).push(t.0).push(t.1).push(t.2),
{
    assert(ts.push(t).drop_last() =~= ts);
    assert(triangle_corners(ts) + seq![t.0, t.1, t.2] =~= triangle_corners(ts).push(t.0).push(t.1).push(t.2));
}

/// Adds one triangle to a mesh built from a list of triangles.
fn add_triangle(
    vertices: &mut Vec<MSPoint>,
    faces: &mut Vec<Face>,
    t: (MSPoint, MSPoint, MSPoint),
    ts: Ghost<Seq<(MSPoint, MSPoint, MSPoint)>>,
)
    requires
        indexes_triangles(old(vertices)@, old(faces)@, ts@),
    ensures
        indexes_triangles(final(vertices)@, final(faces)@, ts@.push(t)),
{
    proof {
        lemma_triangle_corners_push(ts@, t);
        let c = triangle_corners(ts@);
        lemma_dedup_push(c, t.0);
        lemma_dedup_push(c.push(t.0), t.1);
        lemma_dedup_push(c.push(t.0).push(t.1), t.2);
    }
    let ghost old_vertices = vertices@;
    let v1 = realize_point(vertices, t.0);
    let ghost after1 = vertices@;
    let v2 = realize_point(vertices, t.1);
    let ghost after2 = vertices@;
    let v3 = realize_point(vertices, t.2);
    assert(vertices@.take(after2.len() as int) =~= after2);
    assert(after2.take(after1.len() as int) =~= after1);
    assert(after1.take(old_vertices.len() as int) =~= old_vertices);
    assert(vertices@[v1 as int] == after1[v1 as int]);
    assert(vertices@[v2 as int] == after2[v2 as int]);
    let ghost old_faces = faces@;
    faces.push(Face { v1, v2, v3 });
    let ghost ts2 = ts@.push(t);
    assert forall|p: int| 0 <= p < faces@.len() implies {
        &&& (#[trigger] faces@[p]).v1 < vertices@.len()
        &&& faces@[p].v2 < vertices@.len()
        &&& faces@[p].v3 < vertices@.len()
        &&& vertices@[faces@[p].v1 as int] == ts2[p].0
        &&& vertices@[faces@[p].v2 as int] == ts2[p].1
        &&& vertices@[faces@[p].v3 as int] == ts2[p].2
    } by {
        if p < old_faces.len() {
            let f = old_faces[p];
            assert(faces@[p] == f);
            assert(ts2[p] == ts@[p]);
            assert(vertices@[f.v1 as int] == old_vertices[f.v1 as int]);
            assert(vertices@[f.v2 as int] == old_vertices[f.v2 as int]);
            assert(vertices@[f.v3 as int] == old_vertices[f.v3 as int]);
        }
    }
}

proof fn lemma_cell_index(p: int, ui: int, vi: int, v_cells: int, u_cells: int)
    requires
        0 <= ui < u_cells,
        0 <= vi < v_cells,
        p == ui * v_cells + vi,
    ensures
        p / v_cells == ui,
        p % v_cells == vi,
        0 <= p < u_cells * v_cells,
{
    vstd::arithmetic::div_mod::lemma_fundamental_div_mod_converse(p, v_cells, ui, vi);
    assert(0 <= p < u_cells * v_cells) by (nonlinear_arith)
        requires
            0 <= ui < u_cells,
            0 <= vi < v_cells,
            p == ui * v_cells + vi,
    ;
}

/// The cells of a grid are its squares, each exactly once, each with its own corners: cell
/// `ui * v_cells + vi` is square `(ui, vi)`, and every cell's square lies in the grid.
pub proof fn lemma_grid_cells(u_cells: int, v_cells: int, corners: Seq<Corners>, ui: int, vi: int, k: int)
    requires
        u_cells >= 0,
        v_cells >= 1,
        u_cells * v_cells <= usize::MAX,
    ensures
        grid_cells(u_cells, v_cells, corners).len() == u_cells * v_cells,
        0 <= ui < u_cells && 0 <= vi < v_cells ==> {
            &&& 0 <= ui * v_cells + vi < u_cells * v_cells
            &&& grid_cells(u_cells, v_cells, corners)[ui * v_cells + vi].square == (Square {
                ui: ui as usize,
                vi: vi as usize,
            })
            &&& grid_cells(u_cells, v_cells, corners)[ui * v_cells + vi].corners == corners[ui
                * v_cells + vi]
        },
        0 <= k < u_cells * v_cells ==> {
            &&& grid_cells(u_cells, v_cells, corners)[k].square.ui < u_cells
            &&& grid_cells(u_cells, v_cells, corners)[k].square.vi < v_cells
        },
{
    if 0 <= ui < u_cells && 0 <= vi < v_cells {
        lemma_cell_index(ui * v_cells + vi, ui, vi, v_cells, u_cells);
    }
    if 0 <= k < u_cells * v_cells {
        vstd::arithmetic::div_mod::lemma_fundamental_div_mod(k, v_cells);
        let a = k / v_cells;
        let b = k % v_cells;
        assert(0 <= b < v_cells);
        assert(0 <= a < u_cells) by (nonlinear_arith)
            requires
                k == v_cells * a + b,
                0 <= b < v_cells,
                0 <= k < u_cells * v_cells,
                v_cells >= 1,
        ;
        assert(a <= usize::MAX);
    }
}

impl<T> MarchingSquares<T> {
    /// Every cell's square can be stepped by one in both directions.
    #[verifier::type_invariant]
    closed spec fn cells_in_range(self) -> bool {
        forall|k: int| 0 <= k < self.cells@.len() ==> square_in_range(#[trigger] self.cells@[k].square)
    }

    /// The grid of the mesher.
    pub closed spec fn spec_grid(&self) -> Grid<T> {
        self.grid
    }

    /// The cells sampled so far.
    pub closed spec fn spec_cells(&self) -> Seq<Cell> {
        self.cells@
    }

    pub fn new(grid: Grid<T>) -> (ms: Self)
        requires
            grid.valid(),
            grid.u_axis.spec_num_segments() * grid.v_axis.spec_num_segments() <= usize::MAX,
        ensures
            ms.spec_grid() == grid,
            ms.spec_cells().len() == 0,
    {
        let capacity = grid.u_axis.num_segments() * grid.v_axis.num_segments();
        MarchingSquares { grid, cells: Vec::with_capacity(capacity) }
    }

    /// Add the cells of the grid, in u-major order, with the given corners (`corners[ui * v + vi]`
    /// for square `(ui, vi)`, where the grid has `v` cells along its v axis), then triangulate
    /// all cells. Returns the points of the mesh, each once and in order of first appearance
    /// with circular indices wrapped, and its faces, one per triangle.
    pub fn mesh(&mut self, corners: &Vec<Corners>) -> (r: (Vec<MSPoint>, Vec<Face>))
        requires
            old(self).spec_grid().valid(),
            corners@.len() == old(self).spec_grid().u_axis.spec_num_segments()
                * old(self).spec_grid().v_axis.spec_num_segments(),
        ensures
            final(self).spec_grid() == old(self).spec_grid(),
            final(self).spec_cells() == old(self).spec_cells() + grid_cells(
                old(self).spec_grid().u_axis.spec_num_segments(),
                old(self).spec_grid().v_axis.spec_num_segments(),
                corners@,
            ),
            indexes_triangles(
                r.0@,
                r.1@,
                cells_triangles(final(self).spec_cells(), final(self).spec_grid()),
            ),
    {
        proof {
            use_type_invariant(&*self);
        }
        let u_cells = self.grid.u_axis.num_segments();
        let v_cells = self.grid.v_axis.num_segments();
        let ghost all_new = grid_cells(u_cells as int, v_cells as int, corners@);
        let num_corners = corners.len();
        let mut new_cells: Vec<Cell> = Vec::new();
        let mut ui: usize = 0;
        while ui < u_cells
            invariant
                corners@.len() == u_cells * v_cells,
                u_cells * v_cells <= usize::MAX,
                all_new == grid_cells(u_cells as int, v_cells as int, corners@),
                ui <= u_cells,
                new_cells@ == all_new.take(ui * v_cells),
                forall|k: int| 0 <= k < new_cells@.len() ==> square_in_range(#[trigger] new_cells@[k].square),
                u_cells <= usize::MAX,
                v_cells <= usize::MAX,
            decreases u_cells - ui,
        {
            let mut vi: usize = 0;
            while vi < v_cells
                invariant
                    corners@.len() == u_cells * v_cells,
                    u_cells * v_cells <= usize::MAX,
                    all_new == grid_cells(u_cells as int, v_cells as int, corners@),
                    ui < u_cells,
                    vi <= v_cells,
                    new_cells@ == all_new.take(ui * v_cells + vi),
                    forall|k: int|
                        0 <= k < new_cells@.len() ==> square_in_range(#[trigger] new_cells@[k].square),
                decreases v_cells - vi,
            {
                let ghost p = ui * v_cells + vi;
                proof {
                    lemma_cell_index(p, ui as int, vi as int, v_cells as int, u_cells as int);
                }
                let p = ui * v_cells + vi;
                let square = Square::new(ui, vi);
                new_cells.push(Cell { square, corners: corners[p] });
                assert(new_cells@ =~= all_new.take(ui * v_cells + vi + 1));
                vi = vi + 1;
            }
            assert(ui * v_cells + v_cells == (ui + 1) * v_cells) by (nonlinear_arith);
            ui = ui + 1;
        }
        assert(new_cells@ =~= all_new);
        let mut cells_so_far: Vec<Cell> = Vec::new();
        std::mem::swap(&mut cells_so_far, &mut self.cells);
        cells_so_far.append(&mut new_cells);
        self.cells = cells_so_far;
        let ghost cells = self.cells@;
        let ghost grid = self.grid;
        let mut vertices: Vec<MSPoint> = Vec::new();
        let mut faces: Vec<Face> = Vec::new();
        let mut c: usize = 0;
        while c < self.cells.len()
            invariant
                cells == self.cells@,
                grid == self.grid,
                grid.valid(),
                forall|k: int| 0 <= k < cells.len() ==> square_in_range(#[trigger] cells[k].square),
                c <= cells.len(),
                indexes_triangles(vertices@, faces@, cells_triangles(cells.take(c as int), grid)),
            decreases cells.len() - c,
        {
            let ghost done = cells_triangles(cells.take(c as int), grid);
            let triangles = self.cells[c].triangulate();
            let ghost wrapped = cell_triangles(cells[c as int]).map_values(
                |t: (MSPoint, MSPoint, MSPoint)| triangle_wrap(t, grid),
            );
            let mut k: usize = 0;
            while k < triangles.len()
                invariant
                    grid == self.grid,
                    grid.valid(),
                    triangle_points(triangles@) == cell_triangles(cells[c as int]),
                    wrapped == cell_triangles(cells[c as int]).map_values(
                        |t: (MSPoint, MSPoint, MSPoint)| triangle_wrap(t, grid),
                    ),
                    k <= triangles@.len(),
                    indexes_triangles(vertices@, faces@, done + wrapped.take(k as int)),
                decreases triangles@.len() - k,
            {
                let t = triangles[k];
                let w1 = t.v1.wrap(&self.grid);
                let w2 = t.v2.wrap(&self.grid);
                let w3 = t.v3.wrap(&self.grid);
                assert(triangle_points(triangles@)[k as int] == t.points());
                assert(wrapped[k as int] == (w1, w2, w3));
                add_triangle(&mut vertices, &mut faces, (w1, w2, w3), Ghost(done + wrapped.take(k as int)));
                assert(done + wrapped.take(k + 1) =~= (done + wrapped.take(k as int)).push((w1, w2, w3)));
                k = k + 1;
            }
            assert(wrapped.take(triangles@.len() as int) =~= wrapped);
            assert(cells.take(c + 1).drop_last() =~= cells.take(c as int));
            c = c + 1;
        }
        assert(cells.take(cells.len() as int) =~= cells);
        (vertices, faces)
    }
}

} // verus!

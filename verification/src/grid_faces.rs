//! The faces of meshes whose vertices lie on a grid of rows: spheres, planes, cylinders and tubes
//! around polylines. Each cell of the grid, a quad with corners
//!
//! ```text
//! v1 -- v2
//! |      |
//! v3 -- v4
//! ```
//!
//! becomes two triangles. The vertices themselves are computed by the caller.

use vstd::prelude::*;
use crate::mesh::{Face, Mesh, face_within, faces_within, present, remap_faces, lemma_from_partial_all_present};

verus! {

/// The face with the three given indices.
pub open spec fn tri(a: int, b: int, c: int) -> Face {
    Face { v1: a as usize, v2: b as usize, v3: c as usize }
}

/// The corners `(v1, v2, v3, v4)` of the quad in column `j` between rows `r1` and `r2`, where each
/// row has `row_len` vertices and column indices wrap around at `wrap`.
pub open spec fn corners(r1: int, r2: int, j: int, row_len: int, wrap: int) -> (int, int, int, int) {
    (r1 * row_len + j, r1 * row_len + (j + 1) % wrap, r2 * row_len + j, r2 * row_len + (j + 1) % wrap)
}

/// The faces of row `i` of a grid, for columns `0..cols`, in order.
pub open spec fn quad_row(i: int, cols: int, quad: spec_fn(int, int) -> Seq<Face>) -> Seq<Face>
    decreases cols,
{
    if cols <= 0 {
        Seq::empty()
    } else {
        quad_row(i, cols - 1, quad) + quad(i, cols - 1)
    }
}

/// The faces of rows `0..rows` of a grid, row after row.
pub open spec fn quad_grid(rows: int, cols: int, quad: spec_fn(int, int) -> Seq<Face>) -> Seq<Face>
    decreases rows,
{
    if rows <= 0 {
        Seq::empty()
    } else {
        quad_grid(rows - 1, cols, quad) + quad_row(rows - 1, cols, quad)
    }
}

proof fn lemma_quad_row_within(i: int, cols: int, quad: spec_fn(int, int) -> Seq<Face>, n: int)
    requires
        forall|j: int| 0 <= j < cols ==> faces_within(#[trigger] quad(i, j), n),
    ensures
        faces_within(quad_row(i, cols, quad), n),
    decreases cols,
{
    if cols > 0 {
        lemma_quad_row_within(i, cols - 1, quad, n);
        assert(faces_within(quad(i, cols - 1), n));
        let a = quad_row(i, cols - 1, quad);
        let b = quad(i, cols - 1);
        assert forall|p: int| 0 <= p < (a + b).len() implies face_within(#[trigger] (a + b)[p], n) by {
            if p < a.len() {
                assert(face_within(a[p], n));
            } else {
                assert(face_within(b[p - a.len()], n));
            }
        }
    }
}

proof fn lemma_quad_grid_within(
    rows: int,
    cols: int,
    quad: spec_fn(int, int) -> Seq<Face>,
    n: int,
)
    requires
        forall|i: int, j: int| 0 <= i < rows && 0 <= j < cols ==> faces_within(#[trigger] quad(i, j), n),
    ensures
        faces_within(quad_grid(rows, cols, quad), n),
    decreases rows,
{
    if rows > 0 {
        lemma_quad_grid_within(rows - 1, cols, quad, n);
        assert forall|j: int| 0 <= j < cols implies faces_within(#[trigger] quad(rows - 1, j), n) by {}
        lemma_quad_row_within(rows - 1, cols, quad, n);
        let a = quad_grid(rows - 1, cols, quad);
        let b = quad_row(rows - 1, cols, quad);
        assert forall|p: int| 0 <= p < (a + b).len() implies face_within(#[trigger] (a + b)[p], n) by {
            if p < a.len() {
                assert(face_within(a[p], n));
            } else {
                assert(face_within(b[p - a.len()], n));
            }
        }
    }
}

proof fn lemma_cell_bound(r: int, rows: int, j: int, row_len: int)
    by (nonlinear_arith)
    requires
        0 <= r < rows,
        0 <= j < row_len,
    ensures
        0 <= r * row_len + j < rows * row_len,
        0 <= r * row_len,
{
}

/// Computes `corners(r1, r2, j, row_len, wrap)`.
fn grid_corners(r1: usize, r2: usize, j: usize, row_len: usize, wrap: usize, rows: Ghost<int>) -> (c: (
    usize,
    usize,
    usize,
    usize,
))
    requires
        r1 < rows@,
        r2 < rows@,
        j < wrap <= row_len,
        rows@ * row_len <= usize::MAX,
    ensures
        c.0 as int == corners(r1 as int, r2 as int, j as int, row_len as int, wrap as int).0,
        c.1 as int == corners(r1 as int, r2 as int, j as int, row_len as int, wrap as int).1,
        c.2 as int == corners(r1 as int, r2 as int, j as int, row_len as int, wrap as int).2,
        c.3 as int == corners(r1 as int, r2 as int, j as int, row_len as int, wrap as int).3,
        c.0 < rows@ * row_len,
        c.1 < rows@ * row_len,
        c.2 < rows@ * row_len,
        c.3 < rows@ * row_len,
{
    let j2 = (j + 1) % wrap;
    proof {
        lemma_cell_bound(r1 as int, rows@, j as int, row_len as int);
        lemma_cell_bound(r2 as int, rows@, j as int, row_len as int);
        lemma_cell_bound(r1 as int, rows@, j2 as int, row_len as int);
        lemma_cell_bound(r2 as int, rows@, j2 as int, row_len as int);
    }
    (r1 * row_len + j, r1 * row_len + j2, r2 * row_len + j, r2 * row_len + j2)
}

/// The two faces of a quad of the sphere, between rings `i` and `i + 1`.
pub open spec fn sphere_quad(segments: int) -> spec_fn(int, int) -> Seq<Face> {
    |i: int, j: int|
        {
            let (v1, v2, v3, v4) = corners(i, i + 1, j, segments, segments);
            seq![tri(v1, v2, v3), tri(v2, v4, v3)]
        }
}

/// The two faces at column `j` that connect the first ring to the south pole and the last ring
/// to the north pole.
pub open spec fn sphere_poles(segments: int, rings: int) -> spec_fn(int, int) -> Seq<Face> {
    |i: int, j: int|
        {
            let south = rings * segments;
            let north = rings * segments + 1;
            let (v1, v2, _, _) = corners(0, 0, j, segments, segments);
            let (v3, v4, _, _) = corners(rings - 1, rings - 1, j, segments, segments);
            seq![tri(v2, v1, south), tri(v3, v4, north)]
        }
}

/// The faces of a UV sphere with `rings` rings of `segments` vertices each, followed by the south
/// pole and the north pole.
pub open spec fn uv_sphere_faces(segments: int, rings: int) -> Seq<Face> {
    quad_grid(rings - 1, segments, sphere_quad(segments)) + quad_row(
        0,
        segments,
        sphere_poles(segments, rings),
    )
}

/// The two faces of the quad at row `i`, column `j` of a plane with `hop` vertices per row. If
/// `v2` and `v3` are both present the quad is cut along v2-v3, otherwise along v1-v4.
pub open spec fn plane_quad<V>(vs: Seq<Option<V>>, hop: int) -> spec_fn(int, int) -> Seq<Face> {
    |i: int, j: int|
        {
            let (v1, v2, v3, v4) = corners(i, i + 1, j, hop, hop);
            if vs[v2] is Some && vs[v3] is Some {
                seq![tri(v1, v3, v2), tri(v2, v3, v4)]
            } else {
                seq![tri(v1, v4, v2), tri(v3, v4, v1)]
            }
        }
}

/// The faces of a plane with `segments + 1` rows of `segments + 1` vertices.
pub open spec fn plane_faces<V>(vs: Seq<Option<V>>, segments: int) -> Seq<Face> {
    quad_grid(segments, segments, plane_quad(vs, segments + 1))
}

/// The two faces of the quad at row `i`, column `j` of a cylinder with `radial` vertices per ring.
/// If `v2` and `v3` are both present the quad is cut along v2-v3, otherwise along v1-v4.
pub open spec fn cylinder_quad<V>(vs: Seq<Option<V>>, radial: int) -> spec_fn(int, int) -> Seq<Face> {
    |i: int, j: int|
        {
            let (v1, v2, v3, v4) = corners(i, i + 1, j, radial, radial);
            if vs[v2] is Some && vs[v3] is Some {
                seq![tri(v1, v2, v3), tri(v2, v4, v3)]
            } else {
                seq![tri(v1, v2, v4), tri(v1, v4, v3)]
            }
        }
}

/// The faces of a cylinder with `linear + 1` rings of `radial` vertices.
pub open spec fn cylinder_faces<V>(vs: Seq<Option<V>>, linear: int, radial: int) -> Seq<Face> {
    quad_grid(linear, radial, cylinder_quad(vs, radial))
}

/// The two faces of the quad between point `i` and the next point (wrapping around) of a tube
/// around a polyline with `points` points and `radial` vertices around each point.
pub open spec fn polyline_quad(points: int, radial: int) -> spec_fn(int, int) -> Seq<Face> {
    |i: int, j: int|
        {
            let (v1, v2, v3, v4) = corners(i, (i + 1) % points, j, radial, radial);
            seq![tri(v1, v3, v2), tri(v2, v3, v4)]
        }
}

/// The faces of a tube around a polyline; an open polyline leaves out the segment from its last
/// point back to its first. Fewer than three points give no faces.
pub open spec fn polyline_faces(points: int, radial: int, closed: bool) -> Seq<Face> {
    if points < 3 {
        Seq::empty()
    } else {
        let segments = if closed {
            points
        } else {
            points - 1
        };
        quad_grid(segments, radial, polyline_quad(points, radial))
    }
}

/// The number of vertices around each point of a curve's tube.
pub open spec fn curve_radial_segments() -> int {
    4
}

/// The two faces of the quad between point `i` and the next point (wrapping around) of a closed
/// tube around a curve.
pub open spec fn curve_quad(points: int) -> spec_fn(int, int) -> Seq<Face> {
    |i: int, j: int|
        {
            let (v1, v2, v3, v4) = corners(
                i,
                (i + 1) % points,
                j,
                curve_radial_segments(),
                curve_radial_segments(),
            );
            seq![tri(v1, v2, v3), tri(v2, v4, v3)]
        }
}

/// The faces of a closed tube around a curve.
pub open spec fn curve_faces(points: int) -> Seq<Face> {
    quad_grid(points, curve_radial_segments(), curve_quad(points))
}

proof fn lemma_quad_row_len(i: int, cols: int, quad: spec_fn(int, int) -> Seq<Face>)
    requires
        cols >= 0,
        forall|j: int| 0 <= j < cols ==> (#[trigger] quad(i, j)).len() == 2,
    ensures
        quad_row(i, cols, quad).len() == 2 * cols,
    decreases cols,
{
    if cols > 0 {
        lemma_quad_row_len(i, cols - 1, quad);
        assert(quad(i, cols - 1).len() == 2);
    }
}

proof fn lemma_quad_grid_len(rows: int, cols: int, quad: spec_fn(int, int) -> Seq<Face>)
    requires
        rows >= 0,
        cols >= 0,
        forall|i: int, j: int| 0 <= i < rows && 0 <= j < cols ==> (#[trigger] quad(i, j)).len() == 2,
    ensures
        quad_grid(rows, cols, quad).len() == 2 * rows * cols,
    decreases rows,
{
    if rows > 0 {
        lemma_quad_grid_len(rows - 1, cols, quad);
        assert forall|j: int| 0 <= j < cols implies (#[trigger] quad(rows - 1, j)).len() == 2 by {}
        lemma_quad_row_len(rows - 1, cols, quad);
        assert(2 * (rows - 1) * cols + 2 * cols == 2 * rows * cols) by (nonlinear_arith);
    } else {
        assert(2 * rows * cols == 0) by (nonlinear_arith)
            requires
                rows == 0,
        ;
    }
}

/// The faces of a plane only refer to its `(segments + 1)^2` vertices.
proof fn lemma_plane_faces_within<V>(vs: Seq<Option<V>>, segments: int)
    requires
        segments >= 0,
        vs.len() == (segments + 1) * (segments + 1),
    ensures
        faces_within(plane_faces(vs, segments), vs.len() as int),
{
    let hop = segments + 1;
    let quad = plane_quad(vs, hop);
    assert forall|i: int, j: int|
        0 <= i < segments && 0 <= j < segments implies faces_within(#[trigger] quad(i, j), vs.len() as int) by {
        lemma_cell_bound(i, hop, j, hop);
        lemma_cell_bound(i + 1, hop, j, hop);
        lemma_cell_bound(i, hop, (j + 1) % hop, hop);
        lemma_cell_bound(i + 1, hop, (j + 1) % hop, hop);
    }
    lemma_quad_grid_within(segments, segments, quad, vs.len() as int);
}

/// The faces of a cylinder only refer to its `(linear + 1) * radial` vertices.
proof fn lemma_cylinder_faces_within<V>(vs: Seq<Option<V>>, linear: int, radial: int)
    requires
        linear >= 0,
        radial >= 0,
        vs.len() == (linear + 1) * radial,
    ensures
        faces_within(cylinder_faces(vs, linear, radial), vs.len() as int),
{
    let rows = linear + 1;
    let quad = cylinder_quad(vs, radial);
    assert forall|i: int, j: int|
        0 <= i < linear && 0 <= j < radial implies faces_within(#[trigger] quad(i, j), vs.len() as int) by {
        lemma_cell_bound(i, rows, j, radial);
        lemma_cell_bound(i + 1, rows, j, radial);
        lemma_cell_bound(i, rows, (j + 1) % radial, radial);
        lemma_cell_bound(i + 1, rows, (j + 1) % radial, radial);
    }
    lemma_quad_grid_within(linear, radial, quad, vs.len() as int);
}

/// A UV sphere with `rings` rings of `segments` vertices has `2 * segments * rings` faces: two
/// per quad between consecutive rings and two per segment at the poles.
pub proof fn lemma_uv_sphere_face_count(segments: int, rings: int)
    requires
        segments >= 0,
        rings >= 1,
    ensures
        uv_sphere_faces(segments, rings).len() == 2 * segments * rings,
{
    let quad = sphere_quad(segments);
    assert forall|i: int, j: int| 0 <= i < rings - 1 && 0 <= j < segments implies (#[trigger] quad(
        i,
        j,
    )).len() == 2 by {}
    lemma_quad_grid_len(rings - 1, segments, quad);
    let poles = sphere_poles(segments, rings);
    assert forall|j: int| 0 <= j < segments implies (#[trigger] poles(0, j)).len() == 2 by {}
    lemma_quad_row_len(0, segments, poles);
    assert(2 * (rings - 1) * segments + 2 * segments == 2 * segments * rings) by (nonlinear_arith);
}

/// A plane of `segments` by `segments` quads has `2 * segments^2` faces before the faces that
/// touch a missing vertex are removed. When no vertex is missing, all `(segments + 1)^2`
/// vertices and all these faces stay, unchanged.
pub proof fn lemma_partial_plane_counts<V>(vs: Seq<Option<V>>, segments: int)
    requires
        segments >= 0,
        vs.len() == (segments + 1) * (segments + 1),
    ensures
        plane_faces(vs, segments).len() == 2 * segments * segments,
        (forall|i: int| 0 <= i < vs.len() ==> (#[trigger] vs[i]) is Some) ==> {
            &&& present(vs).len() == vs.len()
            &&& remap_faces(vs, plane_faces(vs, segments)) == plane_faces(vs, segments)
        },
{
    let quad = plane_quad(vs, segments + 1);
    assert forall|i: int, j: int| 0 <= i < segments && 0 <= j < segments implies (#[trigger] quad(
        i,
        j,
    )).len() == 2 by {}
    lemma_quad_grid_len(segments, segments, quad);
    if forall|i: int| 0 <= i < vs.len() ==> (#[trigger] vs[i]) is Some {
        lemma_plane_faces_within(vs, segments);
        lemma_from_partial_all_present(vs, plane_faces(vs, segments));
    }
}

/// A cylinder of `linear` by `radial` quads has `2 * linear * radial` faces before the faces
/// that touch a missing vertex are removed. When no vertex is missing, all
/// `(linear + 1) * radial` vertices and all these faces stay, unchanged.
pub proof fn lemma_partial_cylinder_counts<V>(vs: Seq<Option<V>>, linear: int, radial: int)
    requires
        linear >= 0,
        radial >= 0,
        vs.len() == (linear + 1) * radial,
    ensures
        cylinder_faces(vs, linear, radial).len() == 2 * linear * radial,
        (forall|i: int| 0 <= i < vs.len() ==> (#[trigger] vs[i]) is Some) ==> {
            &&& present(vs).len() == vs.len()
            &&& remap_faces(vs, cylinder_faces(vs, linear, radial)) == cylinder_faces(vs, linear, radial)
        },
{
    let quad = cylinder_quad(vs, radial);
    assert forall|i: int, j: int| 0 <= i < linear && 0 <= j < radial implies (#[trigger] quad(
        i,
        j,
    )).len() == 2 by {}
    lemma_quad_grid_len(linear, radial, quad);
    if forall|i: int| 0 <= i < vs.len() ==> (#[trigger] vs[i]) is Some {
        lemma_cylinder_faces_within(vs, linear, radial);
        lemma_from_partial_all_present(vs, cylinder_faces(vs, linear, radial));
    }
}

/// A tube around a polyline of at least three points has two faces per radial segment and per
/// segment of the polyline, of which a closed polyline has one more than an open one; fewer
/// points give no faces.
pub proof fn lemma_polyline_face_count(points: int, radial: int, closed: bool)
    requires
        points >= 0,
        radial >= 0,
    ensures
        polyline_faces(points, radial, closed).len() == (if points < 3 {
            0
        } else if closed {
            2 * radial * points
        } else {
            2 * radial * (points - 1)
        }),
{
    if points >= 3 {
        let segments = if closed {
            points
        } else {
            points - 1
        };
        let quad = polyline_quad(points, radial);
        assert forall|i: int, j: int| 0 <= i < segments && 0 <= j < radial implies (#[trigger] quad(
            i,
            j,
        )).len() == 2 by {}
        lemma_quad_grid_len(segments, radial, quad);
        assert(2 * segments * radial == 2 * radial * segments) by (nonlinear_arith);
    }
}

/// A closed tube around a curve has eight faces per point: two for each of its four sides.
pub proof fn lemma_curve_face_count(points: int)
    requires
        points >= 0,
    ensures
        curve_faces(points).len() == 8 * points,
{
    let quad = curve_quad(points);
    assert forall|i: int, j: int| 0 <= i < points && 0 <= j < 4 implies (#[trigger] quad(i, j)).len()
        == 2 by {}
    lemma_quad_grid_len(points, 4, quad);
}

/// Where the vertex `v` stands in the cycle `cyc` of a quad's four corners, or -1 if it is not a
/// corner of the quad.
pub open spec fn cycle_pos(v: int, cyc: (int, int, int, int)) -> int {
    if v == cyc.0 {
        0
    } else if v == cyc.1 {
        1
    } else if v == cyc.2 {
        2
    } else if v == cyc.3 {
        3
    } else {
        -1
    }
}

/// The face uses three different corners of the quad and runs around them in the direction of
/// the cycle `cyc`.
pub open spec fn turns_with(f: Face, cyc: (int, int, int, int)) -> bool {
    let a = cycle_pos(f.v1 as int, cyc);
    let b = cycle_pos(f.v2 as int, cyc);
    let c = cycle_pos(f.v3 as int, cyc);
    &&& a >= 0 && b >= 0 && c >= 0
    &&& (a < b < c || b < c < a || c < a < b)
}

/// The position in the cycle of the corner that a face turning with the cycle leaves out.
pub open spec fn left_out(f: Face, cyc: (int, int, int, int)) -> int {
    6 - cycle_pos(f.v1 as int, cyc) - cycle_pos(f.v2 as int, cyc) - cycle_pos(f.v3 as int, cyc)
}

/// The two faces triangulate the quad whose corners are `cyc` in cyclic order: both turn the
/// same way as the cycle, and they leave out opposite corners, so they meet along a diagonal
/// and together cover the quad without overlapping.
pub open spec fn triangulates_quad(q: Seq<Face>, cyc: (int, int, int, int)) -> bool {
    &&& q.len() == 2
    &&& turns_with(q[0], cyc)
    &&& turns_with(q[1], cyc)
    &&& (left_out(q[0], cyc) - left_out(q[1], cyc) == 2 || left_out(q[1], cyc) - left_out(q[0], cyc)
        == 2)
}

/// The face's three vertices are present.
pub open spec fn face_present<V>(vs: Seq<Option<V>>, f: Face) -> bool {
    vs[f.v1 as int] is Some && vs[f.v2 as int] is Some && vs[f.v3 as int] is Some
}

/// The number of the two faces of a quad whose vertices are all present.
pub open spec fn kept_of_quad<V>(vs: Seq<Option<V>>, q: Seq<Face>) -> int {
    (if face_present(vs, q[0]) { 1int } else { 0int }) + (if face_present(vs, q[1]) {
        1int
    } else {
        0int
    })
}

/// The number of present corners of a quad.
pub open spec fn present_corners<V>(vs: Seq<Option<V>>, cyc: (int, int, int, int)) -> int {
    (if vs[cyc.0] is Some { 1int } else { 0int }) + (if vs[cyc.1] is Some { 1int } else { 0int }) + (
    if vs[cyc.2] is Some {
        1int
    } else {
        0int
    }) + (if vs[cyc.3] is Some { 1int } else { 0int })
}

/// As many triangles as a quad can keep once its missing vertices are removed: both with four
/// present corners, one with three, none with fewer.
pub open spec fn keepable(present: int) -> int {
    if present >= 3 {
        present - 2
    } else {
        0
    }
}

/// Vertices of different rows of a grid are different.
proof fn lemma_rows_differ(r1: int, r2: int, x: int, y: int, len: int)
    by (nonlinear_arith)
    requires
        r1 != r2,
        0 <= r1,
        0 <= r2,
        0 <= x < len,
        0 <= y < len,
    ensures
        r1 * len + x != r2 * len + y,
{
}

/// The four corners of a quad between two different rows are different vertices of the grid,
/// provided each row wraps around after at least two vertices.
proof fn lemma_quad_corners(r1: int, r2: int, j: int, row_len: int, wrap: int, rows: int)
    requires
        0 <= r1 < rows,
        0 <= r2 < rows,
        r1 != r2,
        0 <= j < wrap,
        2 <= wrap <= row_len,
        rows * row_len <= usize::MAX,
    ensures
        ({
            let (a, b, c, d) = corners(r1, r2, j, row_len, wrap);
            &&& a != b && a != c && a != d && b != c && b != d && c != d
            &&& 0 <= a < rows * row_len && 0 <= b < rows * row_len
            &&& 0 <= c < rows * row_len && 0 <= d < rows * row_len
        }),
{
    let j2 = (j + 1) % wrap;
    assert(0 <= j2 < wrap);
    assert(j2 != j) by {
        if j + 1 < wrap {
            vstd::arithmetic::div_mod::lemma_small_mod((j + 1) as nat, wrap as nat);
        } else {
            vstd::arithmetic::div_mod::lemma_mod_self_0(wrap);
        }
    }
    lemma_cell_bound(r1, rows, j, row_len);
    lemma_cell_bound(r2, rows, j, row_len);
    lemma_cell_bound(r1, rows, j2, row_len);
    lemma_cell_bound(r2, rows, j2, row_len);
    lemma_rows_differ(r1, r2, j, j, row_len);
    lemma_rows_differ(r1, r2, j, j2, row_len);
    lemma_rows_differ(r1, r2, j2, j, row_len);
    lemma_rows_differ(r1, r2, j2, j2, row_len);
}

/// Each quad of a UV sphere between rings `i` and `i + 1` is cut into two triangles that turn
/// the same way as every other quad: along ring `i` from column `j` to `j + 1`, along ring
/// `i + 1` back. Each pole face runs along its ring the other way from the quads next to it:
/// the south pole face from column `j + 1` back to `j` of the first ring, the north pole face
/// from column `j` to `j + 1` of the last ring. So every edge between two faces is run in
/// opposite directions by them, and all faces point the same way.
pub proof fn lemma_uv_sphere_orientation(segments: int, rings: int, i: int, j: int)
    requires
        segments >= 2,
        rings >= 1,
        rings * segments + 2 <= usize::MAX,
        0 <= j < segments,
    ensures
        0 <= i < rings - 1 ==> ({
            let (v1, v2, v3, v4) = corners(i, i + 1, j, segments, segments);
            triangulates_quad(sphere_quad(segments)(i, j), (v1, v2, v4, v3))
        }),
        ({
            let (a, b, _, _) = corners(0, 0, j, segments, segments);
            let south = rings * segments;
            turns_with(sphere_poles(segments, rings)(0, j)[0], (b, a, south, -1))
        }),
        ({
            let (a, b, _, _) = corners(rings - 1, rings - 1, j, segments, segments);
            let north = rings * segments + 1;
            turns_with(sphere_poles(segments, rings)(0, j)[1], (a, b, north, -1))
        }),
{
    if 0 <= i < rings - 1 {
        lemma_quad_corners(i, i + 1, j, segments, segments, rings);
    }
    let j2 = (j + 1) % segments;
    assert(0 <= j2 < segments);
    assert(j2 != j) by {
        if j + 1 < segments {
            vstd::arithmetic::div_mod::lemma_small_mod((j + 1) as nat, segments as nat);
        } else {
            vstd::arithmetic::div_mod::lemma_mod_self_0(segments);
        }
    }
    lemma_cell_bound(rings - 1, rings, j, segments);
    lemma_cell_bound(0, rings, j, segments);
    lemma_cell_bound(rings - 1, rings, j2, segments);
    lemma_cell_bound(0, rings, j2, segments);
}

/// Each quad of a plane is cut into two triangles that turn the same way as every other quad,
/// and keeps as many of them as its present corners allow once the faces touching missing
/// vertices are removed: both with four present corners, one with three. In particular a quad
/// with one missing corner never leaves a hole.
pub proof fn lemma_plane_quads<V>(vs: Seq<Option<V>>, segments: int, i: int, j: int)
    requires
        vs.len() == (segments + 1) * (segments + 1),
        vs.len() <= usize::MAX,
        0 <= i < segments,
        0 <= j < segments,
    ensures
        ({
            let (v1, v2, v3, v4) = corners(i, i + 1, j, segments + 1, segments + 1);
            let q = plane_quad(vs, segments + 1)(i, j);
            &&& triangulates_quad(q, (v1, v3, v4, v2))
            &&& kept_of_quad(vs, q) == keepable(present_corners(vs, (v1, v2, v3, v4)))
        }),
{
    lemma_quad_corners(i, i + 1, j, segments + 1, segments + 1, segments + 1);
}

/// Each quad of a cylinder is cut into two triangles that turn the same way as every other
/// quad, and keeps as many of them as its present corners allow once the faces touching
/// missing vertices are removed: both with four present corners, one with three. In particular
/// a quad with one missing corner never leaves a hole.
pub proof fn lemma_cylinder_quads<V>(vs: Seq<Option<V>>, linear: int, radial: int, i: int, j: int)
    requires
        vs.len() == (linear + 1) * radial,
        vs.len() <= usize::MAX,
        radial >= 2,
        0 <= i < linear,
        0 <= j < radial,
    ensures
        ({
            let (v1, v2, v3, v4) = corners(i, i + 1, j, radial, radial);
            let q = cylinder_quad(vs, radial)(i, j);
            &&& triangulates_quad(q, (v1, v2, v4, v3))
            &&& kept_of_quad(vs, q) == keepable(present_corners(vs, (v1, v2, v3, v4)))
        }),
{
    lemma_quad_corners(i, i + 1, j, radial, radial, linear + 1);
}

/// Each quad of a tube around a polyline is cut into two triangles that turn the same way as
/// every other quad, including the one that closes a closed tube.
pub proof fn lemma_polyline_quads(points: int, radial: int, i: int, j: int)
    requires
        points >= 3,
        radial >= 2,
        points * radial <= usize::MAX,
        0 <= i < points,
        0 <= j < radial,
    ensures
        ({
            let (v1, v2, v3, v4) = corners(i, (i + 1) % points, j, radial, radial);
            triangulates_quad(polyline_quad(points, radial)(i, j), (v1, v3, v4, v2))
        }),
{
    let i2 = (i + 1) % points;
    assert(0 <= i2 < points);
    assert(i2 != i) by {
        if i + 1 < points {
            vstd::arithmetic::div_mod::lemma_small_mod((i + 1) as nat, points as nat);
        } else {
            vstd::arithmetic::div_mod::lemma_mod_self_0(points);
        }
    }
    lemma_quad_corners(i, i2, j, radial, radial, points);
}

/// Each quad of a closed tube around a curve is cut into two triangles that turn the same way
/// as every other quad.
pub proof fn lemma_curve_quads(points: int, i: int, j: int)
    requires
        points >= 2,
        points * 4 <= usize::MAX,
        0 <= i < points,
        0 <= j < 4,
    ensures
        ({
            let (v1, v2, v3, v4) = corners(i, (i + 1) % points, j, 4, 4);
            triangulates_quad(curve_quad(points)(i, j), (v1, v2, v4, v3))
        }),
{
    let i2 = (i + 1) % points;
    assert(0 <= i2 < points);
    assert(i2 != i) by {
        if i + 1 < points {
            vstd::arithmetic::div_mod::lemma_small_mod((i + 1) as nat, points as nat);
        } else {
            vstd::arithmetic::div_mod::lemma_mod_self_0(points);
        }
    }
    lemma_quad_corners(i, i2, j, 4, 4, points);
}

impl<V: Copy> Mesh<V> {
    /// Make a spherical mesh from its vertices: `rings` rings of `segments` vertices each (vertex
    /// `i * segments + j` is vertex `j` of ring `i`, from south to north), then the south pole and
    /// the north pole. Everything but the poles is connected with cylinder topology, and each pole
    /// is connected to its nearest ring.
    pub fn uv_sphere(vertices: Vec<V>, segments: usize, rings: usize) -> (m: Self)
        requires
            rings >= 1,
            vertices@.len() == rings * segments + 2,
        ensures
            m.vertices@ == vertices@,
            m.faces@ == uv_sphere_faces(segments as int, rings as int),
            m.well_formed(),
    {
        let num_vertices = vertices.len();
        assert(rings * segments + 2 <= usize::MAX);
        let ghost rows = rings as int;
        let south_pole_index = rings * segments;
        let north_pole_index = rings * segments + 1;
        let ghost quad = sphere_quad(segments as int);
        let mut faces: Vec<Face> = Vec::new();
        let mut i: usize = 0;
        while i < rings - 1
            invariant
                rings >= 1,
                rows == rings,
                rows * segments + 2 <= usize::MAX,
                quad == sphere_quad(segments as int),
                i <= rings - 1,
                faces@ == quad_grid(i as int, segments as int, quad),
            decreases rings - i,
        {
            let mut j: usize = 0;
            while j < segments
                invariant
                    rings >= 1,
                    rows == rings,
                    rows * segments + 2 <= usize::MAX,
                    quad == sphere_quad(segments as int),
                    i < rings - 1,
                    j <= segments,
                    faces@ == quad_grid(i as int, segments as int, quad) + quad_row(i as int, j as int, quad),
                decreases segments - j,
            {
                let (v1, v2, v3, v4) = grid_corners(i, i + 1, j, segments, segments, Ghost(rows));
                faces.push(Face { v1, v2, v3 });
                faces.push(Face { v1: v2, v2: v4, v3 });
                assert(faces@ =~= quad_grid(i as int, segments as int, quad) + quad_row(i as int, j + 1, quad));
                j = j + 1;
            }
            i = i + 1;
        }
        let ghost poles = sphere_poles(segments as int, rings as int);
        let ghost grid = faces@;
        let mut j: usize = 0;
        while j < segments
            invariant
                rings >= 1,
                rows == rings,
                rows * segments + 2 <= usize::MAX,
                south_pole_index == rings * segments,
                north_pole_index == rings * segments + 1,
                poles == sphere_poles(segments as int, rings as int),
                j <= segments,
                faces@ == grid + quad_row(0, j as int, poles),
            decreases segments - j,
        {
            let (v1, v2, _, _) = grid_corners(0, 0, j, segments, segments, Ghost(rows));
            faces.push(Face { v1: v2, v2: v1, v3: south_pole_index });
            let (v3, v4, _, _) = grid_corners(rings - 1, rings - 1, j, segments, segments, Ghost(rows));
            faces.push(Face { v1: v3, v2: v4, v3: north_pole_index });
            assert(faces@ =~= grid + quad_row(0, j + 1, poles));
            j = j + 1;
        }
        proof {
            let n = rows * segments + 2;
            assert forall|i: int, j: int|
                0 <= i < rows - 1 && 0 <= j < segments implies faces_within(#[trigger] quad(i, j), n) by {
                lemma_cell_bound(i, rows, j, segments as int);
                lemma_cell_bound(i + 1, rows, j, segments as int);
                lemma_cell_bound(i, rows, (j + 1) % (segments as int), segments as int);
                lemma_cell_bound(i + 1, rows, (j + 1) % (segments as int), segments as int);
            }
            lemma_quad_grid_within(rows - 1, segments as int, quad, n);
            assert forall|i: int, j: int| 0 <= j < segments implies faces_within(#[trigger] poles(i, j), n) by {
                lemma_cell_bound(0, rows, j, segments as int);
                lemma_cell_bound(rows - 1, rows, j, segments as int);
                lemma_cell_bound(0, rows, (j + 1) % (segments as int), segments as int);
                lemma_cell_bound(rows - 1, rows, (j + 1) % (segments as int), segments as int);
            }
            lemma_quad_row_within(0, segments as int, poles, n);
            let a = quad_grid(rows - 1, segments as int, quad);
            let b = quad_row(0, segments as int, poles);
            assert forall|p: int| 0 <= p < (a + b).len() implies face_within(#[trigger] (a + b)[p], n) by {
                if p < a.len() {
                    assert(face_within(a[p], n));
                } else {
                    assert(face_within(b[p - a.len()], n));
                }
            }
        }
        Mesh { vertices, faces }
    }

    /// Make a partial plane mesh from its vertices: `segments + 1` rows of `segments + 1`
    /// vertices, where a vertex is `None` when it was filtered out. Each square is cut into two
    /// triangles along the diagonal that keeps a triangle whenever possible; the triangles that
    /// touch a missing vertex are then removed with [`Mesh::from_partial`].
    pub fn partial_plane(vertices: Vec<Option<V>>, segments: usize) -> (m: Self)
        requires
            vertices@.len() == (segments + 1) * (segments + 1),
        ensures
            m.vertices@ == present(vertices@),
            m.faces@ == remap_faces(vertices@, plane_faces(vertices@, segments as int)),
            m.well_formed(),
    {
        let num_vertices = vertices.len();
        assert(segments + 1 <= (segments + 1) * (segments + 1)) by (nonlinear_arith);
        let hop = segments + 1;
        let ghost rows = hop as int;
        let ghost vs = vertices@;
        let ghost quad = plane_quad(vs, hop as int);
        let mut faces: Vec<Face> = Vec::new();
        let mut i: usize = 0;
        while i < segments
            invariant
                vs == vertices@,
                hop == segments + 1,
                rows == hop,
                vs.len() == rows * hop,
                rows * hop <= usize::MAX,
                quad == plane_quad(vs, hop as int),
                i <= segments,
                faces@ == quad_grid(i as int, segments as int, quad),
            decreases segments - i,
        {
            let mut j: usize = 0;
            while j < segments
                invariant
                    vs == vertices@,
                    hop == segments + 1,
                    rows == hop,
                    vs.len() == rows * hop,
                    rows * hop <= usize::MAX,
                    quad == plane_quad(vs, hop as int),
                    i < segments,
                    j <= segments,
                    faces@ == quad_grid(i as int, segments as int, quad) + quad_row(i as int, j as int, quad),
                decreases segments - j,
            {
                let (v1, v2, v3, v4) = grid_corners(i, i + 1, j, hop, hop, Ghost(rows));
                let v2_exists = vertices[v2].is_some();
                let v3_exists = vertices[v3].is_some();
                if v2_exists && v3_exists {
                    faces.push(Face { v1, v2: v3, v3: v2 });
                    faces.push(Face { v1: v2, v2: v3, v3: v4 });
                } else {
                    faces.push(Face { v1, v2: v4, v3: v2 });
                    faces.push(Face { v1: v3, v2: v4, v3: v1 });
                }
                assert(faces@ =~= quad_grid(i as int, segments as int, quad) + quad_row(i as int, j + 1, quad));
                j = j + 1;
            }
            i = i + 1;
        }
        proof {
            lemma_plane_faces_within(vs, segments as int);
        }
        Mesh::from_partial(&vertices, &faces)
    }

    /// Make a partial cylinder mesh from its vertices: `linear_segments + 1` rings of
    /// `radial_segments` vertices, where a vertex is `None` when it was filtered out. Each quad is
    /// cut into two triangles along the diagonal that keeps a triangle whenever possible; the
    /// triangles that touch a missing vertex are then removed with [`Mesh::from_partial`].
    pub fn partial_cylinder(vertices: Vec<Option<V>>, linear_segments: usize, radial_segments: usize) -> (m: Self)
        requires
            vertices@.len() == (linear_segments + 1) * radial_segments,
        ensures
            m.vertices@ == present(vertices@),
            m.faces@ == remap_faces(
                vertices@,
                cylinder_faces(vertices@, linear_segments as int, radial_segments as int),
            ),
            m.well_formed(),
    {
        let num_vertices = vertices.len();
        let ghost rows = linear_segments + 1;
        let ghost vs = vertices@;
        let ghost quad = cylinder_quad(vs, radial_segments as int);
        let mut faces: Vec<Face> = Vec::new();
        let mut i: usize = 0;
        while i < linear_segments
            invariant
                vs == vertices@,
                rows == linear_segments + 1,
                vs.len() == rows * radial_segments,
                rows * radial_segments <= usize::MAX,
                quad == cylinder_quad(vs, radial_segments as int),
                i <= linear_segments,
                faces@ == quad_grid(i as int, radial_segments as int, quad),
            decreases linear_segments - i,
        {
            let mut j: usize = 0;
            while j < radial_segments
                invariant
                    vs == vertices@,
                    rows == linear_segments + 1,
                    vs.len() == rows * radial_segments,
                    rows * radial_segments <= usize::MAX,
                    quad == cylinder_quad(vs, radial_segments as int),
                    i < linear_segments,
                    j <= radial_segments,
                    faces@ == quad_grid(i as int, radial_segments as int, quad) + quad_row(
                        i as int,
                        j as int,
                        quad,
                    ),
                decreases radial_segments - j,
            {
                let (v1, v2, v3, v4) = grid_corners(
                    i,
                    i + 1,
                    j,
                    radial_segments,
                    radial_segments,
                    Ghost(rows),
                );
                let v2_exists = vertices[v2].is_some();
                let v3_exists = vertices[v3].is_some();
                if v2_exists && v3_exists {
                    faces.push(Face { v1, v2, v3 });
                    faces.push(Face { v1: v2, v2: v4, v3 });
                } else {
                    faces.push(Face { v1, v2, v3: v4 });
                    faces.push(Face { v1, v2: v4, v3 });
                }
                assert(faces@ =~= quad_grid(i as int, radial_segments as int, quad) + quad_row(
                    i as int,
                    j + 1,
                    quad,
                ));
                j = j + 1;
            }
            i = i + 1;
        }
        proof {
            lemma_cylinder_faces_within(vs, linear_segments as int, radial_segments as int);
        }
        Mesh::from_partial(&vertices, &faces)
    }

    /// Make a tube mesh around a polyline from its vertices: `radial_segments` vertices around
    /// each of the `num_points` points (vertex `i * radial_segments + j`). An open polyline leaves
    /// out the segment from its last point back to its first. With fewer than three points the
    /// mesh is empty, as cross products are undefined there.
    pub fn polyline_tube(vertices: Vec<V>, num_points: usize, radial_segments: usize, closed: bool) -> (m: Self)
        requires
            vertices@.len() == num_points * radial_segments,
        ensures
            num_points < 3 ==> m.vertices@.len() == 0 && m.faces@.len() == 0,
            num_points >= 3 ==> m.vertices@ == vertices@,
            m.faces@ == polyline_faces(num_points as int, radial_segments as int, closed),
            m.well_formed(),
    {
        if num_points < 3 {
            return Mesh::empty();
        }
        let num_vertices = vertices.len();
        let ghost rows = num_points as int;
        let ghost quad = polyline_quad(num_points as int, radial_segments as int);
        let num_segments = if closed {
            num_points
        } else {
            num_points - 1
        };
        let mut faces: Vec<Face> = Vec::new();
        let mut i: usize = 0;
        while i < num_segments
            invariant
                rows == num_points,
                num_points >= 3,
                num_segments <= num_points,
                rows * radial_segments <= usize::MAX,
                quad == polyline_quad(num_points as int, radial_segments as int),
                i <= num_segments,
                faces@ == quad_grid(i as int, radial_segments as int, quad),
            decreases num_segments - i,
        {
            let mut j: usize = 0;
            while j < radial_segments
                invariant
                    rows == num_points,
                    num_points >= 3,
                    num_segments <= num_points,
                    rows * radial_segments <= usize::MAX,
                    quad == polyline_quad(num_points as int, radial_segments as int),
                    i < num_segments,
                    j <= radial_segments,
                    faces@ == quad_grid(i as int, radial_segments as int, quad) + quad_row(
                        i as int,
                        j as int,
                        quad,
                    ),
                decreases radial_segments - j,
            {
                let i2 = (i + 1) % num_points;
                let (v1, v2, v3, v4) = grid_corners(
                    i,
                    i2,
                    j,
                    radial_segments,
                    radial_segments,
                    Ghost(rows),
                );
                faces.push(Face { v1, v2: v3, v3: v2 });
                faces.push(Face { v1: v2, v2: v3, v3: v4 });
                assert(faces@ =~= quad_grid(i as int, radial_segments as int, quad) + quad_row(
                    i as int,
                    j + 1,
                    quad,
                ));
                j = j + 1;
            }
            i = i + 1;
        }
        proof {
            let n = rows * radial_segments;
            assert forall|i: int, j: int|
                0 <= i < num_segments && 0 <= j < radial_segments implies faces_within(
                #[trigger] quad(i, j),
                n,
            ) by {
                let i2 = (i + 1) % (num_points as int);
                lemma_cell_bound(i, rows, j, radial_segments as int);
                lemma_cell_bound(i2, rows, j, radial_segments as int);
                lemma_cell_bound(i, rows, (j + 1) % (radial_segments as int), radial_segments as int);
                lemma_cell_bound(i2, rows, (j + 1) % (radial_segments as int), radial_segments as int);
            }
            lemma_quad_grid_within(num_segments as int, radial_segments as int, quad, n);
        }
        Mesh { vertices, faces }
    }

    /// Make a closed tube mesh around a curve from its vertices: four vertices around each of the
    /// `num_points` points (vertex `i * 4 + j`).
    pub fn curve_tube(vertices: Vec<V>, num_points: usize) -> (m: Self)
        requires
            vertices@.len() == num_points * 4,
        ensures
            m.vertices@ == vertices@,
            m.faces@ == curve_faces(num_points as int),
            m.well_formed(),
    {
        let num_vertices = vertices.len();
        let radial_segments: usize = 4;
        let ghost rows = num_points as int;
        let ghost quad = curve_quad(num_points as int);
        let mut faces: Vec<Face> = Vec::new();
        let mut i: usize = 0;
        while i < num_points
            invariant
                rows == num_points,
                radial_segments == curve_radial_segments(),
                rows * radial_segments <= usize::MAX,
                quad == curve_quad(num_points as int),
                i <= num_points,
                faces@ == quad_grid(i as int, radial_segments as int, quad),
            decreases num_points - i,
        {
            let mut j: usize = 0;
            while j < radial_segments
                invariant
                    rows == num_points,
                    radial_segments == curve_radial_segments(),
                    rows * radial_segments <= usize::MAX,
                    quad == curve_quad(num_points as int),
                    i < num_points,
                    j <= radial_segments,
                    faces@ == quad_grid(i as int, radial_segments as int, quad) + quad_row(
                        i as int,
                        j as int,
                        quad,
                    ),
                decreases radial_segments - j,
            {
                let i2 = (i + 1) % num_points;
                let (v1, v2, v3, v4) = grid_corners(
                    i,
                    i2,
                    j,
                    radial_segments,
                    radial_segments,
                    Ghost(rows),
                );
                faces.push(Face { v1, v2, v3 });
                faces.push(Face { v1: v2, v2: v4, v3 });
                assert(faces@ =~= quad_grid(i as int, radial_segments as int, quad) + quad_row(
                    i as int,
                    j + 1,
                    quad,
                ));
                j = j + 1;
            }
            i = i + 1;
        }
        proof {
            let n = rows * 4;
            assert forall|i: int, j: int|
                0 <= i < num_points && 0 <= j < 4 implies faces_within(#[trigger] quad(i, j), n) by {
                let i2 = (i + 1) % (num_points as int);
                lemma_cell_bound(i, rows, j, 4);
                lemma_cell_bound(i2, rows, j, 4);
                lemma_cell_bound(i, rows, (j + 1) % 4, 4);
                lemma_cell_bound(i2, rows, (j + 1) % 4, 4);
            }
            lemma_quad_grid_within(num_points as int, 4, quad, n);
        }
        Mesh { vertices, faces }
    }
}

} // verus!

use vstd::prelude::*;
use crate::utils::{decimal, decimal_digits};

verus! {

/// Triangular face with three vertex indices. Indices start with 0.
#[derive(Clone, Copy, Debug, PartialEq, Eq, Structural)]
pub struct Face {
    pub v1: usize,
    pub v2: usize,
    pub v3: usize,
}

/// A triangular mesh. The vertex type is left open: the library only handles how faces refer to
/// vertices, never what a vertex holds.
#[derive(Clone)]
pub struct Mesh<V> {
    pub vertices: Vec<V>,
    pub faces: Vec<Face>,
}

/// Every index of the face is below `n`.
pub open spec fn face_within(f: Face, n: int) -> bool {
    &&& f.v1 < n
    &&& f.v2 < n
    &&& f.v3 < n
}

/// Every face of the sequence only refers to vertices below `n`.
pub open spec fn faces_within(faces: Seq<Face>, n: int) -> bool {
    forall|p: int| 0 <= p < faces.len() ==> face_within(#[trigger] faces[p], n)
}

impl<V> Mesh<V> {
    /// A mesh is well formed when every face refers to existing vertices.
    pub open spec fn well_formed(&self) -> bool {
        faces_within(self.faces@, self.vertices@.len() as int)
    }
}

/// The vertices that are present, in order.
pub open spec fn present<V>(vs: Seq<Option<V>>) -> Seq<V>
    decreases vs.len(),
{
    if vs.len() == 0 {
        Seq::empty()
    } else {
        let r = present(vs.drop_last());
        match vs.last() {
            Some(v) => r.push(v),
            None => r,
        }
    }
}

/// The index that the vertex at `i` gets once the missing vertices are removed: the number of
/// present vertices before it.
pub open spec fn new_index<V>(vs: Seq<Option<V>>, i: int) -> int {
    present(vs.take(i)).len() as int
}

/// The face with its indices renumbered, if its three vertices are present.
pub open spec fn remap_face<V>(vs: Seq<Option<V>>, f: Face) -> Option<Face> {
    if vs[f.v1 as int] is Some && vs[f.v2 as int] is Some && vs[f.v3 as int] is Some {
        Some(
            Face {
                v1: new_index(vs, f.v1 as int) as usize,
                v2: new_index(vs, f.v2 as int) as usize,
                v3: new_index(vs, f.v3 as int) as usize,
            },
        )
    } else {
        None
    }
}

/// The faces whose vertices are all present, renumbered, in order.
pub open spec fn remap_faces<V>(vs: Seq<Option<V>>, faces: Seq<Face>) -> Seq<Face>
    decreases faces.len(),
{
    if faces.len() == 0 {
        Seq::empty()
    } else {
        let r = remap_faces(vs, faces.drop_last());
        match remap_face(vs, faces.last()) {
            Some(g) => r.push(g),
            None => r,
        }
    }
}

/// Leaving out the missing vertices never makes the sequence longer.
pub proof fn lemma_present_len<V>(vs: Seq<Option<V>>)
    ensures
        present(vs).len() <= vs.len(),
    decreases vs.len(),
{
    if vs.len() > 0 {
        lemma_present_len(vs.drop_last());
    }
}

proof fn lemma_present_take_step<V>(vs: Seq<Option<V>>, i: int)
    requires
        0 <= i < vs.len(),
    ensures
        present(vs.take(i + 1)) == (match vs[i] {
            Some(v) => present(vs.take(i)).push(v),
            None => present(vs.take(i)),
        }),
{
    assert(vs.take(i + 1).drop_last() =~= vs.take(i));
}

/// Removing the missing vertices never moves a vertex forward past another one.
proof fn lemma_present_take_monotone<V>(vs: Seq<Option<V>>, m: int, n: int)
    requires
        0 <= m <= n <= vs.len(),
    ensures
        present(vs.take(m)).len() <= present(vs.take(n)).len(),
        present(vs.take(m)) == present(vs.take(n)).take(present(vs.take(m)).len() as int),
    decreases n - m,
{
    if m < n {
        lemma_present_take_monotone(vs, m, n - 1);
        lemma_present_take_step(vs, n - 1);
        let a = present(vs.take(m));
        let b = present(vs.take(n - 1));
        assert(a == b.take(a.len() as int));
        match vs[n - 1] {
            Some(v) => {
                assert(b.push(v).take(a.len() as int) =~= b.take(a.len() as int));
            },
            None => {},
        }
    }
}

/// A present vertex keeps its value at its new index.
pub proof fn lemma_new_index_keeps_vertex<V>(vs: Seq<Option<V>>, i: int)
    requires
        0 <= i < vs.len(),
        vs[i] is Some,
    ensures
        0 <= new_index(vs, i) < present(vs).len(),
        present(vs)[new_index(vs, i)] == vs[i]->0,
{
    lemma_present_take_step(vs, i);
    lemma_present_take_monotone(vs, i + 1, vs.len() as int);
    assert(vs.take(vs.len() as int) =~= vs);
    let a = present(vs.take(i + 1));
    assert(a[a.len() - 1] == vs[i]->0);
    assert(present(vs).take(a.len() as int)[a.len() - 1] == present(vs)[a.len() - 1]);
}

/// Faces in a partial mesh keep pointing at the same vertices, and the result is well formed.
pub proof fn lemma_remap_faces_sound<V>(vs: Seq<Option<V>>, faces: Seq<Face>)
    requires
        faces_within(faces, vs.len() as int),
    ensures
        faces_within(remap_faces(vs, faces), present(vs).len() as int),
    decreases faces.len(),
{
    if faces.len() > 0 {
        lemma_remap_faces_sound(vs, faces.drop_last());
        let f = faces.last();
        assert(face_within(faces[faces.len() - 1], vs.len() as int));
        if let Some(g) = remap_face(vs, f) {
            lemma_new_index_keeps_vertex(vs, f.v1 as int);
            lemma_new_index_keeps_vertex(vs, f.v2 as int);
            lemma_new_index_keeps_vertex(vs, f.v3 as int);
            let r = remap_faces(vs, faces.drop_last());
            assert forall|p: int| 0 <= p < r.push(g).len() implies face_within(
                #[trigger] r.push(g)[p],
                present(vs).len() as int,
            ) by {
                if p < r.len() {
                    assert(r.push(g)[p] == r[p]);
                }
            }
        }
    }
}

/// The vertices of a partial mesh in which every vertex is present.
pub open spec fn unwrap_all<V>(vs: Seq<Option<V>>) -> Seq<V> {
    vs.map_values(|o: Option<V>| o->0)
}

proof fn lemma_present_all<V>(vs: Seq<Option<V>>)
    requires
        forall|i: int| 0 <= i < vs.len() ==> (#[trigger] vs[i]) is Some,
    ensures
        present(vs) == unwrap_all(vs),
    decreases vs.len(),
{
    if vs.len() > 0 {
        let init = vs.drop_last();
        assert forall|i: int| 0 <= i < init.len() implies (#[trigger] init[i]) is Some by {
            assert(init[i] == vs[i]);
        }
        lemma_present_all(init);
        assert(vs[vs.len() - 1] is Some);
        assert(unwrap_all(vs) =~= unwrap_all(init).push(vs.last()->0));
    }
}

/// When no vertex is missing, a partial mesh converts to the same mesh: every vertex is kept
/// and every face is kept with the same indices.
pub proof fn lemma_from_partial_all_present<V>(vs: Seq<Option<V>>, faces: Seq<Face>)
    requires
        forall|i: int| 0 <= i < vs.len() ==> (#[trigger] vs[i]) is Some,
        faces_within(faces, vs.len() as int),
    ensures
        present(vs) == unwrap_all(vs),
        remap_faces(vs, faces) == faces,
    decreases faces.len(),
{
    lemma_present_all(vs);
    if faces.len() > 0 {
        lemma_from_partial_all_present(vs, faces.drop_last());
        let f = faces.last();
        assert(face_within(faces[faces.len() - 1], vs.len() as int));
        assert forall|i: int| 0 <= i <= vs.len() implies new_index(vs, i) == i by {
            let t = vs.take(i);
            assert forall|j: int| 0 <= j < t.len() implies (#[trigger] t[j]) is Some by {
                assert(t[j] == vs[j]);
            }
            lemma_present_all(t);
        }
        assert(new_index(vs, f.v1 as int) == f.v1);
        assert(new_index(vs, f.v2 as int) == f.v2);
        assert(new_index(vs, f.v3 as int) == f.v3);
        assert(remap_face(vs, f) == Some(f));
        assert(faces.drop_last().push(f) =~= faces);
    }
}

/// The total number of vertices of a sequence of meshes.
pub open spec fn total_vertices<V>(ms: Seq<Mesh<V>>) -> int
    decreases ms.len(),
{
    if ms.len() == 0 {
        0
    } else {
        total_vertices(ms.drop_last()) + ms.last().vertices@.len()
    }
}

/// The vertices of a sequence of meshes, one mesh after the other.
pub open spec fn merged_vertices<V>(ms: Seq<Mesh<V>>) -> Seq<V>
    decreases ms.len(),
{
    if ms.len() == 0 {
        Seq::empty()
    } else {
        merged_vertices(ms.drop_last()) + ms.last().vertices@
    }
}

/// The face with `off` added to each index.
pub open spec fn offset_face(f: Face, off: int) -> Face {
    Face { v1: (f.v1 + off) as usize, v2: (f.v2 + off) as usize, v3: (f.v3 + off) as usize }
}

pub open spec fn offset_faces(faces: Seq<Face>, off: int) -> Seq<Face> {
    faces.map_values(|f: Face| offset_face(f, off))
}

/// The faces of a sequence of meshes, each shifted by the number of vertices before its mesh.
pub open spec fn merged_faces<V>(ms: Seq<Mesh<V>>) -> Seq<Face>
    decreases ms.len(),
{
    if ms.len() == 0 {
        Seq::empty()
    } else {
        merged_faces(ms.drop_last()) + offset_faces(
            ms.last().faces@,
            total_vertices(ms.drop_last()),
        )
    }
}

/// No index overflows when the faces are shifted, and the vertex count fits.
pub open spec fn merge_fits<V>(ms: Seq<Mesh<V>>) -> bool {
    &&& total_vertices(ms) <= usize::MAX
    &&& forall|k: int, p: int|
        0 <= k < ms.len() && 0 <= p < ms[k].faces@.len() ==> face_within(
            #[trigger] ms[k].faces@[p],
            usize::MAX - total_vertices(ms.take(k)) + 1,
        )
}

proof fn lemma_total_vertices_take_step<V>(ms: Seq<Mesh<V>>, k: int)
    requires
        0 <= k < ms.len(),
    ensures
        total_vertices(ms.take(k + 1)) == total_vertices(ms.take(k)) + ms[k].vertices@.len(),
        merged_vertices(ms.take(k + 1)) == merged_vertices(ms.take(k)) + ms[k].vertices@,
        merged_faces(ms.take(k + 1)) == merged_faces(ms.take(k)) + offset_faces(
            ms[k].faces@,
            total_vertices(ms.take(k)),
        ),
{
    assert(ms.take(k + 1).drop_last() =~= ms.take(k));
}

proof fn lemma_total_vertices_take_monotone<V>(ms: Seq<Mesh<V>>, k: int)
    requires
        0 <= k <= ms.len(),
    ensures
        0 <= total_vertices(ms.take(k)) <= total_vertices(ms),
    decreases ms.len() - k,
{
    lemma_total_vertices_nonneg(ms.take(k));
    if k < ms.len() {
        lemma_total_vertices_take_step(ms, k);
        lemma_total_vertices_take_monotone(ms, k + 1);
    } else {
        assert(ms.take(k) =~= ms);
        lemma_total_vertices_nonneg(ms);
    }
}

proof fn lemma_total_vertices_nonneg<V>(ms: Seq<Mesh<V>>)
    ensures
        total_vertices(ms) >= 0,
    decreases ms.len(),
{
    if ms.len() > 0 {
        lemma_total_vertices_nonneg(ms.drop_last());
    }
}

/// Merging keeps each face pointing at the same vertex, so well-formed meshes merge into a
/// well-formed mesh.
pub proof fn lemma_merge_well_formed<V>(ms: Seq<Mesh<V>>)
    requires
        forall|k: int| 0 <= k < ms.len() ==> (#[trigger] ms[k]).well_formed(),
    ensures
        faces_within(merged_faces(ms), merged_vertices(ms).len() as int),
        merged_vertices(ms).len() == total_vertices(ms),
    decreases ms.len(),
{
    if ms.len() > 0 {
        let init = ms.drop_last();
        assert forall|k: int| 0 <= k < init.len() implies (#[trigger] init[k]).well_formed() by {
            assert(init[k] == ms[k]);
        }
        lemma_merge_well_formed(init);
        lemma_total_vertices_nonneg(init);
        let last = ms.last();
        assert(last.well_formed());
        let off = total_vertices(init);
        let a = merged_faces(init);
        let b = offset_faces(last.faces@, off);
        let n = merged_vertices(ms).len() as int;
        assert forall|p: int| 0 <= p < (a + b).len() implies face_within(
            #[trigger] (a + b)[p],
            n,
        ) by {
            if p >= a.len() {
                assert(face_within(last.faces@[p - a.len()], last.vertices@.len() as int));
            }
        }
    }
}

/// The vertex at index `v` of the `k`-th mesh is found at index `v` plus the number of vertices
/// of the meshes before it in the merged mesh.
pub proof fn lemma_merged_vertex<V>(ms: Seq<Mesh<V>>, k: int, v: int)
    requires
        0 <= k < ms.len(),
        0 <= v < ms[k].vertices@.len(),
    ensures
        merged_vertices(ms)[total_vertices(ms.take(k)) + v] == ms[k].vertices@[v],
    decreases ms.len(),
{
    lemma_merged_len(ms);
    lemma_total_vertices_nonneg(ms.take(k));
    let init = ms.drop_last();
    lemma_merged_len(init);
    assert(merged_vertices(ms) == merged_vertices(init) + ms.last().vertices@);
    if k == ms.len() - 1 {
        assert(ms.take(k) =~= init);
        assert(ms[k] == ms.last());
    } else {
        assert(init[k] == ms[k]);
        assert(init.take(k) =~= ms.take(k));
        lemma_merged_vertex(init, k, v);
        lemma_total_vertices_take_monotone(init, k + 1);
        lemma_total_vertices_take_step(init, k);
        let idx = total_vertices(ms.take(k)) + v;
        assert(idx < merged_vertices(init).len());
        assert(merged_vertices(ms)[idx] == merged_vertices(init)[idx]);
    }
}

proof fn lemma_merged_len<V>(ms: Seq<Mesh<V>>)
    ensures
        merged_vertices(ms).len() == total_vertices(ms),
    decreases ms.len(),
{
    if ms.len() > 0 {
        lemma_merged_len(ms.drop_last());
    }
}

impl<V: Copy> Mesh<V> {
    /// Make a new empty mesh.
    pub fn empty() -> (m: Self)
        ensures
            m.vertices@.len() == 0,
            m.faces@.len() == 0,
    {
        Mesh { vertices: Vec::new(), faces: Vec::new() }
    }

    pub fn num_vertices(&self) -> (n: usize)
        ensures
            n == self.vertices@.len(),
    {
        self.vertices.len()
    }

    pub fn num_faces(&self) -> (n: usize)
        ensures
            n == self.faces@.len(),
    {
        self.faces.len()
    }

    /// A "partial mesh" is one where some vertices may be `None`. Converting a partial mesh to a
    /// mesh removes the `None` vertices and any faces they are connected to, and renumbers the
    /// remaining faces.
    pub fn from_partial(vertices: &Vec<Option<V>>, faces: &Vec<Face>) -> (m: Self)
        requires
            faces_within(faces@, vertices@.len() as int),
        ensures
            m.vertices@ == present(vertices@),
            m.faces@ == remap_faces(vertices@, faces@),
            m.well_formed(),
    {
        let ghost vs = vertices@;
        let mut new_vertices: Vec<V> = Vec::new();
        let mut next_index: usize = 0;
        // old_to_new[old_index] is Some(new_index) if the vertex exists, and None otherwise.
        let mut old_to_new: Vec<Option<usize>> = Vec::new();
        let mut i: usize = 0;
        while i < vertices.len()
            invariant
                vs == vertices@,
                i <= vs.len(),
                new_vertices@ == present(vs.take(i as int)),
                next_index == new_vertices@.len(),
                old_to_new@.len() == i,
                forall|k: int|
                    0 <= k < i ==> #[trigger] old_to_new@[k] == (if vs[k] is Some {
                        Some(new_index(vs, k) as usize)
                    } else {
                        None::<usize>
                    }),
            decreases vs.len() - i,
        {
            proof {
                lemma_present_take_step(vs, i as int);
                lemma_present_len(vs.take(i as int));
            }
            match &vertices[i] {
                Some(vertex) => {
                    new_vertices.push(*vertex);
                    old_to_new.push(Some(next_index));
                    next_index = next_index + 1;
                },
                None => {
                    old_to_new.push(None);
                },
            }
            i = i + 1;
        }
        assert(vs.take(vs.len() as int) =~= vs);
        let mut new_faces: Vec<Face> = Vec::new();
        let mut p: usize = 0;
        while p < faces.len()
            invariant
                vs == vertices@,
                faces_within(faces@, vs.len() as int),
                p <= faces@.len(),
                old_to_new@.len() == vs.len(),
                forall|k: int|
                    0 <= k < vs.len() ==> #[trigger] old_to_new@[k] == (if vs[k] is Some {
                        Some(new_index(vs, k) as usize)
                    } else {
                        None::<usize>
                    }),
                new_faces@ == remap_faces(vs, faces@.take(p as int)),
            decreases faces@.len() - p,
        {
            let face = faces[p];
            assert(face_within(faces@[p as int], vs.len() as int));
            assert(faces@.take(p + 1).drop_last() =~= faces@.take(p as int));
            let v1_new = old_to_new[face.v1];
            let v2_new = old_to_new[face.v2];
            let v3_new = old_to_new[face.v3];
            match (v1_new, v2_new, v3_new) {
                (Some(v1), Some(v2), Some(v3)) => {
                    new_faces.push(Face { v1, v2, v3 });
                },
                _ => {},
            }
            p = p + 1;
        }
        assert(faces@.take(faces@.len() as int) =~= faces@);
        proof {
            lemma_remap_faces_sound(vs, faces@);
        }
        Mesh { vertices: new_vertices, faces: new_faces }
    }

    /// Given a predicate on vertices, return a new mesh that removes all vertices that do not
    /// satisfy it, and any faces that are connected to them.
    pub fn filter_vertices<F: Fn(&V) -> bool>(&self, predicate: F) -> (m: Self)
        requires
            self.well_formed(),
            forall|i: int| 0 <= i < self.vertices@.len() ==> predicate.requires((&self.vertices@[i],)),
        ensures
            exists|keep: Seq<bool>|
                {
                    &&& keep.len() == self.vertices@.len()
                    &&& forall|i: int|
                        0 <= i < keep.len() ==> predicate.ensures(
                            (&self.vertices@[i],),
                            #[trigger] keep[i],
                        )
                    &&& m.vertices@ == present(kept(self.vertices@, keep))
                    &&& m.faces@ == remap_faces(kept(self.vertices@, keep), self.faces@)
                },
            m.well_formed(),
    {
        let mut new_vertices: Vec<Option<V>> = Vec::new();
        let ghost mut keep: Seq<bool> = Seq::empty();
        let mut i: usize = 0;
        while i < self.vertices.len()
            invariant
                i <= self.vertices@.len(),
                forall|j: int| 0 <= j < self.vertices@.len() ==> predicate.requires((&self.vertices@[j],)),
                keep.len() == i,
                forall|j: int|
                    0 <= j < i ==> predicate.ensures((&self.vertices@[j],), #[trigger] keep[j]),
                new_vertices@ == kept(self.vertices@.take(i as int), keep),
            decreases self.vertices@.len() - i,
        {
            let v = self.vertices[i];
            let b = predicate(&v);
            proof {
                keep = keep.push(b);
            }
            if b {
                new_vertices.push(Some(v));
            } else {
                new_vertices.push(None);
            }
            assert(new_vertices@ =~= kept(self.vertices@.take(i + 1), keep));
            i = i + 1;
        }
        assert(self.vertices@.take(self.vertices@.len() as int) =~= self.vertices@);
        Mesh::from_partial(&new_vertices, &self.faces)
    }

    /// Add `offset` to every index of the faces.
    pub fn offset_indices(faces: Vec<Face>, offset: usize) -> (r: Vec<Face>)
        requires
            faces_within(faces@, usize::MAX - offset + 1),
        ensures
            r@ == offset_faces(faces@, offset as int),
    {
        let mut r: Vec<Face> = Vec::new();
        let mut p: usize = 0;
        while p < faces.len()
            invariant
                p <= faces@.len(),
                faces_within(faces@, usize::MAX - offset + 1),
                r@ == offset_faces(faces@.take(p as int), offset as int),
            decreases faces@.len() - p,
        {
            let face = faces[p];
            assert(face_within(faces@[p as int], usize::MAX - offset + 1));
            r.push(Face { v1: face.v1 + offset, v2: face.v2 + offset, v3: face.v3 + offset });
            assert(r@ =~= offset_faces(faces@.take(p + 1), offset as int));
            p = p + 1;
        }
        assert(faces@.take(faces@.len() as int) =~= faces@);
        r
    }

    /// Merge several meshes into one: the vertices one mesh after the other, and the faces of
    /// each mesh shifted by the number of vertices before it.
    pub fn merge(meshes: &Vec<Self>) -> (m: Self)
        requires
            merge_fits(meshes@),
        ensures
            m.vertices@ == merged_vertices(meshes@),
            m.faces@ == merged_faces(meshes@),
            (forall|k: int| 0 <= k < meshes@.len() ==> (#[trigger] meshes@[k]).well_formed())
                ==> m.well_formed(),
    {
        let ghost ms = meshes@;
        let mut vertices: Vec<V> = Vec::new();
        let mut faces: Vec<Face> = Vec::new();
        let mut offset: usize = 0;
        let mut k: usize = 0;
        while k < meshes.len()
            invariant
                ms == meshes@,
                merge_fits(ms),
                k <= ms.len(),
                offset == total_vertices(ms.take(k as int)),
                vertices@ == merged_vertices(ms.take(k as int)),
                faces@ == merged_faces(ms.take(k as int)),
            decreases ms.len() - k,
        {
            proof {
                lemma_total_vertices_take_step(ms, k as int);
                lemma_total_vertices_take_monotone(ms, k as int + 1);
            }
            let mesh = &meshes[k];
            let num_vertices = mesh.vertices.len();
            let mut p: usize = 0;
            let ghost faces_before = faces@;
            while p < mesh.faces.len()
                invariant
                    ms == meshes@,
                    merge_fits(ms),
                    k < ms.len(),
                    *mesh == ms[k as int],
                    offset == total_vertices(ms.take(k as int)),
                    p <= mesh.faces@.len(),
                    faces@ == faces_before + offset_faces(mesh.faces@.take(p as int), offset as int),
                decreases mesh.faces@.len() - p,
            {
                let face = mesh.faces[p];
                assert(face_within(ms[k as int].faces@[p as int], usize::MAX - offset + 1));
                faces.push(Face { v1: face.v1 + offset, v2: face.v2 + offset, v3: face.v3 + offset });
                assert(faces@ =~= faces_before + offset_faces(mesh.faces@.take(p + 1), offset as int));
                p = p + 1;
            }
            assert(mesh.faces@.take(mesh.faces@.len() as int) =~= mesh.faces@);
            let mut q: usize = 0;
            let ghost vertices_before = vertices@;
            while q < mesh.vertices.len()
                invariant
                    q <= mesh.vertices@.len(),
                    vertices@ == vertices_before + mesh.vertices@.take(q as int),
                decreases mesh.vertices@.len() - q,
            {
                vertices.push(mesh.vertices[q]);
                assert(vertices@ =~= vertices_before + mesh.vertices@.take(q + 1));
                q = q + 1;
            }
            assert(mesh.vertices@.take(mesh.vertices@.len() as int) =~= mesh.vertices@);
            offset = offset + num_vertices;
            k = k + 1;
        }
        assert(ms.take(ms.len() as int) =~= ms);
        proof {
            if forall|k: int| 0 <= k < ms.len() ==> (#[trigger] ms[k]).well_formed() {
                lemma_merge_well_formed(ms);
            }
        }
        Mesh { vertices, faces }
    }
}

/// The vertices of `vs` marked by `keep`, as a partial mesh's vertex list.
pub open spec fn kept<V>(vs: Seq<V>, keep: Seq<bool>) -> Seq<Option<V>> {
    Seq::new(vs.len(), |i: int| if keep[i] { Some(vs[i]) } else { None })
}

/// An RGB color.
#[derive(Clone, Copy, Debug, PartialEq, Eq, Structural)]
pub struct Color {
    pub red: u8,
    pub green: u8,
    pub blue: u8,
}

/// A collection of meshes with an RGB color assigned to each one.
pub struct ColoredMesh<V> {
    pub meshes: Vec<(Mesh<V>, Color)>,
}

/// The bytes of ASCII text.
pub open spec fn ascii(s: Seq<char>) -> Seq<u8> {
    s.map_values(|c: char| c as u8)
}

/// The header of a binary little-endian PLY file with `num_vertices` vertices, each with a
/// position and a normal (and a color if `colored`), and `num_faces` triangles.
pub open spec fn ply_header(num_vertices: nat, num_faces: nat, colored: bool) -> Seq<char> {
    "ply\nformat binary_little_endian 1.0\nelement vertex "@ + decimal(num_vertices)
        + "\nproperty float x\nproperty float y\nproperty float z\nproperty float nx\nproperty float ny\nproperty float nz\n"@
        + (if colored {
        "property uchar red\nproperty uchar green\nproperty uchar blue\n"@
    } else {
        Seq::empty()
    }) + "element face "@ + decimal(num_faces)
        + "\nproperty list uchar int vertex_index\nend_header\n"@
}

/// The four little-endian bytes of `x`.
pub open spec fn le_bytes(x: u32) -> Seq<u8> {
    seq![(x % 256) as u8, ((x / 256) % 256) as u8, ((x / 65536) % 256) as u8, (x / 16777216) as u8]
}

/// A face in a binary PLY file: the vertex count 3, then each index, shifted by `offset` and
/// truncated to 32 bits, in little-endian order.
pub open spec fn ply_face(f: Face, offset: int) -> Seq<u8> {
    seq![3u8] + le_bytes((f.v1 + offset) as u32) + le_bytes((f.v2 + offset) as u32) + le_bytes(
        (f.v3 + offset) as u32,
    )
}

/// The faces of a binary PLY file, one after the other.
pub open spec fn ply_faces(faces: Seq<Face>, offset: int) -> Seq<u8>
    decreases faces.len(),
{
    if faces.len() == 0 {
        Seq::empty()
    } else {
        ply_faces(faces.drop_last(), offset) + ply_face(faces.last(), offset)
    }
}

/// Appends ASCII text.
fn push_ascii(out: &mut Vec<u8>, s: &str)
    ensures
        final(out)@ == old(out)@ + ascii(s@),
{
    let n = s.unicode_len();
    let mut i: usize = 0;
    while i < n
        invariant
            n == s@.len(),
            i <= n,
            out@ == old(out)@ + ascii(s@.take(i as int)),
        decreases n - i,
    {
        let c = s.get_char(i);
        out.push(c as u8);
        assert(ascii(s@.take(i + 1)) =~= ascii(s@.take(i as int)).push(c as u8));
        i = i + 1;
    }
    assert(s@.take(n as int) =~= s@);
}

/// Appends the ASCII digits of a number.
fn push_decimal(out: &mut Vec<u8>, n: u64)
    ensures
        final(out)@ == old(out)@ + ascii(decimal(n as nat)),
{
    let digits = decimal_digits(n);
    let mut i: usize = 0;
    while i < digits.len()
        invariant
            digits@ == decimal(n as nat),
            i <= digits@.len(),
            out@ == old(out)@ + ascii(digits@.take(i as int)),
        decreases digits@.len() - i,
    {
        out.push(digits[i] as u8);
        assert(ascii(digits@.take(i + 1)) =~= ascii(digits@.take(i as int)).push(digits@[i as int] as u8));
        i = i + 1;
    }
    assert(digits@.take(digits@.len() as int) =~= digits@);
}

/// The header of a binary little-endian PLY file, as bytes.
pub fn ply_header_bytes(num_vertices: usize, num_faces: usize, colored: bool) -> (r: Vec<u8>)
    ensures
        r@ == ascii(ply_header(num_vertices as nat, num_faces as nat, colored)),
{
    let mut r: Vec<u8> = Vec::new();
    push_ascii(&mut r, "ply\nformat binary_little_endian 1.0\nelement vertex ");
    push_decimal(&mut r, num_vertices as u64);
    push_ascii(
        &mut r,
        "\nproperty float x\nproperty float y\nproperty float z\nproperty float nx\nproperty float ny\nproperty float nz\n",
    );
    if colored {
        push_ascii(&mut r, "property uchar red\nproperty uchar green\nproperty uchar blue\n");
    }
    push_ascii(&mut r, "element face ");
    push_decimal(&mut r, num_faces as u64);
    push_ascii(&mut r, "\nproperty list uchar int vertex_index\nend_header\n");
    proof {
        let colors: Seq<char> = if colored {
            "property uchar red\nproperty uchar green\nproperty uchar blue\n"@
        } else {
            Seq::empty()
        };
        assert(ascii(ply_header(num_vertices as nat, num_faces as nat, colored)) =~= ascii(
            "ply\nformat binary_little_endian 1.0\nelement vertex "@,
        ) + ascii(decimal(num_vertices as nat)) + ascii(
            "\nproperty float x\nproperty float y\nproperty float z\nproperty float nx\nproperty float ny\nproperty float nz\n"@,
        ) + ascii(colors) + ascii("element face "@) + ascii(decimal(num_faces as nat)) + ascii(
            "\nproperty list uchar int vertex_index\nend_header\n"@,
        ));
    }
    r
}

/// Appends the little-endian bytes of `x`.
fn push_le_bytes(out: &mut Vec<u8>, x: u32)
    ensures
        final(out)@ == old(out)@ + le_bytes(x),
{
    out.push((x % 256) as u8);
    out.push(((x / 256) % 256) as u8);
    out.push(((x / 65536) % 256) as u8);
    out.push((x / 16777216) as u8);
    assert(final(out)@ =~= old(out)@ + le_bytes(x));
}

/// Appends the faces of a binary PLY file, each index shifted by `offset`.
pub fn push_ply_faces(out: &mut Vec<u8>, faces: &Vec<Face>, offset: usize)
    requires
        faces_within(faces@, usize::MAX - offset + 1),
    ensures
        final(out)@ == old(out)@ + ply_faces(faces@, offset as int),
{
    let mut p: usize = 0;
    while p < faces.len()
        invariant
            p <= faces@.len(),
            faces_within(faces@, usize::MAX - offset + 1),
            out@ == old(out)@ + ply_faces(faces@.take(p as int), offset as int),
        decreases faces@.len() - p,
    {
        let face = faces[p];
        assert(face_within(faces@[p as int], usize::MAX - offset + 1));
        let ghost before = out@;
        out.push(3u8);
        push_le_bytes(out, (face.v1 + offset) as u32);
        push_le_bytes(out, (face.v2 + offset) as u32);
        push_le_bytes(out, (face.v3 + offset) as u32);
        assert(faces@.take(p + 1).drop_last() =~= faces@.take(p as int));
        assert(out@ =~= before + ply_face(face, offset as int));
        p = p + 1;
    }
    assert(faces@.take(faces@.len() as int) =~= faces@);
}

impl<V: Copy> Mesh<V> {
    /// The header of this mesh as a binary PLY file.
    pub fn ply_header(&self) -> (r: Vec<u8>)
        ensures
            r@ == ascii(ply_header(self.vertices@.len(), self.faces@.len(), false)),
    {
        ply_header_bytes(self.vertices.len(), self.faces.len(), false)
    }

    /// The faces of this mesh as a binary PLY file writes them, after the vertices.
    pub fn ply_face_bytes(&self) -> (r: Vec<u8>)
        ensures
            r@ == ply_faces(self.faces@, 0),
    {
        let mut r: Vec<u8> = Vec::new();
        push_ply_faces(&mut r, &self.faces, 0);
        r
    }
}

/// The total number of faces of a sequence of colored meshes.
pub open spec fn total_faces<V>(ms: Seq<(Mesh<V>, Color)>) -> int
    decreases ms.len(),
{
    if ms.len() == 0 {
        0
    } else {
        total_faces(ms.drop_last()) + ms.last().0.faces@.len()
    }
}

/// The meshes of a sequence of colored meshes.
pub open spec fn uncolored<V>(ms: Seq<(Mesh<V>, Color)>) -> Seq<Mesh<V>> {
    ms.map_values(|mc: (Mesh<V>, Color)| mc.0)
}

/// The faces of a colored mesh in a binary PLY file: each mesh's faces shifted by the number of
/// vertices of the meshes before it.
pub open spec fn colored_ply_faces<V>(ms: Seq<(Mesh<V>, Color)>) -> Seq<u8>
    decreases ms.len(),
{
    if ms.len() == 0 {
        Seq::empty()
    } else {
        colored_ply_faces(ms.drop_last()) + ply_faces(
            ms.last().0.faces@,
            total_vertices(uncolored(ms.drop_last())),
        )
    }
}

impl<V: Copy> ColoredMesh<V> {
    /// The number of vertices of all meshes.
    pub fn num_vertices(&self) -> (n: usize)
        requires
            total_vertices(uncolored(self.meshes@)) <= usize::MAX,
        ensures
            n == total_vertices(uncolored(self.meshes@)),
    {
        let ghost ms = uncolored(self.meshes@);
        let mut n: usize = 0;
        let mut k: usize = 0;
        while k < self.meshes.len()
            invariant
                ms == uncolored(self.meshes@),
                total_vertices(ms) <= usize::MAX,
                k <= self.meshes@.len(),
                n == total_vertices(ms.take(k as int)),
            decreases self.meshes@.len() - k,
        {
            proof {
                lemma_total_vertices_take_step(ms, k as int);
                lemma_total_vertices_take_monotone(ms, k as int + 1);
            }
            n = n + self.meshes[k].0.vertices.len();
            k = k + 1;
        }
        assert(ms.take(ms.len() as int) =~= ms);
        n
    }

    /// The number of faces of all meshes.
    pub fn num_faces(&self) -> (n: usize)
        requires
            total_faces(self.meshes@) <= usize::MAX,
        ensures
            n == total_faces(self.meshes@),
    {
        let ghost ms = self.meshes@;
        let mut n: usize = 0;
        let mut k: usize = 0;
        while k < self.meshes.len()
            invariant
                ms == self.meshes@,
                total_faces(ms) <= usize::MAX,
                k <= ms.len(),
                n == total_faces(ms.take(k as int)),
            decreases ms.len() - k,
        {
            proof {
                assert(ms.take(k + 1).drop_last() =~= ms.take(k as int));
                lemma_total_faces_take_monotone(ms, k as int + 1);
            }
            n = n + self.meshes[k].0.faces.len();
            k = k + 1;
        }
        assert(ms.take(ms.len() as int) =~= ms);
        n
    }

    /// The header of this colored mesh as a binary PLY file.
    pub fn ply_header(&self) -> (r: Vec<u8>)
        requires
            total_vertices(uncolored(self.meshes@)) <= usize::MAX,
            total_faces(self.meshes@) <= usize::MAX,
        ensures
            r@ == ascii(
                ply_header(
                    total_vertices(uncolored(self.meshes@)) as nat,
                    total_faces(self.meshes@) as nat,
                    true,
                ),
            ),
    {
        ply_header_bytes(self.num_vertices(), self.num_faces(), true)
    }

    /// The faces of this colored mesh as a binary PLY file writes them, after the vertices: the
    /// faces of each mesh, shifted by the number of vertices before it.
    pub fn ply_face_bytes(&self) -> (r: Vec<u8>)
        requires
            merge_fits(uncolored(self.meshes@)),
        ensures
            r@ == colored_ply_faces(self.meshes@),
    {
        let ghost cms = self.meshes@;
        let ghost ms = uncolored(cms);
        let mut r: Vec<u8> = Vec::new();
        let mut offset: usize = 0;
        let mut k: usize = 0;
        while k < self.meshes.len()
            invariant
                cms == self.meshes@,
                ms == uncolored(cms),
                merge_fits(ms),
                k <= cms.len(),
                offset == total_vertices(ms.take(k as int)),
                r@ == colored_ply_faces(cms.take(k as int)),
            decreases cms.len() - k,
        {
            proof {
                lemma_total_vertices_take_step(ms, k as int);
                lemma_total_vertices_take_monotone(ms, k as int + 1);
                assert(cms.take(k + 1).drop_last() =~= cms.take(k as int));
                assert(uncolored(cms.take(k as int)) =~= ms.take(k as int));
                assert(ms[k as int] == cms[k as int].0);
                assert forall|p: int| 0 <= p < cms[k as int].0.faces@.len() implies face_within(
                    #[trigger] cms[k as int].0.faces@[p],
                    usize::MAX - offset + 1,
                ) by {
                    assert(face_within(ms[k as int].faces@[p], usize::MAX - total_vertices(ms.take(k as int)) + 1));
                }
            }
            let mesh = &self.meshes[k].0;
            push_ply_faces(&mut r, &mesh.faces, offset);
            offset = offset + mesh.vertices.len();
            k = k + 1;
        }
        assert(cms.take(cms.len() as int) =~= cms);
        r
    }
}

proof fn lemma_total_faces_take_monotone<V>(ms: Seq<(Mesh<V>, Color)>, k: int)
    requires
        0 <= k <= ms.len(),
    ensures
        0 <= total_faces(ms.take(k)) <= total_faces(ms),
    decreases ms.len() - k,
{
    lemma_total_faces_nonneg(ms.take(k));
    if k < ms.len() {
        assert(ms.take(k + 1).drop_last() =~= ms.take(k));
        lemma_total_faces_take_monotone(ms, k + 1);
    } else {
        assert(ms.take(k) =~= ms);
    }
}

proof fn lemma_total_faces_nonneg<V>(ms: Seq<(Mesh<V>, Color)>)
    ensures
        total_faces(ms) >= 0,
    decreases ms.len(),
{
    if ms.len() > 0 {
        lemma_total_faces_nonneg(ms.drop_last());
    }
}

} // verus!

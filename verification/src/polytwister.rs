//! The meshes of one cross section of a polytwister, grouped by kind.

use vstd::prelude::*;
use crate::mesh::{Color, ColoredMesh, Mesh, merge_fits, merged_faces, merged_vertices};

verus! {

/// The meshes of the rings, the strips and the two orbits of twisters of a polytwister's cross
/// section.
pub struct PolytwisterMeshes<V> {
    pub ring_meshes: Vec<Mesh<V>>,
    pub strip_meshes: Vec<Mesh<V>>,
    pub twister_meshes_orbit_1: Vec<Mesh<V>>,
    pub twister_meshes_orbit_2: Vec<Mesh<V>>,
}

pub open spec fn strip_color() -> Color {
    Color { red: 255, green: 255, blue: 255 }
}

pub open spec fn ring_color() -> Color {
    Color { red: 150, green: 150, blue: 150 }
}

pub open spec fn twister_color_1() -> Color {
    Color { red: 255, green: 0, blue: 238 }
}

pub open spec fn twister_color_2() -> Color {
    Color { red: 25, green: 25, blue: 255 }
}

/// The colored mesh holds, at `k`, the merge of `meshes` in the given color.
pub open spec fn holds_merged<V>(cm: ColoredMesh<V>, k: int, meshes: Seq<Mesh<V>>, color: Color) -> bool {
    &&& cm.meshes@[k].0.vertices@ == merged_vertices(meshes)
    &&& cm.meshes@[k].0.faces@ == merged_faces(meshes)
    &&& cm.meshes@[k].1 == color
}

impl<V: Copy> PolytwisterMeshes<V> {
    /// Combine all ring, strip, and twister meshes into a single colored mesh: the rings in
    /// grey, the strips in white, and the two twister orbits in magenta and blue.
    pub fn as_colored_mesh(&self) -> (cm: ColoredMesh<V>)
        requires
            merge_fits(self.ring_meshes@),
            merge_fits(self.strip_meshes@),
            merge_fits(self.twister_meshes_orbit_1@),
            merge_fits(self.twister_meshes_orbit_2@),
        ensures
            cm.meshes@.len() == 4,
            holds_merged(cm, 0, self.ring_meshes@, ring_color()),
            holds_merged(cm, 1, self.strip_meshes@, strip_color()),
            holds_merged(cm, 2, self.twister_meshes_orbit_1@, twister_color_1()),
            holds_merged(cm, 3, self.twister_meshes_orbit_2@, twister_color_2()),
    {
        let strip_color = Color { red: 255, green: 255, blue: 255 };
        let ring_color = Color { red: 150, green: 150, blue: 150 };
        let twister_color_1 = Color { red: 255, green: 0, blue: 238 };
        let twister_color_2 = Color { red: 25, green: 25, blue: 255 };
        let ring_mesh = Mesh::merge(&self.ring_meshes);
        let strip_mesh = Mesh::merge(&self.strip_meshes);
        let twister_mesh_orbit_1 = Mesh::merge(&self.twister_meshes_orbit_1);
        let twister_mesh_orbit_2 = Mesh::merge(&self.twister_meshes_orbit_2);
        let mut meshes: Vec<(Mesh<V>, Color)> = Vec::new();
        meshes.push((ring_mesh, ring_color));
        meshes.push((strip_mesh, strip_color));
        meshes.push((twister_mesh_orbit_1, twister_color_1));
        meshes.push((twister_mesh_orbit_2, twister_color_2));
        ColoredMesh { meshes }
    }
}

} // verus!

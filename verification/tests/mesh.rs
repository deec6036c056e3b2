use polytwister_mesher::mesh::{ply_header_bytes, Color, ColoredMesh, Face, Mesh};
use polytwister_mesher::polytwister::PolytwisterMeshes;

fn f(v1: usize, v2: usize, v3: usize) -> Face {
    Face { v1, v2, v3 }
}

#[test]
fn from_partial_drops_missing_vertices_and_their_faces() {
    let vertices = vec![Some('a'), None, Some('c'), Some('d')];
    let faces = vec![f(0, 2, 3), f(0, 1, 2), f(3, 2, 0)];
    let m = Mesh::from_partial(&vertices, &faces);
    assert_eq!(m.vertices, vec!['a', 'c', 'd']);
    assert_eq!(m.faces, vec![f(0, 1, 2), f(2, 1, 0)]);
    assert_eq!(m.num_vertices(), 3);
    assert_eq!(m.num_faces(), 2);
}

#[test]
fn from_partial_with_all_vertices_is_unchanged() {
    let vertices = vec![Some(1), Some(2), Some(3)];
    let faces = vec![f(0, 1, 2), f(2, 1, 0)];
    let m = Mesh::from_partial(&vertices, &faces);
    assert_eq!(m.vertices, vec![1, 2, 3]);
    assert_eq!(m.faces, faces);
}

#[test]
fn filter_vertices_keeps_matching_vertices() {
    let m = Mesh { vertices: vec![1, -2, 3, 4], faces: vec![f(0, 2, 3), f(0, 1, 2)] };
    let filtered = m.filter_vertices(|v: &i32| *v > 0);
    assert_eq!(filtered.vertices, vec![1, 3, 4]);
    assert_eq!(filtered.faces, vec![f(0, 1, 2)]);
}

#[test]
fn merge_shifts_faces_by_previous_vertex_counts() {
    let a = Mesh { vertices: vec!['a', 'b', 'c'], faces: vec![f(0, 1, 2)] };
    let b: Mesh<char> = Mesh::empty();
    let c = Mesh { vertices: vec!['x', 'y', 'z', 'w'], faces: vec![f(0, 1, 2), f(3, 2, 1)] };
    let m = Mesh::merge(&vec![a, b, c]);
    assert_eq!(m.vertices, vec!['a', 'b', 'c', 'x', 'y', 'z', 'w']);
    assert_eq!(m.faces, vec![f(0, 1, 2), f(3, 4, 5), f(6, 5, 4)]);
    // Each face still points at the same vertices.
    assert_eq!(m.vertices[m.faces[2].v1], 'w');
}

#[test]
fn merge_of_nothing_is_empty() {
    let m: Mesh<u8> = Mesh::merge(&vec![]);
    assert_eq!(m.num_vertices(), 0);
    assert_eq!(m.num_faces(), 0);
}

#[test]
fn offset_indices_adds_offset() {
    assert_eq!(Mesh::<u8>::offset_indices(vec![f(0, 1, 2), f(5, 4, 3)], 10), vec![f(10, 11, 12), f(15, 14, 13)]);
}

#[test]
fn uv_sphere_connects_rings_and_poles() {
    let segments = 4;
    let rings = 3;
    let vertices: Vec<usize> = (0..rings * segments + 2).collect();
    let m = Mesh::uv_sphere(vertices, segments, rings);
    // Two triangles per quad between rings, and two pole triangles per segment.
    assert_eq!(m.num_faces(), 2 * (rings - 1) * segments + 2 * segments);
    assert_eq!(m.faces[0], f(0, 1, 4));
    assert_eq!(m.faces[1], f(1, 5, 4));
    // The last quad of a ring wraps around.
    assert_eq!(m.faces[6], f(3, 0, 7));
    let south = rings * segments;
    let north = south + 1;
    let poles = &m.faces[2 * (rings - 1) * segments..];
    assert_eq!(poles[0], f(1, 0, south));
    assert_eq!(poles[1], f(8, 9, north));
    assert_eq!(poles[6], f(0, 3, south));
    assert_eq!(poles[7], f(11, 8, north));
    for face in &m.faces {
        assert!(face.v1 < m.num_vertices() && face.v2 < m.num_vertices() && face.v3 < m.num_vertices());
    }
}

#[test]
fn partial_plane_full_and_cut() {
    // 2 segments: 3 x 3 vertices.
    let full: Vec<Option<usize>> = (0..9).map(Some).collect();
    let m = Mesh::partial_plane(full, 2);
    assert_eq!(m.num_vertices(), 9);
    assert_eq!(m.num_faces(), 8);
    assert_eq!(m.faces[0], f(0, 3, 1));
    assert_eq!(m.faces[1], f(1, 3, 4));

    // Remove the vertex at (0, 1): the first square uses the other diagonal and keeps a triangle.
    let mut cut: Vec<Option<usize>> = (0..9).map(Some).collect();
    cut[1] = None;
    let m = Mesh::partial_plane(cut, 2);
    assert_eq!(m.num_vertices(), 8);
    // First square: (v1, v4, v2) loses v2, (v3, v4, v1) survives as (2, 3, 0) after renumbering.
    assert_eq!(m.faces[0], f(2, 3, 0));
}

#[test]
fn partial_cylinder_wraps_around() {
    // One linear segment, three radial segments: 2 rings of 3 vertices.
    let all: Vec<Option<u8>> = (0..6).map(Some).collect();
    let m = Mesh::partial_cylinder(all, 1, 3);
    assert_eq!(m.faces, vec![f(0, 1, 3), f(1, 4, 3), f(1, 2, 4), f(2, 5, 4), f(2, 0, 5), f(0, 3, 5)]);

    let mut some: Vec<Option<u8>> = (0..6).map(Some).collect();
    some[4] = None;
    let m = Mesh::partial_cylinder(some, 1, 3);
    assert_eq!(m.num_vertices(), 5);
    // Quads touching vertex 4 are cut along v1-v4 and lose their triangles with vertex 4.
    assert_eq!(m.faces, vec![f(0, 1, 3), f(1, 2, 4), f(2, 0, 4), f(0, 3, 4)]);
}

#[test]
fn polyline_tube_open_and_closed() {
    let vertices: Vec<usize> = (0..3 * 2).collect();
    let closed = Mesh::polyline_tube(vertices.clone(), 3, 2, true);
    assert_eq!(closed.num_faces(), 3 * 2 * 2);
    let open = Mesh::polyline_tube(vertices.clone(), 3, 2, false);
    assert_eq!(open.num_faces(), 2 * 2 * 2);
    assert_eq!(open.faces[0], f(0, 2, 1));
    assert_eq!(open.faces[1], f(1, 2, 3));
    // The closing segment of the closed polyline goes from the last point to the first.
    assert_eq!(closed.faces[8], f(4, 0, 5));
    let too_short = Mesh::polyline_tube(vec![1, 2, 3, 4], 2, 2, true);
    assert_eq!(too_short.num_vertices(), 0);
    assert_eq!(too_short.num_faces(), 0);
}

#[test]
fn curve_tube_is_closed() {
    let vertices: Vec<usize> = (0..3 * 4).collect();
    let m = Mesh::curve_tube(vertices, 3);
    assert_eq!(m.num_faces(), 3 * 4 * 2);
    assert_eq!(m.faces[0], f(0, 1, 4));
    assert_eq!(m.faces[1], f(1, 5, 4));
    assert_eq!(m.faces[22], f(11, 8, 3));
    assert_eq!(m.faces[23], f(8, 0, 3));
}

#[test]
fn ply_header_text() {
    let header = String::from_utf8(ply_header_bytes(12, 345, false)).unwrap();
    assert_eq!(
        header,
        "ply\nformat binary_little_endian 1.0\nelement vertex 12\nproperty float x\nproperty float y\nproperty float z\nproperty float nx\nproperty float ny\nproperty float nz\nelement face 345\nproperty list uchar int vertex_index\nend_header\n"
    );
    let colored = String::from_utf8(ply_header_bytes(0, 0, true)).unwrap();
    assert!(colored.contains("property float nz\nproperty uchar red\nproperty uchar green\nproperty uchar blue\nelement face 0\n"));
}

#[test]
fn ply_face_bytes_are_little_endian() {
    let m = Mesh { vertices: vec![(); 3], faces: vec![f(1, 258, 65536)] };
    assert_eq!(m.ply_face_bytes(), vec![3, 1, 0, 0, 0, 2, 1, 0, 0, 0, 0, 1, 0]);
    let header = String::from_utf8(m.ply_header()).unwrap();
    assert!(header.contains("element vertex 3\n"));
    assert!(header.contains("element face 1\n"));
}

#[test]
fn colored_mesh_counts_and_offsets() {
    let red = Color { red: 255, green: 0, blue: 0 };
    let blue = Color { red: 0, green: 0, blue: 255 };
    let a = Mesh { vertices: vec![0u8; 3], faces: vec![f(0, 1, 2)] };
    let b = Mesh { vertices: vec![0u8; 4], faces: vec![f(0, 1, 2), f(1, 2, 3)] };
    let cm = ColoredMesh { meshes: vec![(a, red), (b, blue)] };
    assert_eq!(cm.num_vertices(), 7);
    assert_eq!(cm.num_faces(), 3);
    let bytes = cm.ply_face_bytes();
    assert_eq!(bytes.len(), 3 * 13);
    assert_eq!(&bytes[13..26], &[3, 3, 0, 0, 0, 4, 0, 0, 0, 5, 0, 0, 0]);
    let header = String::from_utf8(cm.ply_header()).unwrap();
    assert!(header.contains("element vertex 7\n"));
    assert!(header.contains("property uchar red\n"));
    assert!(header.contains("element face 3\n"));
}

#[test]
fn polytwister_meshes_are_colored_by_kind() {
    let tri = || Mesh { vertices: vec![1u8, 2, 3], faces: vec![f(0, 1, 2)] };
    let meshes = PolytwisterMeshes {
        ring_meshes: vec![tri(), tri()],
        strip_meshes: vec![tri()],
        twister_meshes_orbit_1: vec![],
        twister_meshes_orbit_2: vec![tri()],
    };
    let cm = meshes.as_colored_mesh();
    assert_eq!(cm.meshes.len(), 4);
    assert_eq!(cm.meshes[0].1, Color { red: 150, green: 150, blue: 150 });
    assert_eq!(cm.meshes[1].1, Color { red: 255, green: 255, blue: 255 });
    assert_eq!(cm.meshes[2].1, Color { red: 255, green: 0, blue: 238 });
    assert_eq!(cm.meshes[3].1, Color { red: 25, green: 25, blue: 255 });
    assert_eq!(cm.meshes[0].0.faces, vec![f(0, 1, 2), f(3, 4, 5)]);
    assert_eq!(cm.meshes[2].0.num_vertices(), 0);
    assert_eq!(cm.num_vertices(), 12);
}

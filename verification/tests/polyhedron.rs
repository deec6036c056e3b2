use polytwister_mesher::uniform_polytwister::{
    filling_contains, FillingRegion, FindError, Polyhedron, PolyhedronEdge, PolyhedronFace,
    PolytwisterDatabase, PolytwisterDef, PolytwisterWithDef, RegionMode,
};

fn face(edges: Vec<usize>, orbit: u8) -> PolyhedronFace {
    PolyhedronFace { vertices: vec![], edges, orbit }
}

/// A tetrahedron: faces 0..4, edges 0..6; every two faces share exactly one edge.
fn tetrahedron() -> Polyhedron {
    Polyhedron {
        faces: vec![
            face(vec![0, 1, 2], 0),
            face(vec![0, 3, 4], 0),
            face(vec![1, 3, 5], 0),
            face(vec![2, 4, 5], 0),
        ],
        edges: vec![
            PolyhedronEdge { vertex1: 0, vertex2: 1 },
            PolyhedronEdge { vertex1: 0, vertex2: 2 },
            PolyhedronEdge { vertex1: 0, vertex2: 3 },
            PolyhedronEdge { vertex1: 1, vertex2: 2 },
            PolyhedronEdge { vertex1: 1, vertex2: 3 },
            PolyhedronEdge { vertex1: 2, vertex2: 3 },
        ],
    }
}

#[test]
fn faces_sharing_an_edge_are_adjacent() {
    let t = tetrahedron();
    assert!(t.faces[0].adjacent_to_face(&t.faces[1]));
    assert!(!face(vec![0, 1], 0).adjacent_to_face(&face(vec![2, 3], 0)));
}

#[test]
fn adjacent_face_indices_excludes_the_face_itself() {
    let t = tetrahedron();
    assert_eq!(t.adjacent_face_indices(0), vec![1, 2, 3]);
    assert_eq!(t.adjacent_face_indices(2), vec![0, 1, 3]);
}

#[test]
fn edge_adjacent_face_indices_finds_both_faces() {
    let t = tetrahedron();
    for e in 0..6 {
        assert_eq!(t.edge_adjacent_face_indices(e).len(), 2);
    }
    assert_eq!(t.edge_adjacent_face_indices(0), vec![0, 1]);
    assert_eq!(t.edge_adjacent_face_indices(5), vec![2, 3]);
    assert_eq!(t.edge_adjacent_face_indices(6), Vec::<usize>::new());
}

#[test]
fn empty_polyhedron_has_no_adjacent_faces() {
    let p = Polyhedron { faces: vec![], edges: vec![] };
    assert_eq!(p.adjacent_face_indices(3), Vec::<usize>::new());
}

#[test]
fn filling_matches_order_and_side() {
    let filling = vec![
        FillingRegion { order: 1, mode: RegionMode::Inner },
        FillingRegion { order: 2, mode: RegionMode::Outer },
        FillingRegion { order: 0, mode: RegionMode::Both },
    ];
    assert!(filling_contains(&filling, true, &vec![false, true, false]));
    assert!(!filling_contains(&filling, false, &vec![false, true, false]));
    assert!(filling_contains(&filling, false, &vec![true, true, false]));
    assert!(!filling_contains(&filling, true, &vec![true, true, false]));
    assert!(filling_contains(&filling, true, &vec![false, false]));
    assert!(filling_contains(&filling, false, &vec![]));
    assert!(!filling_contains(&filling, true, &vec![true, true, true]));
    assert!(!filling_contains(&vec![], true, &vec![]));
}

fn database() -> PolytwisterDatabase<u32> {
    let entry = |geometry: u32, name: &str, acronym: &str, index: Option<u16>, symbol: &str| PolytwisterWithDef {
        geometry,
        def: PolytwisterDef {
            name: name.to_string(),
            acronym: acronym.to_string(),
            index,
            symbol_string: symbol.to_string(),
        },
    };
    PolytwisterDatabase {
        polytwisters: vec![
            entry(10, "tetratwister", "tetter", Some(1), "3.3"),
            entry(20, "cube twister", "cubiter", Some(34), "4.3"),
            entry(30, "truncated cube twister", "ticubiter", None, "t4.3"),
        ],
    }
}

#[test]
fn find_by_acronym_name_symbol_and_index() {
    let db = database();
    assert_eq!(db.find("tetter"), Ok(10));
    assert_eq!(db.find("cube twister"), Ok(20));
    assert_eq!(db.find("4.3"), Ok(20));
    assert_eq!(db.find("34"), Ok(20));
    assert_eq!(db.find("1"), Ok(10));
    assert_eq!(db.find("t4.3"), Ok(30));
}

#[test]
fn find_is_case_insensitive_and_accepts_dashes_and_underscores() {
    let db = database();
    assert_eq!(db.find("CUBE_TWISTER"), Ok(20));
    assert_eq!(db.find("cube-twister"), Ok(20));
    assert_eq!(db.find("Truncated-Cube_Twister"), Ok(30));
    assert_eq!(db.find_index("TETTER"), Some(0));
}

#[test]
fn find_reports_missing_polytwister() {
    let db = database();
    assert_eq!(db.find("dodecatwister"), Err(FindError::NotFound));
    assert_eq!(db.find("034"), Err(FindError::NotFound));
    assert_eq!(db.find(""), Err(FindError::NotFound));
    assert_eq!(db.find_index("2"), None);
}

#[test]
fn find_ignores_the_case_of_stored_names() {
    let db = PolytwisterDatabase {
        polytwisters: vec![PolytwisterWithDef {
            geometry: 7u32,
            def: PolytwisterDef {
                name: "Cube Twister".to_string(),
                acronym: "Cubiter".to_string(),
                index: Some(34),
                symbol_string: "{4,3}_Twist".to_string(),
            },
        }],
    };
    assert_eq!(db.find("cube twister"), Ok(7));
    assert_eq!(db.find("CUBE-TWISTER"), Ok(7));
    assert_eq!(db.find("cubiter"), Ok(7));
    assert_eq!(db.find("{4,3} twist"), Ok(7));
    assert_eq!(db.find("cube  twister"), Err(FindError::NotFound));
}

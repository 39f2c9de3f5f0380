use softrender::mesh::cube_faces;
use softrender::mesh::cube_vertices;
use softrender::mesh::Face;
use softrender::mesh::N_CUBE_FACES;
use softrender::mesh::N_CUBE_VERTICES;

#[test]
fn cube_has_eight_vertices_and_twelve_faces() {
    assert_eq!(N_CUBE_VERTICES, 8);
    assert_eq!(N_CUBE_FACES, 12);
    assert_eq!(cube_vertices().len(), 8);
    assert_eq!(cube_faces().len(), 12);
}

#[test]
fn cube_vertices_are_the_unit_cube_corners() {
    let vertices = cube_vertices();
    assert_eq!(vertices[0], (-1, -1, -1));
    assert_eq!(vertices[2], (1, 1, -1));
    assert_eq!(vertices[7], (-1, -1, 1));
    for v in &vertices {
        assert!(v.0 == 1 || v.0 == -1);
        assert!(v.1 == 1 || v.1 == -1);
        assert!(v.2 == 1 || v.2 == -1);
    }
}

#[test]
fn cube_faces_index_only_the_cube_vertices() {
    let faces = cube_faces();
    for f in &faces {
        assert!(1 <= f.a && f.a <= 8);
        assert!(1 <= f.b && f.b <= 8);
        assert!(1 <= f.c && f.c <= 8);
    }
}

#[test]
fn cube_face_winding_matches_the_reference_data() {
    let faces = cube_faces();
    assert_eq!(faces[0], Face { a: 1, b: 2, c: 3 });
    assert_eq!(faces[1], Face { a: 1, b: 3, c: 4 });
    assert_eq!(faces[8], Face { a: 2, b: 7, c: 5 });
    assert_eq!(faces[11], Face { a: 6, b: 1, c: 4 });
}

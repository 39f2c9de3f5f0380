//! The built-in cube mesh: vertex positions and triangular faces.

use vstd::prelude::*;

verus! {

/// A triangular face of a mesh: three 1-based indices into the vertex list,
/// in winding order `a` → `b` → `c`.
#[derive(Clone, Copy, PartialEq, Eq, Structural, Debug)]
pub struct Face {
    pub a: i32,
    pub b: i32,
    pub c: i32,
}

/// Every index of the face points at one of `vertex_count` vertices
/// (indices are 1-based).
pub open spec fn face_valid(f: Face, vertex_count: int) -> bool {
    &&& 1 <= f.a <= vertex_count
    &&& 1 <= f.b <= vertex_count
    &&& 1 <= f.c <= vertex_count
}

/// Number of vertices of the built-in cube mesh.
pub const N_CUBE_VERTICES: i32 = 8;

/// Number of triangular faces of the built-in cube mesh (two per side).
pub const N_CUBE_FACES: i32 = 12;

/// The corners of the cube, one unit out along each axis, in the order the
/// faces index them (1-based).
pub open spec fn cube_vertices_spec() -> Seq<(i32, i32, i32)> {
    seq![
        (-1i32, -1i32, -1i32),
        (-1i32, 1i32, -1i32),
        (1i32, 1i32, -1i32),
        (1i32, -1i32, -1i32),
        (1i32, 1i32, 1i32),
        (1i32, -1i32, 1i32),
        (-1i32, 1i32, 1i32),
        (-1i32, -1i32, 1i32),
    ]
}

/// The twelve faces of the cube: two triangles per side, wound to match the
/// vertex order of [`cube_vertices_spec`].
pub open spec fn cube_faces_spec() -> Seq<Face> {
    seq![
        (Face { a: 1, b: 2, c: 3 }),
        (Face { a: 1, b: 3, c: 4 }),
        (Face { a: 4, b: 3, c: 5 }),
        (Face { a: 4, b: 5, c: 6 }),
        (Face { a: 6, b: 5, c: 7 }),
        (Face { a: 6, b: 7, c: 8 }),
        (Face { a: 8, b: 7, c: 2 }),
        (Face { a: 8, b: 2, c: 1 }),
        (Face { a: 2, b: 7, c: 5 }),
        (Face { a: 2, b: 5, c: 3 }),
        (Face { a: 6, b: 8, c: 1 }),
        (Face { a: 6, b: 1, c: 4 }),
    ]
}

/// Builds the vertex list of the cube mesh.
pub fn cube_vertices() -> (vertices: Vec<(i32, i32, i32)>)
    ensures
        vertices@ == cube_vertices_spec(),
        vertices@.len() == N_CUBE_VERTICES,
{
    let mut vertices: Vec<(i32, i32, i32)> = Vec::new();
    vertices.push((-1, -1, -1));
    vertices.push((-1, 1, -1));
    vertices.push((1, 1, -1));
    vertices.push((1, -1, -1));
    vertices.push((1, 1, 1));
    vertices.push((1, -1, 1));
    vertices.push((-1, 1, 1));
    vertices.push((-1, -1, 1));
    proof {
        assert(vertices@ =~= cube_vertices_spec());
    }
    vertices
}

/// Builds the face list of the cube mesh. Every face indexes only the
/// [`N_CUBE_VERTICES`] vertices of the cube.
pub fn cube_faces() -> (faces: Vec<Face>)
    ensures
        faces@ == cube_faces_spec(),
        faces@.len() == N_CUBE_FACES,
        forall|i: int|
            0 <= i < faces@.len() ==> face_valid(#[trigger] faces@[i], N_CUBE_VERTICES as int),
{
    let mut faces: Vec<Face> = Vec::new();
    faces.push(Face { a: 1, b: 2, c: 3 });
    faces.push(Face { a: 1, b: 3, c: 4 });
    faces.push(Face { a: 4, b: 3, c: 5 });
    faces.push(Face { a: 4, b: 5, c: 6 });
    faces.push(Face { a: 6, b: 5, c: 7 });
    faces.push(Face { a: 6, b: 7, c: 8 });
    faces.push(Face { a: 8, b: 7, c: 2 });
    faces.push(Face { a: 8, b: 2, c: 1 });
    faces.push(Face { a: 2, b: 7, c: 5 });
    faces.push(Face { a: 2, b: 5, c: 3 });
    faces.push(Face { a: 6, b: 8, c: 1 });
    faces.push(Face { a: 6, b: 1, c: 4 });
    proof {
        assert(faces@ =~= cube_faces_spec());
    }
    faces
}

} // verus!

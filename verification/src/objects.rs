use vstd::prelude::*;

verus! {

/// A mesh vertex in homogeneous integer coordinates: position and normal,
/// each with a fourth component of 1.
pub struct Vertex {
    pub position: [i8; 4],
    pub normal: [i8; 4],
}

/// The vertex at `p` with normal `n`.
pub open spec fn vertex_of(p: [i8; 3], n: [i8; 3]) -> Vertex {
    Vertex { position: [p[0], p[1], p[2], 1i8], normal: [n[0], n[1], n[2], 1i8] }
}

/// The vertex at `p` with normal `n`, each extended by a fourth component 1.
pub fn vertex(p: [i8; 3], n: [i8; 3]) -> (v: Vertex)
    ensures
        v == vertex_of(p, n),
{
    Vertex { position: [p[0], p[1], p[2], 1], normal: [n[0], n[1], n[2], 1] }
}

/// Pairs each position with the normal at the same index.
pub fn create_vertices(vertices: Vec<[i8; 3]>, normals: Vec<[i8; 3]>) -> (data: Vec<Vertex>)
    requires
        normals@.len() >= vertices@.len(),
    ensures
        data@.len() == vertices@.len(),
        forall|i: int| 0 <= i < vertices@.len() ==> #[trigger] data@[i] == vertex_of(vertices@[i], normals@[i]),
{
    let mut data: Vec<Vertex> = Vec::new();
    let mut i: usize = 0;
    while i < vertices.len()
        invariant
            normals@.len() >= vertices@.len(),
            i <= vertices@.len(),
            data@.len() == i,
            forall|j: int| 0 <= j < i ==> #[trigger] data@[j] == vertex_of(vertices@[j], normals@[j]),
        decreases vertices@.len() - i,
    {
        data.push(vertex(vertices[i], normals[i]));
        i = i + 1;
    }
    data
}

} // verus!

//! The triangle indices of a mesh read from a model file, narrowed to the
//! `u32` indices that a triangle mesh is built from.
use vstd::prelude::*;

verus! {

/// The triangles of an STL mesh: each vertex index of each face, cast to
/// `u32` as `as` casts it (keeping the low 32 bits).
pub fn stl_face_indices(faces: &Vec<[usize; 3]>) -> (indices: Vec<[u32; 3]>)
    ensures
        indices@.len() == faces@.len(),
        forall|i: int, k: int|
            0 <= i < faces@.len() && 0 <= k < 3 ==> #[trigger] indices@[i]@[k] == (
            #[trigger] faces@[i])@[k] as u32,
{
    let mut indices: Vec<[u32; 3]> = Vec::new();
    let mut i: usize = 0;
    while i < faces.len()
        invariant
            i <= faces.len(),
            indices@.len() == i,
            forall|j: int, k: int|
                0 <= j < i && 0 <= k < 3 ==> #[trigger] indices@[j]@[k] == (
                #[trigger] faces@[j])@[k] as u32,
        decreases faces.len() - i,
    {
        let f = faces[i];
        let t: [u32; 3] = [f[0] as u32, f[1] as u32, f[2] as u32];
        assert(t@[0] == f@[0] as u32 && t@[1] == f@[1] as u32 && t@[2] == f@[2] as u32);
        indices.push(t);
        i += 1;
    }
    indices
}

/// The triangles of an OBJ group: the position indices of the first three
/// vertices of each polygon, cast to `u32` as `as` casts it. Each polygon
/// has at least three vertices.
pub fn obj_face_indices(polygons: &Vec<Vec<usize>>) -> (indices: Vec<[u32; 3]>)
    requires
        forall|i: int| 0 <= i < polygons@.len() ==> #[trigger] polygons@[i]@.len() >= 3,
    ensures
        indices@.len() == polygons@.len(),
        forall|i: int, k: int|
            0 <= i < polygons@.len() && 0 <= k < 3 ==> #[trigger] indices@[i]@[k] == (
            #[trigger] polygons@[i])@[k] as u32,
{
    let mut indices: Vec<[u32; 3]> = Vec::new();
    let mut i: usize = 0;
    while i < polygons.len()
        invariant
            i <= polygons.len(),
            indices@.len() == i,
            forall|j: int| 0 <= j < polygons@.len() ==> #[trigger] polygons@[j]@.len() >= 3,
            forall|j: int, k: int|
                0 <= j < i && 0 <= k < 3 ==> #[trigger] indices@[j]@[k] == (
                #[trigger] polygons@[j])@[k] as u32,
        decreases polygons.len() - i,
    {
        let p = &polygons[i];
        assert(p@.len() >= 3);
        let t: [u32; 3] = [p[0] as u32, p[1] as u32, p[2] as u32];
        assert(t@[0] == p@[0] as u32 && t@[1] == p@[1] as u32 && t@[2] == p@[2] as u32);
        indices.push(t);
        i += 1;
    }
    indices
}

} // verus!

use vstd::prelude::*;

verus! {

/// The vertex indices of triangle `f` of an index buffer: the `f`-th triple.
pub open spec fn triangle_at(indices: Seq<u32>, f: int) -> (usize, usize, usize) {
    (indices[3 * f] as usize, indices[3 * f + 1] as usize, indices[3 * f + 2] as usize)
}

/// Every index of the complete triples of `indices` names one of `vertex_count` vertices.
pub open spec fn indices_in_range(indices: Seq<u32>, vertex_count: usize) -> bool {
    forall|i: int| 0 <= i < (indices.len() / 3) * 3 ==> #[trigger] indices[i] < vertex_count
}

/// Groups the index buffer of a triangulated mesh into triangles: triangle `f` joins
/// the vertices named by `indices[3f]`, `indices[3f + 1]` and `indices[3f + 2]`;
/// indices after the last complete triple are ignored.
pub fn triangle_indices(indices: &Vec<u32>, vertex_count: usize) -> (triangles: Vec<(usize, usize, usize)>)
    requires
        indices_in_range(indices@, vertex_count),
    ensures
        triangles.len() == indices.len() / 3,
        forall|f: int| 0 <= f < triangles.len() ==> #[trigger] triangles[f] == triangle_at(indices@, f),
        forall|f: int|
            0 <= f < triangles.len() ==> #[trigger] triangles[f].0 < vertex_count && triangles[f].1 < vertex_count
                && triangles[f].2 < vertex_count,
{
    let count: usize = indices.len() / 3;
    let mut triangles: Vec<(usize, usize, usize)> = Vec::new();
    let mut face: usize = 0;
    while face < count
        invariant
            count == indices.len() / 3,
            indices_in_range(indices@, vertex_count),
            0 <= face <= count,
            triangles.len() == face,
            forall|f: int| 0 <= f < face ==> #[trigger] triangles[f] == triangle_at(indices@, f),
            forall|f: int|
                0 <= f < face ==> #[trigger] triangles[f].0 < vertex_count && triangles[f].1 < vertex_count
                    && triangles[f].2 < vertex_count,
        decreases count - face,
    {
        let i0: usize = indices[3 * face] as usize;
        let i1: usize = indices[3 * face + 1] as usize;
        let i2: usize = indices[3 * face + 2] as usize;
        assert(indices@[3 * face as int] < vertex_count);
        assert(indices@[3 * face + 1] < vertex_count);
        assert(indices@[3 * face + 2] < vertex_count);
        triangles.push((i0, i1, i2));
        face = face + 1;
    }
    triangles
}

} // verus!

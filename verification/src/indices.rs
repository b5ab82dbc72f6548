//! Index buffers derived from a triangle list.
//!
//! A triangle list can be drawn as filled triangles, as its edges, or as its
//! corner points. Each form has its own flat index buffer.

use vstd::prelude::*;

verus! {

/// Index buffer of the filled triangles: the corners of each triangle in
/// winding order, one triangle after the other.
pub open spec fn solid_indices(triangles: Seq<[u32; 3]>) -> Seq<u32> {
    Seq::new(3 * triangles.len(), |k: int| triangles[k / 3][k % 3])
}

/// Which corner of its triangle the `e`-th endpoint of a triangle's edge
/// list is. The edges are `(0, 1)`, `(1, 2)`, `(2, 0)`.
pub open spec fn edge_endpoint(e: int) -> int {
    if e == 0 {
        0
    } else if e == 1 || e == 2 {
        1
    } else if e == 3 || e == 4 {
        2
    } else {
        0
    }
}

/// Index buffer of the edges: for each triangle `[a, b, c]` the pairs
/// `(a, b)`, `(b, c)`, `(c, a)`. An edge that two triangles share appears
/// once for each of them.
pub open spec fn wireframe_indices(triangles: Seq<[u32; 3]>) -> Seq<u32> {
    Seq::new(6 * triangles.len(), |k: int| triangles[k / 6][edge_endpoint(k % 6)])
}

/// Index buffer of the corner points: every corner of every triangle, in the
/// order of the triangle list. A node appears once for each triangle that it
/// is a corner of.
pub open spec fn point_indices(triangles: Seq<[u32; 3]>) -> Seq<u32> {
    solid_indices(triangles)
}

/// Whether every index of a buffer is below `bound`.
pub open spec fn indices_below(indices: Seq<u32>, bound: int) -> bool {
    forall|k: int| 0 <= k < indices.len() ==> (#[trigger] indices[k]) < bound
}

/// Whether every corner of every triangle is below `bound`.
pub open spec fn triangles_below(triangles: Seq<[u32; 3]>, bound: int) -> bool {
    forall|k: int, c: int|
        0 <= k < triangles.len() && 0 <= c < 3 ==> (#[trigger] triangles[k][c]) < bound
}

/// Flattens a triangle list into the index buffer of its filled triangles.
pub fn solid_index_buffer(triangles: &Vec<[u32; 3]>) -> (indices: Vec<u32>)
    ensures
        indices@ == solid_indices(triangles@),
{
    let mut indices: Vec<u32> = Vec::new();
    let mut n: usize = 0;
    while n < triangles.len()
        invariant
            n <= triangles@.len(),
            indices@.len() == 3 * n,
            forall|k: int| 0 <= k < indices@.len() ==> indices@[k] == triangles@[k / 3][k % 3],
        decreases triangles@.len() - n,
    {
        let t: [u32; 3] = triangles[n];
        indices.push(t[0]);
        indices.push(t[1]);
        indices.push(t[2]);
        n += 1;
    }
    assert(indices@ =~= solid_indices(triangles@));
    indices
}

/// Lists the edges of a triangle list as pairs of indices.
pub fn wireframe_index_buffer(triangles: &Vec<[u32; 3]>) -> (indices: Vec<u32>)
    ensures
        indices@ == wireframe_indices(triangles@),
{
    let mut indices: Vec<u32> = Vec::new();
    let mut n: usize = 0;
    while n < triangles.len()
        invariant
            n <= triangles@.len(),
            indices@.len() == 6 * n,
            forall|k: int|
                0 <= k < indices@.len() ==> indices@[k] == triangles@[k / 6][edge_endpoint(k % 6)],
        decreases triangles@.len() - n,
    {
        let t: [u32; 3] = triangles[n];
        indices.push(t[0]);
        indices.push(t[1]);
        indices.push(t[1]);
        indices.push(t[2]);
        indices.push(t[2]);
        indices.push(t[0]);
        n += 1;
    }
    assert(indices@ =~= wireframe_indices(triangles@));
    indices
}

/// Lists the corners of a triangle list as single points.
pub fn point_index_buffer(triangles: &Vec<[u32; 3]>) -> (indices: Vec<u32>)
    ensures
        indices@ == point_indices(triangles@),
{
    solid_index_buffer(triangles)
}

/// An edge list holds six indices for each triangle, three edges of two
/// endpoints each; the other two buffers hold three.
pub proof fn lemma_buffer_lengths(triangles: Seq<[u32; 3]>)
    ensures
        wireframe_indices(triangles).len() == 6 * triangles.len(),
        solid_indices(triangles).len() == 3 * triangles.len(),
        point_indices(triangles).len() == 3 * triangles.len(),
{
}

/// The edge list of a grid holds twelve indices for each cell: a cell is two
/// triangles, and the edge that they share is listed for both.
pub proof fn lemma_grid_wireframe_len(rows: int, cols: int, triangles: Seq<[u32; 3]>)
    requires
        0 <= rows,
        0 <= cols,
        triangles.len() == 2 * (rows * cols),
    ensures
        wireframe_indices(triangles).len() == 12 * (rows * cols),
{
    assert(0 <= rows * cols) by (nonlinear_arith)
        requires
            0 <= rows,
            0 <= cols,
    ;
}

/// A grid without cells has an empty edge list.
pub proof fn lemma_empty_grid_wireframe_len(rows: int, cols: int, triangles: Seq<[u32; 3]>)
    requires
        rows == 0 || cols == 0,
        triangles.len() == 2 * (rows * cols),
    ensures
        wireframe_indices(triangles).len() == 6 * (rows * cols),
        wireframe_indices(triangles).len() == 0,
{
    assert(rows * cols == 0) by (nonlinear_arith)
        requires
            rows == 0 || cols == 0,
    ;
}

/// The derived buffers name no node that the triangle list does not name:
/// a bound on the corners of the triangles bounds every index of each buffer.
pub proof fn lemma_buffers_below(triangles: Seq<[u32; 3]>, bound: int)
    requires
        triangles_below(triangles, bound),
    ensures
        indices_below(solid_indices(triangles), bound),
        indices_below(wireframe_indices(triangles), bound),
        indices_below(point_indices(triangles), bound),
{
    assert forall|k: int| 0 <= k < solid_indices(triangles).len() implies (
    #[trigger] solid_indices(triangles)[k]) < bound by {
        assert(triangles[k / 3][k % 3] < bound);
    }
    assert forall|k: int| 0 <= k < wireframe_indices(triangles).len() implies (
    #[trigger] wireframe_indices(triangles)[k]) < bound by {
        assert(triangles[k / 6][edge_endpoint(k % 6)] < bound);
    }
}

} // verus!

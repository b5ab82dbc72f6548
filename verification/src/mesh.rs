//! Render-ready meshes assembled from a sampled surface.
//!
//! A mesh is derived data: it is built whole from a surface and a texture
//! map, and built again whenever either changes.

use vstd::prelude::*;
use crate::grid::{sample_nodes, samples_everywhere, samples_of};
use crate::indices::{
    indices_below,
    lemma_buffers_below,
    point_index_buffer,
    point_indices,
    solid_index_buffer,
    solid_indices,
    wireframe_index_buffer,
    wireframe_indices,
};
use crate::surface::{lemma_triangles_in_range, Surface, SurfaceView};

verus! {

/// How the index buffer of a mesh is read.
#[derive(Clone, Copy, Debug, PartialEq, Eq, Structural)]
pub enum Topology {
    /// Every three indices are a filled triangle.
    TriangleList,
    /// Every two indices are a line segment.
    LineList,
    /// Every index is a point.
    PointList,
}

/// Vertex buffers and an index buffer, ready to be drawn.
pub struct Mesh<V, U> {
    /// How `indices` is read.
    pub topology: Topology,
    /// One position per vertex.
    pub positions: Vec<V>,
    /// One normal per vertex.
    pub normals: Vec<V>,
    /// One texture coordinate per vertex.
    pub uvs: Vec<U>,
    /// Indices into the vertex buffers.
    pub indices: Vec<u32>,
}

/// The index buffer that draws a triangle list under a topology.
pub open spec fn topology_indices(topology: Topology, triangles: Seq<[u32; 3]>) -> Seq<u32> {
    match topology {
        Topology::TriangleList => solid_indices(triangles),
        Topology::LineList => wireframe_indices(triangles),
        Topology::PointList => point_indices(triangles),
    }
}

/// Whether `mesh` draws `surface` under `topology`, textured by `f`: the
/// positions and normals are those of the surface, there is one texture
/// coordinate for each node, a value that `f` may return for the node's row
/// and column, and the index buffer is the one that the topology derives from
/// the triangles of the surface.
pub open spec fn assembled_from<D, V, U, F: Fn(u32, u32) -> U>(
    mesh: Mesh<V, U>,
    surface: SurfaceView<D, V>,
    topology: Topology,
    f: F,
) -> bool {
    &&& mesh.topology == topology
    &&& mesh.positions@ == surface.positions
    &&& mesh.normals@ == surface.normals
    &&& samples_of(f, surface.rows, surface.cols, mesh.uvs@)
    &&& mesh.indices@ == topology_indices(topology, surface.triangles)
}

/// Whether the vertex buffers of a mesh have one length and every index
/// names a vertex.
pub open spec fn consistent<V, U>(mesh: Mesh<V, U>) -> bool {
    &&& mesh.normals@.len() == mesh.positions@.len()
    &&& mesh.uvs@.len() == mesh.positions@.len()
    &&& indices_below(mesh.indices@, mesh.positions@.len() as int)
}

/// A mesh assembled from a valid surface is consistent, whatever the
/// topology and the texture map.
pub proof fn lemma_assembled_consistent<D, V, U, F: Fn(u32, u32) -> U>(
    mesh: Mesh<V, U>,
    surface: SurfaceView<D, V>,
    topology: Topology,
    f: F,
)
    requires
        surface.valid(),
        assembled_from(mesh, surface, topology, f),
    ensures
        consistent(mesh),
{
    lemma_triangles_in_range(surface);
    lemma_buffers_below(surface.triangles, surface.positions.len() as int);
}

/// Copies a buffer, item by item.
fn copy_all<V: Copy>(items: &Vec<V>) -> (copy: Vec<V>)
    ensures
        copy@ == items@,
{
    let mut copy: Vec<V> = Vec::new();
    let mut n: usize = 0;
    while n < items.len()
        invariant
            n <= items@.len(),
            copy@ == items@.take(n as int),
        decreases items@.len() - n,
    {
        copy.push(items[n]);
        n += 1;
        assert(copy@ =~= items@.take(n as int));
    }
    assert(items@.take(n as int) =~= items@);
    copy
}

/// Builds the mesh that draws `surface` under `topology`.
///
/// `f` is called once for each node `(i, j)` of the grid, row by row, and
/// returns the texture coordinate of that node.
pub fn assemble<D, V: Copy, U, F: Fn(u32, u32) -> U>(
    surface: &Surface<D, V>,
    topology: Topology,
    f: F,
) -> (mesh: Mesh<V, U>)
    requires
        samples_everywhere(f, surface@.rows, surface@.cols),
    ensures
        assembled_from(mesh, surface@, topology, f),
        consistent(mesh),
{
    let positions = copy_all(surface.positions());
    let normals = copy_all(surface.normals());
    let uvs = compute_uvs(surface, f);
    let indices = match topology {
        Topology::TriangleList => solid_index_buffer(surface.triangles()),
        Topology::LineList => wireframe_index_buffer(surface.triangles()),
        Topology::PointList => point_index_buffer(surface.triangles()),
    };
    let mesh = Mesh { topology, positions, normals, uvs, indices };
    proof {
        use_type_invariant(surface);
        lemma_assembled_consistent(mesh, surface@, topology, f);
    }
    mesh
}

/// Builds the mesh of filled triangles of `surface`, textured by `f`.
pub fn surface_to_solid<D, V: Copy, U, F: Fn(u32, u32) -> U>(surface: &Surface<D, V>, f: F) -> (mesh:
    Mesh<V, U>)
    requires
        samples_everywhere(f, surface@.rows, surface@.cols),
    ensures
        assembled_from(mesh, surface@, Topology::TriangleList, f),
        consistent(mesh),
{
    assemble(surface, Topology::TriangleList, f)
}

/// Builds the mesh of the triangle edges of `surface`, textured by `f`.
pub fn surface_to_wireframe<D, V: Copy, U, F: Fn(u32, u32) -> U>(
    surface: &Surface<D, V>,
    f: F,
) -> (mesh: Mesh<V, U>)
    requires
        samples_everywhere(f, surface@.rows, surface@.cols),
    ensures
        assembled_from(mesh, surface@, Topology::LineList, f),
        consistent(mesh),
{
    assemble(surface, Topology::LineList, f)
}

/// Builds the mesh of the triangle corners of `surface`, textured by `f`.
pub fn surface_to_point_cloud<D, V: Copy, U, F: Fn(u32, u32) -> U>(
    surface: &Surface<D, V>,
    f: F,
) -> (mesh: Mesh<V, U>)
    requires
        samples_everywhere(f, surface@.rows, surface@.cols),
    ensures
        assembled_from(mesh, surface@, Topology::PointList, f),
        consistent(mesh),
{
    assemble(surface, Topology::PointList, f)
}

/// Rebuilds the mesh of filled triangles of a surface whose texture map has
/// changed. An unchanged map needs no new mesh, and `f` is not called.
pub fn refresh<D, V: Copy, U, F: Fn(u32, u32) -> U>(changed: bool, surface: &Surface<D, V>, f: F) -> (mesh:
    Option<Mesh<V, U>>)
    requires
        changed ==> samples_everywhere(f, surface@.rows, surface@.cols),
    ensures
        mesh is Some <==> changed,
        mesh matches Some(rebuilt) ==> assembled_from(rebuilt, surface@, Topology::TriangleList, f)
            && consistent(rebuilt),
{
    if changed {
        Some(surface_to_solid(surface, f))
    } else {
        None
    }
}

/// Collects the texture coordinates of `surface`: `f` is called once for
/// each node `(i, j)` of the grid, row by row.
pub fn compute_uvs<D, V, U, F: Fn(u32, u32) -> U>(surface: &Surface<D, V>, f: F) -> (uvs: Vec<U>)
    requires
        samples_everywhere(f, surface@.rows, surface@.cols),
    ensures
        samples_of(f, surface@.rows, surface@.cols, uvs@),
        uvs@.len() == surface@.positions.len(),
{
    proof {
        use_type_invariant(surface);
    }
    let count = surface.count();
    sample_nodes(count[0], count[1], f)
}

} // verus!

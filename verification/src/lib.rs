//! Tessellation of parametric surfaces and evaluation of rational functions
//! by their zeros and poles.
//!
//! The crate owns the combinatorial side of a surface mesh: the row-major
//! layout of the samples of a rectangular grid, the triangles between them
//! with their fixed diagonal and winding, and the index buffers that draw
//! those triangles filled, as edges or as points. What a sample is, a
//! position, a normal or a texture coordinate, is the caller's to compute and
//! reaches the crate through a function of the node's row and column.

pub mod grid;
pub mod indices;
pub mod mero;
pub mod mesh;
pub mod surface;
pub mod triangulation;

pub use crate::mero::{click_edit, poly, Edit, Mero, PointerButton};
pub use crate::mesh::{
    assemble, compute_uvs, refresh, surface_to_point_cloud, surface_to_solid, surface_to_wireframe,
    Mesh, Topology,
};
pub use crate::surface::{parametric_surface, Surface, SurfaceError};
pub use crate::triangulation::triangulate;

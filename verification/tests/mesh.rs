use param_surface::{
    assemble, compute_uvs, parametric_surface, refresh, surface_to_point_cloud, surface_to_solid,
    surface_to_wireframe, Surface, Topology,
};
use std::cell::RefCell;

fn small_surface() -> Surface<[f32; 2], [f32; 3]> {
    parametric_surface([0.0, 0.0], [1.0, 1.0], [true, true], [1, 2], |i, j| {
        ([i as f32, j as f32, 0.5], [0.0, 0.0, 1.0])
    })
    .unwrap()
}

fn uv(i: u32, j: u32) -> [f32; 2] {
    [i as f32 * 0.5, j as f32 * 0.25]
}

#[test]
fn solid_mesh_copies_the_surface() {
    let surface = small_surface();
    let mesh = surface_to_solid(&surface, uv);
    assert_eq!(mesh.topology, Topology::TriangleList);
    assert_eq!(mesh.positions, *surface.positions());
    assert_eq!(mesh.normals, *surface.normals());
    assert_eq!(mesh.indices, vec![3, 0, 4, 4, 0, 1, 4, 1, 5, 5, 1, 2]);
}

#[test]
fn texture_coordinates_are_row_major() {
    let surface = small_surface();
    let mesh = surface_to_solid(&surface, uv);
    let expected: Vec<[f32; 2]> =
        vec![[0.0, 0.0], [0.0, 0.25], [0.0, 0.5], [0.5, 0.0], [0.5, 0.25], [0.5, 0.5]];
    assert_eq!(mesh.uvs, expected);
    assert_eq!(compute_uvs(&surface, uv), expected);
}

#[test]
fn wireframe_mesh_lists_every_edge_of_every_triangle() {
    let surface = small_surface();
    let mesh = surface_to_wireframe(&surface, uv);
    assert_eq!(mesh.topology, Topology::LineList);
    assert_eq!(mesh.positions, *surface.positions());
    assert_eq!(mesh.normals, *surface.normals());
    assert_eq!(
        mesh.indices,
        vec![3, 0, 0, 4, 4, 3, 4, 0, 0, 1, 1, 4, 4, 1, 1, 5, 5, 4, 5, 1, 1, 2, 2, 5]
    );
}

#[test]
fn point_cloud_mesh_lists_every_corner() {
    let surface = small_surface();
    let mesh = surface_to_point_cloud(&surface, uv);
    assert_eq!(mesh.topology, Topology::PointList);
    assert_eq!(mesh.positions, *surface.positions());
    assert_eq!(mesh.indices, vec![3, 0, 4, 4, 0, 1, 4, 1, 5, 5, 1, 2]);
}

#[test]
fn assemble_follows_the_topology() {
    let surface = small_surface();
    assert_eq!(assemble(&surface, Topology::TriangleList, uv).indices.len(), 12);
    assert_eq!(assemble(&surface, Topology::LineList, uv).indices.len(), 24);
    assert_eq!(assemble(&surface, Topology::PointList, uv).indices.len(), 12);
    assert_eq!(assemble(&surface, Topology::LineList, uv).topology, Topology::LineList);
}

#[test]
fn meshes_are_consistent() {
    let surface: Surface<(), u8> = parametric_surface((), (), [true, true], [4, 7], |_, _| (1u8, 2u8)).unwrap();
    for topology in [Topology::TriangleList, Topology::LineList, Topology::PointList] {
        let mesh = assemble(&surface, topology, |_, _| 0u8);
        assert_eq!(mesh.positions.len(), 40);
        assert_eq!(mesh.normals.len(), 40);
        assert_eq!(mesh.uvs.len(), 40);
        assert!(mesh.indices.iter().all(|i| (*i as usize) < mesh.positions.len()));
    }
}

#[test]
fn wireframe_of_a_grid_has_twelve_indices_per_cell() {
    let surface: Surface<(), u8> = parametric_surface((), (), [true, true], [3, 5], |_, _| (0u8, 0u8)).unwrap();
    let mesh = surface_to_wireframe(&surface, |_, _| 0u8);
    assert_eq!(surface.triangles().len(), 2 * 3 * 5);
    assert_eq!(mesh.indices.len(), 6 * surface.triangles().len());
    assert_eq!(mesh.indices.len(), 12 * 3 * 5);
}

#[test]
fn texture_map_is_called_once_per_node() {
    let surface = small_surface();
    let visited: RefCell<Vec<(u32, u32)>> = RefCell::new(Vec::new());
    let mesh = surface_to_solid(&surface, |i, j| {
        visited.borrow_mut().push((i, j));
        i + j
    });
    assert_eq!(*visited.borrow(), vec![(0, 0), (0, 1), (0, 2), (1, 0), (1, 1), (1, 2)]);
    assert_eq!(mesh.uvs, vec![0, 1, 2, 1, 2, 3]);
}

#[test]
fn refresh_rebuilds_only_what_changed() {
    let surface = small_surface();
    let calls = RefCell::new(0u32);
    let unchanged = refresh(false, &surface, |i, j| {
        *calls.borrow_mut() += 1;
        uv(i, j)
    });
    assert!(unchanged.is_none());
    assert_eq!(*calls.borrow(), 0);
    let rebuilt = refresh(true, &surface, uv).unwrap();
    assert_eq!(rebuilt.topology, Topology::TriangleList);
    assert_eq!(rebuilt.positions, *surface.positions());
    assert_eq!(rebuilt.uvs, compute_uvs(&surface, uv));
    assert_eq!(rebuilt.indices, surface_to_solid(&surface, uv).indices);
}

#[test]
fn reassembly_leaves_the_surface_as_it_was() {
    let surface = small_surface();
    let before = surface.positions().clone();
    let first = surface_to_solid(&surface, uv);
    let second = surface_to_solid(&surface, |i, j| [j as f32, i as f32]);
    assert_eq!(*surface.positions(), before);
    assert_eq!(first.positions, second.positions);
    assert_eq!(first.normals, second.normals);
    assert_eq!(first.indices, second.indices);
    assert_ne!(first.uvs, second.uvs);
}

use param_surface::grid::{node_position, sample_nodes};
use param_surface::indices::{point_index_buffer, solid_index_buffer, wireframe_index_buffer};
use param_surface::triangulate;

#[test]
fn single_cell_is_cut_from_bottom_left_to_top_right() {
    // Nodes: 0 = (0, 0), 1 = (0, 1), 2 = (1, 0), 3 = (1, 1).
    let triangles = triangulate(1, 1);
    assert_eq!(triangles, vec![[2, 0, 3], [3, 0, 1]]);
}

#[test]
fn two_by_two_grid_lists_cells_row_by_row() {
    let triangles = triangulate(2, 2);
    let expected: Vec<[u32; 3]> = vec![
        [3, 0, 4],
        [4, 0, 1],
        [4, 1, 5],
        [5, 1, 2],
        [6, 3, 7],
        [7, 3, 4],
        [7, 4, 8],
        [8, 4, 5],
    ];
    assert_eq!(triangles, expected);
}

#[test]
fn rectangular_grid_uses_the_row_length_of_its_columns() {
    let triangles = triangulate(1, 3);
    let expected: Vec<[u32; 3]> = vec![
        [4, 0, 5],
        [5, 0, 1],
        [5, 1, 6],
        [6, 1, 2],
        [6, 2, 7],
        [7, 2, 3],
    ];
    assert_eq!(triangles, expected);
}

#[test]
fn triangle_count_is_two_per_cell() {
    for rows in 0u32..6 {
        for cols in 0u32..6 {
            let triangles = triangulate(rows, cols);
            assert_eq!(triangles.len() as u32, 2 * rows * cols);
        }
    }
}

#[test]
fn grid_without_cells_has_no_triangles() {
    assert!(triangulate(0, 5).is_empty());
    assert!(triangulate(5, 0).is_empty());
    assert!(triangulate(0, 0).is_empty());
}

#[test]
fn strip_without_cells_may_be_as_long_as_it_likes() {
    assert!(triangulate(0, u32::MAX).is_empty());
}

#[test]
fn every_corner_is_a_node_of_the_grid() {
    for rows in 1u32..7 {
        for cols in 1u32..7 {
            let nodes = (rows + 1) * (cols + 1);
            for t in triangulate(rows, cols) {
                assert!(t[0] < nodes && t[1] < nodes && t[2] < nodes);
            }
        }
    }
}

#[test]
fn every_node_is_a_corner_of_some_triangle() {
    let rows: u32 = 3;
    let cols: u32 = 4;
    let mut seen = vec![false; ((rows + 1) * (cols + 1)) as usize];
    for t in triangulate(rows, cols) {
        for c in t {
            seen[c as usize] = true;
        }
    }
    assert!(seen.iter().all(|s| *s));
}

#[test]
fn triangulating_twice_gives_the_same_list() {
    for rows in 0u32..5 {
        for cols in 0u32..5 {
            assert_eq!(triangulate(rows, cols), triangulate(rows, cols));
        }
    }
    assert_eq!(triangulate(200, 200), triangulate(200, 200));
}

#[test]
fn triangles_of_a_cell_share_its_diagonal() {
    let rows: u32 = 4;
    let cols: u32 = 3;
    let triangles = triangulate(rows, cols);
    for i in 0..rows {
        for j in 0..cols {
            let k = (2 * (i * cols + j)) as usize;
            let bl = node_position(rows, cols, i, j);
            let br = node_position(rows, cols, i, j + 1);
            let tl = node_position(rows, cols, i + 1, j);
            let tr = node_position(rows, cols, i + 1, j + 1);
            assert_eq!(triangles[k], [tl, bl, tr]);
            assert_eq!(triangles[k + 1], [tr, bl, br]);
        }
    }
}

#[test]
fn node_position_is_row_major() {
    assert_eq!(node_position(2, 2, 0, 0), 0);
    assert_eq!(node_position(2, 2, 0, 2), 2);
    assert_eq!(node_position(2, 2, 1, 0), 3);
    assert_eq!(node_position(2, 2, 2, 2), 8);
    assert_eq!(node_position(3, 9, 2, 7), 27);
}

#[test]
fn largest_addressable_strip_does_not_overflow() {
    // 65535 * 65537 = 2^32 - 1 nodes.
    assert_eq!(node_position(65534, 65536, 65534, 65536), u32::MAX - 1);
}

#[test]
fn solid_buffer_flattens_the_triangles() {
    let triangles: Vec<[u32; 3]> = vec![[2, 0, 3], [3, 0, 1]];
    assert_eq!(solid_index_buffer(&triangles), vec![2, 0, 3, 3, 0, 1]);
}

#[test]
fn wireframe_buffer_lists_three_edges_per_triangle() {
    let triangles: Vec<[u32; 3]> = vec![[7, 8, 9]];
    assert_eq!(wireframe_index_buffer(&triangles), vec![7, 8, 8, 9, 9, 7]);
}

#[test]
fn wireframe_buffer_keeps_the_shared_diagonal_twice() {
    let triangles = triangulate(1, 1);
    let edges = wireframe_index_buffer(&triangles);
    assert_eq!(edges, vec![2, 0, 0, 3, 3, 2, 3, 0, 0, 1, 1, 3]);
    let diagonal = edges
        .chunks(2)
        .filter(|e| (e[0] == 0 && e[1] == 3) || (e[0] == 3 && e[1] == 0))
        .count();
    assert_eq!(diagonal, 2);
}

#[test]
fn wireframe_buffer_has_six_indices_per_triangle() {
    for rows in 0u32..5 {
        for cols in 0u32..5 {
            let triangles = triangulate(rows, cols);
            let edges = wireframe_index_buffer(&triangles);
            assert_eq!(edges.len(), 6 * triangles.len());
            assert_eq!(edges.len() as u32, 12 * rows * cols);
        }
    }
}

#[test]
fn point_buffer_passes_every_corner_through() {
    let triangles: Vec<[u32; 3]> = vec![[2, 0, 3], [3, 0, 1]];
    assert_eq!(point_index_buffer(&triangles), vec![2, 0, 3, 3, 0, 1]);
}

#[test]
fn buffers_of_no_triangles_are_empty() {
    let triangles: Vec<[u32; 3]> = Vec::new();
    assert!(solid_index_buffer(&triangles).is_empty());
    assert!(wireframe_index_buffer(&triangles).is_empty());
    assert!(point_index_buffer(&triangles).is_empty());
    assert!(wireframe_index_buffer(&triangulate(0, 4)).is_empty());
}

#[test]
fn samples_are_collected_row_by_row() {
    let samples = sample_nodes(1, 2, |i, j| 10 * i + j);
    assert_eq!(samples, vec![0, 1, 2, 10, 11, 12]);
}

#[test]
fn sample_sits_at_the_position_of_its_node() {
    let rows: u32 = 5;
    let cols: u32 = 3;
    let samples = sample_nodes(rows, cols, |i, j| (i, j));
    assert_eq!(samples.len() as u32, (rows + 1) * (cols + 1));
    for i in 0..=rows {
        for j in 0..=cols {
            assert_eq!(samples[node_position(rows, cols, i, j) as usize], (i, j));
        }
    }
}

#[test]
fn grid_without_cells_still_has_nodes() {
    assert_eq!(sample_nodes(0, 0, |i, j| (i, j)), vec![(0, 0)]);
    assert_eq!(sample_nodes(0, 2, |_, j| j), vec![0, 1, 2]);
}

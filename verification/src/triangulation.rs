//! Splitting the cells of a sample grid into triangles.
//!
//! Cell `(i, j)` has the corners
//!
//! ```text
//!   tl = (i + 1, j)      tr = (i + 1, j + 1)
//!   bl = (i,     j)      br = (i,     j + 1)
//! ```
//!
//! and is cut along the diagonal from `bl` to `tr` into the triangles
//! `[tl, bl, tr]` and `[tr, bl, br]`. Cells are visited row by row.

use vstd::prelude::*;
use vstd::arithmetic::div_mod::lemma_fundamental_div_mod_converse;
use crate::grid::{
    addressable,
    lemma_node_coordinates,
    lemma_node_index_bound,
    lemma_row_addressable,
    node_col,
    node_count,
    node_index,
    node_row,
};

verus! {

/// The three corners of a triangle, in winding order, as mathematical integers.
pub open spec fn corners(t: [u32; 3]) -> (int, int, int) {
    (t[0] as int, t[1] as int, t[2] as int)
}

/// The corner triples of a list of triangles.
pub open spec fn corner_list(triangles: Seq<[u32; 3]>) -> Seq<(int, int, int)> {
    Seq::new(triangles.len(), |k: int| corners(triangles[k]))
}

/// First triangle of cell `(i, j)`: top left, bottom left, top right.
pub open spec fn first_triangle(cols: int, i: int, j: int) -> (int, int, int) {
    (node_index(cols, i + 1, j), node_index(cols, i, j), node_index(cols, i + 1, j + 1))
}

/// Second triangle of cell `(i, j)`: top right, bottom left, bottom right.
pub open spec fn second_triangle(cols: int, i: int, j: int) -> (int, int, int) {
    (node_index(cols, i + 1, j + 1), node_index(cols, i, j), node_index(cols, i, j + 1))
}

/// The `k`-th triangle of a grid with `cols` cells per row: triangles
/// `2 * c` and `2 * c + 1` belong to cell `c`, counted row by row.
pub open spec fn cell_triangle(cols: int, k: int) -> (int, int, int) {
    let cell = k / 2;
    if k % 2 == 0 {
        first_triangle(cols, cell / cols, cell % cols)
    } else {
        second_triangle(cols, cell / cols, cell % cols)
    }
}

/// The triangle list of a grid with `rows` by `cols` cells.
pub open spec fn triangulation(rows: int, cols: int) -> Seq<(int, int, int)> {
    Seq::new((2 * (rows * cols)) as nat, |k: int| cell_triangle(cols, k))
}

/// Whether all three corners of a triangle lie in `0..bound`.
pub open spec fn corners_below(t: (int, int, int), bound: int) -> bool {
    0 <= t.0 < bound && 0 <= t.1 < bound && 0 <= t.2 < bound
}

/// Cell `(i, j)` owns positions `2 * (i * cols + j)` and the next one of the
/// triangle list.
pub proof fn lemma_cell_triangles(rows: int, cols: int, i: int, j: int)
    requires
        0 <= i < rows,
        0 <= j < cols,
    ensures
        0 <= 2 * (i * cols + j),
        2 * (i * cols + j) + 1 < 2 * (rows * cols),
        cell_triangle(cols, 2 * (i * cols + j)) == first_triangle(cols, i, j),
        cell_triangle(cols, 2 * (i * cols + j) + 1) == second_triangle(cols, i, j),
{
    let cell = i * cols + j;
    assert(0 <= i * cols) by (nonlinear_arith)
        requires
            0 <= i,
            0 <= cols,
    ;
    assert(i * cols + cols <= rows * cols) by (nonlinear_arith)
        requires
            0 <= i < rows,
            0 <= cols,
    ;
    lemma_fundamental_div_mod_converse(cell, cols, i, j);
}

/// Every position of the triangle list belongs to exactly one cell of the
/// grid, the one in row `(k / 2) / cols` and column `(k / 2) % cols`.
pub proof fn lemma_triangle_cell(rows: int, cols: int, k: int)
    requires
        0 <= rows,
        0 <= cols,
        0 <= k < 2 * (rows * cols),
    ensures
        0 <= (k / 2) / cols < rows,
        0 <= (k / 2) % cols < cols,
{
    let cell = k / 2;
    assert(cols > 0) by (nonlinear_arith)
        requires
            0 <= cols,
            0 < rows * cols,
    ;
    vstd::arithmetic::div_mod::lemma_fundamental_div_mod(cell, cols);
    vstd::arithmetic::div_mod::lemma_mod_bound(cell, cols);
    let q = cell / cols;
    let r = cell % cols;
    assert(0 <= q < rows) by (nonlinear_arith)
        requires
            0 <= cell < rows * cols,
            cell == cols * q + r,
            0 <= r < cols,
    ;
}

/// Every corner of every triangle of the grid is a node of the grid.
pub proof fn lemma_triangulation_in_range(rows: int, cols: int)
    requires
        0 <= rows,
        0 <= cols,
    ensures
        triangulation(rows, cols).len() == 2 * (rows * cols),
        forall|k: int|
            0 <= k < triangulation(rows, cols).len() ==> corners_below(
                #[trigger] triangulation(rows, cols)[k],
                node_count(rows, cols),
            ),
{
    assert(0 <= rows * cols) by (nonlinear_arith)
        requires
            0 <= rows,
            0 <= cols,
    ;
    assert forall|k: int| 0 <= k < triangulation(rows, cols).len() implies corners_below(
        #[trigger] triangulation(rows, cols)[k],
        node_count(rows, cols),
    ) by {
        lemma_triangle_cell(rows, cols, k);
        let i = (k / 2) / cols;
        let j = (k / 2) % cols;
        lemma_node_index_bound(rows, cols, i, j);
        lemma_node_index_bound(rows, cols, i, j + 1);
        lemma_node_index_bound(rows, cols, i + 1, j);
        lemma_node_index_bound(rows, cols, i + 1, j + 1);
    }
}

/// Whether `node` is one of the corners of a triangle.
pub open spec fn has_corner(t: (int, int, int), node: int) -> bool {
    t.0 == node || t.1 == node || t.2 == node
}

/// The triangles leave no node out: in a grid with at least one cell, every
/// node is a corner of some triangle.
pub proof fn lemma_every_node_is_a_corner(rows: int, cols: int, i: int, j: int)
    requires
        0 < rows,
        0 < cols,
        0 <= i <= rows,
        0 <= j <= cols,
    ensures
        exists|k: int|
            0 <= k < triangulation(rows, cols).len() && has_corner(
                #[trigger] triangulation(rows, cols)[k],
                node_index(cols, i, j),
            ),
{
    let ci = if i < rows { i } else { i - 1 };
    let cj = if j < cols { j } else { j - 1 };
    lemma_cell_triangles(rows, cols, ci, cj);
    let k = 2 * (ci * cols + cj);
    if i == ci + 1 && j == cj {
        assert(has_corner(triangulation(rows, cols)[k], node_index(cols, i, j)));
    } else if i == ci && j == cj + 1 {
        assert(has_corner(triangulation(rows, cols)[k + 1], node_index(cols, i, j)));
    } else {
        assert(has_corner(triangulation(rows, cols)[k], node_index(cols, i, j)));
    }
}

/// Twice the signed area of a triangle, drawn in the plane in which node
/// `(i, j)` is the point `(i, j)`. Its sign tells which way the corners wind.
pub open spec fn doubled_area(cols: int, t: (int, int, int)) -> int {
    let ax = node_row(cols, t.0);
    let ay = node_col(cols, t.0);
    let bx = node_row(cols, t.1);
    let by = node_col(cols, t.1);
    let cx = node_row(cols, t.2);
    let cy = node_col(cols, t.2);
    (bx - ax) * (cy - ay) - (by - ay) * (cx - ax)
}

/// All triangles of a grid wind the same way, and none is degenerate: each
/// of them is half a cell, with the signed area of the first.
pub proof fn lemma_winding_consistent(rows: int, cols: int)
    requires
        0 <= rows,
        0 <= cols,
    ensures
        forall|k: int|
            0 <= k < triangulation(rows, cols).len() ==> doubled_area(
                cols,
                #[trigger] triangulation(rows, cols)[k],
            ) == -1,
{
    assert(0 <= rows * cols) by (nonlinear_arith)
        requires
            0 <= rows,
            0 <= cols,
    ;
    assert forall|k: int| 0 <= k < triangulation(rows, cols).len() implies doubled_area(
        cols,
        #[trigger] triangulation(rows, cols)[k],
    ) == -1 by {
        lemma_triangle_cell(rows, cols, k);
        let i = (k / 2) / cols;
        let j = (k / 2) % cols;
        lemma_node_coordinates(cols, i, j);
        lemma_node_coordinates(cols, i, j + 1);
        lemma_node_coordinates(cols, i + 1, j);
        lemma_node_coordinates(cols, i + 1, j + 1);
        let t = triangulation(rows, cols)[k];
        let ax = node_row(cols, t.0);
        let ay = node_col(cols, t.0);
        let bx = node_row(cols, t.1);
        let by = node_col(cols, t.1);
        let cx = node_row(cols, t.2);
        let cy = node_col(cols, t.2);
        assert(bx == i && by == j);
        if k % 2 == 0 {
            assert(t == first_triangle(cols, i, j));
            assert(ax == i + 1 && ay == j && cx == i + 1 && cy == j + 1);
            lemma_area(bx - ax, cy - ay, by - ay, cx - ax);
        } else {
            assert(t == second_triangle(cols, i, j));
            assert(ax == i + 1 && ay == j + 1 && cx == i && cy == j + 1);
            lemma_area(bx - ax, cy - ay, by - ay, cx - ax);
        }
    }
}

/// The signed area of either half of a cell, from the two edge vectors
/// `(ux, uy)` and `(vx, vy)` that leave its first corner.
proof fn lemma_area(ux: int, vy: int, uy: int, vx: int)
    requires
        ux == -1,
        (vy == 1 && uy == 0 && vx == 0) || (vy == 0 && uy == -1 && vx == -1),
    ensures
        ux * vy - uy * vx == -1,
{
    assert(ux * vy - uy * vx == -1) by (nonlinear_arith)
        requires
            ux == -1,
            (vy == 1 && uy == 0 && vx == 0) || (vy == 0 && uy == -1 && vx == -1),
    ;
}

/// Builds the triangle list of a grid with `rows` by `cols` cells.
///
/// A grid that has cells must be addressable by `u32`; one without cells has
/// no triangles, whatever its other extent.
pub fn triangulate(rows: u32, cols: u32) -> (triangles: Vec<[u32; 3]>)
    requires
        rows > 0 && cols > 0 ==> addressable(rows as int, cols as int),
    ensures
        corner_list(triangles@) == triangulation(rows as int, cols as int),
        triangles@.len() == 2 * (rows * cols),
        forall|k: int|
            0 <= k < triangles@.len() ==> corners_below(
                corners(#[trigger] triangles@[k]),
                node_count(rows as int, cols as int),
            ),
{
    let mut triangles: Vec<[u32; 3]> = Vec::new();
    let mut i: u32 = 0;
    proof {
        assert(0 * (cols as int) == 0);
    }
    while i < rows
        invariant
            rows > 0 && cols > 0 ==> addressable(rows as int, cols as int),
            i <= rows,
            triangles@.len() == 2 * (i * cols),
            forall|k: int|
                0 <= k < triangles@.len() ==> corners(#[trigger] triangles@[k]) == cell_triangle(
                    cols as int,
                    k,
                ),
        decreases rows - i,
    {
        let mut j: u32 = 0;
        while j < cols
            invariant
                rows > 0 && cols > 0 ==> addressable(rows as int, cols as int),
                i < rows,
                j <= cols,
                triangles@.len() == 2 * (i * cols + j),
                forall|k: int|
                    0 <= k < triangles@.len() ==> corners(#[trigger] triangles@[k])
                        == cell_triangle(cols as int, k),
            decreases cols - j,
        {
            proof {
                lemma_row_addressable(rows as int, cols as int);
                lemma_node_index_bound(rows as int, cols as int, i as int, j as int);
                lemma_node_index_bound(rows as int, cols as int, i + 1, j + 1);
                lemma_node_index_bound(rows as int, cols as int, i + 1, j as int);
                lemma_cell_triangles(rows as int, cols as int, i as int, j as int);
                assert(0 <= i * (cols + 1)) by (nonlinear_arith);
                assert(0 <= (i + 1) * (cols + 1)) by (nonlinear_arith);
            }
            let bottom_left: u32 = i * (cols + 1) + j;
            let bottom_right: u32 = bottom_left + 1;
            let top_left: u32 = (i + 1) * (cols + 1) + j;
            let top_right: u32 = top_left + 1;
            let first: [u32; 3] = [top_left, bottom_left, top_right];
            let second: [u32; 3] = [top_right, bottom_left, bottom_right];
            assert(corners(first) == first_triangle(cols as int, i as int, j as int));
            assert(corners(second) == second_triangle(cols as int, i as int, j as int));
            triangles.push(first);
            triangles.push(second);
            j += 1;
        }
        proof {
            assert(i * cols + cols == (i + 1) * cols) by (nonlinear_arith);
        }
        i += 1;
    }
    proof {
        lemma_triangulation_in_range(rows as int, cols as int);
        assert(corner_list(triangles@) =~= triangulation(rows as int, cols as int));
        assert forall|k: int| 0 <= k < triangles@.len() implies corners_below(
            corners(#[trigger] triangles@[k]),
            node_count(rows as int, cols as int),
        ) by {
            assert(corners(triangles@[k]) == triangulation(rows as int, cols as int)[k]);
        }
    }
    triangles
}

/// Triangulating is a function of the grid alone: two triangle lists with
/// the corner triples of the same grid are the same list, element by element.
pub proof fn lemma_triangulation_deterministic(
    rows: int,
    cols: int,
    first: Seq<[u32; 3]>,
    second: Seq<[u32; 3]>,
)
    requires
        corner_list(first) == triangulation(rows, cols),
        corner_list(second) == triangulation(rows, cols),
    ensures
        first == second,
{
    assert(first.len() == corner_list(first).len());
    assert(second.len() == corner_list(second).len());
    assert forall|k: int| 0 <= k < first.len() implies first[k] == second[k] by {
        assert(corners(first[k]) == corner_list(first)[k]);
        assert(corners(second[k]) == corner_list(second)[k]);
        assert(first[k]@ =~= second[k]@);
        assert(first[k] =~= second[k]);
    }
    assert(first =~= second);
}

} // verus!

//! The index space of a rectangular sample grid.
//!
//! A grid of `rows` by `cols` cells has `(rows + 1) * (cols + 1)` nodes, laid
//! out row-major: node `(i, j)` sits at `i * (cols + 1) + j`.

use vstd::prelude::*;

verus! {

/// Number of nodes of a grid with `rows` by `cols` cells.
pub open spec fn node_count(rows: int, cols: int) -> int {
    (rows + 1) * (cols + 1)
}

/// Row-major position of node `(i, j)` in a grid with `cols` cells per row.
pub open spec fn node_index(cols: int, i: int, j: int) -> int {
    i * (cols + 1) + j
}

/// Row of the node at row-major position `index`.
pub open spec fn node_row(cols: int, index: int) -> int {
    index / (cols + 1)
}

/// Column of the node at row-major position `index`.
pub open spec fn node_col(cols: int, index: int) -> int {
    index % (cols + 1)
}

/// Whether every node of the grid can be addressed by a `u32`.
pub open spec fn addressable(rows: int, cols: int) -> bool {
    0 <= rows && 0 <= cols && node_count(rows, cols) <= u32::MAX
}

/// In an addressable grid the node count of a single row fits a `u32` too.
pub proof fn lemma_row_addressable(rows: int, cols: int)
    requires
        addressable(rows, cols),
    ensures
        cols + 1 <= node_count(rows, cols) <= u32::MAX,
        rows + 1 <= node_count(rows, cols),
{
    assert(cols + 1 <= (rows + 1) * (cols + 1)) by (nonlinear_arith)
        requires
            0 <= rows,
            0 <= cols,
    ;
    assert(rows + 1 <= (rows + 1) * (cols + 1)) by (nonlinear_arith)
        requires
            0 <= rows,
            0 <= cols,
    ;
}

/// Every node of the grid has a position below the node count.
pub proof fn lemma_node_index_bound(rows: int, cols: int, i: int, j: int)
    requires
        0 <= i <= rows,
        0 <= j <= cols,
    ensures
        0 <= node_index(cols, i, j) < node_count(rows, cols),
{
    assert(i * (cols + 1) <= rows * (cols + 1)) by (nonlinear_arith)
        requires
            0 <= i <= rows,
            0 <= cols,
    ;
    assert(0 <= i * (cols + 1)) by (nonlinear_arith)
        requires
            0 <= i,
            0 <= cols,
    ;
    assert((rows + 1) * (cols + 1) == rows * (cols + 1) + (cols + 1)) by (nonlinear_arith);
}

/// Distinct nodes have distinct positions.
pub proof fn lemma_node_index_injective(cols: int, i1: int, j1: int, i2: int, j2: int)
    requires
        0 <= j1 <= cols,
        0 <= j2 <= cols,
        node_index(cols, i1, j1) == node_index(cols, i2, j2),
    ensures
        i1 == i2,
        j1 == j2,
{
    assert(i1 == i2) by (nonlinear_arith)
        requires
            0 <= j1 <= cols,
            0 <= j2 <= cols,
            i1 * (cols + 1) + j1 == i2 * (cols + 1) + j2,
    ;
}

/// Row and column of a node are found again from its position.
pub proof fn lemma_node_coordinates(cols: int, i: int, j: int)
    requires
        0 <= j <= cols,
    ensures
        node_row(cols, node_index(cols, i, j)) == i,
        node_col(cols, node_index(cols, i, j)) == j,
{
    vstd::arithmetic::div_mod::lemma_fundamental_div_mod_converse(
        node_index(cols, i, j),
        cols + 1,
        i,
        j,
    );
}

/// Computes the row-major position of node `(i, j)`.
pub fn node_position(rows: u32, cols: u32, i: u32, j: u32) -> (index: u32)
    requires
        addressable(rows as int, cols as int),
        i <= rows,
        j <= cols,
    ensures
        index == node_index(cols as int, i as int, j as int),
        index < node_count(rows as int, cols as int),
{
    proof {
        lemma_row_addressable(rows as int, cols as int);
        lemma_node_index_bound(rows as int, cols as int, i as int, j as int);
        assert(0 <= i * (cols + 1)) by (nonlinear_arith);
    }
    i * (cols + 1) + j
}

/// Row-major order: a node of an earlier row, or an earlier node of the same
/// row, has a smaller position.
pub proof fn lemma_node_index_ordered(cols: int, a: int, b: int, i: int, j: int)
    requires
        0 <= a,
        0 <= b <= cols,
        0 <= j <= cols,
        a < i || (a == i && b < j),
    ensures
        0 <= node_index(cols, a, b) < node_index(cols, i, j),
{
    assert(0 <= a * (cols + 1)) by (nonlinear_arith)
        requires
            0 <= a,
            0 <= cols,
    ;
    if a < i {
        assert(a * (cols + 1) + (cols + 1) <= i * (cols + 1)) by (nonlinear_arith)
            requires
                a < i,
                0 <= cols,
        ;
    }
}

/// Whether `out` holds one sample for each node of the grid, in row-major
/// order, each of them a value that `f` may return for the node's row and
/// column.
pub open spec fn samples_of<T, F: Fn(u32, u32) -> T>(f: F, rows: int, cols: int, out: Seq<T>) -> bool {
    &&& out.len() == node_count(rows, cols)
    &&& forall|i: int, j: int|
        #![trigger node_index(cols, i, j)]
        0 <= i <= rows && 0 <= j <= cols ==> call_ensures(
            f,
            (i as u32, j as u32),
            out[node_index(cols, i, j)],
        )
}

/// Whether `f` may be called on every node of the grid.
pub open spec fn samples_everywhere<T, F: Fn(u32, u32) -> T>(f: F, rows: int, cols: int) -> bool {
    forall|i: u32, j: u32| i <= rows && j <= cols ==> call_requires(f, (i, j))
}

/// Calls `f` once on each node of the grid, row by row, and collects what it
/// returns.
pub fn sample_nodes<T, F: Fn(u32, u32) -> T>(rows: u32, cols: u32, f: F) -> (out: Vec<T>)
    requires
        addressable(rows as int, cols as int),
        samples_everywhere(f, rows as int, cols as int),
    ensures
        samples_of(f, rows as int, cols as int, out@),
{
    let mut out: Vec<T> = Vec::new();
    let mut i: u32 = 0;
    proof {
        lemma_row_addressable(rows as int, cols as int);
    }
    while i <= rows
        invariant
            addressable(rows as int, cols as int),
            samples_everywhere(f, rows as int, cols as int),
            cols + 1 <= u32::MAX,
            rows + 1 <= u32::MAX,
            i <= rows + 1,
            out@.len() == node_index(cols as int, i as int, 0),
            forall|a: int, b: int|
                #![trigger node_index(cols as int, a, b)]
                0 <= a < i && 0 <= b <= cols ==> call_ensures(
                    f,
                    (a as u32, b as u32),
                    out@[node_index(cols as int, a, b)],
                ),
        decreases rows + 1 - i,
    {
        let mut j: u32 = 0;
        while j <= cols
            invariant
                samples_everywhere(f, rows as int, cols as int),
                cols + 1 <= u32::MAX,
                i <= rows,
                j <= cols + 1,
                out@.len() == node_index(cols as int, i as int, j as int),
                forall|a: int, b: int|
                    #![trigger node_index(cols as int, a, b)]
                    0 <= a && 0 <= b <= cols && (a < i || (a == i && b < j)) ==> call_ensures(
                        f,
                        (a as u32, b as u32),
                        out@[node_index(cols as int, a, b)],
                    ),
            decreases cols + 1 - j,
        {
            let ghost before = out@;
            let sample = f(i, j);
            out.push(sample);
            proof {
                assert forall|a: int, b: int|
                    #![trigger node_index(cols as int, a, b)]
                    0 <= a && 0 <= b <= cols && (a < i || (a == i && b < j + 1)) implies call_ensures(
                    f,
                    (a as u32, b as u32),
                    out@[node_index(cols as int, a, b)],
                ) by {
                    if a < i || b < j {
                        lemma_node_index_ordered(cols as int, a, b, i as int, j as int);
                        assert(out@[node_index(cols as int, a, b)] == before[node_index(
                            cols as int,
                            a,
                            b,
                        )]);
                    }
                }
            }
            j += 1;
        }
        proof {
            assert(i * (cols + 1) + (cols + 1) == (i + 1) * (cols + 1)) by (nonlinear_arith);
        }
        i += 1;
    }
    out
}

} // verus!

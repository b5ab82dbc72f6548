//! A parametric surface sampled on a rectangular grid.
//!
//! The surface is generic in the type `D` of a point of the parameter domain
//! and in the type `V` of a vector in space. It never looks inside either:
//! what it owns is the layout of the samples and the triangles between them.

use vstd::prelude::*;
use crate::grid::{
    addressable,
    lemma_node_index_ordered,
    lemma_row_addressable,
    node_count,
    node_index,
    samples_everywhere,
};
use crate::indices::triangles_below;
use crate::triangulation::{
    corner_list,
    corners,
    corners_below,
    doubled_area,
    triangulate,
    triangulation,
};

verus! {

/// Why a surface could not be sampled.
#[derive(Clone, Copy, Debug, PartialEq, Eq, Structural)]
pub enum SurfaceError {
    /// The parameter rectangle cannot be sampled: it has no extent along one
    /// of its axes, or one of its two sample counts is zero.
    InvalidDomain,
}

/// The sampled tessellation of one parametric map.
pub struct Surface<D, V> {
    start: D,
    end: D,
    count: [u32; 2],
    positions: Vec<V>,
    normals: Vec<V>,
    triangles: Vec<[u32; 3]>,
}

/// What a `Surface` holds, as mathematical values.
pub struct SurfaceView<D, V> {
    /// Corner of the parameter rectangle at which sampling starts.
    pub start: D,
    /// Corner of the parameter rectangle opposite to `start`.
    pub end: D,
    /// Number of cells along the first axis.
    pub rows: int,
    /// Number of cells along the second axis.
    pub cols: int,
    /// One position per node, row-major.
    pub positions: Seq<V>,
    /// One normal per node, row-major.
    pub normals: Seq<V>,
    /// The triangles between the nodes.
    pub triangles: Seq<[u32; 3]>,
}

impl<D, V> SurfaceView<D, V> {
    /// The invariant of a surface: both sample counts are positive, there is
    /// one position and one normal for each node of the grid, and the
    /// triangles are those of the grid.
    pub open spec fn valid(self) -> bool {
        &&& 0 < self.rows
        &&& 0 < self.cols
        &&& addressable(self.rows, self.cols)
        &&& self.positions.len() == node_count(self.rows, self.cols)
        &&& self.normals.len() == node_count(self.rows, self.cols)
        &&& corner_list(self.triangles) == triangulation(self.rows, self.cols)
    }

    /// Whether the positions and normals are, node by node, a pair that `f`
    /// may return for the node's row and column.
    pub open spec fn sampled_from<F: Fn(u32, u32) -> (V, V)>(self, f: F) -> bool {
        forall|i: int, j: int|
            #![trigger node_index(self.cols, i, j)]
            0 <= i <= self.rows && 0 <= j <= self.cols ==> call_ensures(
                f,
                (i as u32, j as u32),
                (
                    self.positions[node_index(self.cols, i, j)],
                    self.normals[node_index(self.cols, i, j)],
                ),
            )
    }
}

impl<D, V> View for Surface<D, V> {
    type V = SurfaceView<D, V>;

    closed spec fn view(&self) -> SurfaceView<D, V> {
        SurfaceView {
            start: self.start,
            end: self.end,
            rows: self.count[0] as int,
            cols: self.count[1] as int,
            positions: self.positions@,
            normals: self.normals@,
            triangles: self.triangles@,
        }
    }
}

/// Every corner of every triangle of a valid surface is the position of one
/// of its samples.
pub proof fn lemma_triangles_in_range<D, V>(surface: SurfaceView<D, V>)
    requires
        surface.valid(),
    ensures
        surface.triangles.len() == 2 * (surface.rows * surface.cols),
        triangles_below(surface.triangles, surface.positions.len() as int),
        triangles_below(surface.triangles, surface.normals.len() as int),
{
    crate::triangulation::lemma_triangulation_in_range(surface.rows, surface.cols);
    let bound = node_count(surface.rows, surface.cols);
    assert(surface.triangles.len() == corner_list(surface.triangles).len());
    assert forall|k: int, c: int| 0 <= k < surface.triangles.len() && 0 <= c < 3 implies (
    #[trigger] surface.triangles[k][c]) < bound by {
        assert(corners(surface.triangles[k]) == corner_list(surface.triangles)[k]);
        assert(corners_below(triangulation(surface.rows, surface.cols)[k], bound));
    }
}

/// All triangles of a valid surface wind the same way in the grid, and none
/// of them is degenerate there.
pub proof fn lemma_surface_winding<D, V>(surface: SurfaceView<D, V>)
    requires
        surface.valid(),
    ensures
        forall|k: int|
            0 <= k < surface.triangles.len() ==> doubled_area(
                surface.cols,
                corners(#[trigger] surface.triangles[k]),
            ) == -1,
{
    crate::triangulation::lemma_winding_consistent(surface.rows, surface.cols);
    assert(surface.triangles.len() == corner_list(surface.triangles).len());
    assert forall|k: int| 0 <= k < surface.triangles.len() implies doubled_area(
        surface.cols,
        corners(#[trigger] surface.triangles[k]),
    ) == -1 by {
        assert(corners(surface.triangles[k]) == corner_list(surface.triangles)[k]);
    }
}

/// Whether a parameter rectangle can be sampled: it has an extent along both
/// axes, and a positive sample count for each.
pub open spec fn samplable(spans: [bool; 2], count: [u32; 2]) -> bool {
    spans[0] && spans[1] && count[0] > 0 && count[1] > 0
}

/// Samples a parametric map on a grid of `count[0]` by `count[1]` cells over
/// the parameter rectangle from `start` to `end`.
///
/// `spans` tells, for each axis, whether `start` and `end` differ along it.
/// A rectangle without extent along an axis is refused, and so is a count of
/// zero. Otherwise `f` is called once for each node `(i, j)` with
/// `i <= count[0]` and `j <= count[1]`, row by row, and returns the position
/// and the normal of the surface at that node.
pub fn parametric_surface<D, V, F: Fn(u32, u32) -> (V, V)>(
    start: D,
    end: D,
    spans: [bool; 2],
    count: [u32; 2],
    f: F,
) -> (result: Result<Surface<D, V>, SurfaceError>)
    requires
        samplable(spans, count) ==> addressable(count[0] as int, count[1] as int)
            && samples_everywhere(f, count[0] as int, count[1] as int),
    ensures
        result is Ok <==> samplable(spans, count),
        result matches Err(e) ==> e == SurfaceError::InvalidDomain,
        result matches Ok(surface) ==> {
            &&& surface@.valid()
            &&& surface@.start == start
            &&& surface@.end == end
            &&& surface@.rows == count[0]
            &&& surface@.cols == count[1]
            &&& surface@.sampled_from(f)
            &&& surface@.positions.len() == (count[0] + 1) * (count[1] + 1)
            &&& surface@.normals.len() == (count[0] + 1) * (count[1] + 1)
            &&& surface@.triangles.len() == 2 * (count[0] * count[1])
            &&& triangles_below(surface@.triangles, surface@.positions.len() as int)
        },
{
    let rows: u32 = count[0];
    let cols: u32 = count[1];
    if !spans[0] || !spans[1] || rows == 0 || cols == 0 {
        return Err(SurfaceError::InvalidDomain);
    }
    let mut positions: Vec<V> = Vec::new();
    let mut normals: Vec<V> = Vec::new();
    let mut i: u32 = 0;
    proof {
        lemma_row_addressable(rows as int, cols as int);
    }
    while i <= rows
        invariant
            samples_everywhere(f, rows as int, cols as int),
            cols + 1 <= u32::MAX,
            rows + 1 <= u32::MAX,
            i <= rows + 1,
            positions@.len() == node_index(cols as int, i as int, 0),
            normals@.len() == positions@.len(),
            forall|a: int, b: int|
                #![trigger node_index(cols as int, a, b)]
                0 <= a < i && 0 <= b <= cols ==> call_ensures(
                    f,
                    (a as u32, b as u32),
                    (
                        positions@[node_index(cols as int, a, b)],
                        normals@[node_index(cols as int, a, b)],
                    ),
                ),
        decreases rows + 1 - i,
    {
        let mut j: u32 = 0;
        while j <= cols
            invariant
                samples_everywhere(f, rows as int, cols as int),
                cols + 1 <= u32::MAX,
                i <= rows,
                j <= cols + 1,
                positions@.len() == node_index(cols as int, i as int, j as int),
                normals@.len() == positions@.len(),
                forall|a: int, b: int|
                    #![trigger node_index(cols as int, a, b)]
                    0 <= a && 0 <= b <= cols && (a < i || (a == i && b < j)) ==> call_ensures(
                        f,
                        (a as u32, b as u32),
                        (
                            positions@[node_index(cols as int, a, b)],
                            normals@[node_index(cols as int, a, b)],
                        ),
                    ),
            decreases cols + 1 - j,
        {
            let ghost positions_before = positions@;
            let ghost normals_before = normals@;
            let (position, normal) = f(i, j);
            positions.push(position);
            normals.push(normal);
            proof {
                assert forall|a: int, b: int|
                    #![trigger node_index(cols as int, a, b)]
                    0 <= a && 0 <= b <= cols && (a < i || (a == i && b < j + 1)) implies call_ensures(
                    f,
                    (a as u32, b as u32),
                    (
                        positions@[node_index(cols as int, a, b)],
                        normals@[node_index(cols as int, a, b)],
                    ),
                ) by {
                    let at = node_index(cols as int, a, b);
                    if a < i || b < j {
                        lemma_node_index_ordered(cols as int, a, b, i as int, j as int);
                        assert(positions@[at] == positions_before[at]);
                        assert(normals@[at] == normals_before[at]);
                    }
                }
            }
            j += 1;
        }
        proof {
            assert(i * (cols + 1) + (cols + 1) == (i + 1) * (cols + 1)) by (nonlinear_arith);
        }
        i += 1;
    }
    let triangles = triangulate(rows, cols);
    let surface = Surface { start, end, count, positions, normals, triangles };
    proof {
        lemma_triangles_in_range(surface@);
    }
    Ok(surface)
}

impl<D, V> Surface<D, V> {
    /// Holds of every surface: what it holds is valid.
    #[verifier::type_invariant]
    pub open spec fn well_formed(self) -> bool {
        self@.valid()
    }

    /// Corner of the parameter rectangle at which sampling starts.
    pub fn start(&self) -> (start: &D)
        ensures
            *start == self@.start,
    {
        &self.start
    }

    /// Corner of the parameter rectangle opposite to `start`.
    pub fn end(&self) -> (end: &D)
        ensures
            *end == self@.end,
    {
        &self.end
    }

    /// Number of cells along each of the two axes.
    pub fn count(&self) -> (count: [u32; 2])
        ensures
            count[0] == self@.rows,
            count[1] == self@.cols,
    {
        self.count
    }

    /// The sampled positions, one per node, row-major.
    pub fn positions(&self) -> (positions: &Vec<V>)
        ensures
            positions@ == self@.positions,
    {
        &self.positions
    }

    /// The normals, one per node, row-major.
    pub fn normals(&self) -> (normals: &Vec<V>)
        ensures
            normals@ == self@.normals,
    {
        &self.normals
    }

    /// The triangles between the nodes.
    pub fn triangles(&self) -> (triangles: &Vec<[u32; 3]>)
        ensures
            triangles@ == self@.triangles,
    {
        &self.triangles
    }
}

} // verus!

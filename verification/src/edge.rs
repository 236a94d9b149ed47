//! Grid indices and undirected grid edges.

use vstd::prelude::*;

verus! {

/// Index of a point in a grid's point sequence.
pub type GIndex = i32;

/// A grid edge, given by the indices of its two end points.
pub type Edge = (GIndex, GIndex);

/// The canonical form of an edge: the smaller index first.
pub open spec fn canonical(edge: Edge) -> Edge {
    if edge.0 <= edge.1 {
        edge
    } else {
        (edge.1, edge.0)
    }
}

/// Orders the two indices of an edge, so that an edge and its reverse
/// have the same canonical form.
pub fn normal_edge(edge: Edge) -> (e: Edge)
    requires
        edge.0 != edge.1,
    ensures
        e == canonical(edge),
        e.0 < e.1,
{
    let (a, b) = edge;
    if a < b {
        (a, b)
    } else {
        (b, a)
    }
}

} // verus!

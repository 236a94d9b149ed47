//! One mesh point per crossed grid edge.

use crate::edge::{canonical, normal_edge, Edge, GIndex};
use crate::grid::Grid;
use std::collections::HashMap;
use vstd::prelude::*;

verus! {

broadcast use vstd::std_specs::hash::group_hash_axioms;

/// The key under which a canonical edge is filed.
pub open spec fn edge_key(e: Edge) -> u64 {
    (e.0 as int * 0x1_0000_0000 + e.1 as int) as u64
}

/// The crossing points after a request for the canonical edge `e`: `e` is
/// appended unless it is there already.
pub open spec fn absorb(points: Seq<Edge>, e: Edge) -> Seq<Edge> {
    if points.contains(e) {
        points
    } else {
        points.push(e)
    }
}

/// The index that a request for the canonical edge `e` returns on `points`.
pub open spec fn index_in(points: Seq<Edge>, e: Edge) -> int {
    absorb(points, e).index_of(e)
}

/// The crossing points after the requests `edges`, made in order on `points`.
pub open spec fn absorb_all(points: Seq<Edge>, edges: Seq<Edge>) -> Seq<Edge>
    decreases edges.len(),
{
    if edges.len() == 0 {
        points
    } else {
        absorb(absorb_all(points, edges.drop_last()), edges.last())
    }
}

/// The different edges among `edges`, each at the place of its first occurrence.
pub open spec fn first_occurrences(edges: Seq<Edge>) -> Seq<Edge> {
    absorb_all(Seq::empty(), edges)
}

/// `points` goes on from `before` without changing what was there.
pub open spec fn extends(before: Seq<Edge>, points: Seq<Edge>) -> bool {
    &&& before.len() <= points.len()
    &&& forall|n: int| 0 <= n < before.len() ==> #[trigger] points[n] == before[n]
}

/// The crossing points found so far, each standing for the point at which
/// the surface crosses one grid edge, and the index of each by its edge.
pub struct EdgePoints<'a> {
    pub grid: &'a Grid,
    /// The crossed edges in canonical form, in the order of their first request.
    pub points: Vec<Edge>,
    pub edge_to_point_index: HashMap<u64, GIndex>,
}

impl<'a> EdgePoints<'a> {
    /// The edge `e` joins two different points of the grid, smaller index first.
    pub open spec fn is_grid_edge(grid: &Grid, e: Edge) -> bool {
        0 <= e.0 < e.1 < grid.points@.len()
    }

    /// The index map and the point sequence describe each other, and every
    /// point is a canonical edge of the grid.
    pub open spec fn wf(&self) -> bool {
        &&& self.points@.len() <= i32::MAX
        &&& forall|n: int|
            0 <= n < self.points@.len() ==> Self::is_grid_edge(self.grid, #[trigger] self.points@[n])
        &&& forall|n: int|
            0 <= n < self.points@.len() ==> {
                &&& self.edge_to_point_index@.contains_key(edge_key(#[trigger] self.points@[n]))
                &&& self.edge_to_point_index@[edge_key(self.points@[n])] == n
            }
        &&& forall|k: u64| #[trigger]
            self.edge_to_point_index@.contains_key(k) ==> {
                &&& 0 <= self.edge_to_point_index@[k] < self.points@.len()
                &&& edge_key(self.points@[self.edge_to_point_index@[k] as int]) == k
            }
    }

    /// An empty cache over the grid `g`.
    pub fn new(g: &'a Grid) -> (ep: EdgePoints<'a>)
        ensures
            ep.wf(),
            ep.grid == g,
            ep.points@ == Seq::<Edge>::empty(),
    {
        EdgePoints { grid: g, points: Vec::new(), edge_to_point_index: HashMap::new() }
    }

    /// The index of the crossing point on `edge`, whichever way round the edge
    /// is given. The first request for an edge appends its point; a later one
    /// only looks it up.
    pub fn point_index(&mut self, edge: Edge) -> (i: GIndex)
        requires
            old(self).wf(),
            edge.0 != edge.1,
            old(self).grid.has_point(edge.0 as int),
            old(self).grid.has_point(edge.1 as int),
            old(self).points@.contains(canonical(edge)) || old(self).points@.len() < i32::MAX,
        ensures
            final(self).wf(),
            final(self).grid == old(self).grid,
            final(self).points@ == absorb(old(self).points@, canonical(edge)),
            0 <= i < final(self).points@.len(),
            final(self).points@[i as int] == canonical(edge),
            i == index_in(old(self).points@, canonical(edge)),
    {
        let e = normal_edge(edge);
        let key: u64 = (e.0 as u64) * 0x1_0000_0000 + (e.1 as u64);
        assert(key == edge_key(e));
        proof {
            lemma_edge_key_injective();
        }
        match self.edge_to_point_index.get(&key) {
            Some(i) => {
                let i: GIndex = *i;
                assert(self.points@[i as int] == e);
                proof {
                    self.lemma_points_are_distinct();
                    assert(self.points@.contains(e));
                }
                return i;
            },
            None => {},
        }
        assert(!self.points@.contains(e)) by {
            if self.points@.contains(e) {
                let n = choose|n: int| 0 <= n < self.points@.len() && self.points@[n] == e;
                assert(self.edge_to_point_index@.contains_key(edge_key(self.points@[n])));
            }
        }
        let i: GIndex = self.points.len() as GIndex;
        self.edge_to_point_index.insert(key, i);
        self.points.push(e);
        assert(self.wf()) by {
            assert forall|n: int| 0 <= n < self.points@.len() implies {
                &&& self.edge_to_point_index@.contains_key(edge_key(#[trigger] self.points@[n]))
                &&& self.edge_to_point_index@[edge_key(self.points@[n])] == n
            } by {
                if n < old(self).points@.len() {
                    assert(self.points@[n] == old(self).points@[n]);
                    assert(old(self).points@.contains(self.points@[n]));
                }
            }
        }
        proof {
            self.lemma_points_are_distinct();
            assert(self.points@[i as int] == e);
            assert(self.points@.contains(e));
        }
        i
    }

    /// No edge has two crossing points.
    pub proof fn lemma_points_are_distinct(&self)
        requires
            self.wf(),
        ensures
            self.points@.no_duplicates(),
    {
        assert forall|n: int, m: int|
            0 <= n < self.points@.len() && 0 <= m < self.points@.len() && n != m implies self.points@[n]
            != self.points@[m] by {
            assert(self.edge_to_point_index@[edge_key(self.points@[n])] == n);
            assert(self.edge_to_point_index@[edge_key(self.points@[m])] == m);
        }
    }
}

/// An edge and its reverse are one request, and a request made again finds
/// what the first one left: it gives the same index and adds no point.
pub proof fn lemma_point_index_is_idempotent(points: Seq<Edge>, a: GIndex, b: GIndex)
    requires
        points.no_duplicates(),
    ensures
        canonical((a, b)) == canonical((b, a)),
        absorb(absorb(points, canonical((a, b))), canonical((b, a))) == absorb(
            points,
            canonical((a, b)),
        ),
        index_in(absorb(points, canonical((a, b))), canonical((b, a))) == index_in(
            points,
            canonical((a, b)),
        ),
        absorb(points, canonical((a, b))).no_duplicates(),
{
    let e = canonical((a, b));
    let after = absorb(points, e);
    if !points.contains(e) {
        assert(after[points.len() as int] == e);
        assert forall|n: int, m: int|
            0 <= n < after.len() && 0 <= m < after.len() && n != m implies after[n] != after[m] by {
            if n < points.len() {
                assert(points.contains(after[n]));
            }
            if m < points.len() {
                assert(points.contains(after[m]));
            }
        }
    }
    assert(after.contains(e));
}

/// Requests made one after the other are the requests of the joined sequence.
pub proof fn lemma_absorb_all_concat(points: Seq<Edge>, a: Seq<Edge>, b: Seq<Edge>)
    ensures
        absorb_all(points, a + b) == absorb_all(absorb_all(points, a), b),
    decreases b.len(),
{
    if b.len() == 0 {
        assert(a + b =~= a);
    } else {
        assert((a + b).drop_last() =~= a + b.drop_last());
        assert((a + b).last() == b.last());
        lemma_absorb_all_concat(points, a, b.drop_last());
    }
}

/// Requests never remove or move a crossing point.
pub proof fn lemma_absorb_all_extends(points: Seq<Edge>, edges: Seq<Edge>)
    ensures
        extends(points, absorb_all(points, edges)),
    decreases edges.len(),
{
    if edges.len() > 0 {
        lemma_absorb_all_extends(points, edges.drop_last());
    }
}

/// Requests add at most one point each.
pub proof fn lemma_absorb_all_len(points: Seq<Edge>, edges: Seq<Edge>)
    ensures
        absorb_all(points, edges).len() <= points.len() + edges.len(),
    decreases edges.len(),
{
    if edges.len() > 0 {
        lemma_absorb_all_len(points, edges.drop_last());
    }
}

/// Every edge that was asked for has a point after the requests.
pub proof fn lemma_absorb_all_contains(points: Seq<Edge>, edges: Seq<Edge>, i: int)
    requires
        0 <= i < edges.len(),
    ensures
        absorb_all(points, edges).contains(edges[i]),
    decreases edges.len(),
{
    let before = absorb_all(points, edges.drop_last());
    let after = absorb_all(points, edges);
    if i == edges.len() - 1 {
        if !before.contains(edges[i]) {
            assert(after[before.len() as int] == edges[i]);
        }
    } else {
        lemma_absorb_all_contains(points, edges.drop_last(), i);
        assert(edges.drop_last()[i] == edges[i]);
        let n = choose|n: int| 0 <= n < before.len() && before[n] == edges[i];
        assert(after[n] == edges[i]);
    }
}

/// Every point after the requests was there before or was asked for.
pub proof fn lemma_absorb_all_members(points: Seq<Edge>, edges: Seq<Edge>, n: int)
    requires
        0 <= n < absorb_all(points, edges).len(),
    ensures
        points.contains(absorb_all(points, edges)[n]) || edges.contains(
            absorb_all(points, edges)[n],
        ),
    decreases edges.len(),
{
    if edges.len() == 0 {
        assert(points[n] == absorb_all(points, edges)[n]);
    } else {
        let before = absorb_all(points, edges.drop_last());
        let e = absorb_all(points, edges)[n];
        if n < before.len() {
            lemma_absorb_all_members(points, edges.drop_last(), n);
            if edges.drop_last().contains(e) {
                let i = choose|i: int| 0 <= i < edges.drop_last().len() && edges.drop_last()[i] == e;
                assert(edges[i] == e);
            }
        } else {
            assert(edges[edges.len() - 1] == e);
        }
    }
}

/// Requests on points without duplicates leave points without duplicates.
pub proof fn lemma_absorb_all_no_duplicates(points: Seq<Edge>, edges: Seq<Edge>)
    requires
        points.no_duplicates(),
    ensures
        absorb_all(points, edges).no_duplicates(),
    decreases edges.len(),
{
    if edges.len() > 0 {
        lemma_absorb_all_no_duplicates(points, edges.drop_last());
        let before = absorb_all(points, edges.drop_last());
        let e = edges.last();
        let after = absorb(before, e);
        if !before.contains(e) {
            assert forall|n: int, m: int|
                0 <= n < after.len() && 0 <= m < after.len() && n != m implies after[n]
                != after[m] by {
                if n < before.len() {
                    assert(before.contains(after[n]));
                }
                if m < before.len() {
                    assert(before.contains(after[m]));
                }
            }
        }
    }
}

/// Different canonical edges between non-negative indices have different keys.
pub proof fn lemma_edge_key_injective()
    ensures
        forall|e: Edge, f: Edge|
            0 <= e.0 && 0 <= e.1 && 0 <= f.0 && 0 <= f.1 && #[trigger] edge_key(e) == #[trigger] edge_key(f)
                ==> e == f,
{
}

} // verus!

//! From tetrahedra and signs to triangles over crossing points.

use crate::cache::{
    absorb, absorb_all, extends, first_occurrences, lemma_absorb_all_concat,
    lemma_absorb_all_contains, lemma_absorb_all_extends, lemma_absorb_all_len,
    lemma_absorb_all_members,
    lemma_absorb_all_no_duplicates, EdgePoints,
};
use crate::edge::{canonical, Edge, GIndex};
use crate::field::{signs_of, PointValues, Sign};
use crate::grid::{mixed, relevant_in, touches, Grid, Tetrahedron};
use crate::winding::oriented;
use vstd::prelude::*;

verus! {

/// The vector against which the winding of a triangle is tested.
#[derive(Clone, Copy, PartialEq, Eq, Structural, Debug)]
pub enum Reference {
    /// The position of a grid point, taken as a vector.
    Position(GIndex),
    /// The vector from the first grid point to the second.
    Direction(GIndex, GIndex),
}

/// Three indices into a mesh's point sequence.
pub type Triangle = (GIndex, GIndex, GIndex);

/// A surface mesh. Each point is the crossing of the surface with one grid
/// edge and is given by that edge; the grid's own points are not part of it.
pub struct Mesh {
    pub points: Vec<Edge>,
    pub triangles: Vec<Triangle>,
    /// For each triangle, the vector that its winding is held against.
    pub references: Vec<Reference>,
}

/// A triangle before it has indices: the three crossed edges, in winding
/// order, and the reference vector.
pub struct Facet {
    pub corners: (Edge, Edge, Edge),
    pub reference: Reference,
}

/// The corners of `t` with a sample below zero, in corner order.
pub open spec fn negatives(t: Seq<GIndex>, signs: spec_fn(GIndex) -> Sign) -> Seq<GIndex> {
    t.filter(|v: GIndex| signs(v).below_zero())
}

/// The corners of `t` with a sample of zero or above, in corner order.
pub open spec fn positives(t: Seq<GIndex>, signs: spec_fn(GIndex) -> Sign) -> Seq<GIndex> {
    t.filter(|v: GIndex| signs(v).at_least_zero())
}

/// The edges from each of `x`, `y`, `z` to the corner `lone` that the surface
/// cuts off, in the order in which their crossing points are asked for.
pub open spec fn corner_requests(lone: GIndex, x: GIndex, y: GIndex, z: GIndex) -> Seq<Edge> {
    seq![canonical((x, lone)), canonical((y, lone)), canonical((z, lone))]
}

/// The one triangle that cuts off the corner `lone`.
pub open spec fn corner_facets(lone: GIndex, x: GIndex, y: GIndex, z: GIndex) -> Seq<Facet> {
    seq![
        Facet {
            corners: (canonical((x, lone)), canonical((y, lone)), canonical((z, lone))),
            reference: Reference::Position(lone),
        },
    ]
}

/// The four edges between the negative corners `a`, `b` and the positive
/// corners `c`, `d`, in the order in which their crossing points are asked for.
pub open spec fn quad_requests(a: GIndex, b: GIndex, c: GIndex, d: GIndex) -> Seq<Edge> {
    seq![canonical((a, c)), canonical((a, d)), canonical((b, c)), canonical((b, d))]
}

/// The two triangles of the quadrilateral between `a`, `b` and `c`, `d`. They
/// share the diagonal from the crossing on `(b, c)` to the crossing on `(a, d)`.
pub open spec fn quad_facets(a: GIndex, b: GIndex, c: GIndex, d: GIndex) -> Seq<Facet> {
    seq![
        Facet {
            corners: (canonical((a, c)), canonical((b, c)), canonical((a, d))),
            reference: Reference::Direction(a, c),
        },
        Facet {
            corners: (canonical((b, d)), canonical((b, c)), canonical((a, d))),
            reference: Reference::Direction(b, d),
        },
    ]
}

/// The edges of the tetrahedron `t` whose crossing points are asked for, in
/// order: none unless one, two or three corners lie below zero.
pub open spec fn tet_requests(t: Seq<GIndex>, signs: spec_fn(GIndex) -> Sign) -> Seq<Edge> {
    let m = negatives(t, signs);
    let p = positives(t, signs);
    if m.len() == 1 && p.len() == 3 {
        corner_requests(m[0], p[0], p[1], p[2])
    } else if m.len() == 2 && p.len() == 2 {
        quad_requests(m[0], m[1], p[0], p[1])
    } else if m.len() == 3 && p.len() == 1 {
        corner_requests(p[0], m[0], m[1], m[2])
    } else {
        Seq::empty()
    }
}

/// The triangles that the tetrahedron `t` gives.
pub open spec fn tet_facets(t: Seq<GIndex>, signs: spec_fn(GIndex) -> Sign) -> Seq<Facet> {
    let m = negatives(t, signs);
    let p = positives(t, signs);
    if m.len() == 1 && p.len() == 3 {
        corner_facets(m[0], p[0], p[1], p[2])
    } else if m.len() == 2 && p.len() == 2 {
        quad_facets(m[0], m[1], p[0], p[1])
    } else if m.len() == 3 && p.len() == 1 {
        corner_facets(p[0], m[0], m[1], m[2])
    } else {
        Seq::empty()
    }
}

/// All requests for crossing points, tetrahedron after tetrahedron.
pub open spec fn requests(tets: Seq<Seq<GIndex>>, signs: spec_fn(GIndex) -> Sign) -> Seq<Edge>
    decreases tets.len(),
{
    if tets.len() == 0 {
        Seq::empty()
    } else {
        requests(tets.drop_last(), signs) + tet_requests(tets.last(), signs)
    }
}

/// All triangles, tetrahedron after tetrahedron.
pub open spec fn facets(tets: Seq<Seq<GIndex>>, signs: spec_fn(GIndex) -> Sign) -> Seq<Facet>
    decreases tets.len(),
{
    if tets.len() == 0 {
        Seq::empty()
    } else {
        facets(tets.drop_last(), signs) + tet_facets(tets.last(), signs)
    }
}

/// The crossing points of a grid under the given signs: every crossed edge
/// once, in the order in which the walk over the tetrahedra first meets it.
pub open spec fn crossings(grid: &Grid, signs: spec_fn(GIndex) -> Sign) -> Seq<Edge> {
    first_occurrences(requests(grid.tetrahedra(), signs))
}

/// The surface crosses the edge `e`: the sample at one end lies below zero,
/// the sample at the other end at zero or above.
pub open spec fn crossed(e: Edge, signs: spec_fn(GIndex) -> Sign) -> bool {
    ||| signs(e.0).below_zero() && signs(e.1).at_least_zero()
    ||| signs(e.0).at_least_zero() && signs(e.1).below_zero()
}

/// The edge `e` joins two corners of the tetrahedron `t`.
pub open spec fn is_edge_of(t: Seq<GIndex>, e: Edge) -> bool {
    t.contains(e.0) && t.contains(e.1)
}

/// The facet `f` has a corner on the edge `e`.
pub open spec fn has_corner(f: Facet, e: Edge) -> bool {
    f.corners.0 == e || f.corners.1 == e || f.corners.2 == e
}

/// The triangle `t` has the point with index `k` as a corner.
pub open spec fn uses(t: Triangle, k: int) -> bool {
    t.0 == k || t.1 == k || t.2 == k
}

/// The triangle `t` has its corners, in order, at the crossing points of the
/// three edges `corners`.
pub open spec fn triangle_on(points: Seq<Edge>, t: Triangle, corners: (Edge, Edge, Edge)) -> bool {
    &&& 0 <= t.0 < points.len() && points[t.0 as int] == corners.0
    &&& 0 <= t.1 < points.len() && points[t.1 as int] == corners.1
    &&& 0 <= t.2 < points.len() && points[t.2 as int] == corners.2
}

/// The triangles `triangles` with their references are the facets `fs`, over `points`.
pub open spec fn triangles_on(
    points: Seq<Edge>,
    triangles: Seq<Triangle>,
    references: Seq<Reference>,
    fs: Seq<Facet>,
) -> bool {
    &&& triangles.len() == fs.len()
    &&& references.len() == fs.len()
    &&& forall|n: int|
        0 <= n < fs.len() ==> triangle_on(points, #[trigger] triangles[n], fs[n].corners)
    &&& forall|n: int| 0 <= n < fs.len() ==> #[trigger] references[n] == fs[n].reference
}

/// `triangles` goes on from `before` without changing what was there.
pub open spec fn extends_triangles(before: Seq<Triangle>, triangles: Seq<Triangle>) -> bool {
    &&& before.len() <= triangles.len()
    &&& forall|n: int| 0 <= n < before.len() ==> #[trigger] triangles[n] == before[n]
}

impl Mesh {
    /// Every triangle has its three corners among the points.
    pub open spec fn wf(&self) -> bool {
        &&& self.references@.len() == self.triangles@.len()
        &&& forall|n: int|
            0 <= n < self.triangles@.len() ==> {
                let t = #[trigger] self.triangles@[n];
                &&& 0 <= t.0 < self.points@.len()
                &&& 0 <= t.1 < self.points@.len()
                &&& 0 <= t.2 < self.points@.len()
            }
    }

    /// The mesh is the one that the walk over the grid's tetrahedra gives
    /// under the given signs, each triangle in the winding in which it was found.
    pub open spec fn is_mesh_of(&self, grid: &Grid, signs: spec_fn(GIndex) -> Sign) -> bool {
        &&& self.points@ == crossings(grid, signs)
        &&& triangles_on(
            self.points@,
            self.triangles@,
            self.references@,
            facets(grid.tetrahedra(), signs),
        )
    }
}

/// Walks the tetrahedra of `grid` in order and cuts each one whose corners
/// lie on both sides of zero. The mesh's points are the crossed edges, every
/// one once, in the order in which the walk first meets them; each triangle
/// is in the winding in which it was found, to be held against its reference.
pub fn make_mesh<PV: PointValues>(grid: &Grid, point_values: &PV) -> (mesh: Box<Mesh>)
    requires
        grid.in_range(),
        forall|n: int, c: int|
            0 <= n < grid.tetrahedra().len() && 0 <= c < 4 ==> point_values.has_value(
                #[trigger] grid.tetrahedra()[n][c],
            ),
        forall|n: int, c: int|
            0 <= n < grid.tetrahedra().len() && 0 <= c < 4 ==> point_values.sign_at(
                #[trigger] grid.tetrahedra()[n][c],
            ).ordered(),
        crossings(grid, signs_of(point_values)).len() <= i32::MAX,
    ensures
        mesh.is_mesh_of(grid, signs_of(point_values)),
        mesh.wf(),
{
    let mut edge_points = EdgePoints::new(grid);
    let mut mesh = Mesh { points: Vec::new(), triangles: Vec::new(), references: Vec::new() };
    let ghost signs = signs_of(point_values);
    let ghost tets = grid.tetrahedra();
    let mut n: usize = 0;
    assert(tets.take(0) =~= Seq::empty());
    while n < grid.tetrahedrons.len()
        invariant
            0 <= n <= grid.tetrahedrons@.len(),
            signs == signs_of(point_values),
            tets == grid.tetrahedra(),
            grid.in_range(),
            forall|n: int, c: int|
                0 <= n < grid.tetrahedra().len() && 0 <= c < 4 ==> point_values.has_value(
                    #[trigger] grid.tetrahedra()[n][c],
                ),
            forall|n: int, c: int|
                0 <= n < grid.tetrahedra().len() && 0 <= c < 4 ==> point_values.sign_at(
                    #[trigger] grid.tetrahedra()[n][c],
                ).ordered(),
            first_occurrences(requests(tets, signs)).len() <= i32::MAX,
            edge_points.wf(),
            edge_points.grid == grid,
            edge_points.points@ == first_occurrences(requests(tets.take(n as int), signs)),
            triangles_on(
                edge_points.points@,
                mesh.triangles@,
                mesh.references@,
                facets(tets.take(n as int), signs),
            ),
        decreases grid.tetrahedrons@.len() - n,
    {
        let t = &grid.tetrahedrons[n];
        let ghost before = edge_points.points@;
        let ghost fs = facets(tets.take(n as int), signs);
        proof {
            assert(tets[n as int] == t@);
            assert forall|c: int| 0 <= c < 4 implies point_values.has_value(#[trigger] t@[c])
                && point_values.sign_at(t@[c]).ordered() && grid.has_point(t@[c] as int) by {
                assert(t@[c] == grid.tetrahedra()[n as int][c]);
            }
            lemma_step(tets, signs, n as int);
            lemma_crossings_grow(tets, signs, n as int + 1);
            lemma_absorb_all_concat(
                Seq::empty(),
                requests(tets.take(n as int), signs),
                tet_requests(t@, signs),
            );
        }
        let (negative, positive) = partition(t, point_values);
        if negative.len() == 1 {
            cut_corner(
                &mut mesh,
                &mut edge_points,
                negative[0],
                positive[0],
                positive[1],
                positive[2],
            );
        } else if negative.len() == 2 {
            cut_quad(
                &mut mesh,
                &mut edge_points,
                negative[0],
                negative[1],
                positive[0],
                positive[1],
            );
        } else if negative.len() == 3 {
            cut_corner(
                &mut mesh,
                &mut edge_points,
                positive[0],
                negative[0],
                negative[1],
                negative[2],
            );
        }
        proof {
            let gs = tet_facets(t@, signs);
            assert(facets(tets.take(n as int + 1), signs) == fs + gs);
            assert(extends(before, edge_points.points@));
            assert forall|m: int| 0 <= m < (fs + gs).len() implies triangle_on(
                edge_points.points@,
                #[trigger] mesh.triangles@[m],
                (fs + gs)[m].corners,
            ) by {
                if m < fs.len() {
                    assert((fs + gs)[m] == fs[m]);
                } else {
                    assert((fs + gs)[m] == gs[m - fs.len()]);
                }
            }
            assert forall|m: int| 0 <= m < (fs + gs).len() implies #[trigger] mesh.references@[m]
                == (fs + gs)[m].reference by {
                if m < fs.len() {
                    assert((fs + gs)[m] == fs[m]);
                } else {
                    assert((fs + gs)[m] == gs[m - fs.len()]);
                }
            }
        }
        n += 1;
    }
    assert(tets.take(n as int) =~= tets);
    mesh.points = edge_points.points;
    assert(mesh.wf()) by {
        let fs = facets(tets, signs);
        assert forall|m: int| 0 <= m < mesh.triangles@.len() implies {
            let t = #[trigger] mesh.triangles@[m];
            &&& 0 <= t.0 < mesh.points@.len()
            &&& 0 <= t.1 < mesh.points@.len()
            &&& 0 <= t.2 < mesh.points@.len()
        } by {
            assert(triangle_on(mesh.points@, mesh.triangles@[m], fs[m].corners));
        }
    }
    Box::new(mesh)
}

/// Splits the corners of a tetrahedron into those below zero and the others.
fn partition<PV: PointValues>(t: &Tetrahedron, point_values: &PV) -> (r: (Vec<GIndex>, Vec<GIndex>))
    requires
        forall|c: int| 0 <= c < 4 ==> point_values.has_value(#[trigger] t@[c]),
    ensures
        r.0@ == negatives(t@, signs_of(point_values)),
        r.1@ == positives(t@, signs_of(point_values)),
        forall|n: int|
            0 <= n < r.0@.len() ==> t@.contains(#[trigger] r.0@[n]) && point_values.sign_at(
                r.0@[n],
            ).below_zero(),
        forall|n: int|
            0 <= n < r.1@.len() ==> t@.contains(#[trigger] r.1@[n]) && point_values.sign_at(
                r.1@[n],
            ).at_least_zero(),
        (forall|c: int| 0 <= c < 4 ==> point_values.sign_at(#[trigger] t@[c]).ordered()) ==> r.0@.len()
            + r.1@.len() == 4,
{
    let mut negative: Vec<GIndex> = Vec::new();
    let mut positive: Vec<GIndex> = Vec::new();
    let ghost signs = signs_of(point_values);
    let ghost below = |v: GIndex| signs(v).below_zero();
    let ghost above = |v: GIndex| signs(v).at_least_zero();
    let mut c: usize = 0;
    proof {
        reveal(Seq::filter);
        assert(t@.take(0) =~= Seq::empty());
    }
    while c < 4
        invariant
            0 <= c <= 4,
            t@.len() == 4,
            signs == signs_of(point_values),
            below == (|v: GIndex| signs(v).below_zero()),
            above == (|v: GIndex| signs(v).at_least_zero()),
            forall|c: int| 0 <= c < 4 ==> point_values.has_value(#[trigger] t@[c]),
            negative@ == t@.take(c as int).filter(below),
            positive@ == t@.take(c as int).filter(above),
            forall|n: int|
                0 <= n < negative@.len() ==> t@.contains(#[trigger] negative@[n])
                    && point_values.sign_at(negative@[n]).below_zero(),
            forall|n: int|
                0 <= n < positive@.len() ==> t@.contains(#[trigger] positive@[n])
                    && point_values.sign_at(positive@[n]).at_least_zero(),
            (forall|c: int| 0 <= c < 4 ==> point_values.sign_at(#[trigger] t@[c]).ordered())
                ==> negative@.len() + positive@.len() == c,
        decreases 4 - c,
    {
        let v: GIndex = t.points[c];
        let s = point_values.value(v);
        proof {
            reveal(Seq::filter);
            assert(t@.take(c as int + 1).drop_last() =~= t@.take(c as int));
            assert(t@.take(c as int + 1).last() == v);
            assert(t@[c as int] == v);
            assert(s == signs(v));
        }
        if s.is_below_zero() {
            negative.push(v);
        }
        if s.is_at_least_zero() {
            positive.push(v);
        }
        c += 1;
    }
    assert(t@.take(4) =~= t@);
    (negative, positive)
}

/// Cuts off the corner `lone`, whose sample lies on the other side of zero
/// than those of `x`, `y` and `z`: one triangle over the crossings of the
/// three edges that meet in `lone`.
fn cut_corner(
    mesh: &mut Mesh,
    ep: &mut EdgePoints,
    lone: GIndex,
    x: GIndex,
    y: GIndex,
    z: GIndex,
)
    requires
        old(ep).wf(),
        old(ep).grid.has_point(lone as int),
        old(ep).grid.has_point(x as int),
        old(ep).grid.has_point(y as int),
        old(ep).grid.has_point(z as int),
        lone != x,
        lone != y,
        lone != z,
        absorb_all(old(ep).points@, corner_requests(lone, x, y, z)).len() <= i32::MAX,
    ensures
        final(ep).wf(),
        final(ep).grid == old(ep).grid,
        final(ep).points@ == absorb_all(old(ep).points@, corner_requests(lone, x, y, z)),
        extends(old(ep).points@, final(ep).points@),
        final(mesh).points@ == old(mesh).points@,
        final(mesh).triangles@.len() == old(mesh).triangles@.len() + 1,
        extends_triangles(old(mesh).triangles@, final(mesh).triangles@),
        triangle_on(
            final(ep).points@,
            final(mesh).triangles@.last(),
            corner_facets(lone, x, y, z)[0].corners,
        ),
        final(mesh).references@ == old(mesh).references@.push(Reference::Position(lone)),
{
    proof {
        lemma_absorb_three(
            ep.points@,
            canonical((x, lone)),
            canonical((y, lone)),
            canonical((z, lone)),
        );
    }
    let i = ep.point_index((x, lone));
    let j = ep.point_index((y, lone));
    let k = ep.point_index((z, lone));
    mesh.triangles.push((i, j, k));
    mesh.references.push(Reference::Position(lone));
}

/// Cuts between the corners `a`, `b` below zero and the corners `c`, `d` at
/// or above it: two triangles over the crossings of the four edges between them.
fn cut_quad(mesh: &mut Mesh, ep: &mut EdgePoints, a: GIndex, b: GIndex, c: GIndex, d: GIndex)
    requires
        old(ep).wf(),
        old(ep).grid.has_point(a as int),
        old(ep).grid.has_point(b as int),
        old(ep).grid.has_point(c as int),
        old(ep).grid.has_point(d as int),
        a != c,
        a != d,
        b != c,
        b != d,
        absorb_all(old(ep).points@, quad_requests(a, b, c, d)).len() <= i32::MAX,
    ensures
        final(ep).wf(),
        final(ep).grid == old(ep).grid,
        final(ep).points@ == absorb_all(old(ep).points@, quad_requests(a, b, c, d)),
        extends(old(ep).points@, final(ep).points@),
        final(mesh).points@ == old(mesh).points@,
        final(mesh).triangles@.len() == old(mesh).triangles@.len() + 2,
        extends_triangles(old(mesh).triangles@, final(mesh).triangles@),
        triangle_on(
            final(ep).points@,
            final(mesh).triangles@[old(mesh).triangles@.len() as int],
            quad_facets(a, b, c, d)[0].corners,
        ),
        triangle_on(
            final(ep).points@,
            final(mesh).triangles@[old(mesh).triangles@.len() as int + 1],
            quad_facets(a, b, c, d)[1].corners,
        ),
        final(mesh).references@ == old(mesh).references@.push(Reference::Direction(a, c)).push(
            Reference::Direction(b, d),
        ),
{
    proof {
        lemma_absorb_four(
            ep.points@,
            canonical((a, c)),
            canonical((a, d)),
            canonical((b, c)),
            canonical((b, d)),
        );
    }
    let ac = ep.point_index((a, c));
    let ad = ep.point_index((a, d));
    let bc = ep.point_index((b, c));
    let bd = ep.point_index((b, d));
    mesh.triangles.push((ac, bc, ad));
    mesh.references.push(Reference::Direction(a, c));
    mesh.triangles.push((bd, bc, ad));
    mesh.references.push(Reference::Direction(b, d));
}

/// The mesh of a grid under given signs is one mesh: two meshes that both
/// are it have the same points, the same triangles and the same references,
/// and they still agree after both were oriented by the same flags. No edge
/// has two points in it, and every triangle has its corners among the points.
pub proof fn lemma_mesh_is_determined(
    a: &Mesh,
    b: &Mesh,
    grid: &Grid,
    signs: spec_fn(GIndex) -> Sign,
    outward: Seq<bool>,
)
    requires
        a.is_mesh_of(grid, signs),
        b.is_mesh_of(grid, signs),
    ensures
        a.points@ == b.points@,
        a.triangles@ == b.triangles@,
        a.references@ == b.references@,
        a.points@.no_duplicates(),
        a.wf(),
        Seq::new(a.triangles@.len(), |n: int| oriented(a.triangles@[n], outward[n])) == Seq::new(
            b.triangles@.len(),
            |n: int| oriented(b.triangles@[n], outward[n]),
        ),
{
    let fs = facets(grid.tetrahedra(), signs);
    lemma_absorb_all_no_duplicates(Seq::empty(), requests(grid.tetrahedra(), signs));
    assert forall|n: int| 0 <= n < fs.len() implies a.triangles@[n] == b.triangles@[n] by {
        assert(triangle_on(a.points@, a.triangles@[n], fs[n].corners));
        assert(triangle_on(b.points@, b.triangles@[n], fs[n].corners));
    }
    assert(a.triangles@ =~= b.triangles@);
    assert(a.references@ =~= b.references@);
    assert forall|n: int| 0 <= n < a.triangles@.len() implies {
        let t = #[trigger] a.triangles@[n];
        &&& 0 <= t.0 < a.points@.len()
        &&& 0 <= t.1 < a.points@.len()
        &&& 0 <= t.2 < a.points@.len()
    } by {
        assert(triangle_on(a.points@, a.triangles@[n], fs[n].corners));
    }
}

/// Every point of a mesh lies on an edge of a tetrahedron of the grid, and
/// on one that the surface crosses.
pub proof fn lemma_crossings_are_crossed(grid: &Grid, signs: spec_fn(GIndex) -> Sign, n: int)
    requires
        0 <= n < crossings(grid, signs).len(),
    ensures
        crossed(crossings(grid, signs)[n], signs),
        exists|m: int|
            0 <= m < grid.tetrahedra().len() && is_edge_of(
                #[trigger] grid.tetrahedra()[m],
                crossings(grid, signs)[n],
            ),
{
    let asked = requests(grid.tetrahedra(), signs);
    lemma_absorb_all_members(Seq::empty(), asked, n);
    let i = choose|i: int| 0 <= i < asked.len() && asked[i] == crossings(grid, signs)[n];
    lemma_requests_are_crossed(grid.tetrahedra(), signs, i);
}

/// A grid has at most four crossing points for each of its tetrahedra,
/// whatever the signs are.
pub proof fn lemma_crossings_are_bounded(grid: &Grid, signs: spec_fn(GIndex) -> Sign)
    ensures
        crossings(grid, signs).len() <= 4 * grid.tetrahedra().len(),
{
    lemma_requests_len(grid.tetrahedra(), signs);
    lemma_absorb_all_len(Seq::empty(), requests(grid.tetrahedra(), signs));
}

/// Every triangle of a mesh over a grid whose tetrahedra have four
/// different corners has three different corners.
pub proof fn lemma_triangles_have_three_corners(
    mesh: &Mesh,
    grid: &Grid,
    signs: spec_fn(GIndex) -> Sign,
    n: int,
)
    requires
        grid.wf(),
        mesh.is_mesh_of(grid, signs),
        0 <= n < mesh.triangles@.len(),
    ensures
        mesh.triangles@[n].0 != mesh.triangles@[n].1,
        mesh.triangles@[n].0 != mesh.triangles@[n].2,
        mesh.triangles@[n].1 != mesh.triangles@[n].2,
{
    let tets = grid.tetrahedra();
    let fs = facets(tets, signs);
    assert forall|m: int| 0 <= m < tets.len() implies (#[trigger] tets[m]).no_duplicates() by {
        let t = tets[m];
        assert forall|c: int, d: int| 0 <= c < t.len() && 0 <= d < t.len() && c != d implies t[c]
            != t[d] by {
            if c < d {
                assert(grid.tetrahedra()[m][c] != grid.tetrahedra()[m][d]);
            } else {
                assert(grid.tetrahedra()[m][d] != grid.tetrahedra()[m][c]);
            }
        }
    }
    lemma_facets_are_proper(tets, signs, n);
    assert(triangle_on(mesh.points@, mesh.triangles@[n], fs[n].corners));
}

/// Every point of a mesh is a corner of one of its triangles.
pub proof fn lemma_points_are_corners(
    mesh: &Mesh,
    grid: &Grid,
    signs: spec_fn(GIndex) -> Sign,
    k: int,
)
    requires
        mesh.is_mesh_of(grid, signs),
        0 <= k < mesh.points@.len(),
    ensures
        exists|n: int| 0 <= n < mesh.triangles@.len() && uses(#[trigger] mesh.triangles@[n], k),
{
    let tets = grid.tetrahedra();
    let asked = requests(tets, signs);
    let fs = facets(tets, signs);
    let e = mesh.points@[k];
    lemma_absorb_all_members(Seq::empty(), asked, k);
    let i = choose|i: int| 0 <= i < asked.len() && asked[i] == e;
    lemma_requests_are_corners(tets, signs, i);
    let n = choose|n: int| 0 <= n < fs.len() && has_corner(#[trigger] fs[n], e);
    lemma_absorb_all_no_duplicates(Seq::empty(), asked);
    assert(triangle_on(mesh.points@, mesh.triangles@[n], fs[n].corners));
    assert(uses(mesh.triangles@[n], k));
}

/// The three corners of every facet lie on three different edges, where
/// every tetrahedron has four different corners.
proof fn lemma_facets_are_proper(tets: Seq<Seq<GIndex>>, signs: spec_fn(GIndex) -> Sign, n: int)
    requires
        forall|m: int| 0 <= m < tets.len() ==> (#[trigger] tets[m]).no_duplicates(),
        0 <= n < facets(tets, signs).len(),
    ensures
        facets(tets, signs)[n].corners.0 != facets(tets, signs)[n].corners.1,
        facets(tets, signs)[n].corners.0 != facets(tets, signs)[n].corners.2,
        facets(tets, signs)[n].corners.1 != facets(tets, signs)[n].corners.2,
    decreases tets.len(),
{
    let before = facets(tets.drop_last(), signs);
    if n < before.len() {
        assert forall|m: int| 0 <= m < tets.drop_last().len() implies (
        #[trigger] tets.drop_last()[m]).no_duplicates() by {
            assert(tets.drop_last()[m] == tets[m]);
        }
        lemma_facets_are_proper(tets.drop_last(), signs, n);
    } else {
        let t = tets.last();
        assert(t == tets[tets.len() - 1]);
        let below = |v: GIndex| signs(v).below_zero();
        let above = |v: GIndex| signs(v).at_least_zero();
        let m = negatives(t, signs);
        let p = positives(t, signs);
        lemma_filter_no_duplicates(t, below);
        lemma_filter_no_duplicates(t, above);
        assert forall|c: int, d: int| 0 <= c < m.len() && 0 <= d < p.len() implies m[c]
            != p[d] by {
            t.lemma_filter_pred(below, c);
            t.lemma_filter_pred(above, d);
        }
        assert(facets(tets, signs)[n] == tet_facets(t, signs)[n - before.len()]);
        if m.len() == 2 && p.len() == 2 {
            assert(m[0] != m[1] && p[0] != p[1]);
            assert(m[0] != p[0] && m[0] != p[1] && m[1] != p[0] && m[1] != p[1]);
        } else if m.len() == 1 && p.len() == 3 {
            assert(p[0] != p[1] && p[0] != p[2] && p[1] != p[2]);
            assert(m[0] != p[0] && m[0] != p[1] && m[0] != p[2]);
        } else if m.len() == 3 && p.len() == 1 {
            assert(m[0] != m[1] && m[0] != m[2] && m[1] != m[2]);
            assert(m[0] != p[0] && m[1] != p[0] && m[2] != p[0]);
        }
    }
}

/// What is kept of a sequence without duplicates has no duplicates.
proof fn lemma_filter_no_duplicates(t: Seq<GIndex>, pred: spec_fn(GIndex) -> bool)
    requires
        t.no_duplicates(),
    ensures
        t.filter(pred).no_duplicates(),
    decreases t.len(),
{
    reveal(Seq::filter);
    if t.len() > 0 {
        let rest = t.drop_last();
        lemma_filter_no_duplicates(rest, pred);
        let kept = rest.filter(pred);
        if pred(t.last()) {
            assert forall|c: int| 0 <= c < kept.len() implies kept[c] != t.last() by {
                assert(kept.contains(kept[c]));
                rest.lemma_filter_contains_rev(pred, kept[c]);
                let d = choose|d: int| 0 <= d < rest.len() && rest[d] == kept[c];
                assert(t[d] == rest[d]);
            }
        }
    }
}

/// Every request is for a corner of a facet.
proof fn lemma_requests_are_corners(tets: Seq<Seq<GIndex>>, signs: spec_fn(GIndex) -> Sign, i: int)
    requires
        0 <= i < requests(tets, signs).len(),
    ensures
        exists|n: int|
            0 <= n < facets(tets, signs).len() && has_corner(
                #[trigger] facets(tets, signs)[n],
                requests(tets, signs)[i],
            ),
    decreases tets.len(),
{
    let asked_before = requests(tets.drop_last(), signs);
    let before = facets(tets.drop_last(), signs);
    let fs = facets(tets, signs);
    let e = requests(tets, signs)[i];
    if i < asked_before.len() {
        lemma_requests_are_corners(tets.drop_last(), signs, i);
        let n = choose|n: int| 0 <= n < before.len() && has_corner(#[trigger] before[n], e);
        assert(fs[n] == before[n]);
    } else {
        let t = tets.last();
        let j = i - asked_before.len();
        let own = tet_facets(t, signs);
        assert(e == tet_requests(t, signs)[j]);
        if j == 3 {
            assert(fs[before.len() as int + 1] == own[1]);
            assert(has_corner(own[1], e));
        } else {
            assert(fs[before.len() as int] == own[0]);
            assert(has_corner(own[0], e));
        }
    }
}

/// Every edge of a tetrahedron that the surface crosses has a point in the
/// mesh: with `lemma_crossings_are_crossed` and the absence of duplicates,
/// the points of a mesh are the crossed edges of the grid, each one once.
pub proof fn lemma_crossed_edges_have_points(
    grid: &Grid,
    signs: spec_fn(GIndex) -> Sign,
    n: int,
    c: int,
    d: int,
)
    requires
        0 <= n < grid.tetrahedra().len(),
        forall|v: int| 0 <= v < 4 ==> signs(#[trigger] grid.tetrahedra()[n][v]).ordered(),
        0 <= c < 4,
        0 <= d < 4,
        signs(grid.tetrahedra()[n][c]).below_zero(),
        signs(grid.tetrahedra()[n][d]).at_least_zero(),
    ensures
        crossings(grid, signs).contains(
            canonical((grid.tetrahedra()[n][c], grid.tetrahedra()[n][d])),
        ),
{
    let tets = grid.tetrahedra();
    let t = tets[n];
    let e = canonical((t[c], t[d]));
    lemma_tet_requests_contain(t, signs, c, d);
    let i = choose|i: int| 0 <= i < tet_requests(t, signs).len() && tet_requests(t, signs)[i] == e;
    lemma_requests_contain(tets, signs, n, i);
    let asked = requests(tets, signs);
    let j = choose|j: int| 0 <= j < asked.len() && asked[j] == e;
    lemma_absorb_all_contains(Seq::empty(), asked, j);
}

/// A tetrahedron asks for the point of each of its edges that the surface crosses.
proof fn lemma_tet_requests_contain(t: Seq<GIndex>, signs: spec_fn(GIndex) -> Sign, c: int, d: int)
    requires
        t.len() == 4,
        forall|v: int| 0 <= v < 4 ==> signs(#[trigger] t[v]).ordered(),
        0 <= c < 4,
        0 <= d < 4,
        signs(t[c]).below_zero(),
        signs(t[d]).at_least_zero(),
    ensures
        tet_requests(t, signs).contains(canonical((t[c], t[d]))),
{
    let below = |v: GIndex| signs(v).below_zero();
    let above = |v: GIndex| signs(v).at_least_zero();
    let m = negatives(t, signs);
    let p = positives(t, signs);
    let asked = tet_requests(t, signs);
    lemma_sides_len(t, signs);
    t.lemma_filter_contains(below, c);
    t.lemma_filter_contains(above, d);
    let i = choose|i: int| 0 <= i < m.len() && m[i] == t[c];
    let j = choose|j: int| 0 <= j < p.len() && p[j] == t[d];
    assert(canonical((p[j], m[i])) == canonical((m[i], p[j])));
    if m.len() == 1 {
        assert(asked[j] == canonical((p[j], m[0])));
    } else if m.len() == 2 {
        assert(asked[2 * i + j] == canonical((m[i], p[j])));
    } else {
        assert(asked[i] == canonical((m[i], p[0])));
    }
}

/// The requests of every tetrahedron are among the requests of all.
proof fn lemma_requests_contain(
    tets: Seq<Seq<GIndex>>,
    signs: spec_fn(GIndex) -> Sign,
    n: int,
    i: int,
)
    requires
        0 <= n < tets.len(),
        0 <= i < tet_requests(tets[n], signs).len(),
    ensures
        requests(tets, signs).contains(tet_requests(tets[n], signs)[i]),
    decreases tets.len(),
{
    let before = requests(tets.drop_last(), signs);
    let all = requests(tets, signs);
    let e = tet_requests(tets[n], signs)[i];
    if n == tets.len() - 1 {
        assert(all[before.len() + i] == e);
    } else {
        assert(tets.drop_last()[n] == tets[n]);
        lemma_requests_contain(tets.drop_last(), signs, n, i);
        let j = choose|j: int| 0 <= j < before.len() && before[j] == e;
        assert(all[j] == e);
    }
}

/// A tetrahedron is cut exactly where its samples are not all on one side:
/// it gives a triangle if and only if one of its samples lies below zero and
/// one at zero or above.
pub proof fn lemma_cut_tetrahedra_are_mixed(t: Seq<GIndex>, signs: spec_fn(GIndex) -> Sign)
    requires
        t.len() == 4,
        forall|c: int| 0 <= c < 4 ==> signs(#[trigger] t[c]).ordered(),
    ensures
        mixed(t, signs) <==> tet_facets(t, signs).len() > 0,
        mixed(t, signs) <==> tet_requests(t, signs).len() > 0,
{
    let below = |v: GIndex| signs(v).below_zero();
    let above = |v: GIndex| signs(v).at_least_zero();
    let m = negatives(t, signs);
    let p = positives(t, signs);
    lemma_sides_len(t, signs);
    if m.len() > 0 {
        t.lemma_filter_pred(below, 0);
        assert(t.filter(below).contains(m[0]));
        t.lemma_filter_contains_rev(below, m[0]);
        let c = choose|c: int| 0 <= c < t.len() && t[c] == m[0];
        assert(!signs(t[c]).at_least_zero());
    }
    if p.len() > 0 {
        t.lemma_filter_pred(above, 0);
        assert(t.filter(above).contains(p[0]));
        t.lemma_filter_contains_rev(above, p[0]);
        let c = choose|c: int| 0 <= c < t.len() && t[c] == p[0];
        assert(signs(t[c]).at_least_zero());
    }
    if mixed(t, signs) {
        let c = choose|c: int| 0 <= c < 4 && signs(#[trigger] t[c]).at_least_zero();
        t.lemma_filter_contains(above, c);
        let d = choose|d: int| 0 <= d < 4 && !signs(#[trigger] t[d]).at_least_zero();
        assert(signs(t[d]).below_zero());
        t.lemma_filter_contains(below, d);
    }
}

/// A point is relevant exactly where it is a corner of a tetrahedron that
/// is cut: the flags of `relevant_points` are set at the corners of the
/// tetrahedra from which `make_mesh` takes its triangles, and nowhere else.
pub proof fn lemma_relevant_points_are_corners_of_cut_tetrahedra(
    grid: &Grid,
    signs: spec_fn(GIndex) -> Sign,
    p: int,
)
    requires
        forall|n: int, c: int|
            0 <= n < grid.tetrahedra().len() && 0 <= c < 4 ==> signs(
                #[trigger] grid.tetrahedra()[n][c],
            ).ordered(),
    ensures
        relevant_in(grid.tetrahedra(), signs, p) <==> exists|n: int|
            0 <= n < grid.tetrahedra().len() && touches(#[trigger] grid.tetrahedra()[n], p)
                && tet_facets(grid.tetrahedra()[n], signs).len() > 0,
{
    let tets = grid.tetrahedra();
    assert forall|n: int| 0 <= n < tets.len() implies (mixed(#[trigger] tets[n], signs)
        <==> tet_facets(tets[n], signs).len() > 0) by {
        assert forall|c: int| 0 <= c < 4 implies signs(#[trigger] tets[n][c]).ordered() by {}
        lemma_cut_tetrahedra_are_mixed(tets[n], signs);
    }
}

/// Both ends of the edge of every point of a mesh are relevant points.
pub proof fn lemma_crossings_are_relevant(grid: &Grid, signs: spec_fn(GIndex) -> Sign, n: int)
    requires
        0 <= n < crossings(grid, signs).len(),
    ensures
        relevant_in(grid.tetrahedra(), signs, crossings(grid, signs)[n].0 as int),
        relevant_in(grid.tetrahedra(), signs, crossings(grid, signs)[n].1 as int),
{
    let tets = grid.tetrahedra();
    let e = crossings(grid, signs)[n];
    lemma_crossings_are_crossed(grid, signs, n);
    let m = choose|m: int| 0 <= m < tets.len() && is_edge_of(#[trigger] tets[m], e);
    let t = tets[m];
    let c = choose|c: int| 0 <= c < t.len() && t[c] == e.0;
    let d = choose|d: int| 0 <= d < t.len() && t[d] == e.1;
    assert(t[c] == e.0 && t[d] == e.1);
    assert(touches(t, e.0 as int));
    assert(touches(t, e.1 as int));
    assert(mixed(t, signs));
}

/// Where every sample compares with zero, each corner of a tetrahedron lies
/// on one of the two sides.
proof fn lemma_sides_len(t: Seq<GIndex>, signs: spec_fn(GIndex) -> Sign)
    requires
        forall|c: int| 0 <= c < t.len() ==> signs(#[trigger] t[c]).ordered(),
    ensures
        negatives(t, signs).len() + positives(t, signs).len() == t.len(),
    decreases t.len(),
{
    reveal(Seq::filter);
    if t.len() > 0 {
        assert forall|c: int| 0 <= c < t.drop_last().len() implies signs(
            #[trigger] t.drop_last()[c],
        ).ordered() by {
            assert(t.drop_last()[c] == t[c]);
        }
        lemma_sides_len(t.drop_last(), signs);
        assert(signs(t[t.len() - 1]).ordered());
    }
}

/// Every request is for an edge of a tetrahedron that the surface crosses.
proof fn lemma_requests_are_crossed(tets: Seq<Seq<GIndex>>, signs: spec_fn(GIndex) -> Sign, i: int)
    requires
        0 <= i < requests(tets, signs).len(),
    ensures
        crossed(requests(tets, signs)[i], signs),
        exists|m: int|
            0 <= m < tets.len() && is_edge_of(#[trigger] tets[m], requests(tets, signs)[i]),
    decreases tets.len(),
{
    let before = requests(tets.drop_last(), signs);
    let e = requests(tets, signs)[i];
    if i < before.len() {
        lemma_requests_are_crossed(tets.drop_last(), signs, i);
        let m = choose|m: int|
            0 <= m < tets.drop_last().len() && is_edge_of(#[trigger] tets.drop_last()[m], e);
        assert(tets[m] == tets.drop_last()[m]);
    } else {
        let t = tets.last();
        let below = |v: GIndex| signs(v).below_zero();
        let above = |v: GIndex| signs(v).at_least_zero();
        let m = negatives(t, signs);
        let p = positives(t, signs);
        assert forall|c: int| 0 <= c < m.len() implies signs(#[trigger] m[c]).below_zero()
            && t.contains(m[c]) by {
            t.lemma_filter_pred(below, c);
            assert(t.filter(below).contains(m[c]));
            t.lemma_filter_contains_rev(below, m[c]);
        }
        assert forall|c: int| 0 <= c < p.len() implies signs(#[trigger] p[c]).at_least_zero()
            && t.contains(p[c]) by {
            t.lemma_filter_pred(above, c);
            assert(t.filter(above).contains(p[c]));
            t.lemma_filter_contains_rev(above, p[c]);
        }
        assert(e == tet_requests(t, signs)[i - before.len()]);
        assert(is_edge_of(tets[tets.len() - 1], e));
    }
}

/// Taking one more tetrahedron adds its requests and its triangles at the end.
proof fn lemma_step(tets: Seq<Seq<GIndex>>, signs: spec_fn(GIndex) -> Sign, n: int)
    requires
        0 <= n < tets.len(),
    ensures
        requests(tets.take(n + 1), signs) == requests(tets.take(n), signs) + tet_requests(
            tets[n],
            signs,
        ),
        facets(tets.take(n + 1), signs) == facets(tets.take(n), signs) + tet_facets(tets[n], signs),
{
    assert(tets.take(n + 1).drop_last() =~= tets.take(n));
    assert(tets.take(n + 1).last() == tets[n]);
}

/// The crossing points of the first `n` tetrahedra are no more than those of all.
proof fn lemma_crossings_grow(tets: Seq<Seq<GIndex>>, signs: spec_fn(GIndex) -> Sign, n: int)
    requires
        0 <= n <= tets.len(),
    ensures
        first_occurrences(requests(tets.take(n), signs)).len() <= first_occurrences(
            requests(tets, signs),
        ).len(),
    decreases tets.len() - n,
{
    if n == tets.len() {
        assert(tets.take(n) =~= tets);
    } else {
        lemma_step(tets, signs, n);
        lemma_absorb_all_concat(
            Seq::empty(),
            requests(tets.take(n), signs),
            tet_requests(tets[n], signs),
        );
        lemma_absorb_all_extends(
            first_occurrences(requests(tets.take(n), signs)),
            tet_requests(tets[n], signs),
        );
        lemma_crossings_grow(tets, signs, n + 1);
    }
}

/// Every tetrahedron makes at most four requests.
proof fn lemma_requests_len(tets: Seq<Seq<GIndex>>, signs: spec_fn(GIndex) -> Sign)
    ensures
        requests(tets, signs).len() <= 4 * tets.len(),
    decreases tets.len(),
{
    if tets.len() > 0 {
        lemma_requests_len(tets.drop_last(), signs);
    }
}

/// Three requests in a row, written out.
proof fn lemma_absorb_three(points: Seq<Edge>, e0: Edge, e1: Edge, e2: Edge)
    ensures
        absorb_all(points, seq![e0, e1, e2]) == absorb(absorb(absorb(points, e0), e1), e2),
        absorb(points, e0).len() <= absorb(absorb(points, e0), e1).len() <= absorb(
            absorb(absorb(points, e0), e1),
            e2,
        ).len(),
{
    let s3 = seq![e0, e1, e2];
    let s2 = seq![e0, e1];
    let s1 = seq![e0];
    assert(s3.drop_last() =~= s2);
    assert(s2.drop_last() =~= s1);
    assert(s1.drop_last() =~= Seq::<Edge>::empty());
    assert(absorb_all(points, Seq::<Edge>::empty()) == points);
    assert(absorb_all(points, s1) == absorb(points, e0));
    assert(absorb_all(points, s2) == absorb(absorb(points, e0), e1));
}

/// Four requests in a row, written out.
proof fn lemma_absorb_four(points: Seq<Edge>, e0: Edge, e1: Edge, e2: Edge, e3: Edge)
    ensures
        absorb_all(points, seq![e0, e1, e2, e3]) == absorb(
            absorb(absorb(absorb(points, e0), e1), e2),
            e3,
        ),
        absorb(points, e0).len() <= absorb(absorb(points, e0), e1).len() <= absorb(
            absorb(absorb(points, e0), e1),
            e2,
        ).len() <= absorb(absorb(absorb(absorb(points, e0), e1), e2), e3).len(),
{
    let s4 = seq![e0, e1, e2, e3];
    let s3 = seq![e0, e1, e2];
    assert(s4.drop_last() =~= s3);
    lemma_absorb_three(points, e0, e1, e2);
}

} // verus!

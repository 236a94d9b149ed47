//! The winding of triangles.
//!
//! A triangle is found with its corners in some order. Whether that order
//! faces the way of the triangle's reference vector is read off coordinates,
//! which the caller holds; the triangles are turned here.

use crate::mesh::{Mesh, Reference, Triangle};
use vstd::prelude::*;

verus! {

/// The triangle `t` with its corners in the opposite order.
pub open spec fn reversed(t: Triangle) -> Triangle {
    (t.2, t.1, t.0)
}

/// The triangle `t` in its final winding: as it is where it faces the way of
/// its reference (`outward`), reversed where it does not.
pub open spec fn oriented(t: Triangle, outward: bool) -> Triangle {
    if outward {
        t
    } else {
        reversed(t)
    }
}

/// Gives a triangle its final winding. `outward` says whether the cross
/// product of its edge vectors, from the first corner to the second and from
/// the first to the third, has a positive dot product with its reference.
pub fn orient_triangle(t: Triangle, outward: bool) -> (r: Triangle)
    ensures
        r == oriented(t, outward),
{
    if outward {
        t
    } else {
        (t.2, t.1, t.0)
    }
}

impl Mesh {
    /// Gives every triangle its final winding: triangle `n` stays as it is
    /// where `outward[n]` holds and is reversed where it does not.
    pub fn orient(&mut self, outward: &Vec<bool>)
        requires
            outward@.len() == old(self).triangles@.len(),
        ensures
            final(self).points@ == old(self).points@,
            final(self).references@ == old(self).references@,
            final(self).triangles@.len() == old(self).triangles@.len(),
            forall|n: int|
                0 <= n < old(self).triangles@.len() ==> #[trigger] final(self).triangles@[n]
                    == oriented(old(self).triangles@[n], outward@[n]),
            old(self).wf() ==> final(self).wf(),
    {
        let mut n: usize = 0;
        while n < self.triangles.len()
            invariant
                0 <= n <= self.triangles@.len(),
                outward@.len() == self.triangles@.len(),
                self.points@ == old(self).points@,
                self.references@ == old(self).references@,
                self.triangles@.len() == old(self).triangles@.len(),
                forall|m: int|
                    0 <= m < n ==> #[trigger] self.triangles@[m] == oriented(
                        old(self).triangles@[m],
                        outward@[m],
                    ),
                forall|m: int|
                    n <= m < self.triangles@.len() ==> #[trigger] self.triangles@[m] == old(
                        self,
                    ).triangles@[m],
            decreases self.triangles@.len() - n,
        {
            let t = orient_triangle(self.triangles[n], outward[n]);
            self.triangles.set(n, t);
            n += 1;
        }
    }
}

/// A vector or a position with whole coordinates.
pub type Vector = (int, int, int);

/// The difference `a - b`.
pub open spec fn minus(a: Vector, b: Vector) -> Vector {
    (a.0 - b.0, a.1 - b.1, a.2 - b.2)
}

/// The cross product of `u` and `v`.
pub open spec fn cross(u: Vector, v: Vector) -> Vector {
    (u.1 * v.2 - u.2 * v.1, u.2 * v.0 - u.0 * v.2, u.0 * v.1 - u.1 * v.0)
}

/// The dot product of `u` and `v`.
pub open spec fn dot(u: Vector, v: Vector) -> int {
    u.0 * v.0 + u.1 * v.1 + u.2 * v.2
}

/// The vector that a reference stands for, over the positions `at` of the
/// grid points.
pub open spec fn reference_vector(at: Seq<Vector>, r: Reference) -> Vector {
    match r {
        Reference::Position(p) => at[p as int],
        Reference::Direction(from, to) => minus(at[to as int], at[from as int]),
    }
}

/// How the triangle `t` over the positions `at` winds as seen along `r`: the
/// cross product of its two edge vectors from the first corner, dotted with `r`.
pub open spec fn winding(at: Seq<Vector>, t: Triangle, r: Vector) -> int {
    dot(cross(minus(at[t.1 as int], at[t.0 as int]), minus(at[t.2 as int], at[t.0 as int])), r)
}

/// Over positions with whole coordinates, reversing a triangle negates its
/// winding. So a triangle that is oriented by the sign of its own winding
/// never winds against its reference afterwards.
pub proof fn lemma_oriented_winding_is_not_negative(at: Seq<Vector>, t: Triangle, r: Vector)
    ensures
        winding(at, reversed(t), r) == -winding(at, t, r),
        winding(at, oriented(t, winding(at, t, r) > 0), r) >= 0,
{
    let p = at[t.0 as int];
    let q = at[t.1 as int];
    let s = at[t.2 as int];
    let u = minus(q, p);
    let v = minus(s, p);
    let c = cross(u, v);
    let back = cross(minus(q, s), minus(p, s));
    assert(minus(q, s) == (u.0 - v.0, u.1 - v.1, u.2 - v.2));
    assert(minus(p, s) == (-v.0, -v.1, -v.2));
    assert((u.1 - v.1) * (-v.2) - (u.2 - v.2) * (-v.1) == -(u.1 * v.2 - u.2 * v.1))
        by (nonlinear_arith);
    assert((u.2 - v.2) * (-v.0) - (u.0 - v.0) * (-v.2) == -(u.2 * v.0 - u.0 * v.2))
        by (nonlinear_arith);
    assert((u.0 - v.0) * (-v.1) - (u.1 - v.1) * (-v.0) == -(u.0 * v.1 - u.1 * v.0))
        by (nonlinear_arith);
    assert(back == (-c.0, -c.1, -c.2));
    assert((-c.0) * r.0 + (-c.1) * r.1 + (-c.2) * r.2 == -(c.0 * r.0 + c.1 * r.1 + c.2 * r.2))
        by (nonlinear_arith);
}

/// Over positions with whole coordinates, a mesh whose triangles were each
/// oriented by the sign of their own winding has no triangle that winds
/// against its reference.
pub proof fn lemma_oriented_mesh_winds_with_its_references(
    grid_at: Seq<Vector>,
    at: Seq<Vector>,
    references: Seq<Reference>,
    found: Seq<Triangle>,
    outward: Seq<bool>,
    triangles: Seq<Triangle>,
)
    requires
        references.len() == found.len(),
        outward.len() == found.len(),
        triangles.len() == found.len(),
        forall|n: int|
            0 <= n < found.len() ==> #[trigger] outward[n] == (winding(
                at,
                found[n],
                reference_vector(grid_at, references[n]),
            ) > 0),
        forall|n: int|
            0 <= n < found.len() ==> #[trigger] triangles[n] == oriented(found[n], outward[n]),
    ensures
        forall|n: int|
            0 <= n < found.len() ==> winding(
                at,
                #[trigger] triangles[n],
                reference_vector(grid_at, references[n]),
            ) >= 0,
{
    assert forall|n: int| 0 <= n < found.len() implies winding(
        at,
        #[trigger] triangles[n],
        reference_vector(grid_at, references[n]),
    ) >= 0 by {
        lemma_oriented_winding_is_not_negative(
            at,
            found[n],
            reference_vector(grid_at, references[n]),
        );
    }
}

} // verus!

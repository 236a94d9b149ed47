//! The lattice of sample points and its decomposition into tetrahedra.

use crate::edge::GIndex;
use crate::field::{signs_of, PointValues, Sign};
use vstd::arithmetic::div_mod::lemma_fundamental_div_mod_converse;
use vstd::prelude::*;

verus! {

/// A sample point, by its lattice coordinates along the three axes.
pub type Point = (GIndex, GIndex, GIndex);

/// Four grid points, by index.
pub struct Tetrahedron {
    pub points: [GIndex; 4],
}

impl View for Tetrahedron {
    type V = Seq<GIndex>;

    /// The four corner indices, in order.
    open spec fn view(&self) -> Seq<GIndex> {
        self.points@
    }
}

/// Sample points and the tetrahedra spanned between them.
pub struct Grid {
    pub points: Vec<Point>,
    pub tetrahedrons: Vec<Tetrahedron>,
}

/// The number of samples along an axis for which `n` were asked: `n` itself
/// if it is odd, the next odd number if it is even.
pub open spec fn odd_extent(n: int) -> int {
    n + (1 - n % 2)
}

/// The number of samples along an axis that a grid is built with: the odd
/// extent of a request that is not negative, and none for one that is.
pub open spec fn axis_len(n: int) -> int {
    if n < 0 {
        0
    } else if n % 2 == 0 {
        n + 1
    } else {
        n
    }
}

/// The place of the lattice point `(i, j, k)` in row-major order, on a
/// lattice with `m2` and `m3` points along the second and third axis.
pub open spec fn lattice_index(m2: int, m3: int, i: int, j: int, k: int) -> int {
    k + m3 * (j + m2 * i)
}

/// The lattice point at place `p` in row-major order.
pub open spec fn lattice_point(m2: int, m3: int, p: int) -> (int, int, int) {
    ((p / m3) / m2, (p / m3) % m2, p % m3)
}

/// The first `len` points of a lattice in row-major order.
pub open spec fn lattice_points_upto(m2: int, m3: int, len: int) -> Seq<Point> {
    Seq::new(
        len as nat,
        |p: int|
            {
                let q = lattice_point(m2, m3, p);
                (q.0 as GIndex, q.1 as GIndex, q.2 as GIndex)
            },
    )
}

/// All points of the lattice with `m1`, `m2`, `m3` points along its axes, in
/// row-major order.
pub open spec fn lattice_points(m1: int, m2: int, m3: int) -> Seq<Point> {
    lattice_points_upto(m2, m3, m1 * m2 * m3)
}

/// The number of blocks of two by two by two cells along an axis of `m` points.
pub open spec fn blocks(m: int) -> int {
    if m >= 1 {
        (m - 1) / 2
    } else {
        0
    }
}

/// The `t`-th of the five tetrahedra of the unit cube between the corner
/// `(i, j, k)` and the opposite corner `(ii, jj, kk)`: four that cut off the
/// corner `(i, j, k)` and the three corners that share no edge with one
/// another or with it, then the one in the middle that is left.
pub open spec fn box_tetrahedron(
    m2: int,
    m3: int,
    i: int,
    ii: int,
    j: int,
    jj: int,
    k: int,
    kk: int,
    t: int,
) -> Seq<GIndex> {
    if t == 0 {
        seq![
            lattice_index(m2, m3, i, j, k) as GIndex,
            lattice_index(m2, m3, ii, j, k) as GIndex,
            lattice_index(m2, m3, i, jj, k) as GIndex,
            lattice_index(m2, m3, i, j, kk) as GIndex,
        ]
    } else if t == 1 {
        seq![
            lattice_index(m2, m3, ii, jj, k) as GIndex,
            lattice_index(m2, m3, ii, j, k) as GIndex,
            lattice_index(m2, m3, i, jj, k) as GIndex,
            lattice_index(m2, m3, ii, jj, kk) as GIndex,
        ]
    } else if t == 2 {
        seq![
            lattice_index(m2, m3, i, jj, kk) as GIndex,
            lattice_index(m2, m3, i, j, kk) as GIndex,
            lattice_index(m2, m3, ii, jj, kk) as GIndex,
            lattice_index(m2, m3, i, jj, k) as GIndex,
        ]
    } else if t == 3 {
        seq![
            lattice_index(m2, m3, ii, j, kk) as GIndex,
            lattice_index(m2, m3, ii, jj, kk) as GIndex,
            lattice_index(m2, m3, i, j, kk) as GIndex,
            lattice_index(m2, m3, ii, j, k) as GIndex,
        ]
    } else {
        seq![
            lattice_index(m2, m3, ii, jj, kk) as GIndex,
            lattice_index(m2, m3, i, j, kk) as GIndex,
            lattice_index(m2, m3, ii, j, k) as GIndex,
            lattice_index(m2, m3, i, jj, k) as GIndex,
        ]
    }
}

/// The five tetrahedra of a unit cube.
pub open spec fn box_tetrahedra(
    m2: int,
    m3: int,
    i: int,
    ii: int,
    j: int,
    jj: int,
    k: int,
    kk: int,
) -> Seq<Seq<GIndex>> {
    Seq::new(5, |t: int| box_tetrahedron(m2, m3, i, ii, j, jj, k, kk, t))
}

/// The `q`-th of the forty tetrahedra of the block whose far corner is
/// `(i, j, k)`. The block has eight unit cubes around its centre
/// `(i - 1, j - 1, k - 1)`; each is split from its own corner of the block,
/// so that the cuts through a face that two cubes share agree.
pub open spec fn block_tetrahedron(m2: int, m3: int, i: int, j: int, k: int, q: int) -> Seq<
    GIndex,
> {
    let c = q / 5;
    box_tetrahedron(
        m2,
        m3,
        if c % 2 == 0 { i } else { i - 2 },
        i - 1,
        if (c / 2) % 2 == 0 { j } else { j - 2 },
        j - 1,
        if c / 4 == 0 { k } else { k - 2 },
        k - 1,
        q % 5,
    )
}

/// The forty tetrahedra of the block with the far corner `(i, j, k)`.
pub open spec fn block_tetrahedra(m2: int, m3: int, i: int, j: int, k: int) -> Seq<Seq<GIndex>> {
    Seq::new(40, |q: int| block_tetrahedron(m2, m3, i, j, k, q))
}

/// The `n`-th tetrahedron of the lattice with `m1`, `m2`, `m3` points along
/// its axes: the blocks follow one another in row-major order of their far
/// corners, which are the points with even coordinates from 2 on.
pub open spec fn lattice_tetrahedron(m2: int, m3: int, n: int) -> Seq<GIndex> {
    let b = lattice_point(blocks(m2), blocks(m3), n / 40);
    block_tetrahedron(m2, m3, 2 * b.0 + 2, 2 * b.1 + 2, 2 * b.2 + 2, n % 40)
}

/// The first `len` tetrahedra of a lattice.
pub open spec fn lattice_tetrahedra_upto(m2: int, m3: int, len: int) -> Seq<Seq<GIndex>> {
    Seq::new(len as nat, |n: int| lattice_tetrahedron(m2, m3, n))
}

/// All tetrahedra of the lattice with `m1`, `m2`, `m3` points along its
/// axes: forty for each block.
pub open spec fn lattice_tetrahedra(m1: int, m2: int, m3: int) -> Seq<Seq<GIndex>> {
    lattice_tetrahedra_upto(m2, m3, 40 * (blocks(m1) * blocks(m2) * blocks(m3)))
}

/// The tetrahedron `t` has the point `p` as a corner.
pub open spec fn touches(t: Seq<GIndex>, p: int) -> bool {
    exists|c: int| 0 <= c < 4 && #[trigger] t[c] == p
}

/// The samples at the corners of `t` are not all on one side: one lies at
/// zero or above, and one does not.
pub open spec fn mixed(t: Seq<GIndex>, signs: spec_fn(GIndex) -> Sign) -> bool {
    &&& exists|c: int| 0 <= c < 4 && signs(#[trigger] t[c]).at_least_zero()
    &&& exists|c: int| 0 <= c < 4 && !signs(#[trigger] t[c]).at_least_zero()
}

/// The point `p` is a corner of one of `tets` with samples on both sides.
pub open spec fn relevant_in(tets: Seq<Seq<GIndex>>, signs: spec_fn(GIndex) -> Sign, p: int) -> bool {
    exists|n: int| 0 <= n < tets.len() && touches(#[trigger] tets[n], p) && mixed(tets[n], signs)
}

impl Grid {
    /// The tetrahedra as sequences of four corner indices.
    pub open spec fn tetrahedra(&self) -> Seq<Seq<GIndex>> {
        Seq::new(self.tetrahedrons@.len(), |n: int| self.tetrahedrons@[n]@)
    }

    /// The index `i` names a point of this grid.
    pub open spec fn has_point(&self, i: int) -> bool {
        0 <= i < self.points@.len()
    }

    /// Every corner of every tetrahedron is a point of this grid.
    pub open spec fn in_range(&self) -> bool {
        forall|n: int, c: int|
            0 <= n < self.tetrahedra().len() && 0 <= c < 4 ==> self.has_point(
                #[trigger] self.tetrahedra()[n][c] as int,
            )
    }

    /// Every tetrahedron names four different points of this grid.
    pub open spec fn wf(&self) -> bool {
        &&& self.in_range()
        &&& forall|n: int, c: int, d: int|
            0 <= n < self.tetrahedra().len() && 0 <= c < d < 4 ==> #[trigger] self.tetrahedra()[n][c]
                != #[trigger] self.tetrahedra()[n][d]
    }

    /// Tests whether every corner of every tetrahedron is a point of this grid.
    pub fn has_corners_in_range(&self) -> (ok: bool)
        ensures
            ok == self.in_range(),
    {
        let mut n: usize = 0;
        while n < self.tetrahedrons.len()
            invariant
                0 <= n <= self.tetrahedrons@.len(),
                forall|m: int, c: int|
                    0 <= m < n && 0 <= c < 4 ==> self.has_point(
                        #[trigger] self.tetrahedra()[m][c] as int,
                    ),
            decreases self.tetrahedrons@.len() - n,
        {
            let t = &self.tetrahedrons[n];
            let mut c: usize = 0;
            while c < 4
                invariant
                    0 <= c <= 4,
                    0 <= n < self.tetrahedrons@.len(),
                    t@ == self.tetrahedra()[n as int],
                    forall|d: int| 0 <= d < c ==> self.has_point(#[trigger] t@[d] as int),
                decreases 4 - c,
            {
                let i: GIndex = t.points[c];
                if i < 0 || i as usize >= self.points.len() {
                    assert(!self.has_point(self.tetrahedra()[n as int][c as int] as int));
                    return false;
                }
                c += 1;
            }
            n += 1;
        }
        true
    }

    /// A grid without points or tetrahedra.
    pub fn new() -> (g: Grid)
        ensures
            g.points@ == Seq::<Point>::empty(),
            g.tetrahedrons@ == Seq::<Tetrahedron>::empty(),
            g.tetrahedra() == Seq::<Seq<GIndex>>::empty(),
            g.wf(),
    {
        let g = Grid { points: Vec::new(), tetrahedrons: Vec::new() };
        assert(g.tetrahedra() =~= Seq::<Seq<GIndex>>::empty());
        g
    }

    /// Builds the lattice for a request of `size1`, `size2`, `size3` samples
    /// along the three axes. Each extent is made odd; the points stand in
    /// row-major order; every block of two by two by two cells is split into
    /// forty tetrahedra, block after block in row-major order.
    pub fn new_box_basis_grid(size1: GIndex, size2: GIndex, size3: GIndex) -> (g: Grid)
        requires
            axis_len(size1 as int) * axis_len(size2 as int) * axis_len(size3 as int) <= i32::MAX,
        ensures
            g.wf(),
            g.points@ == lattice_points(
                axis_len(size1 as int),
                axis_len(size2 as int),
                axis_len(size3 as int),
            ),
            g.tetrahedra() == lattice_tetrahedra(
                axis_len(size1 as int),
                axis_len(size2 as int),
                axis_len(size3 as int),
            ),
            g.points@.len() == axis_len(size1 as int) * axis_len(size2 as int) * axis_len(
                size3 as int,
            ),
            size1 >= 0 && size2 >= 0 && size3 >= 0 ==> g.points@.len() == odd_extent(size1 as int)
                * odd_extent(size2 as int) * odd_extent(size3 as int),
            ({
                let m1 = axis_len(size1 as int);
                let m2 = axis_len(size2 as int);
                let m3 = axis_len(size3 as int);
                forall|i: int, j: int, k: int|
                    0 <= i < m1 && 0 <= j < m2 && 0 <= k < m3 ==> {
                        let p = #[trigger] lattice_index(m2, m3, i, j, k);
                        0 <= p < g.points@.len() && g.points@[p] == (
                            i as GIndex,
                            j as GIndex,
                            k as GIndex,
                        )
                    }
            }),
    {
        let mut g = Grid::new();
        if size1 < 0 || size2 < 0 || size3 < 0 {
            proof {
                let a1 = axis_len(size1 as int);
                let a2 = axis_len(size2 as int);
                let a3 = axis_len(size3 as int);
                assert(a1 * a2 * a3 == 0 && blocks(a1) * blocks(a2) * blocks(a3) == 0)
                    by (nonlinear_arith)
                    requires
                        a1 == 0 || a2 == 0 || a3 == 0,
                        blocks(a1) == 0 || blocks(a2) == 0 || blocks(a3) == 0,
                ;
                assert(g.points@ =~= lattice_points(a1, a2, a3));
                assert(g.tetrahedra() =~= lattice_tetrahedra(a1, a2, a3));
            }
            return g;
        }
        let m1: GIndex = size1 + (1 - size1 % 2);
        let m2: GIndex = size2 + (1 - size2 % 2);
        let m3: GIndex = size3 + (1 - size3 % 2);
        assert(m1 == axis_len(size1 as int) && m2 == axis_len(size2 as int) && m3 == axis_len(
            size3 as int,
        ));
        assert(lattice_index(m2 as int, m3 as int, 0, 0, 0) == 0) by (nonlinear_arith);
        let mut i: GIndex = 0;
        while i < m1
            invariant
                0 <= i <= m1,
                0 < m2,
                0 < m3,
                g.points@.len() == lattice_index(m2 as int, m3 as int, i as int, 0, 0),
                g.points@ == lattice_points_upto(m2 as int, m3 as int, g.points@.len() as int),
                g.tetrahedra() == Seq::<Seq<GIndex>>::empty(),
            decreases m1 - i,
        {
            let mut j: GIndex = 0;
            while j < m2
                invariant
                    0 <= i < m1,
                    0 <= j <= m2,
                    0 < m3,
                    g.points@.len() == lattice_index(m2 as int, m3 as int, i as int, j as int, 0),
                    g.points@ == lattice_points_upto(m2 as int, m3 as int, g.points@.len() as int),
                    g.tetrahedra() == Seq::<Seq<GIndex>>::empty(),
                decreases m2 - j,
            {
                let mut k: GIndex = 0;
                while k < m3
                    invariant
                        0 <= i < m1,
                        0 <= j < m2,
                        0 <= k <= m3,
                        g.points@.len() == lattice_index(
                            m2 as int,
                            m3 as int,
                            i as int,
                            j as int,
                            k as int,
                        ),
                        g.points@ == lattice_points_upto(
                            m2 as int,
                            m3 as int,
                            g.points@.len() as int,
                        ),
                        g.tetrahedra() == Seq::<Seq<GIndex>>::empty(),
                    decreases m3 - k,
                {
                    proof {
                        lemma_lattice_point_of_index(
                            m2 as int,
                            m3 as int,
                            i as int,
                            j as int,
                            k as int,
                        );
                    }
                    let ghost before = g.points@;
                    g.points.push((i, j, k));
                    assert(g.points@ =~= lattice_points_upto(
                        m2 as int,
                        m3 as int,
                        before.len() as int + 1,
                    ));
                    assert(g.tetrahedra() =~= Seq::<Seq<GIndex>>::empty());
                    k += 1;
                }
                assert(lattice_index(m2 as int, m3 as int, i as int, j as int, m3 as int)
                    == lattice_index(m2 as int, m3 as int, i as int, j + 1, 0)) by (nonlinear_arith);
                j += 1;
            }
            assert(lattice_index(m2 as int, m3 as int, i as int, m2 as int, 0) == lattice_index(
                m2 as int,
                m3 as int,
                i + 1,
                0,
                0,
            )) by (nonlinear_arith);
            i += 1;
        }
        assert(lattice_index(m2 as int, m3 as int, m1 as int, 0, 0) == m1 * m2 * m3)
            by (nonlinear_arith);
        let h1: GIndex = (m1 - 1) / 2;
        let h2: GIndex = (m2 - 1) / 2;
        let h3: GIndex = (m3 - 1) / 2;
        assert(lattice_index(h2 as int, h3 as int, 0, 0, 0) == 0) by (nonlinear_arith);
        let mut bi: GIndex = 0;
        while bi < h1
            invariant
                0 <= bi <= h1,
                0 < m1 && 0 < m2 && 0 < m3,
                h1 == blocks(m1 as int) && h2 == blocks(m2 as int) && h3 == blocks(m3 as int),
                m1 * m2 * m3 <= i32::MAX,
                g.wf(),
                g.points@ == lattice_points(m1 as int, m2 as int, m3 as int),
                g.points@.len() == m1 * m2 * m3,
                g.tetrahedra().len() == 40 * lattice_index(h2 as int, h3 as int, bi as int, 0, 0),
                g.tetrahedra() == lattice_tetrahedra_upto(
                    m2 as int,
                    m3 as int,
                    g.tetrahedra().len() as int,
                ),
            decreases h1 - bi,
        {
            let mut bj: GIndex = 0;
            while bj < h2
                invariant
                    0 <= bi < h1,
                    0 <= bj <= h2,
                    0 < m1 && 0 < m2 && 0 < m3,
                    h1 == blocks(m1 as int) && h2 == blocks(m2 as int) && h3 == blocks(m3 as int),
                    m1 * m2 * m3 <= i32::MAX,
                    g.wf(),
                    g.points@ == lattice_points(m1 as int, m2 as int, m3 as int),
                    g.points@.len() == m1 * m2 * m3,
                    g.tetrahedra().len() == 40 * lattice_index(
                        h2 as int,
                        h3 as int,
                        bi as int,
                        bj as int,
                        0,
                    ),
                    g.tetrahedra() == lattice_tetrahedra_upto(
                        m2 as int,
                        m3 as int,
                        g.tetrahedra().len() as int,
                    ),
                decreases h2 - bj,
            {
                let mut bk: GIndex = 0;
                while bk < h3
                    invariant
                        0 <= bi < h1,
                        0 <= bj < h2,
                        0 <= bk <= h3,
                        0 < m1 && 0 < m2 && 0 < m3,
                        h1 == blocks(m1 as int) && h2 == blocks(m2 as int) && h3 == blocks(
                            m3 as int,
                        ),
                        m1 * m2 * m3 <= i32::MAX,
                        g.wf(),
                        g.points@ == lattice_points(m1 as int, m2 as int, m3 as int),
                        g.points@.len() == m1 * m2 * m3,
                        g.tetrahedra().len() == 40 * lattice_index(
                            h2 as int,
                            h3 as int,
                            bi as int,
                            bj as int,
                            bk as int,
                        ),
                        g.tetrahedra() == lattice_tetrahedra_upto(
                            m2 as int,
                            m3 as int,
                            g.tetrahedra().len() as int,
                        ),
                    decreases h3 - bk,
                {
                    let ghost before = g.tetrahedra();
                    proof {
                        lemma_lattice_point_of_index(
                            h2 as int,
                            h3 as int,
                            bi as int,
                            bj as int,
                            bk as int,
                        );
                    }
                    g.symmetric_box(m1, m2, m3, 2 * bi + 2, 2 * bj + 2, 2 * bk + 2);
                    assert(g.tetrahedra() =~= lattice_tetrahedra_upto(
                        m2 as int,
                        m3 as int,
                        before.len() as int + 40,
                    ));
                    bk += 1;
                }
                assert(lattice_index(h2 as int, h3 as int, bi as int, bj as int, h3 as int)
                    == lattice_index(h2 as int, h3 as int, bi as int, bj + 1, 0))
                    by (nonlinear_arith);
                bj += 1;
            }
            assert(lattice_index(h2 as int, h3 as int, bi as int, h2 as int, 0) == lattice_index(
                h2 as int,
                h3 as int,
                bi + 1,
                0,
                0,
            )) by (nonlinear_arith);
            bi += 1;
        }
        assert(lattice_index(h2 as int, h3 as int, h1 as int, 0, 0) == h1 * h2 * h3)
            by (nonlinear_arith);
        proof {
            assert forall|i: int, j: int, k: int| 0 <= i < m1 && 0 <= j < m2 && 0 <= k < m3 implies {
                let p = #[trigger] lattice_index(m2 as int, m3 as int, i, j, k);
                0 <= p < g.points@.len() && g.points@[p] == (i as GIndex, j as GIndex, k as GIndex)
            } by {
                lemma_corner(m1 as int, m2 as int, m3 as int, i, j, k);
            }
        }
        g
    }

    /// One flag per point: whether the surface passes through a tetrahedron
    /// at that point, that is, whether the point is a corner of a tetrahedron
    /// with a sample of zero or above at one corner and a sample that is not
    /// at another.
    pub fn relevant_points<PV: PointValues>(&self, point_values: &PV) -> (relevant: Vec<bool>)
        requires
            self.in_range(),
            forall|n: int, c: int|
                0 <= n < self.tetrahedra().len() && 0 <= c < 4 ==> point_values.has_value(
                    #[trigger] self.tetrahedra()[n][c],
                ),
        ensures
            relevant@.len() == self.points@.len(),
            forall|p: int|
                0 <= p < self.points@.len() ==> #[trigger] relevant@[p] == relevant_in(
                    self.tetrahedra(),
                    signs_of(point_values),
                    p,
                ),
    {
        let ghost signs = signs_of(point_values);
        let ghost tets = self.tetrahedra();
        let mut relevant: Vec<bool> = Vec::new();
        let mut p: usize = 0;
        while p < self.points.len()
            invariant
                0 <= p <= self.points@.len(),
                relevant@.len() == p,
                forall|q: int| 0 <= q < p ==> !#[trigger] relevant@[q],
            decreases self.points@.len() - p,
        {
            relevant.push(false);
            p += 1;
        }
        let mut n: usize = 0;
        assert(tets.take(0) =~= Seq::empty());
        while n < self.tetrahedrons.len()
            invariant
                0 <= n <= self.tetrahedrons@.len(),
                signs == signs_of(point_values),
                tets == self.tetrahedra(),
                self.in_range(),
                forall|n: int, c: int|
                    0 <= n < self.tetrahedra().len() && 0 <= c < 4 ==> point_values.has_value(
                        #[trigger] self.tetrahedra()[n][c],
                    ),
                relevant@.len() == self.points@.len(),
                forall|p: int|
                    0 <= p < self.points@.len() ==> #[trigger] relevant@[p] == relevant_in(
                        tets.take(n as int),
                        signs,
                        p,
                    ),
            decreases self.tetrahedrons@.len() - n,
        {
            let t = &self.tetrahedrons[n];
            let ghost before = relevant@;
            proof {
                assert(tets[n as int] == t@);
                assert forall|c: int| 0 <= c < 4 implies point_values.has_value(#[trigger] t@[c])
                    && self.has_point(t@[c] as int) by {
                    assert(t@[c] == self.tetrahedra()[n as int][c]);
                }
                assert(t@[0] == t.points@[0] && t@[1] == t.points@[1] && t@[2] == t.points@[2]
                    && t@[3] == t.points@[3]);
            }
            let a0 = point_values.value(t.points[0]).is_at_least_zero();
            let a1 = point_values.value(t.points[1]).is_at_least_zero();
            let a2 = point_values.value(t.points[2]).is_at_least_zero();
            let a3 = point_values.value(t.points[3]).is_at_least_zero();
            let is_mixed = (a0 || a1 || a2 || a3) && !(a0 && a1 && a2 && a3);
            assert(is_mixed == mixed(t@, signs)) by {
                assert(a0 == signs(t@[0]).at_least_zero());
                assert(a1 == signs(t@[1]).at_least_zero());
                assert(a2 == signs(t@[2]).at_least_zero());
                assert(a3 == signs(t@[3]).at_least_zero());
            }
            if is_mixed {
                relevant.set(t.points[0] as usize, true);
                relevant.set(t.points[1] as usize, true);
                relevant.set(t.points[2] as usize, true);
                relevant.set(t.points[3] as usize, true);
            }
            proof {
                assert forall|p: int| 0 <= p < self.points@.len() implies #[trigger] relevant@[p]
                    == relevant_in(tets.take(n as int + 1), signs, p) by {
                    let now = tets.take(n as int + 1);
                    let earlier = tets.take(n as int);
                    assert(relevant@[p] == (before[p] || (is_mixed && touches(t@, p)))) by {
                        if touches(t@, p) {
                            let c = choose|c: int| 0 <= c < 4 && #[trigger] t@[c] == p;
                            assert(c == 0 || c == 1 || c == 2 || c == 3);
                        }
                    }
                    if relevant_in(earlier, signs, p) {
                        let m = choose|m: int|
                            0 <= m < earlier.len() && touches(#[trigger] earlier[m], p) && mixed(
                                earlier[m],
                                signs,
                            );
                        assert(now[m] == earlier[m]);
                    }
                    if is_mixed && touches(t@, p) {
                        assert(now[n as int] == t@);
                    }
                    if relevant_in(now, signs, p) {
                        let m = choose|m: int|
                            0 <= m < now.len() && touches(#[trigger] now[m], p) && mixed(
                                now[m],
                                signs,
                            );
                        if m < n {
                            assert(earlier[m] == now[m]);
                        } else {
                            assert(now[m] == t@);
                        }
                    }
                }
            }
            n += 1;
        }
        assert(tets.take(n as int) =~= tets);
        relevant
    }

    /// Appends the tetrahedron with the corners `a`, `b`, `c`, `d`.
    fn add_tetrahedron(&mut self, a: GIndex, b: GIndex, c: GIndex, d: GIndex)
        ensures
            final(self).points@ == old(self).points@,
            final(self).tetrahedra() == old(self).tetrahedra().push(seq![a, b, c, d]),
    {
        let t = Tetrahedron { points: [a, b, c, d] };
        assert(t@ =~= seq![a, b, c, d]);
        self.tetrahedrons.push(t);
        assert(self.tetrahedra() =~= old(self).tetrahedra().push(seq![a, b, c, d]));
    }

    /// Splits the unit cube between the corner `(i, j, k)` and the opposite
    /// corner `(ii, jj, kk)` into five tetrahedra.
    fn tetrahedron_box(
        &mut self,
        m1: GIndex,
        m2: GIndex,
        m3: GIndex,
        i: GIndex,
        ii: GIndex,
        j: GIndex,
        jj: GIndex,
        k: GIndex,
        kk: GIndex,
    )
        requires
            old(self).wf(),
            old(self).points@.len() == m1 * m2 * m3,
            m1 * m2 * m3 <= i32::MAX,
            0 <= i < m1 && 0 <= ii < m1 && i != ii,
            0 <= j < m2 && 0 <= jj < m2 && j != jj,
            0 <= k < m3 && 0 <= kk < m3 && k != kk,
        ensures
            final(self).wf(),
            final(self).points@ == old(self).points@,
            final(self).tetrahedra() == old(self).tetrahedra() + box_tetrahedra(
                m2 as int,
                m3 as int,
                i as int,
                ii as int,
                j as int,
                jj as int,
                k as int,
                kk as int,
            ),
    {
        proof {
            lemma_corner(m1 as int, m2 as int, m3 as int, i as int, j as int, k as int);
            lemma_corner(m1 as int, m2 as int, m3 as int, ii as int, j as int, k as int);
            lemma_corner(m1 as int, m2 as int, m3 as int, i as int, jj as int, k as int);
            lemma_corner(m1 as int, m2 as int, m3 as int, ii as int, jj as int, k as int);
            lemma_corner(m1 as int, m2 as int, m3 as int, i as int, j as int, kk as int);
            lemma_corner(m1 as int, m2 as int, m3 as int, ii as int, j as int, kk as int);
            lemma_corner(m1 as int, m2 as int, m3 as int, i as int, jj as int, kk as int);
            lemma_corner(m1 as int, m2 as int, m3 as int, ii as int, jj as int, kk as int);
        }
        let p000 = index(m2, m3, i, j, k);
        let p100 = index(m2, m3, ii, j, k);
        let p010 = index(m2, m3, i, jj, k);
        let p110 = index(m2, m3, ii, jj, k);
        let p001 = index(m2, m3, i, j, kk);
        let p101 = index(m2, m3, ii, j, kk);
        let p011 = index(m2, m3, i, jj, kk);
        let p111 = index(m2, m3, ii, jj, kk);
        self.add_tetrahedron(p000, p100, p010, p001);
        self.add_tetrahedron(p110, p100, p010, p111);
        self.add_tetrahedron(p011, p001, p111, p010);
        self.add_tetrahedron(p101, p111, p001, p100);
        self.add_tetrahedron(p111, p001, p100, p010);
        proof {
            let added = box_tetrahedra(
                m2 as int,
                m3 as int,
                i as int,
                ii as int,
                j as int,
                jj as int,
                k as int,
                kk as int,
            );
            assert(added[0] =~= seq![p000, p100, p010, p001]);
            assert(added[1] =~= seq![p110, p100, p010, p111]);
            assert(added[2] =~= seq![p011, p001, p111, p010]);
            assert(added[3] =~= seq![p101, p111, p001, p100]);
            assert(added[4] =~= seq![p111, p001, p100, p010]);
            assert(self.tetrahedra() =~= old(self).tetrahedra() + added);
        }
    }

    /// Splits the block of two by two by two cells with the far corner
    /// `(i, j, k)` into its eight unit cubes, and each of them into five
    /// tetrahedra from its own corner of the block.
    fn symmetric_box(&mut self, m1: GIndex, m2: GIndex, m3: GIndex, i: GIndex, j: GIndex, k: GIndex)
        requires
            old(self).wf(),
            old(self).points@.len() == m1 * m2 * m3,
            m1 * m2 * m3 <= i32::MAX,
            2 <= i < m1,
            2 <= j < m2,
            2 <= k < m3,
        ensures
            final(self).wf(),
            final(self).points@ == old(self).points@,
            final(self).tetrahedra() == old(self).tetrahedra() + block_tetrahedra(
                m2 as int,
                m3 as int,
                i as int,
                j as int,
                k as int,
            ),
    {
        self.tetrahedron_box(m1, m2, m3, i, i - 1, j, j - 1, k, k - 1);
        self.tetrahedron_box(m1, m2, m3, i - 2, i - 1, j, j - 1, k, k - 1);
        self.tetrahedron_box(m1, m2, m3, i, i - 1, j - 2, j - 1, k, k - 1);
        self.tetrahedron_box(m1, m2, m3, i - 2, i - 1, j - 2, j - 1, k, k - 1);
        self.tetrahedron_box(m1, m2, m3, i, i - 1, j, j - 1, k - 2, k - 1);
        self.tetrahedron_box(m1, m2, m3, i - 2, i - 1, j, j - 1, k - 2, k - 1);
        self.tetrahedron_box(m1, m2, m3, i, i - 1, j - 2, j - 1, k - 2, k - 1);
        self.tetrahedron_box(m1, m2, m3, i - 2, i - 1, j - 2, j - 1, k - 2, k - 1);
        assert(self.tetrahedra() =~= old(self).tetrahedra() + block_tetrahedra(
            m2 as int,
            m3 as int,
            i as int,
            j as int,
            k as int,
        ));
    }
}

/// The place of the lattice point `(x, y, z)` in row-major order.
fn index(m2: GIndex, m3: GIndex, x: GIndex, y: GIndex, z: GIndex) -> (r: GIndex)
    requires
        0 <= x,
        0 <= y < m2,
        0 <= z < m3,
        lattice_index(m2 as int, m3 as int, x as int, y as int, z as int) <= i32::MAX,
    ensures
        r == lattice_index(m2 as int, m3 as int, x as int, y as int, z as int),
{
    proof {
        lemma_lattice_index_bounds(x + 1, m2 as int, m3 as int, x as int, y as int, z as int);
    }
    z + m3 * (y + m2 * x)
}

/// Where every sample has the same sign, no point is relevant.
pub proof fn lemma_uniform_field_has_no_relevant_point(
    tets: Seq<Seq<GIndex>>,
    signs: spec_fn(GIndex) -> Sign,
    s: Sign,
    p: int,
)
    requires
        forall|i: GIndex| #[trigger] signs(i) == s,
    ensures
        !relevant_in(tets, signs, p),
{
}

/// A lattice point within range has its place within the lattice.
pub proof fn lemma_lattice_index_bounds(m1: int, m2: int, m3: int, i: int, j: int, k: int)
    requires
        0 <= i < m1,
        0 <= j < m2,
        0 <= k < m3,
    ensures
        0 <= m2 * i <= j + m2 * i < m1 * m2,
        j + m2 * i <= m3 * (j + m2 * i),
        0 <= lattice_index(m2, m3, i, j, k) < m1 * m2 * m3,
{
    assert(0 <= m2 * i && m2 * i + m2 <= m1 * m2) by (nonlinear_arith)
        requires
            0 <= i < m1,
            0 < m2,
    ;
    let r = j + m2 * i;
    assert(r <= m3 * r && m3 * r + m3 <= m1 * m2 * m3) by (nonlinear_arith)
        requires
            0 <= r < m1 * m2,
            0 < m3,
    ;
}

/// The place of a lattice point gives the point back.
pub proof fn lemma_lattice_point_of_index(m2: int, m3: int, i: int, j: int, k: int)
    requires
        0 <= j < m2,
        0 <= k < m3,
    ensures
        lattice_point(m2, m3, lattice_index(m2, m3, i, j, k)) == (i, j, k),
{
    let r = j + m2 * i;
    let p = k + m3 * r;
    assert(p == r * m3 + k) by (nonlinear_arith)
        requires
            p == k + m3 * r,
    ;
    lemma_fundamental_div_mod_converse(p, m3, r, k);
    assert(r == i * m2 + j) by (nonlinear_arith)
        requires
            r == j + m2 * i,
    ;
    lemma_fundamental_div_mod_converse(r, m2, i, j);
}

/// What is known of a lattice point within range: its place is within the
/// lattice, and gives the point back.
proof fn lemma_corner(m1: int, m2: int, m3: int, i: int, j: int, k: int)
    requires
        0 <= i < m1,
        0 <= j < m2,
        0 <= k < m3,
    ensures
        0 <= lattice_index(m2, m3, i, j, k) < m1 * m2 * m3,
        lattice_point(m2, m3, lattice_index(m2, m3, i, j, k)) == (i, j, k),
{
    lemma_lattice_index_bounds(m1, m2, m3, i, j, k);
    lemma_lattice_point_of_index(m2, m3, i, j, k);
}

} // verus!

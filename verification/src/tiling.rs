//! The tetrahedra of a lattice fill its box.
//!
//! A point of space is given here by whole numbers: the position `p` and the
//! scale `s` stand for the point `p / s` in lattice coordinates, so that
//! every point with rational coordinates can be named. A point lies in a
//! tetrahedron when it is a weighted mean of the four corners; it lies
//! strictly inside when every corner has a positive weight.

use crate::edge::GIndex;
use crate::grid::{
    blocks, box_tetrahedron, lattice_index, lattice_point, lattice_points, lattice_tetrahedra,
    lattice_tetrahedron, lemma_lattice_index_bounds, lemma_lattice_point_of_index, Point,
};
use vstd::arithmetic::div_mod::lemma_fundamental_div_mod;
use vstd::prelude::*;

verus! {

/// A position with whole coordinates.
pub type Position = (int, int, int);

/// The weights `w0` to `w3` on the corners `a` to `d`, with the sum `k * s`,
/// give `k` times the position `p`: the point `p / s` is the mean of the
/// corners under these weights.
pub open spec fn combines(
    a: Position,
    b: Position,
    c: Position,
    d: Position,
    w0: int,
    w1: int,
    w2: int,
    w3: int,
    k: int,
    p: Position,
    s: int,
) -> bool {
    &&& k > 0
    &&& w0 + w1 + w2 + w3 == k * s
    &&& k * p.0 == w0 * a.0 + w1 * b.0 + w2 * c.0 + w3 * d.0
    &&& k * p.1 == w0 * a.1 + w1 * b.1 + w2 * c.1 + w3 * d.1
    &&& k * p.2 == w0 * a.2 + w1 * b.2 + w2 * c.2 + w3 * d.2
}

/// The point `p / s` lies in the tetrahedron with the corners `a` to `d`,
/// its faces included.
pub open spec fn in_hull(a: Position, b: Position, c: Position, d: Position, p: Position, s: int) -> bool {
    exists|w0: int, w1: int, w2: int, w3: int, k: int|
        #[trigger] combines(a, b, c, d, w0, w1, w2, w3, k, p, s) && w0 >= 0 && w1 >= 0 && w2 >= 0
            && w3 >= 0
}

/// The point `p / s` lies strictly inside the tetrahedron with the corners
/// `a` to `d`.
pub open spec fn inside_hull(
    a: Position,
    b: Position,
    c: Position,
    d: Position,
    p: Position,
    s: int,
) -> bool {
    exists|w0: int, w1: int, w2: int, w3: int, k: int|
        #[trigger] combines(a, b, c, d, w0, w1, w2, w3, k, p, s) && w0 > 0 && w1 > 0 && w2 > 0
            && w3 > 0
}

/// The position of the grid point with index `i`.
pub open spec fn position(points: Seq<Point>, i: GIndex) -> Position {
    (points[i as int].0 as int, points[i as int].1 as int, points[i as int].2 as int)
}

/// The point `p / s` lies in the tetrahedron `t` over `points`.
pub open spec fn in_tetrahedron(points: Seq<Point>, t: Seq<GIndex>, p: Position, s: int) -> bool {
    in_hull(
        position(points, t[0]),
        position(points, t[1]),
        position(points, t[2]),
        position(points, t[3]),
        p,
        s,
    )
}

/// The point `p / s` lies strictly inside the tetrahedron `t` over `points`.
pub open spec fn inside_tetrahedron(points: Seq<Point>, t: Seq<GIndex>, p: Position, s: int) -> bool {
    inside_hull(
        position(points, t[0]),
        position(points, t[1]),
        position(points, t[2]),
        position(points, t[3]),
        p,
        s,
    )
}

/// Along one axis, the coordinate of the corner from which a unit cube of
/// the block `b` is split: the far end of the block for the cube of the far
/// half (`bit` 0), the near end for the cube of the near half (`bit` 1).
pub open spec fn axis_anchor(b: int, bit: int) -> int {
    if bit == 0 {
        2 * b + 2
    } else {
        2 * b
    }
}

/// Along one axis, the step from the corner from which a unit cube is split
/// to the centre of its block.
pub open spec fn axis_step(bit: int) -> int {
    if bit == 0 {
        -1
    } else {
        1
    }
}

/// The unit cube of the `n`-th tetrahedron of a lattice: the corner from
/// which the cube is split, and the step from it to the opposite corner,
/// which is 1 or -1 along each axis.
pub open spec fn cube_of(m2: int, m3: int, n: int) -> (Position, Position) {
    let b = lattice_point(blocks(m2), blocks(m3), n / 40);
    let c = (n % 40) / 5;
    (
        (axis_anchor(b.0, c % 2), axis_anchor(b.1, (c / 2) % 2), axis_anchor(b.2, c / 4)),
        (axis_step(c % 2), axis_step((c / 2) % 2), axis_step(c / 4)),
    )
}

/// How many steps the point `p / s` lies from the corner from which the unit
/// cube of the `n`-th tetrahedron is split, along each axis and in units of
/// `1 / s`.
spec fn steps_into(m2: int, m3: int, n: int, p: Position, s: int) -> Position {
    let cube = cube_of(m2, m3, n);
    (
        offset(cube.1.0, p.0 - s * cube.0.0),
        offset(cube.1.1, p.1 - s * cube.0.1),
        offset(cube.1.2, p.2 - s * cube.0.2),
    )
}

/// Corner `v` of the `t`-th tetrahedron of a unit cube, by the steps it
/// takes from the corner from which the cube is split: 0 or 1 along each axis.
pub open spec fn local_corner(t: int, v: int) -> Position {
    if t == 0 {
        if v == 0 { (0, 0, 0) } else if v == 1 { (1, 0, 0) } else if v == 2 { (0, 1, 0) } else { (0, 0, 1) }
    } else if t == 1 {
        if v == 0 { (1, 1, 0) } else if v == 1 { (1, 0, 0) } else if v == 2 { (0, 1, 0) } else { (1, 1, 1) }
    } else if t == 2 {
        if v == 0 { (0, 1, 1) } else if v == 1 { (0, 0, 1) } else if v == 2 { (1, 1, 1) } else { (0, 1, 0) }
    } else if t == 3 {
        if v == 0 { (1, 0, 1) } else if v == 1 { (1, 1, 1) } else if v == 2 { (0, 0, 1) } else { (1, 0, 0) }
    } else {
        if v == 0 { (1, 1, 1) } else if v == 1 { (0, 0, 1) } else if v == 2 { (1, 0, 0) } else { (0, 1, 0) }
    }
}

/// The corner of a unit cube that lies the steps `d` from the corner `a`,
/// where a step along an axis goes by `sg`.
pub open spec fn cube_corner(a: Position, sg: Position, d: Position) -> Position {
    (
        if d.0 == 0 { a.0 } else { a.0 + sg.0 },
        if d.1 == 0 { a.1 } else { a.1 + sg.1 },
        if d.2 == 0 { a.2 } else { a.2 + sg.2 },
    )
}

/// The lattice has `m1`, `m2`, `m3` points along its axes, odd numbers each,
/// and no more points than an index can name.
pub open spec fn is_lattice(m1: int, m2: int, m3: int) -> bool {
    &&& m1 >= 1 && m1 % 2 == 1
    &&& m2 >= 1 && m2 % 2 == 1
    &&& m3 >= 1 && m3 % 2 == 1
    &&& m1 * m2 * m3 <= i32::MAX
}

/// Division with a bound on the quotient.
proof fn lemma_div_bound(x: int, d: int, n: int)
    requires
        0 <= x < n * d,
        d > 0,
    ensures
        0 <= x / d < n,
        0 <= x % d < d,
        x == d * (x / d) + x % d,
{
    lemma_fundamental_div_mod(x, d);
    let q = x / d;
    assert(0 <= q < n) by (nonlinear_arith)
        requires
            0 <= x < n * d,
            d > 0,
            x == d * q + x % d,
            0 <= x % d < d,
    ;
}

/// The block of the `n`-th tetrahedron of a lattice is a block of the lattice.
proof fn lemma_block(m1: int, m2: int, m3: int, n: int)
    requires
        is_lattice(m1, m2, m3),
        0 <= n < lattice_tetrahedra(m1, m2, m3).len(),
    ensures
        ({
            let b = lattice_point(blocks(m2), blocks(m3), n / 40);
            &&& 0 <= b.0 < blocks(m1)
            &&& 0 <= b.1 < blocks(m2)
            &&& 0 <= b.2 < blocks(m3)
            &&& n / 40 == lattice_index(blocks(m2), blocks(m3), b.0, b.1, b.2)
        }),
{
    let h1 = blocks(m1);
    let h2 = blocks(m2);
    let h3 = blocks(m3);
    let total = h1 * h2 * h3;
    assert(total > 0 && h1 > 0 && h2 > 0 && h3 > 0) by (nonlinear_arith)
        requires
            0 < 40 * (h1 * h2 * h3),
            total == h1 * h2 * h3,
            h1 >= 0,
            h2 >= 0,
            h3 >= 0,
    ;
    let b = n / 40;
    assert(0 <= b < total);
    assert(total == (h1 * h2) * h3);
    lemma_div_bound(b, h3, h1 * h2);
    let r = b / h3;
    lemma_div_bound(r, h2, h1);
    let bi = r / h2;
    let bj = r % h2;
    let bk = b % h3;
    assert(lattice_point(h2, h3, b) == (bi, bj, bk));
    assert(b == lattice_index(h2, h3, bi, bj, bk)) by (nonlinear_arith)
        requires
            b == h3 * r + bk,
            r == h2 * bi + bj,
    ;
}

/// Corner `v` of the `t`-th tetrahedron of a unit cube is the corner that
/// `local_corner` names.
proof fn lemma_box_corner(
    m2: int,
    m3: int,
    i: int,
    ii: int,
    j: int,
    jj: int,
    k: int,
    kk: int,
    t: int,
    v: int,
)
    requires
        0 <= t < 5,
        0 <= v < 4,
    ensures
        ({
            let d = local_corner(t, v);
            box_tetrahedron(m2, m3, i, ii, j, jj, k, kk, t)[v] == lattice_index(
                m2,
                m3,
                if d.0 == 0 { i } else { ii },
                if d.1 == 0 { j } else { jj },
                if d.2 == 0 { k } else { kk },
            ) as GIndex
        }),
{
}

/// Where the `n`-th tetrahedron of a lattice lies: its block is a block of
/// the lattice, and its corners are the corners of its unit cube that
/// `local_corner` names.
pub proof fn lemma_corner_positions(m1: int, m2: int, m3: int, n: int, v: int)
    requires
        is_lattice(m1, m2, m3),
        0 <= n < lattice_tetrahedra(m1, m2, m3).len(),
        0 <= v < 4,
    ensures
        ({
            let b = lattice_point(blocks(m2), blocks(m3), n / 40);
            &&& 0 <= b.0 < blocks(m1)
            &&& 0 <= b.1 < blocks(m2)
            &&& 0 <= b.2 < blocks(m3)
            &&& n / 40 == lattice_index(blocks(m2), blocks(m3), b.0, b.1, b.2)
        }),
        position(lattice_points(m1, m2, m3), lattice_tetrahedra(m1, m2, m3)[n][v]) == cube_corner(
            cube_of(m2, m3, n).0,
            cube_of(m2, m3, n).1,
            local_corner(n % 5, v),
        ),
{
    lemma_block(m1, m2, m3, n);
    let b = lattice_point(blocks(m2), blocks(m3), n / 40);
    let cube = cube_of(m2, m3, n);
    let a = cube.0;
    let sg = cube.1;
    let t = n % 5;
    let d = local_corner(t, v);
    let corner = cube_corner(a, sg, d);
    let q = n % 40;
    let c = q / 5;
    assert(q % 5 == t);
    assert(0 <= c < 8);
    let far: Position = (2 * b.0 + 2, 2 * b.1 + 2, 2 * b.2 + 2);
    assert(a.0 + sg.0 == far.0 - 1 && a.1 + sg.1 == far.1 - 1 && a.2 + sg.2 == far.2 - 1);
    assert(0 <= corner.0 < m1 && 0 <= corner.1 < m2 && 0 <= corner.2 < m3);
    lemma_lattice_index_bounds(m1, m2, m3, corner.0, corner.1, corner.2);
    lemma_lattice_point_of_index(m2, m3, corner.0, corner.1, corner.2);
    let index = lattice_index(m2, m3, corner.0, corner.1, corner.2);
    lemma_box_corner(m2, m3, a.0, far.0 - 1, a.1, far.1 - 1, a.2, far.2 - 1, t, v);
    assert(lattice_tetrahedron(m2, m3, n) == box_tetrahedron(
        m2,
        m3,
        a.0,
        far.0 - 1,
        a.1,
        far.1 - 1,
        a.2,
        far.2 - 1,
        t,
    ));
    assert(lattice_tetrahedron(m2, m3, n)[v] == index as GIndex);
    assert(lattice_tetrahedra(m1, m2, m3)[n] == lattice_tetrahedron(m2, m3, n));
}

/// The step `x` taken forward or backward.
spec fn offset(sg: int, x: int) -> int {
    if sg == 1 {
        x
    } else {
        -x
    }
}

/// One coordinate of a cube corner: `a`, or one step from it.
spec fn step(a: int, sg: int, d: int) -> int {
    if d == 0 {
        a
    } else {
        a + sg
    }
}

/// The weight of a corner that lies a step away, and nothing for one that does not.
spec fn stepped(w: int, d: int) -> int {
    if d == 0 {
        0
    } else {
        w
    }
}

/// One axis of a weighted mean over corners of a unit cube. The point lies
/// `x` steps from the corner `a` of the cube; then the weights give `k`
/// times its coordinate exactly when the weights of the corners that lie a
/// step away add up to `k * x`.
proof fn lemma_axis(
    k: int,
    s: int,
    a: int,
    sg: int,
    x: int,
    p: int,
    w: (int, int, int, int),
    d: (int, int, int, int),
)
    requires
        sg == 1 || sg == -1,
        w.0 + w.1 + w.2 + w.3 == k * s,
        p == s * a + offset(sg, x),
    ensures
        (k * p == w.0 * step(a, sg, d.0) + w.1 * step(a, sg, d.1) + w.2 * step(a, sg, d.2) + w.3
            * step(a, sg, d.3)) <==> (stepped(w.0, d.0) + stepped(w.1, d.1) + stepped(w.2, d.2)
            + stepped(w.3, d.3) == k * x),
{
    lemma_term(w.0, a, sg, d.0);
    lemma_term(w.1, a, sg, d.1);
    lemma_term(w.2, a, sg, d.2);
    lemma_term(w.3, a, sg, d.3);
    let sum = w.0 + w.1 + w.2 + w.3;
    assert(w.0 * a + w.1 * a + w.2 * a + w.3 * a == sum * a) by (nonlinear_arith)
        requires
            sum == w.0 + w.1 + w.2 + w.3,
    ;
    assert(sum * a == k * (s * a)) by (nonlinear_arith)
        requires
            sum == k * s,
    ;
    assert(k * p == k * (s * a) + offset(sg, k * x)) by (nonlinear_arith)
        requires
            p == s * a + offset(sg, x),
            sg == 1 || sg == -1,
    ;
}

/// One term of a weighted mean along one axis.
proof fn lemma_term(w: int, a: int, sg: int, d: int)
    requires
        sg == 1 || sg == -1,
    ensures
        w * step(a, sg, d) == w * a + offset(sg, stepped(w, d)),
{
    assert(w * (a + 1) == w * a + w) by (nonlinear_arith);
    assert(w * (a + (-1)) == w * a - w) by (nonlinear_arith);
}

/// The first of the five tetrahedra of a unit cube, in the order of
/// `local_corner`, in which the point that lies `x`, `y`, `z` steps from the
/// corner of the cube is found, where each step has the length `s`.
spec fn region(x: int, y: int, z: int, s: int) -> int {
    if x + y + z <= s {
        0
    } else if x + y - z >= s {
        1
    } else if y + z - x >= s {
        2
    } else if x + z - y >= s {
        3
    } else {
        4
    }
}

/// Twice the weights of the point that lies `x`, `y`, `z` steps into a unit
/// cube, on the corners of the `t`-th tetrahedron of that cube.
spec fn weights(t: int, x: int, y: int, z: int, s: int) -> (int, int, int, int) {
    if t == 0 {
        (2 * (s - x - y - z), 2 * x, 2 * y, 2 * z)
    } else if t == 1 {
        (2 * (x + y - z - s), 2 * (s - y), 2 * (s - x), 2 * z)
    } else if t == 2 {
        (2 * (y + z - x - s), 2 * (s - y), 2 * x, 2 * (s - z))
    } else if t == 3 {
        (2 * (x + z - y - s), 2 * y, 2 * (s - x), 2 * (s - z))
    } else {
        (x + y + z - s, z - x - y + s, x - y - z + s, y - x - z + s)
    }
}

/// The corners of the `t`-th tetrahedron of the unit cube at `a`.
spec fn cube_tetrahedron(a: Position, sg: Position, t: int) -> (
    Position,
    Position,
    Position,
    Position,
) {
    (
        cube_corner(a, sg, local_corner(t, 0)),
        cube_corner(a, sg, local_corner(t, 1)),
        cube_corner(a, sg, local_corner(t, 2)),
        cube_corner(a, sg, local_corner(t, 3)),
    )
}

/// Every point of a unit cube lies in one of its five tetrahedra.
proof fn lemma_cube_is_covered(a: Position, sg: Position, p: Position, s: int, x: int, y: int, z: int)
    requires
        sg.0 == 1 || sg.0 == -1,
        sg.1 == 1 || sg.1 == -1,
        sg.2 == 1 || sg.2 == -1,
        s >= 1,
        0 <= x <= s,
        0 <= y <= s,
        0 <= z <= s,
        p.0 == s * a.0 + offset(sg.0, x),
        p.1 == s * a.1 + offset(sg.1, y),
        p.2 == s * a.2 + offset(sg.2, z),
    ensures
        ({
            let c = cube_tetrahedron(a, sg, region(x, y, z, s));
            in_hull(c.0, c.1, c.2, c.3, p, s)
        }),
{
    let t = region(x, y, z, s);
    let w = weights(t, x, y, z, s);
    let c = cube_tetrahedron(a, sg, t);
    let d0 = local_corner(t, 0);
    let d1 = local_corner(t, 1);
    let d2 = local_corner(t, 2);
    let d3 = local_corner(t, 3);
    assert(w.0 + w.1 + w.2 + w.3 == 2 * s);
    lemma_axis(2, s, a.0, sg.0, x, p.0, w, (d0.0, d1.0, d2.0, d3.0));
    lemma_axis(2, s, a.1, sg.1, y, p.1, w, (d0.1, d1.1, d2.1, d3.1));
    lemma_axis(2, s, a.2, sg.2, z, p.2, w, (d0.2, d1.2, d2.2, d3.2));
    assert(combines(c.0, c.1, c.2, c.3, w.0, w.1, w.2, w.3, 2, p, s));
}

/// The cell of a coordinate: the unit interval of the axis in which it lies.
proof fn lemma_cell(p: int, s: int, m: int) -> (x0: int)
    requires
        s >= 1,
        m >= 2,
        0 <= p <= s * (m - 1),
    ensures
        0 <= x0 <= m - 2,
        s * x0 <= p <= s * x0 + s,
        s * (x0 + 1) == s * x0 + s,
{
    lemma_fundamental_div_mod(p, s);
    let q = p / s;
    assert(0 <= q <= m - 1) by (nonlinear_arith)
        requires
            p == s * q + p % s,
            0 <= p % s < s,
            0 <= p <= s * (m - 1),
            s >= 1,
    ;
    let x0 = if q == m - 1 {
        m - 2
    } else {
        q
    };
    assert(s * (x0 + 1) == s * x0 + s) by (nonlinear_arith);
    if q == m - 1 {
        assert(s * (m - 1) <= p) by (nonlinear_arith)
            requires
                p == s * q + p % s,
                q == m - 1,
                0 <= p % s,
        ;
    }
    x0
}

/// Every point of the box of a lattice lies in one of its tetrahedra: the
/// tetrahedra leave no gap.
pub proof fn lemma_box_is_covered(m1: int, m2: int, m3: int, p: Position, s: int) -> (n: int)
    requires
        is_lattice(m1, m2, m3),
        m1 >= 3,
        m2 >= 3,
        m3 >= 3,
        s >= 1,
        0 <= p.0 <= s * (m1 - 1),
        0 <= p.1 <= s * (m2 - 1),
        0 <= p.2 <= s * (m3 - 1),
    ensures
        0 <= n < lattice_tetrahedra(m1, m2, m3).len(),
        in_tetrahedron(lattice_points(m1, m2, m3), lattice_tetrahedra(m1, m2, m3)[n], p, s),
{
    let h1 = blocks(m1);
    let h2 = blocks(m2);
    let h3 = blocks(m3);
    let x0 = lemma_cell(p.0, s, m1);
    let y0 = lemma_cell(p.1, s, m2);
    let z0 = lemma_cell(p.2, s, m3);
    let bi = x0 / 2;
    let bj = y0 / 2;
    let bk = z0 / 2;
    lemma_lattice_index_bounds(h1, h2, h3, bi, bj, bk);
    lemma_lattice_point_of_index(h2, h3, bi, bj, bk);
    let b = lattice_index(h2, h3, bi, bj, bk);
    let c = (if x0 % 2 == 1 { 0int } else { 1int }) + (if y0 % 2 == 1 { 0int } else { 2int }) + (if z0 % 2
        == 1 { 0int } else { 4int });
    let a: Position = (
        if x0 % 2 == 1 { x0 + 1 } else { x0 },
        if y0 % 2 == 1 { y0 + 1 } else { y0 },
        if z0 % 2 == 1 { z0 + 1 } else { z0 },
    );
    let sg: Position = (
        if x0 % 2 == 1 { -1int } else { 1int },
        if y0 % 2 == 1 { -1int } else { 1int },
        if z0 % 2 == 1 { -1int } else { 1int },
    );
    let x = if x0 % 2 == 1 { s * a.0 - p.0 } else { p.0 - s * a.0 };
    let y = if y0 % 2 == 1 { s * a.1 - p.1 } else { p.1 - s * a.1 };
    let z = if z0 % 2 == 1 { s * a.2 - p.2 } else { p.2 - s * a.2 };
    let t = region(x, y, z, s);
    let n = 40 * b + 5 * c + t;
    assert(h1 * h2 * h3 == (h1 * h2) * h3);
    assert(n / 40 == b && n % 40 == 5 * c + t && n % 5 == t);
    assert(cube_of(m2, m3, n) == (a, sg));
    lemma_cube_is_covered(a, sg, p, s, x, y, z);
    lemma_corner_positions(m1, m2, m3, n, 0);
    lemma_corner_positions(m1, m2, m3, n, 1);
    lemma_corner_positions(m1, m2, m3, n, 2);
    lemma_corner_positions(m1, m2, m3, n, 3);
    n
}

/// The point that lies `x`, `y`, `z` steps into a unit cube lies strictly
/// inside the cube, and on the side of each cut on which the `t`-th
/// tetrahedron of the cube lies.
spec fn in_region(t: int, x: int, y: int, z: int, s: int) -> bool {
    &&& 0 < x < s
    &&& 0 < y < s
    &&& 0 < z < s
    &&& if t == 0 {
        x + y + z < s
    } else if t == 1 {
        x + y - z > s
    } else if t == 2 {
        y + z - x > s
    } else if t == 3 {
        x + z - y > s
    } else {
        x + y + z > s && x + y - z < s && y + z - x < s && x + z - y < s
    }
}

/// A positive factor keeps the sign.
proof fn lemma_sign(k: int, v: int, kv: int)
    requires
        k > 0,
        kv == k * v,
    ensures
        kv > 0 <==> v > 0,
        kv < 0 <==> v < 0,
{
    assert((kv > 0 <==> v > 0) && (kv < 0 <==> v < 0)) by (nonlinear_arith)
        requires
            k > 0,
            kv == k * v,
    ;
}

/// A point strictly inside a tetrahedron of a unit cube lies strictly inside
/// the cube and in the region of that tetrahedron.
proof fn lemma_inside_cube(a: Position, sg: Position, t: int, p: Position, s: int)
    requires
        sg.0 == 1 || sg.0 == -1,
        sg.1 == 1 || sg.1 == -1,
        sg.2 == 1 || sg.2 == -1,
        0 <= t < 5,
        s >= 1,
        ({
            let c = cube_tetrahedron(a, sg, t);
            inside_hull(c.0, c.1, c.2, c.3, p, s)
        }),
    ensures
        in_region(
            t,
            offset(sg.0, p.0 - s * a.0),
            offset(sg.1, p.1 - s * a.1),
            offset(sg.2, p.2 - s * a.2),
            s,
        ),
{
    let c = cube_tetrahedron(a, sg, t);
    let (w0, w1, w2, w3, k) = choose|w0: int, w1: int, w2: int, w3: int, k: int|
        #[trigger] combines(c.0, c.1, c.2, c.3, w0, w1, w2, w3, k, p, s) && w0 > 0 && w1 > 0 && w2
            > 0 && w3 > 0;
    let w = (w0, w1, w2, w3);
    let x = offset(sg.0, p.0 - s * a.0);
    let y = offset(sg.1, p.1 - s * a.1);
    let z = offset(sg.2, p.2 - s * a.2);
    let d0 = local_corner(t, 0);
    let d1 = local_corner(t, 1);
    let d2 = local_corner(t, 2);
    let d3 = local_corner(t, 3);
    lemma_axis(k, s, a.0, sg.0, x, p.0, w, (d0.0, d1.0, d2.0, d3.0));
    lemma_axis(k, s, a.1, sg.1, y, p.1, w, (d0.1, d1.1, d2.1, d3.1));
    lemma_axis(k, s, a.2, sg.2, z, p.2, w, (d0.2, d1.2, d2.2, d3.2));
    let kx = k * x;
    let ky = k * y;
    let kz = k * z;
    let ks = k * s;
    lemma_sign(k, x, kx);
    lemma_sign(k, y, ky);
    lemma_sign(k, z, kz);
    assert(k * (s - x) == ks - kx) by (nonlinear_arith)
        requires
            kx == k * x,
            ks == k * s,
    ;
    assert(k * (s - y) == ks - ky) by (nonlinear_arith)
        requires
            ky == k * y,
            ks == k * s,
    ;
    assert(k * (s - z) == ks - kz) by (nonlinear_arith)
        requires
            kz == k * z,
            ks == k * s,
    ;
    lemma_sign(k, s - x, ks - kx);
    lemma_sign(k, s - y, ks - ky);
    lemma_sign(k, s - z, ks - kz);
    assert(k * (x + y + z - s) == kx + ky + kz - ks) by (nonlinear_arith)
        requires
            kx == k * x,
            ky == k * y,
            kz == k * z,
            ks == k * s,
    ;
    assert(k * (x + y - z - s) == kx + ky - kz - ks) by (nonlinear_arith)
        requires
            kx == k * x,
            ky == k * y,
            kz == k * z,
            ks == k * s,
    ;
    assert(k * (y + z - x - s) == ky + kz - kx - ks) by (nonlinear_arith)
        requires
            kx == k * x,
            ky == k * y,
            kz == k * z,
            ks == k * s,
    ;
    assert(k * (x + z - y - s) == kx + kz - ky - ks) by (nonlinear_arith)
        requires
            kx == k * x,
            ky == k * y,
            kz == k * z,
            ks == k * s,
    ;
    lemma_sign(k, x + y + z - s, kx + ky + kz - ks);
    lemma_sign(k, x + y - z - s, kx + ky - kz - ks);
    lemma_sign(k, y + z - x - s, ky + kz - kx - ks);
    lemma_sign(k, x + z - y - s, kx + kz - ky - ks);
}

/// A coordinate lies strictly inside one cell of its axis only.
proof fn lemma_same_cell(p: int, s: int, c1: int, c2: int)
    requires
        s >= 1,
        s * c1 < p < s * c1 + s,
        s * c2 < p < s * c2 + s,
    ensures
        c1 == c2,
{
    assert(c1 == c2) by (nonlinear_arith)
        requires
            s >= 1,
            s * c1 < p < s * c1 + s,
            s * c2 < p < s * c2 + s,
    ;
}

/// Along one axis, a point lies strictly inside one unit cube of one block only.
proof fn lemma_axis_is_determined(p: int, s: int, b1: int, bit1: int, b2: int, bit2: int)
    requires
        s >= 1,
        bit1 == 0 || bit1 == 1,
        bit2 == 0 || bit2 == 1,
        0 < offset(axis_step(bit1), p - s * axis_anchor(b1, bit1)) < s,
        0 < offset(axis_step(bit2), p - s * axis_anchor(b2, bit2)) < s,
    ensures
        b1 == b2,
        bit1 == bit2,
{
    let a1 = axis_anchor(b1, bit1);
    let a2 = axis_anchor(b2, bit2);
    let c1 = if bit1 == 0 { a1 - 1 } else { a1 };
    let c2 = if bit2 == 0 { a2 - 1 } else { a2 };
    assert(s * (a1 - 1) == s * a1 - s) by (nonlinear_arith);
    assert(s * (a2 - 1) == s * a2 - s) by (nonlinear_arith);
    assert(s * c1 < p < s * c1 + s);
    assert(s * c2 < p < s * c2 + s);
    lemma_same_cell(p, s, c1, c2);
}

/// The five regions of a unit cube have no point in common.
proof fn lemma_regions_are_disjoint(t1: int, t2: int, x: int, y: int, z: int, s: int)
    requires
        0 <= t1 < 5,
        0 <= t2 < 5,
        in_region(t1, x, y, z, s),
        in_region(t2, x, y, z, s),
    ensures
        t1 == t2,
{
}

/// A point strictly inside a tetrahedron of a lattice lies strictly inside
/// the unit cube of that tetrahedron, and in its region of the cube.
proof fn lemma_inside_region(m1: int, m2: int, m3: int, n: int, p: Position, s: int)
    requires
        is_lattice(m1, m2, m3),
        s >= 1,
        0 <= n < lattice_tetrahedra(m1, m2, m3).len(),
        inside_tetrahedron(lattice_points(m1, m2, m3), lattice_tetrahedra(m1, m2, m3)[n], p, s),
    ensures
        ({
            let q = steps_into(m2, m3, n, p, s);
            in_region(n % 5, q.0, q.1, q.2, s)
        }),
{
    lemma_corner_positions(m1, m2, m3, n, 0);
    lemma_corner_positions(m1, m2, m3, n, 1);
    lemma_corner_positions(m1, m2, m3, n, 2);
    lemma_corner_positions(m1, m2, m3, n, 3);
    let cube = cube_of(m2, m3, n);
    lemma_inside_cube(cube.0, cube.1, n % 5, p, s);
}

/// Two tetrahedra of a lattice with a point strictly inside the unit cubes
/// of both lie in the same cube.
proof fn lemma_cube_is_determined(m1: int, m2: int, m3: int, n1: int, n2: int, p: Position, s: int)
    requires
        is_lattice(m1, m2, m3),
        s >= 1,
        0 <= n1 < lattice_tetrahedra(m1, m2, m3).len(),
        0 <= n2 < lattice_tetrahedra(m1, m2, m3).len(),
        ({
            let q = steps_into(m2, m3, n1, p, s);
            0 < q.0 < s && 0 < q.1 < s && 0 < q.2 < s
        }),
        ({
            let q = steps_into(m2, m3, n2, p, s);
            0 < q.0 < s && 0 < q.1 < s && 0 < q.2 < s
        }),
    ensures
        n1 / 5 == n2 / 5,
        cube_of(m2, m3, n1) == cube_of(m2, m3, n2),
{
    lemma_block(m1, m2, m3, n1);
    lemma_block(m1, m2, m3, n2);
    let b1 = lattice_point(blocks(m2), blocks(m3), n1 / 40);
    let b2 = lattice_point(blocks(m2), blocks(m3), n2 / 40);
    let c1 = (n1 % 40) / 5;
    let c2 = (n2 % 40) / 5;
    lemma_axis_is_determined(p.0, s, b1.0, c1 % 2, b2.0, c2 % 2);
    lemma_axis_is_determined(p.1, s, b1.1, (c1 / 2) % 2, b2.1, (c2 / 2) % 2);
    lemma_axis_is_determined(p.2, s, b1.2, c1 / 4, b2.2, c2 / 4);
    assert(n1 / 40 == n2 / 40);
    assert(c1 == c2);
}

/// No point lies strictly inside two tetrahedra of a lattice: the
/// tetrahedra do not overlap.
pub proof fn lemma_tetrahedra_do_not_overlap(
    m1: int,
    m2: int,
    m3: int,
    n1: int,
    n2: int,
    p: Position,
    s: int,
)
    requires
        is_lattice(m1, m2, m3),
        s >= 1,
        0 <= n1 < lattice_tetrahedra(m1, m2, m3).len(),
        0 <= n2 < lattice_tetrahedra(m1, m2, m3).len(),
        inside_tetrahedron(lattice_points(m1, m2, m3), lattice_tetrahedra(m1, m2, m3)[n1], p, s),
        inside_tetrahedron(lattice_points(m1, m2, m3), lattice_tetrahedra(m1, m2, m3)[n2], p, s),
    ensures
        n1 == n2,
{
    lemma_inside_region(m1, m2, m3, n1, p, s);
    lemma_inside_region(m1, m2, m3, n2, p, s);
    lemma_cube_is_determined(m1, m2, m3, n1, n2, p, s);
    let q = steps_into(m2, m3, n1, p, s);
    lemma_regions_are_disjoint(n1 % 5, n2 % 5, q.0, q.1, q.2, s);
}

/// The number of coordinates in which two positions differ.
pub open spec fn differing(a: Position, b: Position) -> int {
    (if a.0 == b.0 { 0int } else { 1int }) + (if a.1 == b.1 { 0int } else { 1int }) + (if a.2 == b.2 {
        0int
    } else {
        1int
    })
}

/// The sum of the coordinates of a position is odd.
pub open spec fn odd_sum(a: Position) -> bool {
    (a.0 + a.1 + a.2) % 2 == 1
}

/// The cuts through the faces of the unit cubes agree. Two corners of a
/// tetrahedron of a lattice are the ends of an edge of a unit cube or of a
/// diagonal of one of its faces, never of a diagonal through the cube; and
/// where they are the ends of a diagonal of a face, the coordinates of each
/// have an odd sum. A face has two diagonals, and only one of them joins
/// corners with an odd sum: so the two cubes that share a face are both cut
/// through it along that one.
pub proof fn lemma_face_diagonals_agree(m1: int, m2: int, m3: int, n: int, u: int, v: int)
    requires
        is_lattice(m1, m2, m3),
        0 <= n < lattice_tetrahedra(m1, m2, m3).len(),
        0 <= u < 4,
        0 <= v < 4,
        u != v,
    ensures
        ({
            let a = position(lattice_points(m1, m2, m3), lattice_tetrahedra(m1, m2, m3)[n][u]);
            let b = position(lattice_points(m1, m2, m3), lattice_tetrahedra(m1, m2, m3)[n][v]);
            &&& -1 <= a.0 - b.0 <= 1
            &&& -1 <= a.1 - b.1 <= 1
            &&& -1 <= a.2 - b.2 <= 1
            &&& differing(a, b) == 1 || differing(a, b) == 2
            &&& differing(a, b) == 2 ==> odd_sum(a) && odd_sum(b)
        }),
{
    lemma_corner_positions(m1, m2, m3, n, u);
    lemma_corner_positions(m1, m2, m3, n, v);
    let cube = cube_of(m2, m3, n);
    let t = n % 5;
    lemma_local_corners(t, u, v);
    lemma_cube_corners(cube.0, cube.1, local_corner(t, u), local_corner(t, v));
}

/// Two corners of a unit cube that is split from a corner with even
/// coordinates differ in as many coordinates as in steps, and the sum of the
/// coordinates of each is odd where it lies an odd number of steps away.
proof fn lemma_cube_corners(a: Position, sg: Position, du: Position, dv: Position)
    requires
        a.0 % 2 == 0 && a.1 % 2 == 0 && a.2 % 2 == 0,
        sg.0 == 1 || sg.0 == -1,
        sg.1 == 1 || sg.1 == -1,
        sg.2 == 1 || sg.2 == -1,
        0 <= du.0 <= 1 && 0 <= du.1 <= 1 && 0 <= du.2 <= 1,
        0 <= dv.0 <= 1 && 0 <= dv.1 <= 1 && 0 <= dv.2 <= 1,
    ensures
        ({
            let p = cube_corner(a, sg, du);
            let q = cube_corner(a, sg, dv);
            &&& -1 <= p.0 - q.0 <= 1
            &&& -1 <= p.1 - q.1 <= 1
            &&& -1 <= p.2 - q.2 <= 1
            &&& differing(p, q) == differing(du, dv)
            &&& odd_sum(p) == ((du.0 + du.1 + du.2) % 2 == 1)
            &&& odd_sum(q) == ((dv.0 + dv.1 + dv.2) % 2 == 1)
        }),
{
}

/// Two corners of one of the five tetrahedra of a unit cube differ in one
/// step or in two, and where they differ in two, each lies an odd number of
/// steps from the corner from which the cube is split.
proof fn lemma_local_corners(t: int, u: int, v: int)
    requires
        0 <= t < 5,
        0 <= u < 4,
        0 <= v < 4,
        u != v,
    ensures
        ({
            let a = local_corner(t, u);
            let b = local_corner(t, v);
            &&& 0 <= a.0 <= 1 && 0 <= a.1 <= 1 && 0 <= a.2 <= 1
            &&& 0 <= b.0 <= 1 && 0 <= b.1 <= 1 && 0 <= b.2 <= 1
            &&& differing(a, b) == 1 || differing(a, b) == 2
            &&& differing(a, b) == 2 ==> (a.0 + a.1 + a.2) % 2 == 1 && (b.0 + b.1 + b.2) % 2 == 1
        }),
{
}

} // verus!

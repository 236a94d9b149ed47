use isosurface::{make_mesh, orient_triangle, Grid, Mesh, Reference, Sign, Tetrahedron};

fn grid_of(points: i32, tetrahedra: &[[i32; 4]]) -> Grid {
    let mut g = Grid::new();
    for i in 0..points {
        g.points.push((i, 0, 0));
    }
    for t in tetrahedra {
        g.tetrahedrons.push(Tetrahedron { points: *t });
    }
    g
}

const N: Sign = Sign::Negative;
const P: Sign = Sign::Positive;
const Z: Sign = Sign::Zero;

#[test]
fn one_corner_below_zero_is_cut_off_by_one_triangle() {
    let g = grid_of(4, &[[0, 1, 2, 3]]);
    let mesh = make_mesh(&g, &vec![N, P, P, P]);
    assert_eq!(mesh.points, vec![(0, 1), (0, 2), (0, 3)]);
    assert_eq!(mesh.triangles, vec![(0, 1, 2)]);
    assert_eq!(mesh.references, vec![Reference::Position(0)]);
}

#[test]
fn the_lone_corner_may_stand_anywhere() {
    let g = grid_of(4, &[[0, 1, 2, 3]]);
    let mesh = make_mesh(&g, &vec![P, P, N, Z]);
    assert_eq!(mesh.points, vec![(0, 2), (1, 2), (2, 3)]);
    assert_eq!(mesh.triangles, vec![(0, 1, 2)]);
    assert_eq!(mesh.references, vec![Reference::Position(2)]);
}

#[test]
fn one_corner_above_zero_is_cut_off_by_one_triangle() {
    let g = grid_of(4, &[[0, 1, 2, 3]]);
    let mesh = make_mesh(&g, &vec![N, N, P, N]);
    assert_eq!(mesh.points, vec![(0, 2), (1, 2), (2, 3)]);
    assert_eq!(mesh.triangles, vec![(0, 1, 2)]);
    assert_eq!(mesh.references, vec![Reference::Position(2)]);
}

#[test]
fn two_corners_on_each_side_give_two_triangles() {
    let g = grid_of(4, &[[0, 1, 2, 3]]);
    let mesh = make_mesh(&g, &vec![P, N, Z, N]);
    assert_eq!(mesh.points, vec![(0, 1), (1, 2), (0, 3), (2, 3)]);
    assert_eq!(mesh.triangles, vec![(0, 2, 1), (3, 2, 1)]);
    assert_eq!(mesh.references, vec![Reference::Direction(1, 0), Reference::Direction(3, 2)]);
}

#[test]
fn corners_on_one_side_give_nothing() {
    let g = grid_of(4, &[[0, 1, 2, 3]]);
    for signs in [vec![N, N, N, N], vec![P, P, P, P], vec![Z, Z, Z, Z], vec![P, Z, P, Z]] {
        let mesh = make_mesh(&g, &signs);
        assert!(mesh.points.is_empty());
        assert!(mesh.triangles.is_empty());
        assert!(mesh.references.is_empty());
    }
}

#[test]
fn an_edge_of_two_tetrahedra_has_one_point() {
    let g = grid_of(5, &[[0, 1, 2, 3], [4, 2, 1, 0]]);
    let mesh = make_mesh(&g, &vec![N, P, P, P, P]);
    assert_eq!(mesh.points, vec![(0, 1), (0, 2), (0, 3), (0, 4)]);
    assert_eq!(mesh.triangles, vec![(0, 1, 2), (3, 1, 0)]);
    assert_eq!(mesh.references, vec![Reference::Position(0), Reference::Position(0)]);
}

#[test]
fn two_runs_give_the_same_mesh() {
    let g = Grid::new_box_basis_grid(5, 5, 5);
    let signs: Vec<Sign> = g
        .points
        .iter()
        .map(|p| {
            let d = (p.0 - 2) * (p.0 - 2) + (p.1 - 2) * (p.1 - 2) + (p.2 - 2) * (p.2 - 2);
            if d < 3 {
                N
            } else if d == 3 {
                Z
            } else {
                P
            }
        })
        .collect();
    let a = make_mesh(&g, &signs);
    let b = make_mesh(&g, &signs);
    assert!(!a.triangles.is_empty());
    assert_eq!(a.points, b.points);
    assert_eq!(a.triangles, b.triangles);
    assert_eq!(a.references, b.references);
}

#[test]
fn mesh_points_are_crossed_edges_without_repeats() {
    let g = Grid::new_box_basis_grid(5, 5, 5);
    let signs: Vec<Sign> =
        g.points.iter().map(|p| if p.0 + p.1 + p.2 < 5 { N } else { P }).collect();
    let mesh = make_mesh(&g, &signs);
    assert!(!mesh.points.is_empty());
    for (n, e) in mesh.points.iter().enumerate() {
        assert!(e.0 < e.1);
        let below = |i: i32| signs[i as usize] == N;
        assert!(below(e.0) != below(e.1));
        assert!(!mesh.points[..n].contains(e));
        assert!(g.tetrahedrons.iter().any(|t| t.points.contains(&e.0) && t.points.contains(&e.1)));
    }
    assert_eq!(mesh.triangles.len(), mesh.references.len());
    let len = mesh.points.len() as i32;
    let mut used = vec![false; mesh.points.len()];
    for t in &mesh.triangles {
        assert!(0 <= t.0 && t.0 < len && 0 <= t.1 && t.1 < len && 0 <= t.2 && t.2 < len);
        assert!(t.0 != t.1 && t.0 != t.2 && t.1 != t.2);
        used[t.0 as usize] = true;
        used[t.1 as usize] = true;
        used[t.2 as usize] = true;
    }
    assert!(used.iter().all(|u| *u));
    // every crossed edge of every tetrahedron has its point
    for t in &g.tetrahedrons {
        for a in t.points.iter() {
            for b in t.points.iter() {
                if signs[*a as usize] == N && signs[*b as usize] != N {
                    let e = if a < b { (*a, *b) } else { (*b, *a) };
                    assert!(mesh.points.contains(&e));
                }
            }
        }
    }
}

#[test]
fn orient_triangle_keeps_or_reverses() {
    assert_eq!(orient_triangle((4, 5, 6), true), (4, 5, 6));
    assert_eq!(orient_triangle((4, 5, 6), false), (6, 5, 4));
}

#[test]
fn orient_reverses_the_triangles_that_do_not_face_outward() {
    let mut mesh = Mesh {
        points: vec![(0, 1), (0, 2), (0, 3), (1, 2)],
        triangles: vec![(0, 1, 2), (3, 1, 0), (2, 3, 1)],
        references: vec![Reference::Position(0), Reference::Position(1), Reference::Direction(0, 1)],
    };
    mesh.orient(&vec![true, false, false]);
    assert_eq!(mesh.triangles, vec![(0, 1, 2), (0, 1, 3), (1, 3, 2)]);
    assert_eq!(mesh.points, vec![(0, 1), (0, 2), (0, 3), (1, 2)]);
    assert_eq!(
        mesh.references,
        vec![Reference::Position(0), Reference::Position(1), Reference::Direction(0, 1)]
    );
}

/// The winding of a triangle over points with whole coordinates, against `r`.
fn winding(at: &[(i64, i64, i64)], t: (i32, i32, i32), r: (i64, i64, i64)) -> i64 {
    let p = at[t.0 as usize];
    let q = at[t.1 as usize];
    let s = at[t.2 as usize];
    let u = (q.0 - p.0, q.1 - p.1, q.2 - p.2);
    let v = (s.0 - p.0, s.1 - p.1, s.2 - p.2);
    let c = (u.1 * v.2 - u.2 * v.1, u.2 * v.0 - u.0 * v.2, u.0 * v.1 - u.1 * v.0);
    c.0 * r.0 + c.1 * r.1 + c.2 * r.2
}

#[test]
fn an_oriented_triangle_does_not_wind_against_its_reference() {
    // the tetrahedron with corners 2 * (1, 1, 1), 2 * (3, 1, 1), 2 * (1, 3, 1),
    // 2 * (1, 1, 3); the first corner is below zero, and the field crosses
    // zero in the middle of each edge from it
    let corners = [(2, 2, 2), (6, 2, 2), (2, 6, 2), (2, 2, 6)];
    for order in [[0, 1, 2, 3], [0, 2, 1, 3], [1, 0, 3, 2], [3, 2, 1, 0]] {
        let mut g = Grid::new();
        for c in 0..4 {
            g.points.push((c, 0, 0));
        }
        g.tetrahedrons.push(Tetrahedron { points: order });
        let mut mesh = make_mesh(&g, &vec![N, P, P, P]);
        let at: Vec<(i64, i64, i64)> = mesh
            .points
            .iter()
            .map(|e| {
                let a = corners[e.0 as usize];
                let b = corners[e.1 as usize];
                ((a.0 + b.0) / 2, (a.1 + b.1) / 2, (a.2 + b.2) / 2)
            })
            .collect();
        assert_eq!(mesh.references, vec![Reference::Position(0)]);
        let r = corners[0];
        let before = winding(&at, mesh.triangles[0], r);
        assert!(before == 24 || before == -24);
        mesh.orient(&vec![before > 0]);
        assert_eq!(winding(&at, mesh.triangles[0], r), 24);
    }
}

#[test]
fn the_corners_of_every_cut_tetrahedron_are_relevant() {
    let g = Grid::new_box_basis_grid(5, 5, 5);
    let signs: Vec<Sign> = g
        .points
        .iter()
        .map(|p| {
            let d = (p.0 - 2) * (p.0 - 2) + (p.1 - 2) * (p.1 - 2) + (p.2 - 2) * (p.2 - 2);
            if d < 2 {
                N
            } else if d == 2 {
                Z
            } else {
                P
            }
        })
        .collect();
    let relevant = g.relevant_points(&signs);
    let mut cut = 0;
    for t in &g.tetrahedrons {
        let mut one = Grid::new();
        one.points = g.points.clone();
        one.tetrahedrons.push(Tetrahedron { points: t.points });
        let found = !make_mesh(&one, &signs).triangles.is_empty();
        if found {
            cut += 1;
        }
        for i in t.points.iter() {
            assert!(!found || relevant[*i as usize]);
        }
    }
    assert!(cut > 0);
    // and a point is relevant only as a corner of a tetrahedron that is cut
    for (p, flag) in relevant.iter().enumerate() {
        let touched = g.tetrahedrons.iter().any(|t| {
            let mut one = Grid::new();
            one.points = g.points.clone();
            one.tetrahedrons.push(Tetrahedron { points: t.points });
            t.points.contains(&(p as i32)) && !make_mesh(&one, &signs).triangles.is_empty()
        });
        assert_eq!(*flag, touched);
    }
    let mesh = make_mesh(&g, &signs);
    for e in &mesh.points {
        assert!(relevant[e.0 as usize] && relevant[e.1 as usize]);
    }
}

#[test]
fn a_zero_corner_among_negative_ones_is_cut_off_and_relevant() {
    let g = grid_of(4, &[[0, 1, 2, 3]]);
    let signs = vec![Z, N, N, N];
    let mesh = make_mesh(&g, &signs);
    assert_eq!(mesh.points, vec![(0, 1), (0, 2), (0, 3)]);
    assert_eq!(mesh.triangles, vec![(0, 1, 2)]);
    assert_eq!(mesh.references, vec![Reference::Position(0)]);
    assert_eq!(g.relevant_points(&signs), vec![true; 4]);
    let signs = vec![Z, P, P, P];
    assert!(make_mesh(&g, &signs).triangles.is_empty());
    assert_eq!(g.relevant_points(&signs), vec![false; 4]);
}

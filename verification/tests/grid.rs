use isosurface::{Grid, PointValues, Sign, Tetrahedron};

fn corner(g: &Grid, index: i32) -> (i64, i64, i64) {
    let p = g.points[index as usize];
    (p.0 as i64, p.1 as i64, p.2 as i64)
}

/// Six times the signed volume of the tetrahedron `t`.
fn det(g: &Grid, t: &Tetrahedron) -> i64 {
    let a = corner(g, t.points[0]);
    let b = corner(g, t.points[1]);
    let c = corner(g, t.points[2]);
    let d = corner(g, t.points[3]);
    let u = (b.0 - a.0, b.1 - a.1, b.2 - a.2);
    let v = (c.0 - a.0, c.1 - a.1, c.2 - a.2);
    let w = (d.0 - a.0, d.1 - a.1, d.2 - a.2);
    u.0 * (v.1 * w.2 - v.2 * w.1) - u.1 * (v.0 * w.2 - v.2 * w.0) + u.2 * (v.0 * w.1 - v.1 * w.0)
}

/// Whether the point `p / scale` lies strictly inside the tetrahedron `t`.
fn inside(g: &Grid, t: &Tetrahedron, p: (i64, i64, i64), scale: i64) -> bool {
    let c: Vec<(i64, i64, i64)> = t
        .points
        .iter()
        .map(|i| {
            let q = corner(g, *i);
            (q.0 * scale, q.1 * scale, q.2 * scale)
        })
        .collect();
    let side = |a: (i64, i64, i64), b: (i64, i64, i64), c: (i64, i64, i64), d: (i64, i64, i64)| {
        let u = (b.0 - a.0, b.1 - a.1, b.2 - a.2);
        let v = (c.0 - a.0, c.1 - a.1, c.2 - a.2);
        let w = (d.0 - a.0, d.1 - a.1, d.2 - a.2);
        u.0 * (v.1 * w.2 - v.2 * w.1) - u.1 * (v.0 * w.2 - v.2 * w.0) + u.2 * (v.0 * w.1 - v.1 * w.0)
    };
    let whole = side(c[0], c[1], c[2], c[3]);
    let parts = [
        side(p, c[1], c[2], c[3]),
        side(c[0], p, c[2], c[3]),
        side(c[0], c[1], p, c[3]),
        side(c[0], c[1], c[2], p),
    ];
    parts.iter().all(|d| (*d > 0) == (whole > 0) && *d != 0)
}

#[test]
fn extents_are_made_odd() {
    for (n, m) in [(0, 1), (1, 1), (2, 3), (3, 3), (4, 5), (5, 5), (10, 11), (11, 11)] {
        let g = Grid::new_box_basis_grid(n, 1, 1);
        assert_eq!(g.points.len(), m);
        let g = Grid::new_box_basis_grid(1, n, 1);
        assert_eq!(g.points.len(), m);
        let g = Grid::new_box_basis_grid(1, 1, n);
        assert_eq!(g.points.len(), m);
    }
}

#[test]
fn point_count_is_the_product_of_the_odd_extents() {
    for n1 in 0..7 {
        for n2 in 0..7 {
            for n3 in 0..7 {
                let g = Grid::new_box_basis_grid(n1, n2, n3);
                let m1 = (n1 + (1 - n1 % 2)) as usize;
                let m2 = (n2 + (1 - n2 % 2)) as usize;
                let m3 = (n3 + (1 - n3 % 2)) as usize;
                assert_eq!(g.points.len(), m1 * m2 * m3);
                assert_eq!(g.tetrahedrons.len(), 40 * ((m1 - 1) / 2) * ((m2 - 1) / 2) * ((m3 - 1) / 2));
            }
        }
    }
}

#[test]
fn points_stand_in_row_major_order() {
    let g = Grid::new_box_basis_grid(4, 3, 6);
    // extents 5, 3, 7
    assert_eq!(g.points.len(), 105);
    assert_eq!(g.points[0], (0, 0, 0));
    assert_eq!(g.points[1], (0, 0, 1));
    assert_eq!(g.points[7], (0, 1, 0));
    assert_eq!(g.points[21], (1, 0, 0));
    assert_eq!(g.points[104], (4, 2, 6));
    for i in 0..5 {
        for j in 0..3 {
            for k in 0..7 {
                assert_eq!(g.points[(k + 7 * (j + 3 * i)) as usize], (i, j, k));
            }
        }
    }
}

#[test]
fn negative_extent_gives_an_empty_grid() {
    for (a, b, c) in [(-1, 3, 3), (3, -2, 3), (3, 3, -7), (-4, -4, 3), (-1, -1, -1)] {
        let g = Grid::new_box_basis_grid(a, b, c);
        assert!(g.points.is_empty());
        assert!(g.tetrahedrons.is_empty());
    }
}

#[test]
fn new_grid_is_empty() {
    let g = Grid::new();
    assert!(g.points.is_empty());
    assert!(g.tetrahedrons.is_empty());
}

#[test]
fn one_block_is_split_into_forty_tetrahedra() {
    let g = Grid::new_box_basis_grid(3, 3, 3);
    assert_eq!(g.tetrahedrons.len(), 40);
    // the cube at the far corner, split from the point (2, 2, 2)
    assert_eq!(g.tetrahedrons[0].points, [26, 17, 23, 25]);
    assert_eq!(g.tetrahedrons[1].points, [14, 17, 23, 13]);
    assert_eq!(g.tetrahedrons[2].points, [22, 25, 13, 23]);
    assert_eq!(g.tetrahedrons[3].points, [16, 13, 25, 17]);
    assert_eq!(g.tetrahedrons[4].points, [13, 25, 17, 23]);
    // the next cube, split from the point (0, 2, 2)
    assert_eq!(g.tetrahedrons[5].points, [8, 17, 5, 7]);
    // the cube at the origin, split from the point (0, 0, 0)
    assert_eq!(g.tetrahedrons[35].points, [0, 9, 3, 1]);
    assert_eq!(g.tetrahedrons[39].points, [13, 1, 9, 3]);
}

#[test]
fn blocks_follow_one_another_in_row_major_order() {
    let g = Grid::new_box_basis_grid(5, 3, 7);
    assert_eq!(g.tetrahedrons.len(), 40 * 2 * 1 * 3);
    let index = |i: i32, j: i32, k: i32| k + 7 * (j + 3 * i);
    let mut n = 0;
    for i in [2, 4] {
        for k in [2, 4, 6] {
            assert_eq!(
                g.tetrahedrons[n].points,
                [index(i, 2, k), index(i - 1, 2, k), index(i, 1, k), index(i, 2, k - 1)]
            );
            n += 40;
        }
    }
}

#[test]
fn tetrahedra_have_four_different_corners_within_the_grid() {
    let g = Grid::new_box_basis_grid(5, 7, 3);
    let len = g.points.len() as i32;
    for t in &g.tetrahedrons {
        for c in 0..4 {
            assert!(0 <= t.points[c] && t.points[c] < len);
            for d in 0..c {
                assert_ne!(t.points[c], t.points[d]);
            }
        }
    }
}

#[test]
fn tetrahedra_fill_the_volume_of_the_box() {
    let g = Grid::new_box_basis_grid(5, 3, 7);
    let mut six_volumes = 0;
    for t in &g.tetrahedrons {
        let d = det(&g, t).abs();
        assert!(d == 1 || d == 2);
        six_volumes += d;
    }
    assert_eq!(six_volumes, 6 * 4 * 2 * 6);
}

#[test]
fn every_sample_of_the_box_lies_in_one_tetrahedron() {
    let g = Grid::new_box_basis_grid(5, 3, 3);
    let scale = 16;
    for (ox, oy, oz) in [(3, 5, 7), (9, 2, 12), (13, 11, 1)] {
        for x in 0..4 {
            for y in 0..2 {
                for z in 0..2 {
                    let p = (scale * x + ox, scale * y + oy, scale * z + oz);
                    let hits = g.tetrahedrons.iter().filter(|t| inside(&g, t, p, scale)).count();
                    assert_eq!(hits, 1);
                }
            }
        }
    }
}

#[test]
fn uniform_field_has_no_relevant_point() {
    let g = Grid::new_box_basis_grid(3, 5, 3);
    for s in [Sign::Negative, Sign::Zero, Sign::Positive, Sign::Unordered] {
        let signs = vec![s; g.points.len()];
        let relevant = g.relevant_points(&signs);
        assert_eq!(relevant.len(), g.points.len());
        assert!(relevant.iter().all(|r| !*r));
    }
}

#[test]
fn relevant_points_are_the_corners_of_mixed_tetrahedra() {
    let mut g = Grid::new();
    for i in 0..7 {
        g.points.push((i, 0, 0));
    }
    g.tetrahedrons.push(Tetrahedron { points: [0, 1, 2, 3] });
    g.tetrahedrons.push(Tetrahedron { points: [2, 3, 4, 5] });
    let signs = vec![
        Sign::Positive,
        Sign::Positive,
        Sign::Positive,
        Sign::Zero,
        Sign::Negative,
        Sign::Positive,
        Sign::Negative,
    ];
    // only the second tetrahedron has a corner below zero
    assert_eq!(g.relevant_points(&signs), vec![false, false, true, true, true, true, false]);
}

#[test]
fn a_zero_sample_is_on_the_positive_side_for_relevance() {
    let mut g = Grid::new();
    for i in 0..4 {
        g.points.push((i, 0, 0));
    }
    g.tetrahedrons.push(Tetrahedron { points: [0, 1, 2, 3] });
    let signs = vec![Sign::Zero, Sign::Negative, Sign::Negative, Sign::Negative];
    assert_eq!(g.relevant_points(&signs), vec![true; 4]);
    let signs = vec![Sign::Zero, Sign::Positive, Sign::Positive, Sign::Positive];
    assert_eq!(g.relevant_points(&signs), vec![false; 4]);
    let signs = vec![Sign::Zero, Sign::Zero, Sign::Zero, Sign::Zero];
    assert_eq!(g.relevant_points(&signs), vec![false; 4]);
    let signs = vec![Sign::Negative, Sign::Zero, Sign::Positive, Sign::Negative];
    assert_eq!(g.relevant_points(&signs), vec![true; 4]);
}

#[test]
fn a_sample_that_is_no_number_is_not_on_the_positive_side_for_relevance() {
    let mut g = Grid::new();
    for i in 0..4 {
        g.points.push((i, 0, 0));
    }
    g.tetrahedrons.push(Tetrahedron { points: [0, 1, 2, 3] });
    let signs = vec![Sign::Negative, Sign::Unordered, Sign::Negative, Sign::Unordered];
    assert_eq!(g.relevant_points(&signs), vec![false; 4]);
    let signs = vec![Sign::Positive, Sign::Unordered, Sign::Zero, Sign::Positive];
    assert_eq!(g.relevant_points(&signs), vec![true; 4]);
}

#[test]
fn precomputed_samples_are_read_by_index() {
    let signs = vec![Sign::Negative, Sign::Zero, Sign::Positive, Sign::Unordered];
    assert_eq!(signs.value(0), Sign::Negative);
    assert_eq!(signs.value(1), Sign::Zero);
    assert_eq!(signs.value(2), Sign::Positive);
    assert_eq!(signs.value(3), Sign::Unordered);
}

#[test]
fn faces_are_cut_along_the_diagonal_between_odd_corners() {
    let g = Grid::new_box_basis_grid(5, 5, 3);
    for t in &g.tetrahedrons {
        for u in 0..4 {
            for v in 0..u {
                let a = corner(&g, t.points[u]);
                let b = corner(&g, t.points[v]);
                let steps = [(a.0 - b.0).abs(), (a.1 - b.1).abs(), (a.2 - b.2).abs()];
                assert!(steps.iter().all(|d| *d <= 1));
                let differing: i64 = steps.iter().sum();
                assert!(differing == 1 || differing == 2);
                if differing == 2 {
                    assert_eq!((a.0 + a.1 + a.2) % 2, 1);
                    assert_eq!((b.0 + b.1 + b.2) % 2, 1);
                }
            }
        }
    }
}

#[test]
fn corners_out_of_range_are_found() {
    let mut g = Grid::new_box_basis_grid(3, 3, 3);
    assert!(g.has_corners_in_range());
    g.tetrahedrons.push(Tetrahedron { points: [0, 1, 2, 27] });
    assert!(!g.has_corners_in_range());
    g.tetrahedrons.pop();
    g.tetrahedrons.push(Tetrahedron { points: [0, -1, 2, 3] });
    assert!(!g.has_corners_in_range());
    g.tetrahedrons.pop();
    g.tetrahedrons.push(Tetrahedron { points: [26, 0, 0, 0] });
    assert!(g.has_corners_in_range());
    assert!(Grid::new().has_corners_in_range());
}

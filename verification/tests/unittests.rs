use isosurface::{
    bisect, bracket_is_final, make_mesh, open_bracket, GIndex, Grid, Mesh, OnTheFlyPointValues,
    Opening, Reference, Sign, Step,
};
use nalgebra::Vector3;

type Scalar = f64;
type Point = Vector3<Scalar>;
type LatticePoint = isosurface::Point;

/// Where the lattice lies in space.
struct Basis {
    origin: Point,
    b1: Point,
    b2: Point,
    b3: Point,
}

impl Basis {
    fn place(&self, p: LatticePoint) -> Point {
        self.origin + self.b1 * (p.0 as Scalar) + self.b2 * (p.1 as Scalar) + self.b3 * (p.2 as Scalar)
    }
}

fn sign(v: Scalar) -> Sign {
    if v < 0.0 {
        Sign::Negative
    } else if v == 0.0 {
        Sign::Zero
    } else if v > 0.0 {
        Sign::Positive
    } else {
        Sign::Unordered
    }
}

fn find_intersection(
    point1: Point,
    point2: Point,
    f: &dyn Fn(Point) -> Scalar,
    precision: Scalar,
    tiny: Scalar,
) -> Point {
    let mut a = point1;
    let mut b = point2;
    let mut fa = f(a);
    let mut fb = f(b);
    let (sa, sb) = (sign(fa), sign(fb));
    assert!(sa == Sign::Zero || sb == Sign::Zero || (sa != Sign::Unordered && sb != Sign::Unordered));
    match open_bracket(sa, sb) {
        Opening::First => return a,
        Opening::Second => return b,
        Opening::SameSide => {
            println!("ERROR");
            return a + (b - a) * 0.5;
        }
        Opening::Bracket { negative_first } => {
            if !negative_first {
                a = point2;
                b = point1;
                let fc = fa;
                fa = fb;
                fb = fc;
            }
        }
    }
    while !bracket_is_final((b - a).norm() <= precision, (fa - fb).abs() < tiny) {
        let c = a + (b - a) * 0.5;
        let fc = f(c);
        match bisect(sign(fc)) {
            Step::Found => return c,
            Step::MoveNegative => {
                a = c;
                fa = fc;
            }
            Step::MovePositive => {
                b = c;
                fb = fc;
            }
        }
    }
    a + (b - a) * 0.5
}

fn crossing_points(mesh: &Mesh, grid_points: &Vec<Point>, f: &dyn Fn(Point) -> Scalar) -> Vec<Point> {
    mesh.points
        .iter()
        .map(|e| find_intersection(grid_points[e.0 as usize], grid_points[e.1 as usize], f, 0.001, 1e-7))
        .collect()
}

fn windings(mesh: &Mesh, grid_points: &Vec<Point>, crossings: &Vec<Point>) -> Vec<Scalar> {
    let mut dots = Vec::new();
    for n in 0..mesh.triangles.len() {
        let (i, j, k) = mesh.triangles[n];
        let reference = match mesh.references[n] {
            Reference::Position(p) => grid_points[p as usize],
            Reference::Direction(from, to) => grid_points[to as usize] - grid_points[from as usize],
        };
        let u = crossings[j as usize] - crossings[i as usize];
        let v = crossings[k as usize] - crossings[i as usize];
        dots.push(u.cross(&v).dot(&reference));
    }
    dots
}

fn outward_flags(mesh: &Mesh, grid_points: &Vec<Point>, crossings: &Vec<Point>) -> Vec<bool> {
    windings(mesh, grid_points, crossings).into_iter().map(|d| d > 0.0).collect()
}

#[test]
fn test_basis_grid() {
    let basis = Basis {
        origin: Vector3::new(0., 0., 0.),
        b1: Vector3::new(1., 0., 0.),
        b2: Vector3::new(0., 1., 0.),
        b3: Vector3::new(0., 0., 1.),
    };
    let g = Grid::new_box_basis_grid(3, 3, 3);
    assert_eq!(g.points.len(), 3 * 3 * 3);
    let i: GIndex = 0;
    assert_eq!(basis.place(g.points[i as usize]).x, 0.0);
}

#[test]
fn test_relevant_points() {
    let basis = Basis {
        origin: Vector3::new(-1.0, -1.0, -1.0),
        b1: Vector3::new(0.1, 0.0, 0.0),
        b2: Vector3::new(0.0, 0.1, 0.0),
        b3: Vector3::new(0.0, 0.0, 0.1),
    };
    let g = Grid::new_box_basis_grid(11, 11, 11);
    let field = |p: LatticePoint| sign(basis.place(p).norm() - 0.001);
    let pv = OnTheFlyPointValues { points: &g.points, function: &field };
    let rp = (&g).relevant_points(&pv);
    let pos = rp.into_iter().position(|x| x).unwrap();
    let selected = basis.place(g.points[pos]);
    println!("P {} {:?} {}", pos, selected, selected.norm());
    assert!(selected.norm() <= 0.1);
}

#[test]
fn test_find_intersection() {
    let p = find_intersection(
        Vector3::new(0., 0., 0.),
        Vector3::new(10., 0., 0.),
        &|v: Point| v.norm() - 1.0,
        0.001,
        1e-6,
    );
    assert!((p - Vector3::new(1., 0., 0.)).norm() < 0.001)
}

#[test]
fn test_make_mesh() {
    let basis = Basis {
        origin: Vector3::new(-1., -1., -1.),
        b1: Vector3::new(0.1, 0., 0.),
        b2: Vector3::new(0., 0.1, 0.),
        b3: Vector3::new(0., 0., 0.1),
    };
    let g = Grid::new_box_basis_grid(21, 21, 21);
    let grid_points: Vec<Point> = g.points.iter().map(|p| basis.place(*p)).collect();
    let function = |v: Point| v.norm() - 1.0;
    let field = |p: LatticePoint| sign(function(basis.place(p)));
    let pv = OnTheFlyPointValues { points: &g.points, function: &field };

    let mut mesh = make_mesh(&g, &pv);
    let points = crossing_points(&mesh, &grid_points, &function);
    let flags = outward_flags(&mesh, &grid_points, &points);
    mesh.orient(&flags);
    assert!(!points.is_empty());
    assert_eq!(points.len(), mesh.points.len());
    assert!(points.iter().all(|v| (v.norm() - 1.0).abs() < 0.15));
}

#[test]
fn find_intersection_returns_an_end_with_a_zero_sample() {
    let f = |v: Point| v.x - 2.0;
    let a = Vector3::new(2., 0., 0.);
    let b = Vector3::new(5., 0., 0.);
    assert_eq!(find_intersection(a, b, &f, 0.001, 1e-6), a);
    assert_eq!(find_intersection(b, a, &f, 0.001, 1e-6), a);
}

#[test]
fn find_intersection_falls_back_to_the_midpoint_on_one_side() {
    let f = |v: Point| v.x + 1.0;
    let a = Vector3::new(2., 0., 0.);
    let b = Vector3::new(6., 2., 0.);
    assert_eq!(find_intersection(a, b, &f, 0.001, 1e-6), Vector3::new(4., 1., 0.));
}

#[test]
fn find_intersection_stops_on_an_exact_root_at_a_midpoint() {
    let f = |v: Point| v.x - 2.5;
    let a = Vector3::new(5., 0., 0.);
    let b = Vector3::new(0., 0., 0.);
    assert_eq!(find_intersection(a, b, &f, 0.001, 1e-6), Vector3::new(2.5, 0., 0.));
}

#[test]
fn find_intersection_stops_when_the_samples_are_flat() {
    // the samples at the two ends differ by less than `tiny` from the start
    let f = |v: Point| (v.x - 1.0) * 1e-9;
    let a = Vector3::new(0., 0., 0.);
    let b = Vector3::new(8., 0., 0.);
    assert_eq!(find_intersection(a, b, &f, 0.001, 1e-6), Vector3::new(4., 0., 0.));
}

#[test]
fn sphere_mesh_winds_outward_and_is_the_same_on_a_second_run() {
    let basis = Basis {
        origin: Vector3::new(-1., -1., -1.),
        b1: Vector3::new(0.25, 0., 0.),
        b2: Vector3::new(0., 0.25, 0.),
        b3: Vector3::new(0., 0., 0.25),
    };
    let g = Grid::new_box_basis_grid(9, 9, 9);
    let grid_points: Vec<Point> = g.points.iter().map(|p| basis.place(*p)).collect();
    let function = |v: Point| v.norm() - 0.8;
    let field = |p: LatticePoint| sign(function(basis.place(p)));
    let pv = OnTheFlyPointValues { points: &g.points, function: &field };

    let mut mesh = make_mesh(&g, &pv);
    let points = crossing_points(&mesh, &grid_points, &function);
    let flags = outward_flags(&mesh, &grid_points, &points);
    mesh.orient(&flags);
    assert!(!mesh.triangles.is_empty());
    assert!(flags.iter().any(|f| *f) && flags.iter().any(|f| !*f));
    // after orientation no triangle winds against its reference
    let after = windings(&mesh, &grid_points, &points);
    for n in 0..mesh.triangles.len() {
        assert!(after[n] >= -1e-12);
        // on a sphere round the origin, that is away from the centre
        let (i, j, k) = mesh.triangles[n];
        let u = points[j as usize] - points[i as usize];
        let v = points[k as usize] - points[i as usize];
        let centre = (points[i as usize] + points[j as usize] + points[k as usize]) / 3.0;
        assert!(u.cross(&v).dot(&centre) >= -1e-12);
    }

    let mut again = make_mesh(&g, &pv);
    let points_again = crossing_points(&again, &grid_points, &function);
    let flags_again = outward_flags(&again, &grid_points, &points_again);
    again.orient(&flags_again);
    assert_eq!(mesh.points, again.points);
    assert_eq!(mesh.triangles, again.triangles);
    assert_eq!(mesh.references, again.references);
    assert_eq!(points, points_again);
}

use isosurface::{Grid, OnTheFlyPointValues, Point, PointValues, Sign};
use std::cell::Cell;

#[test]
fn samples_on_the_fly_come_from_the_function_of_the_point() {
    let g = Grid::new_box_basis_grid(3, 3, 3);
    let field = |p: Point| {
        if p.0 + p.1 + p.2 < 3 {
            Sign::Negative
        } else if p.0 + p.1 + p.2 == 3 {
            Sign::Zero
        } else {
            Sign::Positive
        }
    };
    let pv = OnTheFlyPointValues { points: &g.points, function: &field };
    assert_eq!(pv.value(0), Sign::Negative);
    assert_eq!(pv.value(13), Sign::Zero);
    assert_eq!(pv.value(26), Sign::Positive);
    assert_eq!(pv.value(4), Sign::Negative);
    assert_eq!(pv.value(5), Sign::Zero);
    assert_eq!(pv.value(8), Sign::Positive);
}

#[test]
fn samples_on_the_fly_are_computed_on_every_call() {
    let g = Grid::new_box_basis_grid(1, 1, 3);
    let calls = Cell::new(0);
    let field = |_p: Point| {
        calls.set(calls.get() + 1);
        Sign::Positive
    };
    let pv = OnTheFlyPointValues { points: &g.points, function: &field };
    assert_eq!(pv.value(1), Sign::Positive);
    assert_eq!(pv.value(1), Sign::Positive);
    assert_eq!(pv.value(2), Sign::Positive);
    assert_eq!(calls.get(), 3);
}

#[test]
fn samples_on_the_fly_serve_the_grid() {
    let g = Grid::new_box_basis_grid(3, 3, 3);
    let field = |p: Point| if (p.0 + p.1 + p.2) % 2 == 0 { Sign::Negative } else { Sign::Positive };
    let pv = OnTheFlyPointValues { points: &g.points, function: &field };
    // every tetrahedron of the lattice has a corner with an odd sum of coordinates
    // and one with an even sum
    assert!(g.relevant_points(&pv).iter().all(|r| *r));
}

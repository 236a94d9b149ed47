use isosurface::normal_edge;
use std::cmp::{Ordering, PartialOrd};

fn partial_max<T: PartialOrd + Copy>(v: &Vec<T>) -> Option<T> {
    if v.len() == 0 {
        None
    } else if v.len() == 1 {
        Some(v[0])
    } else {
        let mut acc = v[0];
        for x in v.iter() {
            match x.partial_cmp(&acc) {
                Some(Ordering::Greater) => acc = *x,
                None => return None,
                _ => {}
            }
        }
        Some(acc)
    }
}

#[test]
fn test_partial_max() {
    assert_eq!(partial_max(&vec![0.1]), Some(0.1));
    assert_eq!(partial_max(&vec![0.1, 0.2]), Some(0.2));
    assert_eq!(partial_max(&vec![0.1, 0.2, 0.0 / 0.0]), None);
}

#[test]
fn partial_max_of_edge_ends() {
    let (a, b) = normal_edge((9, 4));
    assert_eq!(partial_max(&vec![a, b]), Some(9));
}

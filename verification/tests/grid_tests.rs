use biot_savart::grid::{check_axes, check_same_shape, pack, GridError};

#[test]
fn pack_rectangular_preserves_row_major_order() {
    let nested = vec![
        vec![vec![0.0_f64, 1.0], vec![2.0, 3.0]],
        vec![vec![4.0, 5.0], vec![6.0, 7.0]],
    ];
    let g = pack(nested).unwrap();
    assert_eq!(g.m, 2);
    assert_eq!(g.n, 2);
    assert_eq!(g.k, 2);
    assert_eq!(g.data, vec![0.0, 1.0, 2.0, 3.0, 4.0, 5.0, 6.0, 7.0]);
    assert_eq!(g.get(0, 0, 0), 0.0);
    assert_eq!(g.get(0, 0, 1), 1.0);
    assert_eq!(g.get(0, 1, 0), 2.0);
    assert_eq!(g.get(1, 0, 0), 4.0);
    assert_eq!(g.get(1, 1, 1), 7.0);
}

#[test]
fn pack_rejects_ragged_row() {
    let nested = vec![
        vec![vec![1.0_f64, 2.0], vec![3.0, 4.0]],
        vec![vec![5.0, 6.0]],
    ];
    assert_eq!(pack(nested), Err(GridError::ShapeMismatch));
}

#[test]
fn pack_rejects_ragged_inner_row() {
    let nested = vec![
        vec![vec![1.0_f64, 2.0], vec![3.0, 4.0]],
        vec![vec![5.0, 6.0], vec![7.0]],
    ];
    assert_eq!(pack(nested), Err(GridError::ShapeMismatch));
}

#[test]
fn pack_accepts_empty_input() {
    let nested: Vec<Vec<Vec<f64>>> = vec![];
    let g = pack(nested).unwrap();
    assert_eq!((g.m, g.n, g.k), (0, 0, 0));
    assert!(g.data.is_empty());
}

#[test]
fn pack_accepts_degenerate_middle_dimension() {
    let nested: Vec<Vec<Vec<f64>>> = vec![vec![], vec![]];
    let g = pack(nested).unwrap();
    assert_eq!((g.m, g.n, g.k), (2, 0, 0));
    assert!(g.data.is_empty());
}

#[test]
fn check_axes_accepts_matching_lengths() {
    let g = pack(vec![vec![vec![1.0_f64, 2.0, 3.0]]]).unwrap();
    assert_eq!(check_axes(&g, 1, 1, 3), Ok(()));
}

#[test]
fn check_axes_rejects_inconsistent_lengths() {
    let g = pack(vec![vec![vec![1.0_f64, 2.0, 3.0]]]).unwrap();
    assert_eq!(check_axes(&g, 1, 1, 2), Err(GridError::AxisShapeInconsistency));
    assert_eq!(check_axes(&g, 2, 1, 3), Err(GridError::AxisShapeInconsistency));
    assert_eq!(check_axes(&g, 1, 3, 3), Err(GridError::AxisShapeInconsistency));
}

#[test]
fn check_same_shape_accepts_equal_and_rejects_different() {
    let a = pack(vec![vec![vec![1.0_f64, 2.0]]]).unwrap();
    let b = pack(vec![vec![vec![3.0_f64, 4.0]]]).unwrap();
    let c = pack(vec![vec![vec![5.0_f64, 6.0]]]).unwrap();
    assert_eq!(check_same_shape(&a, &b, &c), Ok(()));
    let d = pack(vec![vec![vec![5.0_f64, 6.0, 7.0]]]).unwrap();
    assert_eq!(check_same_shape(&a, &b, &d), Err(GridError::ShapeMismatch));
}

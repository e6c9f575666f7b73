use simple_matrix::{Matrix, Neighbor};

fn counting(rows: usize, cols: usize) -> Matrix<usize> {
    Matrix::from_iter(rows, cols, 0..)
}

#[test]
fn new_fills_every_cell_with_the_default() {
    let zero: Matrix<i32> = Matrix::new(3, 6);
    assert_eq!(zero.rows(), 3);
    assert_eq!(zero.cols(), 6);
    let mut seen = 0;
    for cell in &zero {
        assert_eq!(*cell, 0);
        seen += 1;
    }
    assert_eq!(seen, 18);

    let words: Matrix<String> = Matrix::new(1, 2);
    assert_eq!(words.get(0, 1), Some(&String::new()));
}

#[test]
fn from_iter_fills_row_by_row() {
    let mat = counting(3, 6);
    assert_eq!(mat.get(0, 0), Some(&0));
    assert_eq!(mat.get(0, 1), Some(&1));
    assert_eq!(mat.get(1, 0), Some(&6));
    assert_eq!(mat.get(2, 5), Some(&17));
    assert_eq!(mat.get(10, 2), None);
}

#[test]
fn from_iter_takes_no_more_than_it_needs() {
    let mut source = 10..20;
    let mat = Matrix::from_iter(2, 3, source.by_ref());
    assert_eq!(mat.get(1, 2), Some(&15));
    assert_eq!(source.next(), Some(16));
}

#[test]
fn from_iter_with_an_empty_shape_takes_nothing() {
    let mut source = 0..3;
    let mat: Matrix<i32> = Matrix::from_iter(0, 4, source.by_ref());
    assert_eq!(mat.rows(), 0);
    assert_eq!(mat.cols(), 4);
    assert_eq!(mat.len(), 0);
    assert_eq!(mat.get(0, 0), None);
    assert_eq!(source.next(), Some(0));
}

#[test]
fn from_vecs_takes_each_vector_as_a_row() {
    let rows = vec![vec![1, 2], vec![3, 4], vec![5, 6]];
    assert!(Matrix::accepts_vecs(&rows));
    let mat = Matrix::from_vecs(rows);
    assert_eq!(mat.rows(), 3);
    assert_eq!(mat.cols(), 2);
    assert_eq!(mat.get(0, 0), Some(&1));
    assert_eq!(mat.get(0, 1), Some(&2));
    assert_eq!(mat.get(1, 0), Some(&3));
    assert_eq!(mat.get(1, 1), Some(&4));
    assert_eq!(mat.get(2, 1), Some(&6));
}

#[test]
fn accepts_vecs_wants_rows_of_one_length() {
    assert!(!Matrix::accepts_vecs(&vec![vec![1, 2], vec![3]]));
    assert!(!Matrix::accepts_vecs(&vec![vec![1], vec![2, 3]]));
    assert!(!Matrix::accepts_vecs(&vec![vec![1, 2], vec![3, 4], vec![]]));
    assert!(Matrix::accepts_vecs(&vec![vec![7], vec![7], vec![7]]));
    assert!(Matrix::accepts_vecs(&vec![vec![1, 2, 3]]));
}

#[test]
fn accepts_vecs_wants_a_row_and_a_column() {
    let none: Vec<Vec<u8>> = Vec::new();
    assert!(!Matrix::accepts_vecs(&none));
    let empty_rows: Vec<Vec<u8>> = vec![vec![], vec![]];
    assert!(!Matrix::accepts_vecs(&empty_rows));
    let one_empty_row: Vec<Vec<u8>> = vec![vec![]];
    assert!(!Matrix::accepts_vecs(&one_empty_row));
    let one_cell: Vec<Vec<u8>> = vec![vec![9]];
    assert!(Matrix::accepts_vecs(&one_cell));
    let mat = Matrix::from_vecs(one_cell);
    assert_eq!((mat.rows(), mat.cols()), (1, 1));
    assert_eq!(mat.get(0, 0), Some(&9));
}

#[test]
fn get_mut_writes_one_cell() {
    let mut mat = counting(3, 6);
    match mat.get_mut(0, 0) {
        Some(cell) => *cell = 5,
        None => panic!("cell (0, 0) is in range"),
    }
    assert_eq!(mat.get(0, 0), Some(&5));
    assert_eq!(mat.get(0, 1), Some(&1));
    assert!(mat.get_mut(3, 0).is_none());
    assert!(mat.get_mut(0, 6).is_none());
}

#[test]
fn set_reports_whether_it_wrote() {
    let mut mat = counting(2, 3);
    assert!(mat.set(1, 2, 40));
    assert_eq!(mat.get(1, 2), Some(&40));
    let before = mat.clone();
    assert!(!mat.set(2, 0, 9));
    assert!(!mat.set(0, 3, 9));
    assert!(!mat.set(2, 3, 9));
    assert_eq!(mat, before);
}

#[test]
fn set_then_get_round_trips_at_every_cell() {
    let mut mat: Matrix<i32> = Matrix::new(4, 3);
    for row in 0..4 {
        for col in 0..3 {
            assert!(mat.set(row, col, 7));
            assert_eq!(mat.get(row, col), Some(&7));
        }
    }
    for row in 0..4 {
        assert!(!mat.set(row, 3, 0));
    }
    for col in 0..3 {
        assert!(!mat.set(4, col, 0));
    }
}

#[test]
fn rows_and_columns_come_in_index_order() {
    let mat = counting(3, 6);
    assert_eq!(mat.get_row(1), Some(vec![&6, &7, &8, &9, &10, &11]));
    assert_eq!(mat.get_col(1), Some(vec![&1, &7, &13]));
    assert_eq!(mat.row(2), Some(vec![&12, &13, &14, &15, &16, &17]));
    assert_eq!(mat.col(5), Some(vec![&5, &11, &17]));
    assert_eq!(mat.get_row(3), None);
    assert_eq!(mat.get_col(6), None);
    assert_eq!(mat.row(5), None);
    assert_eq!(mat.col(10), None);
}

#[test]
fn transpose_swaps_rows_and_columns() {
    let mat = counting(3, 6);
    let mat_t = mat.transpose();
    assert_eq!(mat.rows(), mat_t.cols());
    assert_eq!(mat.cols(), mat_t.rows());
    for row in 0..3 {
        for col in 0..6 {
            assert_eq!(mat.get(row, col), mat_t.get(col, row));
        }
    }
    assert_eq!(
        counting(2, 3).transpose(),
        Matrix::from_iter(3, 2, vec![0, 3, 1, 4, 2, 5].into_iter())
    );
}

#[test]
fn apply_visits_every_cell_in_order() {
    let mat = counting(3, 6);
    let mut sum = 0;
    mat.apply(|n| sum += *n);
    assert_eq!(sum, 153);

    let mut seen = Vec::new();
    counting(2, 2).apply(|n| seen.push(*n));
    assert_eq!(seen, vec![0, 1, 2, 3]);
}

#[test]
fn apply_mut_changes_every_cell() {
    let mut mat = counting(3, 6);
    mat.apply_mut(|n| *n *= 2);
    assert_eq!(mat.get(0, 0), Some(&0));
    assert_eq!(mat.get(0, 1), Some(&2));
    assert_eq!(mat.get(0, 2), Some(&4));
    assert_eq!(mat.get(2, 5), Some(&34));
    assert_eq!((mat.rows(), mat.cols()), (3, 6));
}

fn locs<T>(found: &Vec<Neighbor<'_, T>>) -> Vec<(usize, usize)> {
    found.iter().map(|n| n.loc).collect()
}

#[test]
fn neighbors_in_the_middle_are_four() {
    let mat = counting(3, 3);
    let found = mat.neighbors(1, 1);
    assert_eq!(locs(&found), vec![(0, 1), (2, 1), (1, 0), (1, 2)]);
    let values: Vec<usize> = found.iter().map(|n| *n.value).collect();
    assert_eq!(values, vec![1, 7, 3, 5]);
}

#[test]
fn neighbors_skip_what_lies_outside() {
    let mat = counting(3, 3);
    assert_eq!(locs(&mat.neighbors(0, 0)), vec![(1, 0), (0, 1)]);
    assert_eq!(locs(&mat.neighbors(2, 2)), vec![(1, 2), (2, 1)]);
    assert_eq!(locs(&mat.neighbors(0, 1)), vec![(1, 1), (0, 0), (0, 2)]);
    assert_eq!(locs(&mat.neighbors(3, 1)), vec![(2, 1)]);
    assert_eq!(locs(&mat.neighbors(1, 3)), vec![(1, 2)]);
    assert_eq!(locs(&mat.neighbors(5, 5)), vec![]);
    assert_eq!(locs(&mat.neighbors(usize::MAX, 0)), vec![]);
    assert_eq!(locs(&mat.neighbors(0, usize::MAX)), vec![]);
    assert_eq!(locs(&counting(1, 1).neighbors(0, 0)), vec![]);
}

#[test]
fn neighbors_with_diagonals_come_after_the_straight_ones() {
    let mat = counting(3, 3);
    let found = mat.neighbors_with_diagonals(1, 1);
    assert_eq!(
        locs(&found),
        vec![(0, 1), (2, 1), (1, 0), (1, 2), (0, 0), (2, 2), (0, 2), (2, 0)]
    );
    let values: Vec<usize> = found.iter().map(|n| *n.value).collect();
    assert_eq!(values, vec![1, 7, 3, 5, 0, 8, 2, 6]);
    assert_eq!(
        locs(&mat.neighbors_with_diagonals(0, 0)),
        vec![(1, 0), (0, 1), (1, 1)]
    );
    assert_eq!(
        locs(&mat.neighbors_with_diagonals(2, 0)),
        vec![(1, 0), (2, 1), (1, 1)]
    );
    assert_eq!(locs(&mat.neighbors_with_diagonals(3, 3)), vec![(2, 2)]);
    assert_eq!(locs(&mat.neighbors_with_diagonals(usize::MAX, usize::MAX)), vec![]);
}

#[test]
fn a_neighbor_can_be_cloned_and_compared() {
    let mat = counting(2, 2);
    let found = mat.neighbors(0, 0);
    let copy = found[0].clone();
    assert_eq!(copy, found[0]);
    assert_ne!(copy, found[1]);
    assert_eq!(copy.loc, (1, 0));
    assert_eq!(*copy.value, 2);
}

#[test]
fn indexing_reads_and_writes_a_cell() {
    let mut mat = counting(3, 4);
    assert_eq!(mat[(1, 2)], 6);
    assert_eq!(mat[[2, 3]], 11);
    mat[(1, 2)] = 60;
    mat[[0, 0]] = 100;
    assert_eq!(mat.get(1, 2), Some(&60));
    assert_eq!(mat.get(0, 0), Some(&100));
    assert_eq!(mat.get(2, 3), Some(&11));
}

#[test]
fn exclusive_iteration_hands_out_every_cell_once_in_order() {
    let mut mat = counting(2, 3);
    let mut seen = Vec::new();
    for cell in &mut mat {
        seen.push(*cell);
        *cell = 100 + *cell;
    }
    assert_eq!(seen, vec![0, 1, 2, 3, 4, 5]);
    assert_eq!(mat, Matrix::from_iter(2, 3, 100..));
    let mut none: Matrix<usize> = counting(0, 3);
    assert_eq!((&mut none).into_iter().count(), 0);
}

#[test]
fn matrices_are_ordered_by_shape_and_then_by_cells() {
    assert!(counting(2, 2) < Matrix::from_iter(2, 2, 1..));
    assert!(counting(1, 6) < counting(6, 1));
    assert!(counting(2, 3) < counting(3, 2));
    assert!(counting(2, 3) <= counting(2, 3));
    assert!(!(counting(2, 3) < counting(2, 3)));
}

#[test]
fn iteration_goes_row_by_row() {
    let mut mat = counting(2, 3);
    let borrowed: Vec<usize> = (&mat).into_iter().copied().collect();
    assert_eq!(borrowed, vec![0, 1, 2, 3, 4, 5]);
    for cell in &mut mat {
        *cell += 10;
    }
    assert_eq!((mat.rows(), mat.cols()), (2, 3));
    let owned: Vec<usize> = mat.into_iter().collect();
    assert_eq!(owned, vec![10, 11, 12, 13, 14, 15]);
}

#[test]
fn the_cells_can_be_read_as_one_vector() {
    let mat = counting(2, 3);
    assert_eq!(mat.len(), 6);
    assert_eq!(mat.iter().sum::<usize>(), 15);
    assert_eq!(mat.first(), Some(&0));
}

#[test]
fn a_clone_is_equal_and_independent() {
    let mat = counting(2, 2);
    let mut copy = mat.clone();
    assert_eq!(mat, copy);
    assert!(copy.set(0, 0, 9));
    assert_ne!(mat, copy);
    assert_eq!(mat.get(0, 0), Some(&0));
}

#[test]
fn equality_looks_at_shape_and_cells() {
    assert_eq!(counting(2, 3), counting(2, 3));
    assert_ne!(counting(2, 3), counting(3, 2));
    assert_ne!(counting(1, 6), counting(6, 1));
    assert_ne!(counting(2, 2), Matrix::from_iter(2, 2, 1..));
    let no_rows: Matrix<usize> = counting(0, 3);
    let no_cols: Matrix<usize> = counting(3, 0);
    assert_ne!(no_rows, no_cols);
    assert_eq!(no_rows, counting(0, 3));
}

#[test]
fn widen_converts_every_cell() {
    let small: Matrix<u8> = Matrix::from_iter(2, 2, vec![1u8, 2, 3, 255].into_iter());
    let wide: Matrix<u32> = small.widen();
    assert_eq!(wide, Matrix::from_iter(2, 2, vec![1u32, 2, 3, 255].into_iter()));
    let signed: Matrix<i64> = small.widen();
    assert_eq!(signed.get(1, 1), Some(&255i64));
    let real: Matrix<f64> = small.widen();
    assert_eq!(real.get(1, 0), Some(&3.0));
    assert_eq!((real.rows(), real.cols()), (2, 2));
    let negative: Matrix<i8> = Matrix::from_iter(1, 2, vec![-128i8, 127].into_iter());
    let wider: Matrix<i16> = negative.widen();
    assert_eq!(wider, Matrix::from_iter(1, 2, vec![-128i16, 127].into_iter()));
}

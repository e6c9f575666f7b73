use simple_matrix::Matrix;

fn grid(rows: usize, cols: usize, cells: Vec<i32>) -> Matrix<i32> {
    Matrix::from_iter(rows, cols, cells.into_iter())
}

fn zero(rows: usize, cols: usize) -> Matrix<i32> {
    Matrix::new(rows, cols)
}

fn identity(size: usize) -> Matrix<i32> {
    let mut m = Matrix::new(size, size);
    for i in 0..size {
        assert!(m.set(i, i, 1));
    }
    m
}

fn neg(m: Matrix<i32>) -> Matrix<i32> {
    zero(m.rows(), m.cols()) - m
}

#[test]
fn counting_up_plus_counting_down_is_constant() {
    let up: Matrix<i32> = Matrix::from_iter(3, 3, 0..9);
    let down: Matrix<i32> = Matrix::from_iter(3, 3, (0..9).rev());
    let sum = up + down;
    assert_eq!((sum.rows(), sum.cols()), (3, 3));
    for row in 0..3 {
        for col in 0..3 {
            assert_eq!(sum.get(row, col), Some(&8));
        }
    }
}

#[test]
fn addition_is_commutative_and_associative() {
    let a = grid(2, 3, vec![1, -2, 3, 40, 50, -60]);
    let b = grid(2, 3, vec![7, 8, -9, 10, -11, 12]);
    let c = grid(2, 3, vec![-100, 200, 300, -400, 500, 600]);
    assert_eq!(&a + &b, &b + &a);
    assert_eq!(&a + &(&b + &c), &(&a + &b) + &c);
    assert_eq!(&a + &b, grid(2, 3, vec![8, 6, -6, 50, 39, -48]));
    assert_eq!(a.clone() + b.clone(), b + a);
}

#[test]
fn adding_zero_changes_nothing() {
    let a = grid(2, 2, vec![5, -6, 7, -8]);
    assert_eq!(&a + &zero(2, 2), a);
    assert_eq!(&zero(2, 2) + &a, a);
}

#[test]
fn subtraction_goes_cell_by_cell() {
    let a = grid(2, 2, vec![5, -6, 7, -8]);
    let b = grid(2, 2, vec![1, 2, 3, 4]);
    assert_eq!(&a - &b, grid(2, 2, vec![4, -8, 4, -12]));
    assert_eq!(&b - &a, grid(2, 2, vec![-4, 8, -4, 12]));
    assert_eq!(a.clone() - b.clone(), grid(2, 2, vec![4, -8, 4, -12]));
}

#[test]
fn swapping_the_operands_of_a_subtraction_negates_it() {
    let a = grid(2, 2, vec![5, -6, 7, -8]);
    let b = grid(2, 2, vec![1, 2, 3, 4]);
    assert_eq!(&a - &b, neg(&b - &a));
    assert_eq!(&a - &a, zero(2, 2));
    assert_eq!(&a - &zero(2, 2), a);
}

#[test]
fn the_identity_matrix_leaves_a_matrix_as_it_is() {
    let a = grid(2, 3, vec![1, -2, 3, 40, 50, -60]);
    assert_eq!(&a * &identity(3), a);
    assert_eq!(&identity(2) * &a, a);
    assert_eq!(a.clone() * identity(3), a);
}

#[test]
fn a_zero_matrix_gives_a_zero_product() {
    let a = grid(2, 3, vec![1, -2, 3, 40, 50, -60]);
    assert_eq!(&a * &zero(3, 2), zero(2, 2));
    assert_eq!(&a * &zero(3, 4), zero(2, 4));
    assert_eq!(&zero(5, 2) * &a, zero(5, 3));
}

#[test]
fn a_product_has_the_rows_of_the_left_and_the_columns_of_the_right() {
    let a = grid(1, 3, vec![1, 2, 3]);
    let b = grid(3, 1, vec![4, 5, 6]);
    assert_eq!(&a * &b, grid(1, 1, vec![32]));
    assert_eq!(
        &b * &a,
        grid(3, 3, vec![4, 8, 12, 5, 10, 15, 6, 12, 18])
    );
    let none: Matrix<i32> = Matrix::from_iter(0, 3, 0..0);
    let product = &none * &b;
    assert_eq!((product.rows(), product.cols()), (0, 1));
}

#[test]
fn scaling_multiplies_every_cell() {
    let a = grid(2, 2, vec![1, -2, 3, 0]);
    let scaled = a * 3;
    assert_eq!(scaled, grid(2, 2, vec![3, -6, 9, 0]));
}

#[test]
fn compound_assignment_works_in_place() {
    let mut a = grid(2, 2, vec![1, 2, 3, 4]);
    let b = grid(2, 2, vec![10, 20, 30, 40]);
    a += &b;
    assert_eq!(a, grid(2, 2, vec![11, 22, 33, 44]));
    a -= b.clone();
    assert_eq!(a, grid(2, 2, vec![1, 2, 3, 4]));
    a += b;
    assert_eq!(a, grid(2, 2, vec![11, 22, 33, 44]));
    a -= &zero(2, 2);
    assert_eq!(a, grid(2, 2, vec![11, 22, 33, 44]));
}

#[test]
fn transposing_twice_gives_the_matrix_back() {
    let a = grid(2, 3, vec![1, -2, 3, 40, 50, -60]);
    assert_eq!(a.transpose().transpose(), a);
    assert_eq!(a.transpose(), grid(3, 2, vec![1, 40, -2, 50, 3, -60]));
    let thin = grid(4, 1, vec![1, 2, 3, 4]);
    assert_eq!(thin.transpose(), grid(1, 4, vec![1, 2, 3, 4]));
    assert_eq!(thin.transpose().transpose(), thin);
}

#[test]
fn get_is_present_exactly_in_range() {
    let a = grid(2, 3, vec![1, -2, 3, 40, 50, -60]);
    for row in 0..5 {
        for col in 0..5 {
            assert_eq!(a.get(row, col).is_some(), row < 2 && col < 3);
        }
    }
    assert_eq!(a.get(1, 2), Some(&-60));
}

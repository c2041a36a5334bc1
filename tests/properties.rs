use numbrs::{ColumnVector, Matrix, RowVector, Scalar, Vector};

#[test]
fn adding_zeros_changes_nothing() {
    let a = Matrix::<i64, 2, 3>::new([[4, -2, 7], [0, 9, -5]]);
    assert_eq!(a + Matrix::zeros(), a);
}

#[test]
fn transposing_twice_gives_the_matrix_back() {
    let a = Matrix::<i64, 2, 3>::new([[1, 2, 3], [4, 5, 6]]);
    assert_eq!(a.transpose().transpose(), a);
}

#[test]
fn multiplication_is_associative() {
    let a = Matrix::<i64, 2, 3>::new([[1, -2, 3], [0, 4, -1]]);
    let b = Matrix::<i64, 3, 2>::new([[2, 1], [-3, 0], [5, 7]]);
    let c = Matrix::<i64, 2, 2>::new([[1, -1], [6, 2]]);
    assert_eq!((a * b) * c, a * (b * c));
}

#[test]
fn power_matches_repeated_multiplication() {
    let a = Matrix::<i64, 3, 3>::new([[1, 2, 0], [-1, 1, 3], [2, 0, 1]]);
    let mut naive = Matrix::<i64, 3, 3>::identity();
    for e in 0..7u32 {
        assert_eq!(a ^ e, naive);
        naive = naive * a;
    }
    assert_eq!(a ^ 0, Matrix::identity());
}

#[test]
fn power_scenario() {
    let a = Matrix::<i64, 2, 2>::new([[2, 1], [-1, 3]]);
    assert_eq!(a ^ 2, Matrix::new([[3, 5], [-5, 8]]));
    assert_eq!(a ^ 4, Matrix::new([[-16, 55], [-55, 39]]));
}

#[test]
fn matrix_times_column_scenario() {
    let a = Matrix::<i64, 2, 2>::new([[1, 2], [3, 4]]);
    let v = ColumnVector::new(Matrix::<i64, 2, 1>::new([[2], [-1]]));
    assert_eq!(a * v, ColumnVector::new(Matrix::new([[0], [2]])));
}

#[test]
fn row_times_column_is_the_inner_product() {
    let r = RowVector::new(Matrix::<i64, 1, 3>::new([[1, 2, 3]]));
    let c = ColumnVector::new(Matrix::<i64, 3, 1>::new([[4], [5], [6]]));
    assert_eq!(r * c, 32);
}

#[test]
fn column_times_row_is_the_outer_product() {
    let c = ColumnVector::new(Matrix::<i64, 2, 1>::new([[2], [-3]]));
    let r = RowVector::new(Matrix::<i64, 1, 3>::new([[1, 0, 4]]));
    assert_eq!(c * r, Matrix::new([[2, 0, 8], [-3, 0, -12]]));
}

#[test]
fn row_times_matrix_gives_a_row() {
    let r = RowVector::new(Matrix::<i64, 1, 2>::new([[1, -1]]));
    let m = Matrix::<i64, 2, 3>::new([[2, 0, 5], [1, 3, -2]]);
    assert_eq!(r * m, RowVector::new(Matrix::new([[1, -3, 7]])));
}

#[test]
fn column_vectors_add_subtract_and_scale() {
    let a = ColumnVector::new(Matrix::<i64, 2, 1>::new([[1], [2]]));
    let b = ColumnVector::new(Matrix::<i64, 2, 1>::new([[5], [-4]]));
    assert_eq!(a + b, ColumnVector::new(Matrix::new([[6], [-2]])));
    assert_eq!(a - b, ColumnVector::new(Matrix::new([[-4], [6]])));
    assert_eq!(b * 3, ColumnVector::new(Matrix::new([[15], [-12]])));
}

#[test]
fn identity_of_a_non_square_shape_has_ones_on_the_diagonal() {
    let i = Matrix::<i64, 2, 3>::identity();
    assert_eq!(i, Matrix::new([[1, 0, 0], [0, 1, 0]]));
}

#[test]
fn len_counts_the_entries() {
    assert_eq!(Matrix::<i64, 3, 4>::zeros().len(), 12);
    assert_eq!(Matrix::<i64, 0, 4>::zeros().len(), 0);
}

#[test]
fn determinants() {
    let a = Matrix::<i64, 2, 2>::new([[3, 8], [4, 6]]);
    assert_eq!(a.determinant_2x2(), -14);
    let b = Matrix::<i64, 3, 3>::new([[6, 1, 1], [4, -2, 5], [2, 8, 7]]);
    assert_eq!(b.determinant_3x3(), -306);
}

#[test]
fn lu_reconstructs_the_permuted_matrix() {
    let a = Matrix::<i64, 3, 3>::new([[4, 1, 1], [4, 1, 6], [-4, 2, 6]]);
    let d = a.lu_decomposition().unwrap();
    assert_eq!(d.p * a, d.l * d.u);
    assert_eq!(d.p, Matrix::new([[1, 0, 0], [0, 0, 1], [0, 1, 0]]));
    assert_eq!(d.l, Matrix::new([[1, 0, 0], [-1, 1, 0], [1, 0, 1]]));
    assert_eq!(d.u, Matrix::new([[4, 1, 1], [0, 3, 7], [0, 0, 5]]));
    for i in 0..3 {
        assert_eq!(d.l.elements[i][i], 1);
        assert!(d.l.elements[i].iter().all(|x| x.abs() <= 1));
        for j in 0..3 {
            if j > i {
                assert_eq!(d.l.elements[i][j], 0);
            }
            if j < i {
                assert_eq!(d.u.elements[i][j], 0);
            }
        }
    }
}

#[test]
fn lu_pivots_on_the_largest_entry() {
    let a = Matrix::<i64, 2, 2>::new([[0, 2], [-3, 4]]);
    let d = a.lu_decomposition().unwrap();
    assert_eq!(d.p, Matrix::new([[0, 1], [1, 0]]));
    assert_eq!(d.u.elements[0], [-3, 4]);
    assert_eq!(d.p * a, d.l * d.u);
}

#[test]
fn lu_keeps_row_order_on_a_tie_for_pivot() {
    let a = Matrix::<i64, 2, 2>::new([[8, 6], [8, 3]]);
    let d = a.lu_decomposition().unwrap();
    assert_eq!(d.p, Matrix::identity());
    assert_eq!(d.l, Matrix::new([[1, 0], [1, 1]]));
    assert_eq!(d.u, Matrix::new([[8, 6], [0, -3]]));
}

#[test]
fn lu_passes_over_a_zero_column() {
    let a = Matrix::<i64, 3, 3>::new([[0, 1, 2], [0, 3, 4], [0, -3, 5]]);
    let d = a.lu_decomposition().unwrap();
    assert_eq!(d.p * a, d.l * d.u);
    assert_eq!(d.u, Matrix::new([[0, 1, 2], [0, 3, 4], [0, 0, 9]]));
}

#[test]
fn lu_is_absent_when_a_division_is_inexact() {
    let a = Matrix::<i64, 2, 2>::new([[2, 1], [1, 1]]);
    assert!(a.lu_decomposition().is_none());
}

#[test]
fn lu_is_absent_on_overflow() {
    let a = Matrix::<i64, 2, 2>::new([[1, i64::MAX], [-1, i64::MAX]]);
    assert!(a.lu_decomposition().is_none());
}

#[test]
fn lu_of_an_empty_matrix() {
    let a = Matrix::<i64, 0, 0>::new([]);
    let d = a.lu_decomposition().unwrap();
    assert_eq!(d.l, a);
}

#[test]
fn plain_vectors() {
    let v = Vector::<i64, 3>::new([1, -2, 3]);
    let w = Vector::<i64, 3>::new([4, 0, -1]);
    assert_eq!(v + w, Vector::new([5, -2, 2]));
    assert_eq!(v - w, Vector::new([-3, -2, 4]));
    assert_eq!(v * 2, Vector::new([2, -4, 6]));
    assert_eq!(Scalar::from(3) * v, Vector::new([3, -6, 9]));
    assert_eq!(Vector::<i64, 4>::zeros(), Vector::new([0, 0, 0, 0]));
    assert_eq!(Vector::<i64, 2>::ones(), Vector::new([1, 1]));
    assert_eq!(Vector::<i64, 2>::filled(7), Vector::new([7, 7]));
    assert_eq!(v.len(), 3);
}

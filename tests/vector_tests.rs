use numbrs::{ColumnVector, Matrix, RowVector};

#[test]
fn test_vector_macro() {
    let v = RowVector::new(Matrix::new([[1.0, 2.0, 3.0]]));
    assert_eq!(v.0, Matrix::new([[1.0, 2.0, 3.0]]));

    let v = ColumnVector::new(Matrix::new([[1.0], [2.0], [3.0]]));
    assert_eq!(v.0, Matrix::new([[1.0], [2.0], [3.0]]));

    let empty = RowVector::new(Matrix::<i32, 1, 0>::new([[]]));
    assert_eq!(empty.0, Matrix::new([[]]));

    let int = RowVector::new(Matrix::new([[1, 2, 3]]));
    assert_eq!(int.0, Matrix::new([[1, 2, 3]]));

    let zeros = RowVector::new(Matrix::<i64, 1, 3>::filled(0));
    assert_eq!(zeros.0, Matrix::new([[0, 0, 0]]));

    let zeros_float = ColumnVector::new(Matrix::<f64, 2, 1>::filled(0.0));
    assert_eq!(zeros_float.0, Matrix::new([[0.0], [0.0]]));

    let ones = RowVector::new(Matrix::<i64, 1, 5>::filled(1));
    assert_eq!(ones.0, Matrix::new([[1, 1, 1, 1, 1]]));

    let ones_float = RowVector::new(Matrix::<f64, 1, 5>::filled(1.0));
    assert_eq!(ones_float.0, Matrix::new([[1.0, 1.0, 1.0, 1.0, 1.0]]));

    let filled = RowVector::new(Matrix::<f64, 1, 4>::filled(5.0));
    assert_eq!(filled.0, Matrix::new([[5.0, 5.0, 5.0, 5.0]]));

    let filled_int = RowVector::new(Matrix::<i64, 1, 4>::filled(5));
    assert_eq!(filled_int.0, Matrix::new([[5, 5, 5, 5]]));
}

fn row<const N: usize>(values: [i64; N]) -> RowVector<i64, N> {
    RowVector::new(Matrix::new([values]))
}

#[test]
fn test_vector_add() {
    let v1 = row([1, 2, 3]);
    let v2 = row([4, 5, 6]);
    let v3 = v1 + v2;
    let expected = row([5, 7, 9]);
    assert_eq!(v3, expected);

    let v1 = row([2, 5, -1]);
    let v2 = row([1, -1, 2]);
    let v3 = v1 + v2;
    assert_eq!(v3, row([3, 4, 1]));

    let v1 = row([1, 2]);
    let v2 = row([3, 1]);
    let v3 = row([2, -1]);
    let result = v1 + v2 + v3;
    assert_eq!(result, row([6, 2]));
}

#[test]
fn test_vector_sub() {
    let v1 = row([1, 2, 3]);
    let v2 = row([4, 5, 6]);
    let v3 = v1 - v2;
    assert_eq!(v3, row([-3, -3, -3]));
}

#[test]
fn test_vector_mul() {
    let v1 = row([1, 2, 3]);
    let v2 = v1.clone() * 2;
    assert_eq!(v2, row([2, 4, 6]));

    let v3 = v1.clone() * 5;
    assert_eq!(v3, row([5, 10, 15]));
}

#[test]
fn test_vector_operators() {
    let v1 = row([2, 1, -1]);
    let v2 = row([-1, 0, 3]);
    let result = v1 * 3 - v2 * 2;
    assert_eq!(result, row([8, 3, -9]));

    let v1 = row([0, 0, 2]);
    let v2 = row([-1, 2, 1]);
    let v3 = row([1, 2, 0]);
    let v4 = row([3, 2, -1]);
    let result = v1 + v2;
    assert_eq!(result, row([-1, 2, 3]));
    let result = v1 + v2 + v3;
    assert_eq!(result, row([0, 4, 3]));
    let result = v4 - v3 * 2;
    assert_eq!(result, row([1, -2, -1]));
    let result = v1 + v2 * 2 + v3 * 2 + v4 * 2;
    assert_eq!(result, row([6, 12, 2]));
    let result = v1 + v4;
    assert_eq!(result, row([3, 2, 1]));
    let result = v2 * 4 + v2 * 3 - (v2 * 2 + v2 * 6);
    assert_eq!(result, row([1, -2, -1]));
    let result = v3 * 4 - v2 * 2;
    assert_eq!(result, row([6, 4, -2]));
}

#[test]
fn test_vector_dot() {
    let v1 = row([1, 2, 3]);
    let v2 = ColumnVector::new(Matrix::<i64, 3, 1>::new([[4], [5], [6]]));
    let dot = v1 * v2;
    assert_eq!(dot, 32);
}
